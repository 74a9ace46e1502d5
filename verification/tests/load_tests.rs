use model_loading::dtype::Kind;
use model_loading::load::{apply_entries, finish, load_model, load_shard, LoadError};
use model_loading::shard::TensorEntry;
use model_loading::table::ParameterTable;
use safetensors::tensor::TensorView;
use safetensors::Dtype;

fn entry<'a>(name: &str, dtype: Dtype, shape: &[usize], data: &'a [u8]) -> TensorEntry<'a> {
    TensorEntry { name: name.to_string(), dtype, shape: shape.to_vec(), data }
}

fn table(kind: Kind, slots: &[(&str, &[usize])]) -> ParameterTable {
    let mut table = ParameterTable::new(kind);
    for (name, shape) in slots {
        table.declare(name.to_string(), shape.to_vec()).unwrap();
    }
    table
}

fn shard(tensors: &[(&str, Dtype, &[usize], &[u8])]) -> Vec<u8> {
    let views: Vec<(String, TensorView<'_>)> = tensors
        .iter()
        .map(|(name, dtype, shape, data)| {
            (name.to_string(), TensorView::new(*dtype, shape.to_vec(), data).unwrap())
        })
        .collect();
    safetensors::serialize(views, None).unwrap()
}

fn f32_bytes(values: &[f32]) -> Vec<u8> {
    values.iter().flat_map(|v| v.to_le_bytes()).collect()
}

#[test]
fn empty_shard_asks_for_no_copy() {
    let mut table = table(Kind::Float, &[("a", &[1])]);
    let bytes = shard(&[]);
    let outcome = load_shard(&mut table, &bytes).unwrap();
    assert!(outcome.copies.is_empty());
    assert!(outcome.unknown.is_empty());
    assert_eq!(table.len(), 1);
}

#[test]
fn bytes_that_are_no_container_are_refused() {
    let mut table = table(Kind::Float, &[("a", &[3])]);
    assert!(matches!(load_shard(&mut table, b""), Err(LoadError::Format(_))));
    assert!(matches!(
        load_shard(&mut table, b"not a container at all"),
        Err(LoadError::Format(_))
    ));
    let mut bytes = shard(&[("a", Dtype::U8, &[3], &[1, 2, 3])]);
    bytes.pop();
    assert!(matches!(load_shard(&mut table, &bytes), Err(LoadError::Format(_))));
    assert_eq!(table.len(), 1);
}

#[test]
fn entries_are_applied_in_order() {
    let mut table = table(Kind::Half, &[("a", &[2]), ("b", &[3]), ("c", &[1])]);
    let a = f32_bytes(&[1.0, 2.0]);
    let b = [1u8, 2, 3];
    let entries = vec![
        entry("b", Dtype::U8, &[3], &b),
        entry("x.inv_freq", Dtype::F32, &[2], &a),
        entry("stray", Dtype::U64, &[0], &[]),
        entry("a", Dtype::F32, &[1, 2], &a),
        entry("b", Dtype::U8, &[3], &b),
    ];
    let outcome = apply_entries(&mut table, &entries).unwrap();
    assert_eq!(outcome.copies.len(), 2);
    assert_eq!(outcome.copies[0].name, "b");
    assert_eq!(outcome.copies[0].source, Kind::Uint8);
    assert_eq!(outcome.copies[0].target, Kind::Half);
    assert_eq!(outcome.copies[0].shape, vec![3]);
    assert_eq!(outcome.copies[0].data, &b[..]);
    assert_eq!(outcome.copies[1].name, "a");
    assert_eq!(outcome.copies[1].source, Kind::Float);
    assert_eq!(outcome.copies[1].target, Kind::Half);
    assert_eq!(outcome.copies[1].shape, vec![1, 2]);
    assert_eq!(outcome.copies[1].data, &a[..]);
    assert_eq!(outcome.unknown, vec!["stray".to_string(), "b".to_string()]);
    assert_eq!(table.missing(), vec!["c".to_string()]);
}

#[test]
fn mismatch_reports_both_shapes_and_keeps_the_slot() {
    let mut table = table(Kind::Float, &[("a", &[2]), ("b", &[3, 3])]);
    let data = [0u8; 64];
    let entries = vec![
        entry("a", Dtype::F32, &[2], &data[..8]),
        entry("b", Dtype::F32, &[4, 4], &data),
        entry("never", Dtype::F32, &[1], &data[..4]),
    ];
    match apply_entries(&mut table, &entries) {
        Err(LoadError::ShapeMismatch { name, expected, found }) => {
            assert_eq!(name, "b");
            assert_eq!(expected, vec![3, 3]);
            assert_eq!(found, vec![4, 4]);
        },
        other => panic!("unexpected {other:?}"),
    }
    assert_eq!(table.missing(), vec!["b".to_string()]);
}

#[test]
fn unsupported_tag_names_the_tensor() {
    let mut table = table(Kind::Float, &[("a", &[2])]);
    let data = [0u8; 8];
    let entries = vec![entry("a", Dtype::U32, &[2], &data)];
    match apply_entries(&mut table, &entries) {
        Err(LoadError::UnsupportedDtype { name, dtype }) => {
            assert_eq!(name, "a");
            assert_eq!(dtype, Dtype::U32);
        },
        other => panic!("unexpected {other:?}"),
    }
    assert_eq!(table.len(), 1);
}

#[test]
fn derivable_buffer_gives_no_warning_and_no_failure() {
    let mut table = table(Kind::Float, &[("w", &[1])]);
    let data = f32_bytes(&[0.5]);
    let bytes = shard(&[
        ("w", Dtype::F32, &[1], &data),
        ("layers.0.rotary_emb.inv_freq", Dtype::F32, &[1], &data),
    ]);
    let outcome = load_model(&mut table, &[&bytes]).unwrap();
    assert_eq!(outcome.copies.len(), 1);
    assert_eq!(outcome.copies[0].name, "w");
    assert!(outcome.unknown.is_empty());
}

#[test]
fn finish_names_the_slots_that_are_left() {
    let mut table = table(Kind::Float, &[("a", &[2]), ("b", &[3]), ("c", &[4])]);
    let data = [0u8; 12];
    let entries = vec![entry("b", Dtype::F32, &[3], &data)];
    apply_entries(&mut table, &entries).unwrap();
    match finish(&table) {
        Err(LoadError::MissingParameters { names }) => {
            assert_eq!(names, vec!["a".to_string(), "c".to_string()]);
        },
        other => panic!("unexpected {other:?}"),
    }
    let entries = vec![entry("c", Dtype::F32, &[4], &[0; 16]), entry("a", Dtype::I8, &[2], &[0; 2])];
    apply_entries(&mut table, &entries).unwrap();
    assert!(finish(&table).is_ok());
}

#[test]
fn shard_bytes_fill_the_table() {
    let mut table = table(Kind::BFloat16, &[("a", &[2, 2]), ("b", &[3])]);
    let a = f32_bytes(&[1.0, 2.0, 3.0, 4.0]);
    let b = [7u8, 8, 9];
    let bytes = shard(&[("a", Dtype::F32, &[2, 2], &a), ("b", Dtype::U8, &[3], &b), ("c", Dtype::U8, &[1], &[1])]);
    let outcome = load_shard(&mut table, &bytes).unwrap();
    assert!(table.is_empty());
    assert_eq!(outcome.unknown, vec!["c".to_string()]);
    let mut copies = outcome.copies;
    copies.sort_by(|x, y| x.name.cmp(&y.name));
    assert_eq!(copies.len(), 2);
    assert_eq!(copies[0].name, "a");
    assert_eq!(copies[0].source, Kind::Float);
    assert_eq!(copies[0].target, Kind::BFloat16);
    assert_eq!(copies[0].shape, vec![2, 2]);
    assert_eq!(copies[0].data, &a[..]);
    assert_eq!(copies[1].name, "b");
    assert_eq!(copies[1].source, Kind::Uint8);
    assert_eq!(copies[1].data, &b[..]);
}

#[test]
fn unreadable_shard_leaves_the_table_alone() {
    let mut table = table(Kind::Float, &[("a", &[2])]);
    let r = load_shard(&mut table, b"\x08\x00\x00\x00\x00\x00\x00\x00garbage!");
    assert!(matches!(r, Err(LoadError::Format(_))));
    assert_eq!(table.missing(), vec!["a".to_string()]);
}

#[test]
fn complete_weights_empty_the_table() {
    let mut table = table(Kind::Float, &[("l0.w", &[2, 2]), ("l0.b", &[2]), ("l1.w", &[2, 2])]);
    let w = f32_bytes(&[1.0, 2.0, 3.0, 4.0]);
    let b = f32_bytes(&[5.0, 6.0]);
    let one = shard(&[("l0.w", Dtype::F32, &[2, 2], &w), ("l0.b", Dtype::F32, &[2], &b)]);
    let two = shard(&[("l1.w", Dtype::F32, &[4], &w)]);
    let outcome = load_model(&mut table, &[&one, &two]).unwrap();
    assert!(table.is_empty());
    assert_eq!(outcome.copies.len(), 3);
    assert_eq!(outcome.copies[2].name, "l1.w");
    assert!(outcome.unknown.is_empty());
}

#[test]
fn absent_parameter_is_the_only_one_reported() {
    let mut table = table(Kind::Float, &[("l0.w", &[2, 2]), ("l0.b", &[2]), ("l1.w", &[2, 2])]);
    let w = f32_bytes(&[1.0, 2.0, 3.0, 4.0]);
    let one = shard(&[("l0.w", Dtype::F32, &[2, 2], &w)]);
    let two = shard(&[("l1.w", Dtype::F32, &[2, 2], &w)]);
    match load_model(&mut table, &[&one, &two]) {
        Err(LoadError::MissingParameters { names }) => assert_eq!(names, vec!["l0.b".to_string()]),
        other => panic!("unexpected {other:?}"),
    }
}

#[test]
fn no_shards_and_no_slots_is_a_complete_load() {
    let mut table = ParameterTable::new(Kind::Float);
    let outcome = load_model(&mut table, &[]).unwrap();
    assert!(outcome.copies.is_empty());
    assert!(outcome.unknown.is_empty());
}

#[test]
fn unreadable_shard_ends_the_load() {
    let mut table = table(Kind::Float, &[("a", &[1]), ("b", &[1])]);
    let data = f32_bytes(&[1.0]);
    let one = shard(&[("a", Dtype::F32, &[1], &data)]);
    let three = shard(&[("b", Dtype::F32, &[1], &data)]);
    let r = load_model(&mut table, &[&one, b"junk", &three]);
    assert!(matches!(r, Err(LoadError::Format(_))));
    assert_eq!(table.missing(), vec!["b".to_string()]);
}

#[test]
fn mismatch_in_a_shard_ends_the_load() {
    let mut table = table(Kind::Float, &[("a", &[1]), ("b", &[1])]);
    let data = f32_bytes(&[1.0, 2.0]);
    let one = shard(&[("a", Dtype::F32, &[2], &data)]);
    let two = shard(&[("b", Dtype::F32, &[1], &data[..4])]);
    match load_model(&mut table, &[&one, &two]) {
        Err(LoadError::ShapeMismatch { name, expected, found }) => {
            assert_eq!(name, "a");
            assert_eq!(expected, vec![1]);
            assert_eq!(found, vec![2]);
        },
        other => panic!("unexpected {other:?}"),
    }
    assert_eq!(table.len(), 2);
}

struct ToyModel {
    params: Vec<(String, Vec<f32>)>,
    finalized: usize,
}

impl ToyModel {
    fn new() -> ToyModel {
        let names = ["layers.0.weight", "layers.0.bias", "layers.1.weight", "layers.1.bias"];
        let sizes = [4usize, 2, 4, 2];
        let params =
            names.iter().zip(sizes).map(|(n, len)| (n.to_string(), vec![0.0f32; len])).collect();
        ToyModel { params, finalized: 0 }
    }

    fn table(&self) -> ParameterTable {
        let mut table = ParameterTable::new(Kind::Float);
        for (name, values) in &self.params {
            let shape = if values.len() == 4 { vec![2, 2] } else { vec![2] };
            table.declare(name.clone(), shape).unwrap();
        }
        table
    }

    fn copy_in(&mut self, name: &str, data: &[u8]) {
        let slot = self.params.iter_mut().find(|(n, _)| n == name).unwrap();
        let values = data.chunks(4).map(|c| f32::from_le_bytes([c[0], c[1], c[2], c[3]]));
        slot.1 = values.collect();
    }

    fn finalize(&mut self) {
        self.finalized += 1;
    }
}

#[test]
fn two_shards_load_a_two_layer_model() {
    let w0 = [0.5f32, -1.0, 2.25, 8.0];
    let b0 = [0.125f32, 3.0];
    let w1 = [9.0f32, 10.0, 11.0, -12.5];
    let b1 = [f32::MIN_POSITIVE, f32::MAX];
    let (w0b, b0b, w1b, b1b) = (f32_bytes(&w0), f32_bytes(&b0), f32_bytes(&w1), f32_bytes(&b1));
    let one = shard(&[
        ("layers.0.weight", Dtype::F32, &[2, 2], &w0b),
        ("layers.0.bias", Dtype::F32, &[2], &b0b),
    ]);
    let two = shard(&[
        ("layers.1.weight", Dtype::F32, &[2, 2], &w1b),
        ("layers.1.bias", Dtype::F32, &[2], &b1b),
    ]);
    let mut model = ToyModel::new();
    let mut table = model.table();
    let outcome = load_model(&mut table, &[&one, &two]).unwrap();
    for op in &outcome.copies {
        assert_eq!(op.source, Kind::Float);
        assert_eq!(op.target, Kind::Float);
        model.copy_in(&op.name, op.data);
    }
    model.finalize();
    assert!(table.is_empty());
    assert!(outcome.unknown.is_empty());
    assert_eq!(outcome.copies.len(), 4);
    assert_eq!(model.finalized, 1);
    assert_eq!(model.params[0], ("layers.0.weight".to_string(), w0.to_vec()));
    assert_eq!(model.params[1], ("layers.0.bias".to_string(), b0.to_vec()));
    assert_eq!(model.params[2], ("layers.1.weight".to_string(), w1.to_vec()));
    assert_eq!(model.params[3], ("layers.1.bias".to_string(), b1.to_vec()));
}
