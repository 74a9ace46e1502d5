use model_loading::manifest::{
    default_shard_name, index_shard_names, listed_shard_names, model_filenames, sorted_distinct,
    ManifestError,
    DEFAULT_SHARD, INDEX_FILE, RUNTIME_SHARD, WEIGHT_MAP_KEY,
};

fn strings(names: &[&str]) -> Vec<String> {
    names.iter().map(|s| s.to_string()).collect()
}

#[test]
fn well_known_names() {
    assert_eq!(INDEX_FILE, "model.safetensors.index.json");
    assert_eq!(WEIGHT_MAP_KEY, "weight_map");
    assert_eq!(DEFAULT_SHARD, "model.safetensors");
    assert_eq!(RUNTIME_SHARD, "model.safetensors-rust");
}

#[test]
fn sorting_drops_repeats() {
    let names = strings(&["b", "a", "b", "c", "a", "a"]);
    assert_eq!(sorted_distinct(&names), strings(&["a", "b", "c"]));
    assert_eq!(sorted_distinct(&Vec::new()), Vec::<String>::new());
    assert_eq!(sorted_distinct(&strings(&["x"])), strings(&["x"]));
}

#[test]
fn sorting_agrees_with_the_order_of_strings() {
    let names = strings(&[
        "model-00010-of-00012.safetensors",
        "model-00002-of-00012.safetensors",
        "Model.safetensors",
        "model-00002-of-00012.safetensors",
        "",
        "modèle.safetensors",
        "model",
    ]);
    let mut expected = names.clone();
    expected.sort();
    expected.dedup();
    assert_eq!(sorted_distinct(&names), expected);
}

#[test]
fn sorting_does_not_depend_on_the_order_given() {
    let one = strings(&["s3", "s1", "s2", "s1"]);
    let two = strings(&["s1", "s2", "s2", "s3", "s3"]);
    assert_eq!(sorted_distinct(&one), sorted_distinct(&two));
}

#[test]
fn index_lists_one_shard_per_parameter() {
    let index = br#"{"metadata": {"total_size": 10},
        "weight_map": {"b.weight": "model-00002.safetensors", "a.weight": "model-00001.safetensors",
                       "c.weight": "model-00002.safetensors"}}"#;
    let names = index_shard_names(index).unwrap();
    assert_eq!(names.len(), 3);
    assert_eq!(
        model_filenames(Some(index), true, true).unwrap(),
        strings(&["model-00001.safetensors", "model-00002.safetensors"])
    );
}

#[test]
fn empty_weight_map_gives_no_shards() {
    let index = br#"{"weight_map": {}}"#;
    assert_eq!(model_filenames(Some(index), false, false).unwrap(), Vec::<String>::new());
}

#[test]
fn unparsable_index_is_an_error() {
    let r = model_filenames(Some(b"{\"weight_map\": "), false, false);
    assert!(matches!(r, Err(ManifestError::InvalidIndex(_))));
    let r = index_shard_names(b"");
    assert!(matches!(r, Err(ManifestError::InvalidIndex(_))));
}

#[test]
fn index_without_weight_map_is_an_error() {
    let r = model_filenames(Some(br#"{"metadata": {}}"#), false, false);
    assert!(matches!(r, Err(ManifestError::NoWeightMap)));
    let r = model_filenames(Some(br#"{"weight_map": ["a", "b"]}"#), false, false);
    assert!(matches!(r, Err(ManifestError::NoWeightMap)));
    let r = model_filenames(Some(br#"[1, 2]"#), false, false);
    assert!(matches!(r, Err(ManifestError::NoWeightMap)));
}

#[test]
fn shard_name_that_is_no_string_is_an_error() {
    let r = model_filenames(Some(br#"{"weight_map": {"a": 3}}"#), false, false);
    assert!(matches!(r, Err(ManifestError::BadShardName { position: 0 })));
    let r = index_shard_names(br#"{"weight_map": {"a": null, "b": "s"}}"#);
    assert!(matches!(r, Err(ManifestError::BadShardName { .. })));
}

#[test]
fn without_index_there_is_one_shard() {
    assert_eq!(model_filenames(None, false, false).unwrap(), strings(&["model.safetensors"]));
    assert_eq!(model_filenames(None, false, true).unwrap(), strings(&["model.safetensors"]));
    assert_eq!(model_filenames(None, true, false).unwrap(), strings(&["model.safetensors"]));
    assert_eq!(
        model_filenames(None, true, true).unwrap(),
        strings(&["model.safetensors-rust"])
    );
    assert_eq!(default_shard_name(true, true), "model.safetensors-rust");
    assert_eq!(default_shard_name(false, true), "model.safetensors");
}

#[test]
fn listed_names_keep_their_order() {
    let values = vec![Some("b".to_string()), Some("a".to_string()), Some("b".to_string())];
    assert_eq!(listed_shard_names(&values).unwrap(), strings(&["b", "a", "b"]));
    assert_eq!(listed_shard_names(&Vec::new()).unwrap(), Vec::<String>::new());
}

#[test]
fn first_value_that_is_no_string_is_reported() {
    let values = vec![Some("a".to_string()), None, Some("b".to_string()), None];
    let r = listed_shard_names(&values);
    assert!(matches!(r, Err(ManifestError::BadShardName { position: 1 })));
}
