use model_loading::names::{ends_with, name_le_exec};

#[test]
fn suffixes() {
    assert!(ends_with("model.layers.0.rotary_emb.inv_freq", ".inv_freq"));
    assert!(ends_with(".inv_freq", ".inv_freq"));
    assert!(ends_with("anything", ""));
    assert!(!ends_with("inv_freq", ".inv_freq"));
    assert!(!ends_with("model.inv_freq.weight", ".inv_freq"));
    assert!(!ends_with("", "x"));
    assert!(ends_with("poids.é", ".é"));
    assert!(!ends_with("poids.e", ".é"));
}

#[test]
fn names_order_like_strings() {
    let names = ["", "a", "ab", "b", "B", "model-00001", "model-00010", "é", "z", "日本"];
    for a in names {
        for b in names {
            assert_eq!(name_le_exec(a, b), a <= b, "{a:?} <= {b:?}");
        }
    }
}
