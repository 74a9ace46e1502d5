use model_loading::dtype::{checked_kind_from_dt, is_supported, kind_from_dt, Kind};
use safetensors::Dtype;

#[test]
fn every_supported_tag_has_its_kind() {
    let pairs = [
        (Dtype::BOOL, Kind::Bool),
        (Dtype::U8, Kind::Uint8),
        (Dtype::I8, Kind::Int8),
        (Dtype::I16, Kind::Int16),
        (Dtype::I32, Kind::Int),
        (Dtype::I64, Kind::Int64),
        (Dtype::BF16, Kind::BFloat16),
        (Dtype::F16, Kind::Half),
        (Dtype::F32, Kind::Float),
        (Dtype::F64, Kind::Double),
    ];
    for (tag, kind) in pairs {
        assert!(is_supported(tag));
        assert_eq!(checked_kind_from_dt(tag), Some(kind));
        assert_eq!(kind_from_dt(tag), kind);
    }
}

#[test]
fn other_tags_have_no_kind() {
    let tags = [
        Dtype::U16,
        Dtype::U32,
        Dtype::U64,
        Dtype::F8_E5M2,
        Dtype::F8_E4M3,
        Dtype::F4,
        Dtype::C64,
    ];
    for tag in tags {
        assert!(!is_supported(tag));
        assert_eq!(checked_kind_from_dt(tag), None);
    }
}
