use kv_collections::frame::Fault;
use kv_collections::keys::TypeTag;
use kv_collections::meta::Metadata;

fn record(version: u64, size: u64, tag: TypeTag) -> Metadata {
    Metadata { version, size, tag, expire_at: None }
}

#[test]
fn record_encodes_tag_version_size() {
    let raw = record(1, 2, TypeTag::Hash).encode();
    assert_eq!(raw, vec![104u8, 0, 0, 0, 0, 0, 0, 0, 1, 0, 0, 0, 0, 0, 0, 0, 2]);
}

#[test]
fn record_with_expiry_is_eight_bytes_longer() {
    let m = Metadata { version: 0, size: 1, tag: TypeTag::List, expire_at: Some(0x0102) };
    let raw = m.encode();
    assert_eq!(raw.len(), 25);
    assert_eq!(&raw[17..], &[0u8, 0, 0, 0, 0, 0, 1, 2]);
    assert_eq!(Metadata::decode(&raw), Some(m));
}

#[test]
fn record_roundtrip() {
    let m = record(u64::MAX, 12345, TypeTag::PlainSet);
    assert_eq!(Metadata::decode(&m.encode()), Some(m));
}

#[test]
fn decode_refuses_what_is_no_record() {
    assert_eq!(Metadata::decode(b""), None);
    assert_eq!(Metadata::decode(&[104u8; 16]), None);
    assert_eq!(Metadata::decode(&[104u8; 18]), None);
    assert_eq!(Metadata::decode(&[0u8; 17]), None);
}

#[test]
fn load_tells_absent_from_malformed() {
    assert_eq!(Metadata::load(&None), Ok(None));
    let m = record(3, 1, TypeTag::Hash);
    assert_eq!(Metadata::load(&Some(m.encode())), Ok(Some(m)));
    assert_eq!(Metadata::load(&Some(vec![1, 2, 3])), Err(Fault::Internal));
}

#[test]
fn create_starts_at_version_zero() {
    assert_eq!(Metadata::create_or_bump(None, TypeTag::Hash), Ok(record(0, 0, TypeTag::Hash)));
}

#[test]
fn create_keeps_a_live_record_of_the_same_type() {
    let m = Metadata { version: 4, size: 2, tag: TypeTag::List, expire_at: Some(9) };
    assert_eq!(Metadata::create_or_bump(Some(m), TypeTag::List), Ok(m));
}

#[test]
fn create_refuses_a_live_record_of_another_type() {
    let m = record(4, 2, TypeTag::List);
    assert_eq!(Metadata::create_or_bump(Some(m), TypeTag::Hash), Err(Fault::WrongType));
}

#[test]
fn create_bumps_the_version_of_a_tombstone() {
    let tombstone = Metadata { version: 4, size: 0, tag: TypeTag::List, expire_at: Some(9) };
    assert_eq!(
        Metadata::create_or_bump(Some(tombstone), TypeTag::Hash),
        Ok(record(5, 0, TypeTag::Hash))
    );
}

#[test]
fn create_fails_when_versions_run_out() {
    let tombstone = record(u64::MAX, 0, TypeTag::Hash);
    assert_eq!(Metadata::create_or_bump(Some(tombstone), TypeTag::Hash), Err(Fault::Internal));
}

#[test]
fn touch_size_moves_the_count() {
    let m = record(1, 5, TypeTag::Hash);
    assert_eq!(m.touch_size(3), Ok(record(1, 8, TypeTag::Hash)));
    assert_eq!(m.touch_size(-5), Ok(record(1, 0, TypeTag::Hash)));
    assert_eq!(m.touch_size(0), Ok(m));
}

#[test]
fn touch_size_refuses_to_leave_the_range() {
    assert_eq!(record(1, 5, TypeTag::Hash).touch_size(-6), Err(Fault::Internal));
    assert_eq!(record(1, u64::MAX, TypeTag::Hash).touch_size(1), Err(Fault::Internal));
    assert_eq!(record(1, 0, TypeTag::Hash).touch_size(i64::MIN), Err(Fault::Internal));
    assert_eq!(
        record(1, u64::MAX, TypeTag::Hash).touch_size(i64::MIN),
        Ok(record(1, u64::MAX - (1u64 << 63), TypeTag::Hash))
    );
}

#[test]
fn liveness_is_a_positive_count() {
    assert!(record(0, 1, TypeTag::Hash).is_live());
    assert!(!record(7, 0, TypeTag::Hash).is_live());
}
