use kv_collections::keys::{
    decode_data, decode_index, decode_meta, encode_data, encode_index, encode_meta, encode_prefix,
    DataKey, TypeTag,
};
use kv_collections::octets::{
    append, append_be64, bytes_eq, copy_range, prefix_end, read_be64, starts_with, tail_from, to_vec,
};

#[test]
fn meta_key_is_prefix_byte_then_user_key() {
    assert_eq!(encode_meta(b"h1"), vec![109u8, b'h', b'1']);
    assert_eq!(encode_meta(b""), vec![109u8]);
}

#[test]
fn data_key_spells_out_all_parts() {
    let sk = encode_data(TypeTag::Hash, b"h1", 0, b"f");
    let mut expected = vec![100u8, 104, 0, 0, 0, 0, 0, 0, 0, 2, b'h', b'1'];
    expected.extend_from_slice(&[0u8; 8]);
    expected.push(b'f');
    assert_eq!(sk, expected);
}

#[test]
fn data_key_embeds_version_big_endian() {
    let sk = encode_data(TypeTag::PlainSet, b"s", 0x0102_0304_0506_0708, b"");
    assert_eq!(
        sk,
        vec![100u8, 83, 0, 0, 0, 0, 0, 0, 0, 1, b's', 1, 2, 3, 4, 5, 6, 7, 8]
    );
}

#[test]
fn prefix_is_data_key_without_discriminator() {
    let prefix = encode_prefix(TypeTag::List, b"k", 7);
    let sk = encode_data(TypeTag::List, b"k", 7, &encode_index(3));
    assert_eq!(prefix.len(), 19);
    assert!(starts_with(&sk, &prefix));
    assert_eq!(&sk[19..], &[0u8, 0, 0, 0, 0, 0, 0, 3]);
}

#[test]
fn decode_data_gives_back_the_parts() {
    let sk = encode_data(TypeTag::Hash, b"user:1", 42, b"name");
    assert_eq!(
        decode_data(&sk),
        Some(DataKey {
            tag: TypeTag::Hash,
            key: b"user:1".to_vec(),
            version: 42,
            disc: b"name".to_vec(),
        })
    );
}

#[test]
fn decode_data_refuses_malformed_keys() {
    assert_eq!(decode_data(b""), None);
    assert_eq!(decode_data(&encode_meta(b"h1")), None);
    let mut short = encode_data(TypeTag::Hash, b"abc", 1, b"");
    short.pop();
    assert_eq!(decode_data(&short), None);
    let mut bad_tag = encode_data(TypeTag::Hash, b"abc", 1, b"x");
    bad_tag[1] = 1;
    assert_eq!(decode_data(&bad_tag), None);
    let mut long_len = encode_data(TypeTag::Hash, b"abc", 1, b"x");
    long_len[9] = 200;
    assert_eq!(decode_data(&long_len), None);
}

#[test]
fn decode_meta_gives_back_the_user_key() {
    assert_eq!(decode_meta(&encode_meta(b"h1")), Some(b"h1".to_vec()));
    assert_eq!(decode_meta(b""), None);
    assert_eq!(decode_meta(&encode_data(TypeTag::Hash, b"h1", 0, b"f")), None);
}

#[test]
fn distinct_collections_never_share_a_key() {
    let a = encode_data(TypeTag::Hash, b"ab", 0, b"c");
    let b = encode_data(TypeTag::Hash, b"a", 0, b"bc");
    let c = encode_data(TypeTag::PlainSet, b"ab", 0, b"c");
    let d = encode_data(TypeTag::Hash, b"ab", 1, b"c");
    assert_ne!(a, b);
    assert_ne!(a, c);
    assert_ne!(a, d);
    assert_ne!(a, encode_meta(b"ab"));
}

#[test]
fn list_keys_sort_by_position() {
    let positions: [u64; 6] = [0, 1, 255, 256, 65_536, u64::MAX];
    for w in positions.windows(2) {
        let lo = encode_data(TypeTag::List, b"l", 3, &encode_index(w[0]));
        let hi = encode_data(TypeTag::List, b"l", 3, &encode_index(w[1]));
        assert!(lo < hi);
    }
}

#[test]
fn index_roundtrip_and_width() {
    assert_eq!(encode_index(258), vec![0u8, 0, 0, 0, 0, 0, 1, 2]);
    assert_eq!(decode_index(&encode_index(258)), Some(258));
    assert_eq!(decode_index(&encode_index(u64::MAX)), Some(u64::MAX));
    assert_eq!(decode_index(b"1234567"), None);
    assert_eq!(decode_index(b"123456789"), None);
}

#[test]
fn type_tags_roundtrip_through_bytes() {
    for tag in [TypeTag::Str, TypeTag::Hash, TypeTag::List, TypeTag::PlainSet, TypeTag::SortedSet] {
        assert_eq!(TypeTag::from_byte(tag.to_byte()), Some(tag));
    }
    assert_eq!(TypeTag::Hash.to_byte(), b'h');
    assert_eq!(TypeTag::from_byte(0), None);
    assert!(TypeTag::Hash.is_keyed());
    assert!(TypeTag::PlainSet.is_keyed());
    assert!(!TypeTag::List.is_keyed());
    assert!(!TypeTag::Str.is_keyed());
}

#[test]
fn big_endian_read_and_append() {
    let mut out = vec![9u8];
    append_be64(&mut out, 0x0102_0304_0506_0708);
    assert_eq!(out, vec![9u8, 1, 2, 3, 4, 5, 6, 7, 8]);
    assert_eq!(read_be64(&out, 1), 0x0102_0304_0506_0708);
    let mut max = Vec::new();
    append_be64(&mut max, u64::MAX);
    assert_eq!(max, vec![255u8; 8]);
    assert_eq!(read_be64(&max, 0), u64::MAX);
}

#[test]
fn byte_string_helpers() {
    assert!(bytes_eq(b"abc", b"abc"));
    assert!(!bytes_eq(b"abc", b"abd"));
    assert!(!bytes_eq(b"abc", b"ab"));
    assert!(starts_with(b"abc", b""));
    assert!(starts_with(b"abc", b"ab"));
    assert!(!starts_with(b"abc", b"b"));
    assert!(!starts_with(b"ab", b"abc"));
    assert_eq!(to_vec(b"xyz"), b"xyz".to_vec());
    assert_eq!(tail_from(b"xyz", 1), b"yz".to_vec());
    assert_eq!(tail_from(b"xyz", 3), Vec::<u8>::new());
    assert_eq!(copy_range(b"hello", 1, 3), b"el".to_vec());
    let mut v = b"ab".to_vec();
    append(&mut v, b"cd");
    assert_eq!(v, b"abcd".to_vec());
}

#[test]
fn prefix_end_is_the_prefix_with_its_last_byte_raised() {
    assert_eq!(prefix_end(b"ab"), Some(b"ac".to_vec()));
    assert_eq!(prefix_end(&[1, 255, 255]), Some(vec![2]));
    assert_eq!(prefix_end(&[1, 2, 255]), Some(vec![1, 3]));
    assert_eq!(prefix_end(&[255, 255]), None);
    assert_eq!(prefix_end(b""), None);
    let prefix = encode_prefix(TypeTag::Hash, b"h", u64::MAX);
    let end = prefix_end(&prefix).unwrap();
    let inside = encode_data(TypeTag::Hash, b"h", u64::MAX, &[255, 255]);
    assert!(prefix <= inside && inside < end);
    assert!(encode_data(TypeTag::Hash, b"i", 0, b"") >= end);
}
