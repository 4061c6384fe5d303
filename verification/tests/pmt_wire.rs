use flowrt::pmt::Pmt;
use flowrt::pmt::pmt_eq;
use flowrt::wire::decode_pmt;
use flowrt::wire::encode_pmt;

fn round_trips(v: Pmt) {
    let bytes = encode_pmt(&v);
    let back = decode_pmt(&bytes).expect("an encoding must decode");
    assert!(pmt_eq(&v, &back));
}

#[test]
fn round_trip_null() {
    round_trips(Pmt::Null);
}

#[test]
fn round_trip_okay() {
    round_trips(Pmt::Okay);
}

#[test]
fn round_trip_bool() {
    round_trips(Pmt::Bool(true));
    round_trips(Pmt::Bool(false));
}

#[test]
fn round_trip_u32() {
    round_trips(Pmt::U32(0));
    round_trips(Pmt::U32(0xDEAD_BEEF));
    round_trips(Pmt::U32(u32::MAX));
}

#[test]
fn round_trip_u64() {
    round_trips(Pmt::U64(42));
    round_trips(Pmt::U64(u64::MAX));
}

#[test]
fn round_trip_f32_bits() {
    round_trips(Pmt::F32(1.5f32.to_bits()));
    round_trips(Pmt::F32((-0.0f32).to_bits()));
    round_trips(Pmt::F32(f32::NAN.to_bits()));
}

#[test]
fn round_trip_f64_bits() {
    round_trips(Pmt::F64(2.25f64.to_bits()));
    round_trips(Pmt::F64(f64::INFINITY.to_bits()));
}

#[test]
fn round_trip_text() {
    round_trips(Pmt::Text(String::new()));
    round_trips(Pmt::Text("hello".to_string()));
    round_trips(Pmt::Text("snowman \u{2603} and \u{1F980}".to_string()));
}

#[test]
fn round_trip_blob() {
    round_trips(Pmt::Blob(Vec::new()));
    round_trips(Pmt::Blob(vec![0u8, 1, 2, 255, 128]));
}

#[test]
fn round_trip_any_handle() {
    round_trips(Pmt::Any(77));
}

#[test]
fn round_trip_list() {
    round_trips(Pmt::List(Vec::new()));
    round_trips(Pmt::List(vec![
        Pmt::Null,
        Pmt::U32(9),
        Pmt::Text("x".to_string()),
        Pmt::List(vec![Pmt::Bool(true), Pmt::Blob(vec![7u8])]),
    ]));
}

#[test]
fn u32_encoding_is_tag_then_little_endian() {
    let bytes = encode_pmt(&Pmt::U32(0x0102_0304));
    assert_eq!(bytes, vec![3u8, 0x04, 0x03, 0x02, 0x01]);
}

#[test]
fn null_encoding_is_one_tag_byte() {
    assert_eq!(encode_pmt(&Pmt::Null), vec![0u8]);
    assert_eq!(encode_pmt(&Pmt::Okay), vec![1u8]);
}

#[test]
fn decode_rejects_empty_input() {
    assert!(decode_pmt(&Vec::new()).is_none());
}

#[test]
fn decode_rejects_unknown_tag() {
    assert!(decode_pmt(&vec![11u8]).is_none());
    assert!(decode_pmt(&vec![250u8, 0, 0]).is_none());
}

#[test]
fn decode_rejects_truncated_payload() {
    assert!(decode_pmt(&vec![3u8, 1, 2]).is_none());
    assert!(decode_pmt(&vec![4u8, 1, 2, 3, 4, 5, 6, 7]).is_none());
    let mut text = encode_pmt(&Pmt::Text("abc".to_string()));
    text.pop();
    assert!(decode_pmt(&text).is_none());
}

#[test]
fn decode_rejects_trailing_bytes() {
    let mut bytes = encode_pmt(&Pmt::U64(5));
    bytes.push(0);
    assert!(decode_pmt(&bytes).is_none());
}

#[test]
fn decode_rejects_bad_bool_payload() {
    assert!(decode_pmt(&vec![2u8, 2]).is_none());
    let some = decode_pmt(&vec![2u8, 1]).expect("a one-byte true payload decodes");
    assert!(pmt_eq(&some, &Pmt::Bool(true)));
}

#[test]
fn decode_rejects_surrogate_character() {
    // A text of one character whose scalar value is a surrogate.
    let bytes = vec![7u8, 1, 0, 0, 0, 0, 0, 0, 0, 0x00, 0xD8, 0, 0];
    assert!(decode_pmt(&bytes).is_none());
}

#[test]
fn equality_compares_tag_then_payload() {
    assert!(pmt_eq(&Pmt::U32(5), &Pmt::U32(5)));
    assert!(!pmt_eq(&Pmt::U32(5), &Pmt::U32(6)));
    assert!(!pmt_eq(&Pmt::U32(5), &Pmt::U64(5)));
    assert!(!pmt_eq(&Pmt::Null, &Pmt::Okay));
    assert!(pmt_eq(
        &Pmt::List(vec![Pmt::Text("a".to_string())]),
        &Pmt::List(vec![Pmt::Text("a".to_string())]),
    ));
    assert!(!pmt_eq(
        &Pmt::List(vec![Pmt::Text("a".to_string())]),
        &Pmt::List(vec![Pmt::Text("b".to_string())]),
    ));
    assert!(!pmt_eq(&Pmt::List(vec![Pmt::Null]), &Pmt::List(vec![Pmt::Null, Pmt::Null])));
}

#[test]
fn clone_is_deep() {
    let v = Pmt::List(vec![Pmt::Blob(vec![1u8, 2]), Pmt::Text("t".to_string())]);
    let c = v.clone();
    assert!(pmt_eq(&v, &c));
}
