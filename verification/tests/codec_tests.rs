use futuresdr::codec::decode_pmt;
use futuresdr::codec::encode_pmt;
use futuresdr::pmt::Pmt;

fn round_trip(p: Pmt) {
    let mut bytes: Vec<u8> = Vec::new();
    encode_pmt(&p, &mut bytes);
    let (q, end) = decode_pmt(&bytes, 0).expect("decodable");
    assert_eq!(end, bytes.len());
    assert_eq!(q, p);
}

#[test]
fn codec_round_trips_scalars() {
    round_trip(Pmt::Okay);
    round_trip(Pmt::InvalidValue);
    round_trip(Pmt::Null);
    round_trip(Pmt::Finished);
    round_trip(Pmt::Bool(true));
    round_trip(Pmt::Bool(false));
    round_trip(Pmt::Usize(123456));
    round_trip(Pmt::U32(0xdead_beef));
    round_trip(Pmt::U64(0x0123_4567_89ab_cdef));
    round_trip(Pmt::F32(1.5f32.to_bits()));
    round_trip(Pmt::F64(f64::NAN.to_bits()));
}

#[test]
fn codec_round_trips_strings() {
    round_trip(Pmt::Str(String::from("")));
    round_trip(Pmt::Str(String::from("hello world")));
    round_trip(Pmt::Str(String::from("smörgåsbord")));
}

#[test]
fn codec_round_trips_vectors() {
    round_trip(Pmt::VecF32(vec![0.5f32.to_bits(), (-2.0f32).to_bits()]));
    round_trip(Pmt::VecU64(vec![1, 2, 3, u64::MAX]));
    round_trip(Pmt::Blob(vec![0, 1, 2, 255]));
    round_trip(Pmt::VecPmt(vec![Pmt::U32(1), Pmt::Str(String::from("x")), Pmt::Null]));
}

#[test]
fn codec_round_trips_maps() {
    round_trip(Pmt::MapStrPmt(vec![
        (String::from("a"), Pmt::U32(1)),
        (String::from("b"), Pmt::VecPmt(vec![Pmt::Bool(true)])),
        (String::from("nested"), Pmt::MapStrPmt(vec![(String::from("k"), Pmt::Null)])),
    ]));
    round_trip(Pmt::MapStrPmt(Vec::new()));
}

#[test]
fn decoder_rejects_garbage() {
    assert!(decode_pmt(&vec![], 0).is_none());
    assert!(decode_pmt(&vec![200], 0).is_none());
    // string claiming two characters with only one present
    let mut bytes: Vec<u8> = vec![3];
    bytes.extend_from_slice(&2u64.to_le_bytes());
    bytes.extend_from_slice(&('a' as u32).to_le_bytes());
    assert!(decode_pmt(&bytes, 0).is_none());
    // an invalid scalar value is not a character
    let mut bad: Vec<u8> = vec![3];
    bad.extend_from_slice(&1u64.to_le_bytes());
    bad.extend_from_slice(&0xD800u32.to_le_bytes());
    assert!(decode_pmt(&bad, 0).is_none());
}

#[test]
fn encoding_is_a_tagged_format() {
    let mut bytes: Vec<u8> = Vec::new();
    encode_pmt(&Pmt::U32(7), &mut bytes);
    assert_eq!(bytes, vec![6, 7, 0, 0, 0]);
    let mut b2: Vec<u8> = Vec::new();
    encode_pmt(&Pmt::Bool(true), &mut b2);
    assert_eq!(b2, vec![4, 1]);
}
