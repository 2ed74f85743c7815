use ssb_clmr::endian::u64_be_bytes;
use ssb_clmr::{
    to_clmr, to_clmr_string, to_clmr_vec, BoundedBuf, Content, ContentError, EncodeClmrError,
    Message, Sink, SinkError,
};

fn author() -> Vec<u8> {
    vec![0x00, 0x04, 0xa1, 0xa2, 0xa3, 0xa4]
}

fn hash() -> Vec<u8> {
    vec![0x00, 0x03, 0xb1, 0xb2, 0xb3]
}

fn signature() -> Vec<u8> {
    vec![0x00, 0x05, 0xc1, 0xc2, 0xc3, 0xc4, 0xc5]
}

fn first_message() -> Message {
    Message {
        author: author(),
        sequence: 1,
        timestamp: 0.0f64.to_bits(),
        previous: None,
        swapped: false,
        content: Content::Plain(Ok(vec![0xa0])),
        signature: signature(),
    }
}

fn later_message() -> Message {
    Message {
        author: author(),
        sequence: 300,
        timestamp: 1.0f64.to_bits(),
        previous: Some(hash()),
        swapped: true,
        content: Content::Encrypted(vec![0x00, 0x02, 0xd1, 0xd2]),
        signature: signature(),
    }
}

fn bare(sequence: u64, timestamp: u64) -> Message {
    Message {
        author: Vec::new(),
        sequence,
        timestamp,
        previous: None,
        swapped: false,
        content: Content::Plain(Ok(Vec::new())),
        signature: Vec::new(),
    }
}

fn sequence_field(sequence: u64) -> Vec<u8> {
    let out = to_clmr_vec(&bare(sequence, 0)).unwrap();
    assert_eq!(out[0], 0);
    out[1..out.len() - 8].to_vec()
}

fn timestamp_field(t: f64) -> Vec<u8> {
    let out = to_clmr_vec(&bare(0, t.to_bits())).unwrap();
    assert_eq!(out.len(), 10);
    out[2..].to_vec()
}

fn round_trip(t: f64) -> f64 {
    let field = timestamp_field(t);
    let mut eight = [0u8; 8];
    eight.copy_from_slice(&field);
    f64::from_bits(u64::from_be_bytes(eight))
}

#[test]
fn first_message_with_empty_map() {
    let out = to_clmr_vec(&first_message()).unwrap();
    let mut expected: Vec<u8> = vec![0x00];
    expected.extend_from_slice(&author());
    expected.push(0x01);
    expected.extend_from_slice(&[0u8; 8]);
    expected.push(0xa0);
    expected.extend_from_slice(&signature());
    assert_eq!(out, expected);
}

#[test]
fn later_message_with_every_flag() {
    let out = to_clmr_vec(&later_message()).unwrap();
    let mut expected: Vec<u8> = vec![0x07];
    expected.extend_from_slice(&author());
    expected.extend_from_slice(&[249, 0x01, 0x2c]);
    expected.extend_from_slice(&[0x3f, 0xf0, 0, 0, 0, 0, 0, 0]);
    expected.extend_from_slice(&hash());
    expected.extend_from_slice(&[0x00, 0x02, 0xd1, 0xd2]);
    expected.extend_from_slice(&signature());
    assert_eq!(out, expected);
}

#[test]
fn previous_sets_bit_two_and_follows_the_timestamp() {
    let mut msg = first_message();
    let without = to_clmr_vec(&msg).unwrap();
    assert_eq!(without[0] & 0x04, 0);
    msg.previous = Some(hash());
    let with = to_clmr_vec(&msg).unwrap();
    assert_eq!(with[0] & 0x04, 0x04);
    let at = 1 + author().len() + 1 + 8;
    assert_eq!(&with[at..at + hash().len()], &hash()[..]);
    assert_eq!(with.len(), without.len() + hash().len());
    assert_eq!(&with[at + hash().len()..], &without[at..]);
}

#[test]
fn swapped_sets_bit_one_only() {
    let mut msg = first_message();
    msg.swapped = true;
    let out = to_clmr_vec(&msg).unwrap();
    assert_eq!(out[0], 0x02);
    assert_eq!(&out[1..], &to_clmr_vec(&first_message()).unwrap()[1..]);
}

#[test]
fn encrypted_sets_bit_zero_and_writes_the_ciphertext() {
    let mut msg = first_message();
    assert!(!msg.is_encrypted());
    msg.content = Content::Encrypted(vec![0x00, 0x01, 0xee]);
    assert!(msg.is_encrypted());
    let out = to_clmr_vec(&msg).unwrap();
    assert_eq!(out[0], 0x01);
    let at = 1 + author().len() + 1 + 8;
    assert_eq!(&out[at..at + 3], &[0x00, 0x01, 0xee]);
    assert_eq!(&out[at + 3..], &signature()[..]);
}

#[test]
fn every_combination_of_flags() {
    for bits in 0u8..8 {
        let mut msg = first_message();
        if bits & 0x04 != 0 {
            msg.previous = Some(hash());
        }
        msg.swapped = bits & 0x02 != 0;
        if bits & 0x01 != 0 {
            msg.content = Content::Encrypted(vec![0x00]);
        }
        assert_eq!(to_clmr_vec(&msg).unwrap()[0], bits);
    }
}

#[test]
fn sequence_below_248_is_one_byte() {
    assert_eq!(sequence_field(0), vec![0]);
    assert_eq!(sequence_field(1), vec![1]);
    assert_eq!(sequence_field(127), vec![127]);
    assert_eq!(sequence_field(128), vec![128]);
    assert_eq!(sequence_field(247), vec![247]);
}

#[test]
fn sequence_from_248_carries_a_length_tag() {
    assert_eq!(sequence_field(248), vec![248, 248]);
    assert_eq!(sequence_field(255), vec![248, 255]);
    assert_eq!(sequence_field(256), vec![249, 1, 0]);
    assert_eq!(sequence_field(65535), vec![249, 255, 255]);
    assert_eq!(sequence_field(65536), vec![250, 1, 0, 0]);
    assert_eq!(sequence_field(1 << 32), vec![252, 1, 0, 0, 0, 0]);
    assert_eq!(sequence_field((1 << 56) - 1), vec![254, 255, 255, 255, 255, 255, 255, 255]);
    assert_eq!(sequence_field(1 << 56), vec![255, 1, 0, 0, 0, 0, 0, 0, 0]);
}

#[test]
fn sequence_at_the_top_of_the_range() {
    assert_eq!(sequence_field(1 << 63), vec![255, 0x80, 0, 0, 0, 0, 0, 0, 0]);
    assert_eq!(sequence_field(u64::MAX), vec![255; 9]);
}

#[test]
fn sequence_field_decodes_to_the_sequence() {
    for n in [0, 1, 127, 128, 247, 248, 255, 256, 65535, 65536, 1 << 63, u64::MAX] {
        let field = sequence_field(n);
        assert_eq!(field.len(), varu64::encoding_length(n));
        let (back, rest) = varu64::decode(&field).unwrap();
        assert_eq!(back, n);
        assert!(rest.is_empty());
    }
}

#[test]
fn timestamp_is_the_big_endian_bit_pattern() {
    assert_eq!(timestamp_field(0.0), vec![0; 8]);
    assert_eq!(timestamp_field(1.0), vec![0x3f, 0xf0, 0, 0, 0, 0, 0, 0]);
    assert_eq!(timestamp_field(-2.0), vec![0xc0, 0, 0, 0, 0, 0, 0, 0]);
    assert_eq!(timestamp_field(f64::from_bits(1)), vec![0, 0, 0, 0, 0, 0, 0, 1]);
    assert_eq!(
        timestamp_field(1_500_000_000_000.5),
        1_500_000_000_000.5f64.to_bits().to_be_bytes().to_vec()
    );
}

#[test]
fn timestamp_round_trips_bit_for_bit() {
    for t in [0.0, 1.0, -1.5, 1_500_000_000_000.0, f64::MIN_POSITIVE, f64::from_bits(1), f64::MAX, f64::MIN] {
        assert_eq!(round_trip(t).to_bits(), t.to_bits());
    }
}

#[test]
fn eight_bytes_most_significant_first() {
    assert_eq!(u64_be_bytes(0), [0; 8]);
    assert_eq!(u64_be_bytes(0x0102_0304_0506_0708), [1, 2, 3, 4, 5, 6, 7, 8]);
    assert_eq!(u64_be_bytes(u64::MAX), [0xff; 8]);
}

#[test]
fn length_is_the_sum_of_the_fields() {
    let first = to_clmr_vec(&first_message()).unwrap();
    assert_eq!(first.len(), 1 + author().len() + 1 + 8 + 0 + 1 + signature().len());
    let later = to_clmr_vec(&later_message()).unwrap();
    assert_eq!(later.len(), 1 + author().len() + 3 + 8 + hash().len() + 4 + signature().len());
}

#[test]
fn encoding_twice_gives_the_same_bytes() {
    assert_eq!(to_clmr_vec(&later_message()).unwrap(), to_clmr_vec(&later_message()).unwrap());
    let msg = first_message();
    assert_eq!(to_clmr_vec(&msg).unwrap(), to_clmr_vec(&msg).unwrap());
}

#[test]
fn writing_appends_to_the_sink() {
    let mut out: Vec<u8> = vec![0xfe, 0xfd];
    to_clmr(&first_message(), &mut out).unwrap();
    assert_eq!(&out[..2], &[0xfe, 0xfd]);
    assert_eq!(&out[2..], &to_clmr_vec(&first_message()).unwrap()[..]);
}

#[test]
fn a_full_sink_stops_the_encoder() {
    let full = to_clmr_vec(&later_message()).unwrap();
    for limit in 0..full.len() {
        let mut buf = BoundedBuf::new(limit);
        let r = to_clmr(&later_message(), &mut buf);
        assert!(matches!(r, Err(EncodeClmrError::Io(SinkError::Full))));
        assert_eq!(buf.as_slice(), &full[..limit]);
        assert_eq!(buf.room(), 0);
    }
}

#[test]
fn a_sink_with_just_enough_room_takes_it_all() {
    let full = to_clmr_vec(&later_message()).unwrap();
    let mut buf = BoundedBuf::new(full.len());
    to_clmr(&later_message(), &mut buf).unwrap();
    assert_eq!(buf.as_slice(), &full[..]);
    assert_eq!(buf.room(), 0);
    let mut wide = BoundedBuf::new(full.len() + 3);
    to_clmr(&later_message(), &mut wide).unwrap();
    assert_eq!(wide.as_slice(), &full[..]);
    assert_eq!(wide.room(), 3);
}

#[test]
fn bounded_buf_keeps_what_fits() {
    let mut buf = BoundedBuf::new(4);
    assert_eq!(buf.room(), 4);
    assert!(buf.write_all(&[1, 2, 3]).is_ok());
    assert_eq!(buf.room(), 1);
    assert!(matches!(buf.write_all(&[4, 5]), Err(SinkError::Full)));
    assert_eq!(buf.as_slice(), &[1, 2, 3, 4]);
    assert!(matches!(buf.write_all(&[6]), Err(SinkError::Full)));
    assert!(buf.write_all(&[]).is_ok());
    assert_eq!(buf.as_slice(), &[1, 2, 3, 4]);
}

#[test]
fn vec_sink_takes_everything() {
    let mut out: Vec<u8> = Vec::new();
    assert!(Sink::write_all(&mut out, &[1, 2]).is_ok());
    assert!(Sink::write_all(&mut out, &[3]).is_ok());
    assert_eq!(out, vec![1, 2, 3]);
}

#[test]
fn unencodable_content_is_reported_after_the_head() {
    let mut msg = later_message();
    msg.content = Content::Plain(Err(ContentError { reason: String::from("map key is not a string") }));
    let mut out: Vec<u8> = Vec::new();
    match to_clmr(&msg, &mut out) {
        Err(EncodeClmrError::Content(e)) => assert_eq!(e.reason, "map key is not a string"),
        other => panic!("unexpected result {:?}", other),
    }
    let full = to_clmr_vec(&later_message()).unwrap();
    let head_len = 1 + author().len() + 3 + 8 + hash().len();
    assert_eq!(out[0], 0x06);
    assert_eq!(&out[1..], &full[1..head_len]);
    assert!(matches!(to_clmr_vec(&msg), Err(EncodeClmrError::Content(_))));
    assert!(matches!(to_clmr_string(&msg), Err(EncodeClmrError::Content(_))));
}

#[test]
fn a_full_sink_wins_over_unencodable_content() {
    let mut msg = later_message();
    msg.content = Content::Plain(Err(ContentError { reason: String::from("no") }));
    let mut buf = BoundedBuf::new(5);
    assert!(matches!(to_clmr(&msg, &mut buf), Err(EncodeClmrError::Io(SinkError::Full))));
    assert_eq!(buf.as_slice().len(), 5);
}

#[test]
fn text_is_made_only_of_well_formed_bytes() {
    let msg = Message {
        author: b"key".to_vec(),
        sequence: 5,
        timestamp: 0,
        previous: Some(b"hash".to_vec()),
        swapped: false,
        content: Content::Plain(Ok(b"{}".to_vec())),
        signature: b"sig".to_vec(),
    };
    let text = to_clmr_string(&msg).unwrap();
    assert_eq!(text.as_bytes(), &to_clmr_vec(&msg).unwrap()[..]);
    assert_eq!(text, "\u{4}key\u{5}\0\0\0\0\0\0\0\0hash{}sig");
}

#[test]
fn text_is_refused_for_other_bytes() {
    assert!(matches!(to_clmr_string(&later_message()), Err(EncodeClmrError::InvalidUtf8)));
    let mut msg = first_message();
    msg.signature = vec![0xff];
    assert!(matches!(to_clmr_string(&msg), Err(EncodeClmrError::InvalidUtf8)));
}

#[test]
fn errors_convert_from_their_causes() {
    assert!(matches!(EncodeClmrError::from(SinkError::Full), EncodeClmrError::Io(SinkError::Full)));
    let cause = ContentError { reason: String::from("why") };
    match EncodeClmrError::from(cause) {
        EncodeClmrError::Content(e) => assert_eq!(e.reason, "why"),
        other => panic!("unexpected error {:?}", other),
    }
}
