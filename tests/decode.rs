use a2s_rules::cursor::read_uint4;
use a2s_rules::rules::decode_mod_record;
use a2s_rules::{decode, read_byte, read_string, A2SRulesReply, ByteCursor, DecodeError, RULES_REPLY_TAG};

fn packet(count: u16, body: &[u8]) -> Vec<u8> {
    let mut v = vec![RULES_REPLY_TAG, (count & 0xff) as u8, (count >> 8) as u8];
    v.extend_from_slice(body);
    v
}

fn rule_pairs(reply: &A2SRulesReply) -> Vec<(String, String)> {
    reply.rules.iter().map(|r| (r.name.clone(), r.value.clone())).collect()
}

fn mod_pairs(reply: &A2SRulesReply) -> Vec<(u32, String)> {
    reply.mods.iter().map(|m| (m.id, m.name.clone())).collect()
}

/// The escaped record of one mod `{42, "Pack"}`, with both DLC flags clear.
fn pack_record(mod_count: u8) -> Vec<u8> {
    let mut r = vec![0x10, 0x20, 1, 2, 1, 2];
    if mod_count == 1 {
        r.extend_from_slice(&[1, 1]);
    } else {
        r.push(mod_count);
    }
    r.extend_from_slice(&[7, 1, 2, 1, 2, 1, 2]);
    r.extend_from_slice(&[42, 1, 2, 1, 2, 1, 2]);
    r.extend_from_slice(&[4, b'P', b'a', b'c', b'k']);
    r
}

fn sentinel_entry(record: &[u8]) -> Vec<u8> {
    let mut v = vec![b'm', b'c', 0];
    v.extend_from_slice(record);
    v.push(0);
    v
}

#[test]
fn end_to_end_single_mod() {
    let bytes = packet(1, &sentinel_entry(&pack_record(1)));
    let reply = decode(&bytes).unwrap();
    assert_eq!(reply.header, RULES_REPLY_TAG);
    assert!(reply.rules.is_empty());
    assert_eq!(mod_pairs(&reply), vec![(42, "Pack".to_string())]);
}

#[test]
fn truncated_mod_list_is_an_error() {
    let mut body = b"hostname\0srv\0".to_vec();
    body.extend_from_slice(&sentinel_entry(&pack_record(2)));
    let bytes = packet(2, &body);
    assert!(matches!(decode(&bytes), Err(DecodeError::TruncatedModRecord)));
}

#[test]
fn unknown_header_tag_is_invalid() {
    let bytes = vec![0xFF, 1, 0, b'a', b'b', b'c', 0, b'1', 0];
    assert!(matches!(decode(&bytes), Err(DecodeError::InvalidHeader)));
}

#[test]
fn other_packet_tag_is_invalid() {
    let bytes = vec![b'I', 0, 0];
    assert!(matches!(decode(&bytes), Err(DecodeError::InvalidHeader)));
}

#[test]
fn two_char_rule_name_is_taken_for_a_sentinel() {
    // A rule "ab" -> "1" has the sentinel shape `a, b, 0x00`: its value is
    // read as a mod record, which is too short.
    let bytes = packet(1, &[b'a', b'b', 0, b'1', 0]);
    assert!(matches!(decode(&bytes), Err(DecodeError::TruncatedModRecord)));
}

#[test]
fn ordinary_rules_keep_wire_order_and_duplicates() {
    let bytes = packet(3, b"abc\x001\0mp_map\0de_dust\0abc\x002\0");
    let reply = decode(&bytes).unwrap();
    assert_eq!(
        rule_pairs(&reply),
        vec![
            ("abc".to_string(), "1".to_string()),
            ("mp_map".to_string(), "de_dust".to_string()),
            ("abc".to_string(), "2".to_string()),
        ]
    );
    assert!(reply.mods.is_empty());
}

#[test]
fn rule_count_with_sentinel() {
    let mut body = b"hostname\0srv\0".to_vec();
    body.extend_from_slice(&sentinel_entry(&pack_record(1)));
    body.extend_from_slice(b"version\x001.2\0");
    let bytes = packet(3, &body);
    let reply = decode(&bytes).unwrap();
    assert_eq!(reply.rules.len() + 1, 3);
    assert_eq!(
        rule_pairs(&reply),
        vec![
            ("hostname".to_string(), "srv".to_string()),
            ("version".to_string(), "1.2".to_string()),
        ]
    );
    assert_eq!(mod_pairs(&reply), vec![(42, "Pack".to_string())]);
}

#[test]
fn no_sentinel_means_no_mods() {
    let bytes = packet(2, b"abc\0\0\0\0");
    let reply = decode(&bytes).unwrap();
    assert_eq!(
        rule_pairs(&reply),
        vec![("abc".to_string(), String::new()), (String::new(), String::new())]
    );
    assert!(reply.mods.is_empty());
}

#[test]
fn empty_rule_list() {
    let reply = decode(&packet(0, &[])).unwrap();
    assert!(reply.rules.is_empty());
    assert!(reply.mods.is_empty());
}

#[test]
fn decoding_twice_gives_the_same_reply() {
    let mut body = b"hostname\0srv\0".to_vec();
    body.extend_from_slice(&sentinel_entry(&pack_record(1)));
    let bytes = packet(2, &body);
    let a = decode(&bytes).unwrap();
    let b = decode(&bytes).unwrap();
    assert_eq!(a.header, b.header);
    assert_eq!(rule_pairs(&a), rule_pairs(&b));
    assert_eq!(mod_pairs(&a), mod_pairs(&b));
}

#[test]
fn count_is_little_endian_sixteen_bits() {
    let mut body = Vec::new();
    for _ in 0..258 {
        body.extend_from_slice(b"key\0v\0");
    }
    let bytes = packet(258, &body);
    assert_eq!(&bytes[1..3], &[0x02, 0x01]);
    let reply = decode(&bytes).unwrap();
    assert_eq!(reply.rules.len(), 258);
}

#[test]
fn empty_input_is_end_of_input() {
    assert!(matches!(decode(&[]), Err(DecodeError::UnexpectedEndOfInput)));
}

#[test]
fn missing_count_is_end_of_input() {
    assert!(matches!(decode(&[RULES_REPLY_TAG, 1]), Err(DecodeError::UnexpectedEndOfInput)));
}

#[test]
fn unterminated_rule_is_end_of_input() {
    let bytes = packet(1, b"hostname\0srv");
    assert!(matches!(decode(&bytes), Err(DecodeError::UnexpectedEndOfInput)));
}

#[test]
fn unterminated_sentinel_record_is_end_of_input() {
    let bytes = packet(1, &[b'm', b'c', 0, 0x10, 0x20]);
    assert!(matches!(decode(&bytes), Err(DecodeError::UnexpectedEndOfInput)));
}

#[test]
fn invalid_utf8_is_replaced() {
    let bytes = packet(1, b"abc\xff\0v\xc3\xa9\0");
    let reply = decode(&bytes).unwrap();
    assert_eq!(rule_pairs(&reply), vec![("abc\u{FFFD}".to_string(), "v\u{e9}".to_string())]);
}

#[test]
fn escape_pairs_round_trip() {
    let cases: Vec<(Vec<u8>, u8)> = vec![(vec![1, 2], 0x00), (vec![1, 1], 0x01), (vec![1, 3], 0xFF)];
    for (raw, v) in cases {
        let mut c = ByteCursor::new(raw);
        assert_eq!(read_byte(&mut c), Ok(v));
        assert_eq!(c.pos, 2);
    }
    for v in 2u8..=0xFE {
        let mut c = ByteCursor::new(vec![v]);
        assert_eq!(read_byte(&mut c), Ok(v));
        assert_eq!(c.pos, 1);
    }
}

#[test]
fn malformed_escape_gives_the_introducer() {
    let mut c = ByteCursor::new(vec![1, 9, 7]);
    assert_eq!(read_byte(&mut c), Ok(1));
    assert_eq!(c.pos, 2);
    assert_eq!(read_byte(&mut c), Ok(7));
}

#[test]
fn read_byte_at_end_fails_without_moving() {
    let mut c = ByteCursor::new(vec![1]);
    assert_eq!(read_byte(&mut c), Err(DecodeError::UnexpectedEndOfInput));
    assert_eq!(c.pos, 0);
}

#[test]
fn read_uint4_is_little_endian_over_escaped_bytes() {
    let mut c = ByteCursor::new(vec![0x78, 0x56, 1, 3, 0x12]);
    assert_eq!(read_uint4(&mut c), Ok(0x12FF5678));
    assert_eq!(c.pos, 5);
}

#[test]
fn read_string_reads_escaped_bytes() {
    let mut c = ByteCursor::new(vec![3, b'a', 1, 2, b'b', b'z']);
    assert_eq!(read_string(&mut c), Ok("a\0b".to_string()));
    assert_eq!(c.pos, 5);
    let mut short = ByteCursor::new(vec![3, b'a']);
    assert_eq!(read_string(&mut short), Err(DecodeError::UnexpectedEndOfInput));
}

#[test]
fn kind_flag_four_is_consumed() {
    let record = vec![0, 0, 1, 2, 1, 2, 1, 1, 9, 9, 9, 9, 4, 5, 0, 0, 0, 2, b'o', b'k'];
    let mods = decode_mod_record(record).unwrap();
    assert_eq!(mods.len(), 1);
    assert_eq!(mods[0].id, 5);
    assert_eq!(mods[0].name, "ok");
}

#[test]
fn dlc_flags_skip_their_values() {
    let record = vec![0, 0, 7, 8, 0x11, 0x12, 0x13, 0x14, 0x21, 0x22, 0x23, 0x24, 1, 2];
    let mods = decode_mod_record(record.clone()).unwrap();
    assert!(mods.is_empty());
    assert!(matches!(decode_mod_record(record[..8].to_vec()), Err(DecodeError::TruncatedModRecord)));
}

#[test]
fn empty_record_is_truncated() {
    assert!(matches!(decode_mod_record(vec![]), Err(DecodeError::TruncatedModRecord)));
}
