use simpledns::error::DnsError;
use simpledns::name::DnsName;

fn name(labels: &[&str]) -> DnsName {
    DnsName::new(labels.iter().map(|l| l.as_bytes().to_vec()).collect())
}

#[test]
fn encodes_labels_with_length_octets_and_terminator() {
    let bytes = name(&["example", "com"]).encode().unwrap();
    assert_eq!(bytes, vec![7, b'e', b'x', b'a', b'm', b'p', b'l', b'e', 3, b'c', b'o', b'm', 0]);
}

#[test]
fn root_name_is_a_single_zero_octet() {
    assert_eq!(DnsName::root().encode().unwrap(), vec![0]);
    assert_eq!(DnsName::decode(&[0], 0), Ok((DnsName::root(), 1)));
}

#[test]
fn label_of_63_octets_is_accepted_and_64_is_not() {
    let ok = DnsName::new(vec![vec![b'a'; 63]]);
    assert!(ok.is_valid());
    assert_eq!(ok.encode().unwrap().len(), 65);
    let long = DnsName::new(vec![vec![b'a'; 64]]);
    assert!(!long.is_valid());
    assert_eq!(long.encode(), Err(DnsError::InvalidLabel));
}

#[test]
fn empty_label_is_invalid() {
    let n = DnsName::new(vec![b"a".to_vec(), Vec::new(), b"b".to_vec()]);
    assert_eq!(n.encode(), Err(DnsError::InvalidLabel));
}

#[test]
fn name_of_255_octets_is_accepted_and_256_is_not() {
    // three labels of 63 and one of 61: 4 length octets + 250 + terminator = 255
    let fits = DnsName::new(vec![vec![b'a'; 63], vec![b'b'; 63], vec![b'c'; 63], vec![b'd'; 61]]);
    assert_eq!(fits.encode().unwrap().len(), 255);
    let over = DnsName::new(vec![vec![b'a'; 63], vec![b'b'; 63], vec![b'c'; 63], vec![b'd'; 62]]);
    assert_eq!(over.encode(), Err(DnsError::InvalidLabel));
}

#[test]
fn decodes_what_was_encoded_at_any_offset() {
    let n = name(&["www", "example", "com"]);
    let mut buf = vec![0xAA, 0xBB, 0xCC];
    buf.extend(n.encode().unwrap());
    buf.push(0xDD);
    let end = buf.len() - 1;
    assert_eq!(DnsName::decode(&buf, 3), Ok((n, end)));
}

#[test]
fn pointer_yields_the_uncompressed_name() {
    // offset 0: example.com; offset 13: www + pointer to 0
    let mut buf = name(&["example", "com"]).encode().unwrap();
    assert_eq!(buf.len(), 13);
    buf.extend([3, b'w', b'w', b'w', 0xC0, 0x00]);
    buf.extend([1, 2, 3]);
    assert_eq!(DnsName::decode(&buf, 13), Ok((name(&["www", "example", "com"]), 19)));
    // a bare pointer reads as the name it refers to
    assert_eq!(DnsName::decode(&buf, 17), Ok((name(&["example", "com"]), 19)));
}

#[test]
fn pointer_to_pointer_is_followed() {
    // 0: "com" 0 ; 5: pointer to 0 ; 7: "a" + pointer to 5
    let buf = vec![3, b'c', b'o', b'm', 0, 0xC0, 0, 1, b'a', 0xC0, 5];
    assert_eq!(DnsName::decode(&buf, 7), Ok((name(&["a", "com"]), 11)));
}

#[test]
fn pointer_to_itself_is_a_loop() {
    let buf = vec![0xC0, 0x00];
    assert_eq!(DnsName::decode(&buf, 0), Err(DnsError::CompressionLoop));
}

#[test]
fn pointer_cycle_is_a_loop() {
    // 0 -> 2 -> 4 -> 0
    let buf = vec![0xC0, 2, 0xC0, 4, 0xC0, 0];
    assert_eq!(DnsName::decode(&buf, 0), Err(DnsError::CompressionLoop));
    assert_eq!(DnsName::decode(&buf, 4), Err(DnsError::CompressionLoop));
}

#[test]
fn pointer_back_to_a_label_already_read_is_a_loop() {
    // 0: "a", 2: pointer to 0
    let buf = vec![1, b'a', 0xC0, 0];
    assert_eq!(DnsName::decode(&buf, 0), Err(DnsError::CompressionLoop));
}

#[test]
fn label_running_past_the_end_is_truncated() {
    assert_eq!(DnsName::decode(&[5, b'a', b'b'], 0), Err(DnsError::TruncatedMessage));
    assert_eq!(DnsName::decode(&[1, b'a'], 0), Err(DnsError::TruncatedMessage));
    assert_eq!(DnsName::decode(&[], 0), Err(DnsError::TruncatedMessage));
    assert_eq!(DnsName::decode(&[0], 7), Err(DnsError::TruncatedMessage));
}

#[test]
fn pointer_past_the_end_is_truncated() {
    assert_eq!(DnsName::decode(&[0xC0], 0), Err(DnsError::TruncatedMessage));
    assert_eq!(DnsName::decode(&[0xC0, 9, 0], 0), Err(DnsError::TruncatedMessage));
}

#[test]
fn reserved_length_octets_are_invalid_labels() {
    assert_eq!(DnsName::decode(&[0x40, 0], 0), Err(DnsError::InvalidLabel));
    assert_eq!(DnsName::decode(&[0xBF, 0], 0), Err(DnsError::InvalidLabel));
}

#[test]
fn name_assembled_beyond_255_octets_is_invalid() {
    // a label of 63 octets at 0 followed by a pointer chain that repeats it
    // through fresh offsets: 0: label63, 64: ptr->66 ... build five copies.
    let mut buf = Vec::new();
    for _ in 0..5 {
        buf.push(63);
        buf.extend(vec![b'x'; 63]);
    }
    buf.push(0);
    assert_eq!(DnsName::decode(&buf, 0), Err(DnsError::InvalidLabel));
    // four copies still fit? 4 * 64 + 1 = 257 > 255
    assert_eq!(DnsName::decode(&buf, 64), Err(DnsError::InvalidLabel));
    assert_eq!(DnsName::decode(&buf, 128).map(|(n, e)| (n.labels.len(), e)), Ok((3, 321)));
}

#[test]
fn names_compare_octet_for_octet() {
    assert!(name(&["a", "b"]).same_as(&name(&["a", "b"])));
    assert!(!name(&["a", "b"]).same_as(&name(&["a", "c"])));
    assert!(!name(&["a", "b"]).same_as(&name(&["a"])));
    assert!(!name(&["A"]).same_as(&name(&["a"])));
    assert_eq!(name(&["x", "y"]).clone(), name(&["x", "y"]));
}

#[test]
fn pointer_back_into_the_first_labels_after_a_forward_jump_is_a_loop() {
    // 0: "a", 2: pointer to 6, 6: "b", 8: pointer to 0
    let buf = vec![1, b'a', 0xC0, 6, 0xEE, 0xEE, 1, b'b', 0xC0, 0];
    assert_eq!(DnsName::decode(&buf, 0), Err(DnsError::CompressionLoop));
    // started at 6 the same octets are a name: b.a.b would loop, too
    assert_eq!(DnsName::decode(&buf, 6), Err(DnsError::CompressionLoop));
}

#[test]
fn pointer_into_octets_not_yet_read_is_followed() {
    // 0: a label holding one zero octet, 2: pointer to offset 1, where that
    // zero octet ends the name
    let buf = vec![1, 0, 0xC0, 1];
    assert_eq!(DnsName::decode(&buf, 0), Ok((DnsName::new(vec![vec![0]]), 4)));
}

#[test]
fn forward_pointer_is_followed() {
    // 0: pointer to 4, 4: "z" and the end
    let buf = vec![0xC0, 4, 0xEE, 0xEE, 1, b'z', 0];
    assert_eq!(DnsName::decode(&buf, 0), Ok((name(&["z"]), 2)));
}

#[test]
fn long_pointer_chain_without_a_loop_is_followed() {
    // pointers at 2, 4, ..., each to the one before; offset 0 ends the name
    let mut buf = vec![0u8, 0];
    for i in 0..2000usize {
        let target = if i == 0 { 0 } else { 2 * i };
        buf.push(0xC0 | (target >> 8) as u8);
        buf.push((target & 0xFF) as u8);
    }
    let last = buf.len() - 2;
    assert_eq!(DnsName::decode(&buf, last), Ok((DnsName::root(), last + 2)));
}
