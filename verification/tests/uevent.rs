use container_hotplug::UdevSender;

fn props(pairs: &[(&str, &str)]) -> Vec<(String, String)> {
    pairs.iter().map(|(k, v)| (k.to_string(), v.to_string())).collect()
}

fn payload_of(msg: &[u8]) -> &[u8] {
    &msg[40..]
}

fn seqnum_digits(msg: &[u8]) -> Vec<u8> {
    // The payload is ACTION=<a>\0SEQNUM=<digits>\0...
    let payload = payload_of(msg);
    let first_nul = payload.iter().position(|&b| b == 0).unwrap();
    let rest = &payload[first_nul + 1..];
    assert!(rest.starts_with(b"SEQNUM="));
    let rest = &rest[7..];
    let end = rest.iter().position(|&b| b == 0).unwrap();
    rest[..end].to_vec()
}

#[test]
fn message_shape() {
    let mut sender = UdevSender::new();
    let sub = String::from("block");
    let msg = sender
        .next_message("add", Some(&sub), None, &props(&[("DEVNAME", "/dev/sda")]))
        .unwrap();

    // Fixed prefix and magic.
    assert_eq!(&msg[0..8], &[0x6c, 0x69, 0x62, 0x75, 0x64, 0x65, 0x76, 0x00]);
    assert_eq!(&msg[8..12], &[0xfe, 0xed, 0xca, 0xfe]);
    // Header size and properties offset, both 40, little-endian.
    assert_eq!(&msg[12..16], &[40, 0, 0, 0]);
    assert_eq!(&msg[16..20], &[40, 0, 0, 0]);
    // Properties length.
    let len = u32::from_le_bytes([msg[20], msg[21], msg[22], msg[23]]) as usize;
    assert_eq!(len, msg.len() - 40);
    // Subsystem hash in network order; devtype hash absent.
    let expected = murmur2::murmur2(b"block", 0);
    assert_eq!(&msg[24..28], &expected.to_be_bytes());
    assert_eq!(&msg[28..32], &[0, 0, 0, 0]);
    // Conservative all-ones tag bloom filter.
    assert_eq!(&msg[32..40], &[0xff; 8]);

    // The properties open with ACTION, then SEQNUM, then the rest.
    let payload = payload_of(&msg);
    assert!(payload.starts_with(b"ACTION=add\0SEQNUM=1\0"));
    assert!(payload.ends_with(b"DEVNAME=/dev/sda\0"));
    for b in seqnum_digits(&msg) {
        assert!(b.is_ascii_digit());
    }
}

#[test]
fn caller_supplied_action_and_seqnum_are_dropped() {
    let mut sender = UdevSender::new();
    let msg = sender
        .next_message(
            "remove",
            None,
            None,
            &props(&[("ACTION", "bogus"), ("SEQNUM", "999"), ("MAJOR", "189")]),
        )
        .unwrap();
    let payload = payload_of(&msg);
    assert!(payload.starts_with(b"ACTION=remove\0SEQNUM=1\0"));
    assert!(payload.ends_with(b"MAJOR=189\0"));
    // The bogus records are gone: exactly three records remain.
    let records = payload.split(|&b| b == 0).filter(|r| !r.is_empty()).count();
    assert_eq!(records, 3);
}

#[test]
fn sequence_numbers_increase_strictly() {
    let mut sender = UdevSender::new();
    let mut last = 0u64;
    for _ in 0..5 {
        let msg = sender.next_message("add", None, None, &props(&[])).unwrap();
        let digits = seqnum_digits(&msg);
        let value: u64 = String::from_utf8(digits).unwrap().parse().unwrap();
        assert!(value > last);
        assert_eq!(value, last + 1);
        last = value;
    }
}

#[test]
fn distinct_senders_count_independently() {
    let mut a = UdevSender::new();
    let mut b = UdevSender::new();
    a.next_message("add", None, None, &props(&[])).unwrap();
    let msg_a = a.next_message("add", None, None, &props(&[])).unwrap();
    let msg_b = b.next_message("add", None, None, &props(&[])).unwrap();
    assert!(payload_of(&msg_a).starts_with(b"ACTION=add\0SEQNUM=2\0"));
    assert!(payload_of(&msg_b).starts_with(b"ACTION=add\0SEQNUM=1\0"));
}

#[test]
fn devtype_hash_when_present() {
    let mut sender = UdevSender::new();
    let sub = String::from("usb");
    let devtype = String::from("usb_device");
    let msg = sender
        .next_message("add", Some(&sub), Some(&devtype), &props(&[]))
        .unwrap();
    assert_eq!(&msg[24..28], &murmur2::murmur2(b"usb", 0).to_be_bytes());
    assert_eq!(&msg[28..32], &murmur2::murmur2(b"usb_device", 0).to_be_bytes());
}

#[test]
fn mid_payload_properties_keep_their_bytes() {
    let mut sender = UdevSender::new();
    let msg = sender
        .next_message("add", None, None, &props(&[("A", "1"), ("B", "2")]))
        .unwrap();
    let payload = payload_of(&msg);
    let tail = &payload[b"ACTION=add\0SEQNUM=1\0".len()..];
    assert_eq!(tail, b"A=1\0B=2\0");
}
