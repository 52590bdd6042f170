use quote_feed::frame::{
    is_quote_port, quote_payload, ETHERTYPE_IPV4, IP_PROTOCOL_UDP, QUOTE_PORT_HIGH, QUOTE_PORT_LOW,
};

fn udp_datagram(destination: u16, payload: &[u8]) -> Vec<u8> {
    let mut d: Vec<u8> = Vec::new();
    d.extend_from_slice(&[0xc3, 0x50]);
    d.extend_from_slice(&destination.to_be_bytes());
    d.extend_from_slice(&((8 + payload.len()) as u16).to_be_bytes());
    d.extend_from_slice(&[0x00, 0x00]);
    d.extend_from_slice(payload);
    d
}

fn ipv4_packet(protocol: u8, options: &[u8], body: &[u8]) -> Vec<u8> {
    assert_eq!(options.len() % 4, 0);
    let header_words = 5 + options.len() / 4;
    let total = 20 + options.len() + body.len();
    let mut p: Vec<u8> = Vec::new();
    p.push(0x40 | header_words as u8);
    p.push(0x00);
    p.extend_from_slice(&(total as u16).to_be_bytes());
    p.extend_from_slice(&[0x12, 0x34, 0x40, 0x00]);
    p.push(64);
    p.push(protocol);
    p.extend_from_slice(&[0x00, 0x00]);
    p.extend_from_slice(&[192, 168, 0, 1]);
    p.extend_from_slice(&[233, 37, 54, 10]);
    p.extend_from_slice(options);
    p.extend_from_slice(body);
    p
}

fn ethernet_frame(ethertype: u16, body: &[u8]) -> Vec<u8> {
    let mut f: Vec<u8> = Vec::new();
    f.extend_from_slice(&[0x01, 0x00, 0x5e, 0x25, 0x36, 0x0a]);
    f.extend_from_slice(&[0x00, 0x1b, 0x21, 0x3c, 0x9d, 0xf8]);
    f.extend_from_slice(&ethertype.to_be_bytes());
    f.extend_from_slice(body);
    f
}

fn quote_frame(destination: u16, payload: &[u8]) -> Vec<u8> {
    ethernet_frame(0x0800, &ipv4_packet(17, &[], &udp_datagram(destination, payload)))
}

/// The payload of a frame as the layout of the three headers gives it, written out again
/// without the packet library.
fn payload_by_layout(frame: &[u8]) -> Option<Vec<u8>> {
    if frame.len() < 14 || frame[12] != 0x08 || frame[13] != 0x00 {
        return None;
    }
    let ip = &frame[14..];
    if ip.len() < 20 || ip[9] != 17 {
        return None;
    }
    let header = (ip[0] & 0x0f) as usize * 4;
    let total = u16::from_be_bytes([ip[2], ip[3]]) as usize;
    let start = header.max(20);
    if ip.len() <= start {
        return None;
    }
    let end = (start + total.saturating_sub(header)).min(ip.len());
    let udp = &ip[start..end];
    if udp.len() < 8 {
        return None;
    }
    let port = u16::from_be_bytes([udp[2], udp[3]]);
    if port != 15515 && port != 15516 {
        return None;
    }
    Some(udp[8..].to_vec())
}

#[test]
fn constants_name_the_protocols() {
    assert_eq!(ETHERTYPE_IPV4, 0x0800);
    assert_eq!(IP_PROTOCOL_UDP, 17);
    assert_eq!(QUOTE_PORT_LOW, 15515);
    assert_eq!(QUOTE_PORT_HIGH, 15516);
}

#[test]
fn quote_ports_are_the_two_ports() {
    assert!(is_quote_port(15515));
    assert!(is_quote_port(15516));
    assert!(!is_quote_port(15514));
    assert!(!is_quote_port(15517));
    assert!(!is_quote_port(0));
    assert!(!is_quote_port(u16::MAX));
    let mut count = 0;
    for port in 0..=u16::MAX {
        if is_quote_port(port) {
            count += 1;
        }
    }
    assert_eq!(count, 2);
}

#[test]
fn frame_to_a_quote_port_gives_its_payload() {
    let payload = b"B6034 and the rest of a quote";
    assert_eq!(quote_payload(&quote_frame(15515, payload)), Some(payload.to_vec()));
    assert_eq!(quote_payload(&quote_frame(15516, payload)), Some(payload.to_vec()));
}

#[test]
fn payload_is_not_the_frame_itself() {
    let frame = quote_frame(15515, b"xyz");
    let got = quote_payload(&frame).expect("a payload");
    assert_eq!(got, b"xyz".to_vec());
    assert_eq!(frame.len(), 14 + 20 + 8 + 3);
    assert_ne!(got, frame);
}

#[test]
fn frame_to_another_port_gives_nothing() {
    assert_eq!(quote_payload(&quote_frame(15514, b"B6034")), None);
    assert_eq!(quote_payload(&quote_frame(15517, b"B6034")), None);
    assert_eq!(quote_payload(&quote_frame(53, b"B6034")), None);
    // the source port does not count: in these frames it is 50000
    let mut swapped = quote_frame(50000, b"B6034");
    swapped[34] = 0x3c;
    swapped[35] = 0x9b;
    assert_eq!(quote_payload(&swapped), None);
}

#[test]
fn frame_of_another_ethertype_gives_nothing() {
    let inner = ipv4_packet(17, &[], &udp_datagram(15515, b"B6034"));
    assert_eq!(quote_payload(&ethernet_frame(0x86dd, &inner)), None);
    assert_eq!(quote_payload(&ethernet_frame(0x0806, &inner)), None);
    assert_eq!(quote_payload(&ethernet_frame(0x0008, &inner)), None);
    assert_eq!(quote_payload(&ethernet_frame(0x0800, &inner)), Some(b"B6034".to_vec()));
}

#[test]
fn packet_of_another_protocol_gives_nothing() {
    let body = udp_datagram(15515, b"B6034");
    assert_eq!(quote_payload(&ethernet_frame(0x0800, &ipv4_packet(6, &[], &body))), None);
    assert_eq!(quote_payload(&ethernet_frame(0x0800, &ipv4_packet(1, &[], &body))), None);
    assert_eq!(quote_payload(&ethernet_frame(0x0800, &ipv4_packet(136, &[], &body))), None);
}

#[test]
fn truncated_frames_give_nothing() {
    let frame = quote_frame(15515, b"B6034");
    assert_eq!(quote_payload(&[]), None);
    for n in 0..(14 + 20 + 8) {
        assert_eq!(quote_payload(&frame[..n]), None, "length {}", n);
    }
    assert_eq!(quote_payload(&frame[..14 + 20 + 8]), Some(Vec::new()));
    assert_eq!(quote_payload(&frame[..14 + 20 + 8 + 2]), Some(b"B6".to_vec()));
}

#[test]
fn datagram_without_payload_gives_an_empty_payload() {
    assert_eq!(quote_payload(&quote_frame(15516, b"")), Some(Vec::new()));
}

#[test]
fn ip_options_are_skipped() {
    let options = [0x01u8, 0x01, 0x01, 0x00, 0x94, 0x04, 0x00, 0x00];
    let packet = ipv4_packet(17, &options, &udp_datagram(15515, b"B6034xyz"));
    assert_eq!(packet[0], 0x47);
    assert_eq!(quote_payload(&ethernet_frame(0x0800, &packet)), Some(b"B6034xyz".to_vec()));
}

#[test]
fn bytes_behind_the_declared_length_are_cut_off() {
    let mut frame = quote_frame(15515, b"B6034xyz");
    frame.extend_from_slice(&[0x00; 6]);
    assert_eq!(quote_payload(&frame), Some(b"B6034xyz".to_vec()));
}

#[test]
fn declared_length_beyond_the_frame_is_cut_at_the_frame_end() {
    let mut frame = quote_frame(15515, b"B6034xyz");
    frame[16] = 0xff;
    frame[17] = 0xff;
    assert_eq!(quote_payload(&frame), Some(b"B6034xyz".to_vec()));
}

#[test]
fn declared_length_within_the_headers_gives_nothing() {
    let mut frame = quote_frame(15515, b"B6034xyz");
    // a total length of 27 leaves seven bytes behind the IP header: too few for a UDP header
    frame[16] = 0x00;
    frame[17] = 27;
    assert_eq!(quote_payload(&frame), None);
    frame[17] = 28;
    assert_eq!(quote_payload(&frame), Some(Vec::new()));
    frame[17] = 20;
    assert_eq!(quote_payload(&frame), None);
    frame[17] = 0;
    assert_eq!(quote_payload(&frame), None);
}

#[test]
fn header_length_below_the_minimum_counts_as_twenty_bytes() {
    let mut frame = quote_frame(15515, b"B6034xyz");
    // header length 0: the payload starts at byte 20 all the same, and is as long as the
    // declared total length, 36, cut at the end of the packet
    frame[14] = 0x40;
    assert_eq!(quote_payload(&frame), Some(b"B6034xyz".to_vec()));
    // header length 4 words = 16 bytes: 36 - 16 = 20 bytes from byte 20 on
    frame[14] = 0x44;
    assert_eq!(quote_payload(&frame), Some(b"B6034xyz".to_vec()));
    frame.extend_from_slice(b"....");
    assert_eq!(quote_payload(&frame), Some(b"B6034xyz....".to_vec()));
}

#[test]
fn header_length_beyond_the_packet_gives_nothing() {
    let mut frame = quote_frame(15515, b"B6034xyz");
    frame[14] = 0x4f;
    assert_eq!(quote_payload(&frame), None);
}

#[test]
fn the_udp_length_field_is_not_read() {
    let mut frame = quote_frame(15515, b"B6034xyz");
    frame[14 + 20 + 4] = 0x00;
    frame[14 + 20 + 5] = 0x08;
    assert_eq!(quote_payload(&frame), Some(b"B6034xyz".to_vec()));
}

#[test]
fn frames_are_read_as_the_header_layout_says() {
    let mut x: u64 = 0x2545_f491_4f6c_dd1d;
    let mut with_payload = 0;
    for round in 0..4000 {
        let mut next = || {
            x ^= x << 13;
            x ^= x >> 7;
            x ^= x << 17;
            x
        };
        let body_len = (next() % 40) as usize;
        let body: Vec<u8> = (0..body_len).map(|_| next() as u8).collect();
        let port = if next() % 4 == 0 { next() as u16 } else { 15515 + (next() % 2) as u16 };
        let options_len = 4 * (next() % 3) as usize;
        let options: Vec<u8> = (0..options_len).map(|_| next() as u8).collect();
        let protocol = if next() % 5 == 0 { next() as u8 } else { 17 };
        let ethertype = if next() % 5 == 0 { next() as u16 } else { 0x0800 };
        let mut frame =
            ethernet_frame(ethertype, &ipv4_packet(protocol, &options, &udp_datagram(port, &body)));
        match next() % 6 {
            0 => {
                let at = (next() % frame.len() as u64) as usize;
                frame[at] = next() as u8;
            },
            1 => {
                let keep = (next() % (frame.len() as u64 + 1)) as usize;
                frame.truncate(keep);
            },
            2 => {
                frame[14] = next() as u8;
            },
            3 => {
                frame[16] = (next() % 2) as u8;
                frame[17] = next() as u8;
            },
            _ => {},
        }
        let expected = payload_by_layout(&frame);
        if expected.is_some() {
            with_payload += 1;
        }
        assert_eq!(quote_payload(&frame), expected, "round {}: {:02x?}", round, frame);
    }
    assert!(with_payload > 500);
}
