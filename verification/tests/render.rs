use quote_feed::quote::{Decoded, PriceLevel, QuoteMessage};
use quote_feed::render::{format_system_time, render_message, OutputFormat};
use quote_feed::time::Timestamp;
use quote_feed::wire::parse_quote_message;

fn rendered_level(quantity: u64, price: u64) -> PriceLevel {
    PriceLevel { quantity, price }
}

fn payload_for_render(code: &[u8], bids: &[PriceLevel; 5], asks: &[PriceLevel; 5], time: &[u8]) -> Vec<u8> {
    assert_eq!(code.len(), 12);
    let mut p: Vec<u8> = Vec::new();
    p.extend_from_slice(b"B6034");
    p.extend_from_slice(code);
    p.extend_from_slice(b"001110012345");
    for l in bids.iter() {
        p.extend_from_slice(format!("{:05}{:07}", l.price, l.quantity).as_bytes());
    }
    p.extend_from_slice(b"0067890");
    for l in asks.iter() {
        p.extend_from_slice(format!("{:05}{:07}", l.price, l.quantity).as_bytes());
    }
    p.extend_from_slice(&[b'0'; 50]);
    p.extend_from_slice(time);
    p.push(0xff);
    p
}

fn message_for_render(code: &[u8], arrival: Timestamp, time: &[u8]) -> QuoteMessage {
    let bids = [
        rendered_level(100, 25_005),
        rendered_level(250, 25_000),
        rendered_level(7, 24_995),
        rendered_level(1_234_567, 24_990),
        rendered_level(0, 0),
    ];
    let asks = [
        rendered_level(90, 25_010),
        rendered_level(180, 25_015),
        rendered_level(9_999_999, 99_999),
        rendered_level(1, 1),
        rendered_level(42, 25_030),
    ];
    match parse_quote_message(&payload_for_render(code, &bids, &asks, time), arrival) {
        Decoded::Message(m) => m,
        Decoded::NoMessage => panic!("expected a message"),
    }
}

#[test]
fn system_time_has_six_fraction_digits() {
    assert_eq!(format_system_time(Timestamp { micros: 0 }), "0.000000");
    assert_eq!(format_system_time(Timestamp { micros: 5 }), "0.000005");
    assert_eq!(format_system_time(Timestamp { micros: 999_999 }), "0.999999");
    assert_eq!(format_system_time(Timestamp { micros: 1_000_000 }), "1.000000");
    assert_eq!(format_system_time(Timestamp { micros: 1_297_000_000_123_456 }), "1297000000.123456");
    assert_eq!(format_system_time(Timestamp { micros: 10_000_100 }), "10.000100");
    assert_eq!(format_system_time(Timestamp { micros: u64::MAX }), "18446744073709.551615");
}

#[test]
fn system_time_matches_the_standard_formatting() {
    let mut x: u64 = 0x9e37_79b9_7f4a_7c15;
    for _ in 0..500 {
        x ^= x << 13;
        x ^= x >> 7;
        x ^= x << 17;
        let micros = x >> (x % 64);
        let expected = format!("{}.{:06}", micros / 1_000_000, micros % 1_000_000);
        assert_eq!(format_system_time(Timestamp { micros }), expected);
    }
}

#[test]
fn compact_line_lists_bids_backwards_then_asks() {
    let arrival = Timestamp { micros: 1_297_036_800_000_000 + 32_400_123_456 };
    let m = message_for_render(b"KR4101F30007", arrival, b"09000012");
    let line = render_message(&m, OutputFormat::Default);
    assert_eq!(
        line,
        "1297069200.123456 1297069200.120000 KR4101F30007 \
         0@0 1234567@24990 7@24995 250@25000 100@25005 \
         90@25010 180@25015 9999999@99999 1@1 42@25030"
    );
}

#[test]
fn labelled_text_has_two_lines() {
    let arrival = Timestamp { micros: 1_297_036_800_000_000 + 32_400_123_456 };
    let m = message_for_render(b"KR4101F30007", arrival, b"09000012");
    let text = render_message(&m, OutputFormat::Formatted);
    assert_eq!(
        text,
        "Packet-Time: 1297069200.123456 | Accept-Time: 1297069200.120000 | Issue-Code: KR4101F30007\n\
         Bids: 0@0, 1234567@24990, 7@24995, 250@25000, 100@25005 | \
         Asks: 90@25010, 180@25015, 9999999@99999, 1@1, 42@25030"
    );
    assert_eq!(text.lines().count(), 2);
    assert!(!text.ends_with('\n'));
}

#[test]
fn issue_code_is_written_without_the_spaces_at_its_ends() {
    let m = message_for_render(b"  KR 41 F3  ", Timestamp { micros: 0 }, b"00000000");
    assert_eq!(m.issue_code(), "  KR 41 F3  ");
    let line = render_message(&m, OutputFormat::Default);
    assert!(line.starts_with("0.000000 0.000000 KR 41 F3 0@0 "), "{}", line);
    let text = render_message(&m, OutputFormat::Formatted);
    assert!(text.contains("| Issue-Code: KR 41 F3\nBids: "), "{}", text);
}

#[test]
fn issue_code_of_spaces_is_written_as_nothing() {
    let m = message_for_render(b"            ", Timestamp { micros: 0 }, b"00000000");
    let line = render_message(&m, OutputFormat::Default);
    assert!(line.starts_with("0.000000 0.000000  0@0 "), "{}", line);
    let text = render_message(&m, OutputFormat::Formatted);
    assert!(text.contains("| Issue-Code: \nBids: "), "{}", text);
}

#[test]
fn issue_code_trimming_matches_the_standard_trim() {
    let codes: [&[u8; 12]; 6] = [
        b"A           ",
        b"           A",
        b" A        B ",
        b"\t KR4101F30 ",
        b" .          ",
        b"KR4101F30007",
    ];
    for code in codes.iter() {
        let m = message_for_render(&code[..], Timestamp { micros: 0 }, b"00000000");
        let expected = format!("0.000000 0.000000 {} 0@0", m.issue_code().trim());
        let line = render_message(&m, OutputFormat::Default);
        assert!(line.starts_with(&expected), "{:?} -> {}", code, line);
    }
}

#[test]
fn formats_are_told_apart() {
    assert_ne!(OutputFormat::Default, OutputFormat::Formatted);
    let m = message_for_render(b"KR4101F30007", Timestamp { micros: 0 }, b"00000000");
    assert_ne!(render_message(&m, OutputFormat::Default), render_message(&m, OutputFormat::Formatted));
}
