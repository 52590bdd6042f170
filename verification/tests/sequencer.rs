use quote_feed::quote::{Decoded, QuoteMessage};
use quote_feed::sequencer::Sequencer;
use quote_feed::time::Timestamp;
use quote_feed::wire::parse_quote_message;

fn stream_payload(event_hundredths: u64) -> Vec<u8> {
    let secs = event_hundredths / 100;
    let text = format!(
        "{:02}{:02}{:02}{:02}",
        secs / 3600,
        (secs % 3600) / 60,
        secs % 60,
        event_hundredths % 100
    );
    let mut p: Vec<u8> = Vec::new();
    p.extend_from_slice(b"B6034");
    p.extend_from_slice(b"KR4101F30007");
    p.extend_from_slice(&[b'0'; 189]);
    p.extend_from_slice(text.as_bytes());
    p.push(0xff);
    p
}

fn stream_message(event_hundredths: u64, tag: u64) -> QuoteMessage {
    match parse_quote_message(&stream_payload(event_hundredths), Timestamp { micros: tag }) {
        Decoded::Message(m) => m,
        Decoded::NoMessage => panic!("expected a message"),
    }
}

fn stream_frame(destination: u16, payload: &[u8]) -> Vec<u8> {
    let mut f: Vec<u8> = Vec::new();
    f.extend_from_slice(&[0x01, 0x00, 0x5e, 0x25, 0x36, 0x0a, 0x00, 0x1b, 0x21, 0x3c, 0x9d, 0xf8]);
    f.extend_from_slice(&[0x08, 0x00]);
    f.extend_from_slice(&[0x45, 0x00]);
    f.extend_from_slice(&((20 + 8 + payload.len()) as u16).to_be_bytes());
    f.extend_from_slice(&[0x00, 0x00, 0x40, 0x00, 0x40, 17, 0x00, 0x00]);
    f.extend_from_slice(&[192, 168, 0, 1, 233, 37, 54, 10]);
    f.extend_from_slice(&[0xc3, 0x50]);
    f.extend_from_slice(&destination.to_be_bytes());
    f.extend_from_slice(&((8 + payload.len()) as u16).to_be_bytes());
    f.extend_from_slice(&[0x00, 0x00]);
    f.extend_from_slice(payload);
    f
}

fn stream_tags(msgs: &[QuoteMessage]) -> Vec<u64> {
    msgs.iter().map(|m| m.arrival_time().micros).collect()
}

#[test]
fn sequencer_knows_its_mode() {
    assert!(Sequencer::new(true).is_reordering());
    assert!(!Sequencer::new(false).is_reordering());
}

#[test]
fn without_reordering_messages_come_out_as_they_arrive() {
    let stream: [u64; 8] = [1000, 900, 1450, 100, 5000, 4999, 0, 5000];
    let mut s = Sequencer::new(false);
    let mut given: Vec<u64> = Vec::new();
    for (i, e) in stream.iter().enumerate() {
        let (next, out) = s.accept(stream_message(*e, i as u64));
        assert_eq!(out.len(), 1);
        assert_eq!(out[0].event_time(), Timestamp { micros: e * 10_000 });
        given.extend(stream_tags(&out));
        s = next;
    }
    let (s, out) = s.finish();
    assert!(out.is_empty());
    assert!(!s.is_reordering());
    assert_eq!(given, (0..8).collect::<Vec<u64>>());
}

#[test]
fn with_reordering_messages_come_out_by_event_time() {
    let s = Sequencer::new(true);
    let (s, out) = s.accept(stream_message(1000, 1));
    assert!(out.is_empty());
    let (s, out) = s.accept(stream_message(900, 2));
    assert!(out.is_empty());
    let (s, out) = s.accept(stream_message(1450, 3));
    assert_eq!(stream_tags(&out), vec![2, 1]);
    let (s, out) = s.finish();
    assert_eq!(stream_tags(&out), vec![3]);
    assert!(s.is_reordering());
    let (_, out) = s.finish();
    assert!(out.is_empty());
}

#[test]
fn frames_with_quotes_are_decoded_and_given_out() {
    let s = Sequencer::new(false);
    let frame = stream_frame(15515, &stream_payload(123_456));
    let arrival = Timestamp { micros: 17 };
    let (s, out) = s.on_frame(&frame, arrival);
    assert_eq!(out.len(), 1);
    assert_eq!(out[0].arrival_time(), arrival);
    assert_eq!(out[0].event_time(), Timestamp { micros: 1_234_560_000 });
    assert_eq!(out[0].issue_code(), "KR4101F30007");
    let (_, out) = s.on_frame(&stream_frame(15516, &stream_payload(5)), Timestamp { micros: 18 });
    assert_eq!(out.len(), 1);
    assert_eq!(out[0].event_time(), Timestamp { micros: 50_000 });
}

#[test]
fn frames_without_quotes_change_nothing() {
    let s = Sequencer::new(true);
    let (s, out) = s.on_frame(&stream_frame(15515, &stream_payload(1000)), Timestamp { micros: 1 });
    assert!(out.is_empty());
    // another port
    let (s, out) = s.on_frame(&stream_frame(15517, &stream_payload(9000)), Timestamp { micros: 2 });
    assert!(out.is_empty());
    // not a quote message
    let mut other = stream_payload(9000);
    other[4] = b'5';
    let (s, out) = s.on_frame(&stream_frame(15515, &other), Timestamp { micros: 3 });
    assert!(out.is_empty());
    // cut short
    let whole = stream_payload(9000);
    let (s, out) = s.on_frame(&stream_frame(15515, &whole[..200]), Timestamp { micros: 4 });
    assert!(out.is_empty());
    // not even a frame
    let (s, out) = s.on_frame(&[0x00, 0x01], Timestamp { micros: 5 });
    assert!(out.is_empty());
    // had any of these been taken, the watermark would have released the first message
    let (_, out) = s.finish();
    assert_eq!(stream_tags(&out), vec![1]);
}

#[test]
fn frames_go_through_the_reorder_buffer() {
    let mut s = Sequencer::new(true);
    let mut given: Vec<u64> = Vec::new();
    let stream: [u64; 6] = [1000, 900, 1450, 1200, 2000, 1900];
    for (i, e) in stream.iter().enumerate() {
        let frame = stream_frame(15515 + (i as u16 % 2), &stream_payload(*e));
        let (next, out) = s.on_frame(&frame, Timestamp { micros: i as u64 });
        given.extend(out.iter().map(|m| m.event_time().micros / 10_000));
        s = next;
    }
    assert_eq!(given, vec![900, 1000, 1200, 1450]);
    let (_, out) = s.finish();
    given.extend(out.iter().map(|m| m.event_time().micros / 10_000));
    assert_eq!(given, vec![900, 1000, 1200, 1450, 1900, 2000]);
}
