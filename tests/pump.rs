use changer::pump::{decimal_ascii, is_ack_tag, IngressAction, IngressPump, TransformPump};

fn frames(v: &[&str]) -> Vec<Vec<u8>> {
    v.iter().map(|s| s.as_bytes().to_vec()).collect()
}

fn published(a: IngressAction) -> Vec<Vec<u8>> {
    match a {
        IngressAction::Publish { frames } => frames,
        _ => panic!("expected a publish"),
    }
}

#[test]
fn echo_of_untransformed_message_scenario() {
    let mut pump = IngressPump::new();
    let out = published(pump.accept(frames(&["sensor.a", "hello"])));
    assert_eq!(out, frames(&["sensor.a", "1", "hello"]));
    assert_eq!(pump.count, 1);
    assert_eq!(pump.dropped, 0);
}

#[test]
fn frame_underflow_drop_scenario() {
    let mut pump = IngressPump::new();
    assert!(matches!(pump.accept(frames(&["only-one-frame"])), IngressAction::Drop));
    assert_eq!(pump.dropped, 1);
    assert_eq!(pump.count, 0);
    assert!(matches!(pump.accept(Vec::new()), IngressAction::Drop));
    assert_eq!(pump.dropped, 2);
}

#[test]
fn three_frame_message_publishes_frame_one() {
    let mut pump = IngressPump::new();
    let out = published(pump.accept(frames(&["log.in", "x", "user=alice id=42"])));
    assert_eq!(out, frames(&["log.in", "1", "x"]));
}

#[test]
fn sequence_numbers_increase_from_one() {
    let mut pump = IngressPump::new();
    let a = published(pump.accept(frames(&["s", "a"])));
    assert!(matches!(pump.accept(frames(&["s"])), IngressAction::Drop));
    let b = published(pump.accept(frames(&["s", "b"])));
    let c = published(pump.accept(frames(&["s", "id", "c"])));
    assert_eq!(a[1], b"1".to_vec());
    assert_eq!(b[1], b"2".to_vec());
    assert_eq!(c[1], b"3".to_vec());
    assert_eq!(pump.count, 3);
    assert_eq!(pump.dropped, 1);
}

#[test]
fn reserved_tag_is_never_published() {
    let mut pump = IngressPump::new();
    match pump.accept(frames(&["changer.ack", "m-7"])) {
        IngressAction::Ack { message_id } => assert_eq!(message_id, b"m-7".to_vec()),
        _ => panic!("expected an ack"),
    }
    match pump.accept(frames(&["changer.ack", "id", "m-8"])) {
        IngressAction::Ack { message_id } => assert_eq!(message_id, b"m-8".to_vec()),
        _ => panic!("expected an ack"),
    }
    assert_eq!(pump.count, 2);
    let out = published(pump.accept(frames(&["changer.acks", "p"])));
    assert_eq!(out, frames(&["changer.acks", "3", "p"]));
}

#[test]
fn ack_tag_is_recognised_exactly() {
    assert!(is_ack_tag(&b"changer.ack".to_vec()));
    assert!(!is_ack_tag(&b"changer.acK".to_vec()));
    assert!(!is_ack_tag(&b"changer".to_vec()));
    assert!(!is_ack_tag(&Vec::new()));
}

#[test]
fn transform_stage_drops_short_messages() {
    let mut pump = TransformPump::new();
    assert!(!pump.accept(&frames(&["log.in", "x"])));
    assert_eq!(pump.dropped, 1);
    assert_eq!(pump.count, 0);
    assert!(pump.accept(&frames(&["log.in", "x", "y"])));
    assert_eq!(pump.count, 1);
    assert_eq!(pump.dropped, 1);
}

#[test]
fn decimal_text_of_numbers() {
    assert_eq!(decimal_ascii(0), b"0".to_vec());
    assert_eq!(decimal_ascii(9), b"9".to_vec());
    assert_eq!(decimal_ascii(10), b"10".to_vec());
    assert_eq!(decimal_ascii(1234567), b"1234567".to_vec());
    assert_eq!(decimal_ascii(u64::MAX), u64::MAX.to_string().into_bytes());
}
