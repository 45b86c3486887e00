use bevy_react_core::host::{parse_u64, request_id_from_decimal, Mailbox};

#[test]
fn an_event_resolves_the_oldest_parked_caller() {
    let mut m: Mailbox<&str, u32> = Mailbox::new();
    assert_eq!(m.next_event(1), None);
    assert_eq!(m.next_event(2), None);
    assert_eq!(m.deliver("a"), Some((1, "a")));
    assert_eq!(m.deliver("b"), Some((2, "b")));
    // No caller parked: the event queues.
    assert_eq!(m.deliver("c"), None);
}

#[test]
fn queued_events_come_out_in_order() {
    let mut m: Mailbox<u8, ()> = Mailbox::new();
    for e in [1, 2, 3] {
        assert_eq!(m.deliver(e), None);
    }
    assert_eq!(m.next_event(()), Some(1));
    assert_eq!(m.next_event(()), Some(2));
    assert_eq!(m.next_event(()), Some(3));
    assert_eq!(m.next_event(()), None);
    // The caller is now parked and takes the next delivery.
    assert_eq!(m.deliver(4), Some(((), 4)));
}

#[test]
fn decimal_ids_parse_like_std() {
    for text in ["0", "42", "+7", "18446744073709551615", "007"] {
        assert_eq!(parse_u64(text.as_bytes()), text.parse::<u64>().ok(), "{text}");
    }
    for text in ["", "+", "-1", "1.5", "18446744073709551616", " 1", "abc"] {
        assert_eq!(parse_u64(text.as_bytes()), None, "{text}");
        assert!(text.parse::<u64>().is_err());
    }
}

#[test]
fn request_ids_fall_back_to_zero() {
    assert_eq!(request_id_from_decimal(Some("123")), 123);
    assert_eq!(request_id_from_decimal(Some("x")), 0);
    assert_eq!(request_id_from_decimal(Some("99999999999999999999")), 0);
    assert_eq!(request_id_from_decimal(None), 0);
}
