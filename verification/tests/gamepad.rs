use bevy_react_core::gamepad::{
    announce_connection, announce_disconnection, input_gamepad, should_sweep,
    GamepadConnectedData, GamepadFrame, GamepadRegistry, PadAnnouncement, PadConnection,
    PadInput,
};

/// A headless stand-in for the bridge: the registry, the sweep flag, and
/// whether the first op batch has applied.
struct Bridge {
    registry: GamepadRegistry,
    announced: bool,
    live: bool,
}

impl Bridge {
    fn new() -> Self {
        Bridge { registry: GamepadRegistry::new(), announced: false, live: false }
    }

    fn update(&mut self, connections: Vec<PadConnection>, inputs: Vec<PadInput>) -> GamepadFrame {
        let (frame, announced) =
            self.registry.frame(self.live, self.announced, connections, &inputs);
        self.announced = announced;
        frame
    }
}

fn connect(entity: u64, name: &str) -> PadConnection {
    PadConnection::Connected {
        entity,
        name: name.to_string(),
        vendor_id: Some(0x054c),
        product_id: Some(0x0ce6),
    }
}

fn button(entity: u64, change: usize) -> PadInput {
    PadInput { entity, axis: false, change }
}

fn connected(a: &PadAnnouncement) -> &GamepadConnectedData {
    match a {
        PadAnnouncement::Connected(d) => d,
        other => panic!("expected gamepadConnected, got {other:?}"),
    }
}

fn quiet(frame: &GamepadFrame) -> bool {
    frame.announcements.is_empty() && frame.buttons.is_empty() && frame.axes.is_empty()
}

#[test]
fn connect_gates_until_first_batch_then_announces() {
    let (pad_a, pad_b) = (1u64, 2u64);
    let mut app = Bridge::new();

    let frame = app.update(vec![connect(pad_a, "Pad A")], vec![]);
    assert!(quiet(&frame), "gated until a batch has applied");

    app.live = true;
    let frame = app.update(vec![], vec![]);
    assert_eq!(frame.announcements.len(), 1, "no double announce");
    let d = connected(&frame.announcements[0]);
    assert_eq!(d.gamepad, 0);
    assert_eq!(d.name, "Pad A");
    assert_eq!(d.vendor_id, Some(0x054c));
    assert_eq!(d.product_id, Some(0x0ce6));

    let frame = app.update(vec![connect(pad_b, "Pad B")], vec![]);
    assert_eq!(frame.announcements.len(), 1);
    let d = connected(&frame.announcements[0]);
    assert_eq!(d.gamepad, 1);
    assert_eq!(d.name, "Pad B");

    let frame = app.update(vec![PadConnection::Disconnected { entity: pad_a }], vec![]);
    assert_eq!(frame.announcements.len(), 1);
    assert!(matches!(frame.announcements[0], PadAnnouncement::Disconnected { gamepad: 0 }));

    // Reconnect (same entity): fresh id, never a reuse.
    let frame = app.update(vec![connect(pad_a, "Pad A")], vec![]);
    assert_eq!(connected(&frame.announcements[0]).gamepad, 2);
}

#[test]
fn input_coalesces_into_one_event_per_frame() {
    let pad = 7u64;
    let mut app = Bridge::new();
    app.live = true;
    let frame = app.update(vec![connect(pad, "Pad")], vec![]);
    assert_eq!(frame.announcements.len(), 1);

    let frame = app.update(
        vec![],
        vec![button(pad, 0), button(pad, 1), PadInput { entity: pad, axis: true, change: 2 }],
    );
    assert!(frame.announcements.is_empty());
    assert_eq!(frame.buttons, vec![(0, 0), (0, 1)]);
    assert_eq!(frame.axes, vec![(0, 2)]);

    let frame = app.update(vec![], vec![]);
    assert!(quiet(&frame), "quiet frame sends nothing");
}

#[test]
fn duplicate_connect_same_entity_keeps_id_and_announces_once() {
    let pad = 3u64;
    let mut app = Bridge::new();
    let frame = app.update(vec![connect(pad, "Pad")], vec![]);
    assert!(quiet(&frame));
    app.live = true;
    let frame = app.update(vec![], vec![]);
    assert_eq!(connected(&frame.announcements[0]).gamepad, 0);

    // Same entity connects again, no disconnect between.
    let frame = app.update(vec![connect(pad, "Pad")], vec![]);
    assert!(frame.announcements.is_empty(), "duplicate must not re-announce");

    // The pad keeps its original id for input and rumble.
    let frame = app.update(vec![], vec![button(pad, 0)]);
    assert_eq!(frame.buttons, vec![(0, 0)]);
    assert_eq!(app.registry.entity_for(0), Some(pad));
}

#[test]
fn dual_stream_connect_registers_once() {
    // Only the dedicated connection stream registers: one connection change
    // reaches the registry, and the pad is announced once.
    let pad = 9u64;
    let mut app = Bridge::new();
    app.live = true;
    app.update(vec![], vec![]);
    let frame = app.update(vec![connect(pad, "Pad")], vec![]);
    assert_eq!(frame.announcements.len(), 1, "exactly one announce");
    assert_eq!(connected(&frame.announcements[0]).gamepad, 0);
}

#[test]
fn unknown_entity_input_is_dropped() {
    let mut app = Bridge::new();
    app.live = true;
    app.update(vec![], vec![]);
    let frame = app.update(vec![], vec![button(42, 0)]);
    assert!(quiet(&frame));
}

#[test]
fn gamepad_idle_frame_sends_nothing() {
    let mut app = Bridge::new();
    let frame = app.update(vec![], vec![]);
    assert!(quiet(&frame));
}

#[test]
fn sweep_announces_pads_connected_the_same_frame_once() {
    let mut app = Bridge::new();
    app.live = true;
    let frame = app.update(vec![connect(1, "A"), connect(2, "B")], vec![button(2, 0)]);
    let ids: Vec<u32> = frame.announcements.iter().map(|a| connected(a).gamepad).collect();
    assert_eq!(ids, vec![0, 1]);
    assert_eq!(frame.buttons, vec![(1, 0)]);
    assert!(app.announced);
}

#[test]
fn input_before_the_first_batch_is_dropped() {
    let mut app = Bridge::new();
    app.update(vec![connect(1, "A")], vec![]);
    let frame = app.update(vec![], vec![button(1, 0)]);
    assert!(quiet(&frame));
}

#[test]
fn announcement_rules() {
    assert!(announce_connection(true, true, true));
    assert!(!announce_connection(false, true, true));
    assert!(!announce_connection(true, false, true));
    assert!(!announce_connection(true, true, false));
    assert_eq!(announce_disconnection(Some(4), true, true), Some(4));
    assert_eq!(announce_disconnection(Some(4), true, false), None);
    assert!(should_sweep(true, false));
    assert!(!should_sweep(true, true));
    assert_eq!(input_gamepad(false, Some(1)), None);
    assert_eq!(input_gamepad(true, Some(1)), Some(1));
}

#[test]
fn registry_maps_both_ways_and_lists_in_id_order() {
    let mut r = GamepadRegistry::new();
    assert_eq!(r.connect(10, "A".to_string(), None, None), (0, true));
    assert_eq!(r.connect(20, "B".to_string(), None, Some(5)), (1, true));
    assert_eq!(r.id_for(20), Some(1));
    assert_eq!(r.entity_for(0), Some(10));
    assert_eq!(r.entity_for(7), None);
    assert_eq!(r.disconnect(10), Some(0));
    assert_eq!(r.disconnect(10), None);
    assert_eq!(r.connect(10, "A".to_string(), None, None), (2, true));
    let all = r.connected();
    let ids: Vec<u32> = all.iter().map(|d| d.gamepad).collect();
    assert_eq!(ids, vec![1, 2]);
    assert_eq!(all[0].product_id, Some(5));
}

#[test]
fn each_pad_is_announced_once_over_a_run() {
    let mut app = Bridge::new();
    let mut all = Vec::new();
    all.extend(app.update(vec![connect(1, "A"), connect(2, "B")], vec![]).announcements);
    all.extend(app.update(vec![PadConnection::Disconnected { entity: 2 }], vec![]).announcements);
    assert!(all.is_empty(), "nothing before the first live frame");
    app.live = true;
    all.extend(app.update(vec![connect(3, "C")], vec![]).announcements);
    all.extend(app.update(vec![connect(3, "C"), connect(2, "B")], vec![]).announcements);
    all.extend(app.update(vec![PadConnection::Disconnected { entity: 1 }], vec![]).announcements);
    all.extend(app.update(vec![PadConnection::Disconnected { entity: 1 }], vec![]).announcements);
    let mut connected_ids = Vec::new();
    let mut disconnected_ids = Vec::new();
    for a in &all {
        match a {
            PadAnnouncement::Connected(d) => connected_ids.push(d.gamepad),
            PadAnnouncement::Disconnected { gamepad } => disconnected_ids.push(*gamepad),
        }
    }
    // The sweep announces A (0) and C (2); B reconnects under a fresh id 3.
    assert_eq!(connected_ids, vec![0, 2, 3]);
    assert_eq!(disconnected_ids, vec![0]);
    let mut registered: Vec<u32> = app.registry.connected().iter().map(|d| d.gamepad).collect();
    registered.sort();
    assert_eq!(registered, vec![2, 3]);
}
