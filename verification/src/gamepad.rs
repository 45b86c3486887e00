//! Gamepad support: the wire names of buttons and axes, the registry that
//! gives every connected pad a monotonic, never-reused wire id, and the
//! gating of connection announcements.

use vstd::prelude::*;

verus! {

/// Wire name for a gamepad button (Bevy's button variants; non-standard
/// buttons cross as `Other(n)`).
#[derive(Debug, Clone, Copy, PartialEq, Eq, Structural)]
pub enum GamepadButtonName {
    South,
    East,
    North,
    West,
    C,
    Z,
    LeftTrigger,
    LeftTrigger2,
    RightTrigger,
    RightTrigger2,
    Select,
    Start,
    Mode,
    LeftThumb,
    RightThumb,
    DPadUp,
    DPadDown,
    DPadLeft,
    DPadRight,
    Other(u8),
}

/// Wire name for a gamepad axis (Bevy's axis variants; non-standard axes
/// cross as `Other(n)`).
#[derive(Debug, Clone, Copy, PartialEq, Eq, Structural)]
pub enum GamepadAxisName {
    LeftStickX,
    LeftStickY,
    LeftZ,
    RightStickX,
    RightStickY,
    RightZ,
    Other(u8),
}

/// A connected pad as announced to JS: its wire id plus the metadata the
/// connection event carries.
#[derive(Debug)]
pub struct GamepadConnectedData {
    pub gamepad: u32,
    pub name: String,
    pub vendor_id: Option<u16>,
    pub product_id: Option<u16>,
}

/// A connected pad's identity: its entity (as bits) and metadata.
#[derive(Debug)]
pub struct PadInfo {
    pub entity: u64,
    pub name: String,
    pub vendor_id: Option<u16>,
    pub product_id: Option<u16>,
}

/// Entity ↔ wire-id map for connected pads. Ids are monotonic and never
/// reused: a reconnect (same entity or not) gets a fresh id. Pads are kept in
/// ascending id order.
pub struct GamepadRegistry {
    next_id: u32,
    pads: Vec<(u32, PadInfo)>,
}

/// The model of the registry: the next id to hand out and the connected pads
/// in ascending id order.
pub struct RegistryView {
    pub next_id: nat,
    pub pads: Seq<(u32, PadInfo)>,
}

impl View for GamepadRegistry {
    type V = RegistryView;

    closed spec fn view(&self) -> RegistryView {
        RegistryView { next_id: self.next_id as nat, pads: self.pads@ }
    }
}

/// The index of the pad for `entity`, or `-1`.
pub open spec fn index_of_entity(pads: Seq<(u32, PadInfo)>, entity: u64) -> int {
    if exists|i: int| 0 <= i < pads.len() && pads[i].1.entity == entity {
        choose|i: int| 0 <= i < pads.len() && pads[i].1.entity == entity
    } else {
        -1
    }
}

/// The index of the pad under wire id `id`, or `-1`.
pub open spec fn index_of_id(pads: Seq<(u32, PadInfo)>, id: u32) -> int {
    if exists|i: int| 0 <= i < pads.len() && pads[i].0 == id {
        choose|i: int| 0 <= i < pads.len() && pads[i].0 == id
    } else {
        -1
    }
}

impl RegistryView {
    /// Ids ascend strictly, every id is below `next_id`, and no entity is
    /// registered twice.
    pub open spec fn well_formed(self) -> bool {
        &&& forall|i: int, j: int|
            0 <= i < j < self.pads.len() ==> #[trigger] self.pads[i].0 < #[trigger] self.pads[j].0
        &&& forall|i: int| 0 <= i < self.pads.len() ==> #[trigger] self.pads[i].0 < self.next_id
        &&& forall|i: int, j: int|
            0 <= i < self.pads.len() && 0 <= j < self.pads.len() && i != j
                ==> #[trigger] self.pads[i].1.entity != #[trigger] self.pads[j].1.entity
    }

    /// The wire ids of the connected pads.
    pub open spec fn ids(self) -> Seq<u32> {
        self.pads.map_values(|p: (u32, PadInfo)| p.0)
    }
}

impl GamepadRegistry {
    /// An empty registry: the first pad will get id `0`.
    pub fn new() -> (r: Self)
        ensures
            r@.next_id == 0,
            r@.pads.len() == 0,
            r@.well_formed(),
    {
        GamepadRegistry { next_id: 0, pads: Vec::new() }
    }

    /// The id the next fresh pad will get.
    pub fn next_id(&self) -> (r: u32)
        ensures
            r == self@.next_id,
    {
        self.next_id
    }

    /// Wire id for a pad entity (a linear scan — pad counts are tiny).
    pub fn id_for(&self, entity: u64) -> (r: Option<u32>)
        requires
            self@.well_formed(),
        ensures
            index_of_entity(self@.pads, entity) < 0 ==> r is None,
            index_of_entity(self@.pads, entity) >= 0 ==> r == Some(
                self@.pads[index_of_entity(self@.pads, entity)].0,
            ),
    {
        match self.position_of(entity) {
            Some(i) => Some(self.pads[i].0),
            None => None,
        }
    }

    fn position_of(&self, entity: u64) -> (r: Option<usize>)
        requires
            self@.well_formed(),
        ensures
            index_of_entity(self@.pads, entity) < 0 ==> r is None,
            index_of_entity(self@.pads, entity) >= 0 ==> r is Some,
            r matches Some(i) ==> i == index_of_entity(self@.pads, entity) && i < self@.pads.len(),
    {
        let mut i: usize = 0;
        while i < self.pads.len()
            invariant
                0 <= i <= self.pads@.len(),
                self@.well_formed(),
                forall|j: int| 0 <= j < i ==> self.pads@[j].1.entity != entity,
            decreases self.pads@.len() - i,
        {
            if self.pads[i].1.entity == entity {
                proof {
                    let k = index_of_entity(self@.pads, entity);
                    assert(0 <= k < self.pads@.len() && self.pads@[k].1.entity == entity);
                    assert(k == i);
                }
                return Some(i);
            }
            i = i + 1;
        }
        None
    }

    /// Pad entity for a wire id (the rumble direction).
    pub fn entity_for(&self, id: u32) -> (r: Option<u64>)
        requires
            self@.well_formed(),
        ensures
            index_of_id(self@.pads, id) < 0 ==> r is None,
            index_of_id(self@.pads, id) >= 0 ==> r == Some(
                self@.pads[index_of_id(self@.pads, id)].1.entity,
            ),
    {
        let mut i: usize = 0;
        while i < self.pads.len()
            invariant
                0 <= i <= self.pads@.len(),
                self@.well_formed(),
                forall|j: int| 0 <= j < i ==> self.pads@[j].0 != id,
            decreases self.pads@.len() - i,
        {
            if self.pads[i].0 == id {
                proof {
                    let k = index_of_id(self@.pads, id);
                    assert(0 <= k < self.pads@.len() && self.pads@[k].0 == id);
                    if k < i {
                        assert(self.pads@[k].0 < self.pads@[i as int].0);
                    } else if k > i {
                        assert(self.pads@[i as int].0 < self.pads@[k].0);
                    }
                }
                return Some(self.pads[i].1.entity);
            }
            i = i + 1;
        }
        None
    }

    /// Register a connection. A fresh entity gets a fresh id (`true`): the
    /// next id, never handed out before. An entity that is already registered
    /// refreshes its metadata in place and keeps its id (`false`).
    pub fn connect(
        &mut self,
        entity: u64,
        name: String,
        vendor_id: Option<u16>,
        product_id: Option<u16>,
    ) -> (r: (u32, bool))
        requires
            old(self)@.well_formed(),
            index_of_entity(old(self)@.pads, entity) < 0 ==> old(self)@.next_id < u32::MAX,
        ensures
            final(self)@.well_formed(),
            final(self)@.next_id >= old(self)@.next_id,
            r.1 == (index_of_entity(old(self)@.pads, entity) < 0),
            r.1 ==> {
                &&& r.0 == old(self)@.next_id
                &&& final(self)@.next_id == old(self)@.next_id + 1
                &&& final(self)@.pads == old(self)@.pads.push(
                    (r.0, PadInfo { entity, name, vendor_id, product_id }),
                )
            },
            !r.1 ==> {
                let k = index_of_entity(old(self)@.pads, entity);
                &&& r.0 == old(self)@.pads[k].0
                &&& final(self)@.next_id == old(self)@.next_id
                &&& final(self)@.pads == old(self)@.pads.update(
                    k,
                    (r.0, PadInfo { entity, name, vendor_id, product_id }),
                )
            },
    {
        match self.position_of(entity) {
            Some(i) => {
                let id = self.pads[i].0;
                let ghost before = self@;
                proof {
                    let k = index_of_entity(before.pads, entity);
                    assert(0 <= k < before.pads.len() && before.pads[k].1.entity == entity);
                }
                self.pads.set(i, (id, PadInfo { entity, name, vendor_id, product_id }));
                proof {
                    assert forall|a: int, b: int|
                        0 <= a < self@.pads.len() && 0 <= b < self@.pads.len() && a != b
                            implies #[trigger] self@.pads[a].1.entity
                            != #[trigger] self@.pads[b].1.entity by {
                        if a != i && b != i {
                            assert(before.pads[a].1.entity != before.pads[b].1.entity);
                        } else if a == i {
                            assert(before.pads[b].1.entity != before.pads[a].1.entity);
                        } else {
                            assert(before.pads[a].1.entity != before.pads[b].1.entity);
                        }
                    }
                }
                (id, false)
            },
            None => {
                let ghost before = self@;
                let id = self.next_id;
                self.next_id = self.next_id + 1;
                self.pads.push((id, PadInfo { entity, name, vendor_id, product_id }));
                proof {
                    assert forall|a: int, b: int|
                        0 <= a < self@.pads.len() && 0 <= b < self@.pads.len() && a != b
                            implies #[trigger] self@.pads[a].1.entity
                            != #[trigger] self@.pads[b].1.entity by {
                        if a < before.pads.len() && b < before.pads.len() {
                            assert(before.pads[a].1.entity != before.pads[b].1.entity);
                        } else if a < before.pads.len() {
                            assert(self@.pads[a] == before.pads[a]);
                            assert(before.pads[a].1.entity != entity);
                        } else {
                            assert(self@.pads[b] == before.pads[b]);
                            assert(before.pads[b].1.entity != entity);
                        }
                    }
                    assert forall|a: int, b: int|
                        0 <= a < b < self@.pads.len() implies #[trigger] self@.pads[a].0
                            < #[trigger] self@.pads[b].0 by {
                        if b < before.pads.len() {
                            assert(before.pads[a].0 < before.pads[b].0);
                        } else {
                            assert(self@.pads[a] == before.pads[a]);
                        }
                    }
                }
                (id, true)
            },
        }
    }

    /// Drop the pad for `entity`, returning the wire id it was known under.
    /// Its id is retired for good: the next connection gets a fresh one.
    pub fn disconnect(&mut self, entity: u64) -> (r: Option<u32>)
        requires
            old(self)@.well_formed(),
        ensures
            final(self)@.well_formed(),
            final(self)@.next_id == old(self)@.next_id,
            index_of_entity(old(self)@.pads, entity) < 0 ==> r is None && final(self)@.pads
                == old(self)@.pads,
            index_of_entity(old(self)@.pads, entity) >= 0 ==> ({
                let k = index_of_entity(old(self)@.pads, entity);
                &&& r == Some(old(self)@.pads[k].0)
                &&& final(self)@.pads == old(self)@.pads.remove(k)
            }),
    {
        match self.position_of(entity) {
            Some(i) => {
                let ghost before = self@;
                proof {
                    let k = index_of_entity(before.pads, entity);
                    assert(0 <= k < before.pads.len() && before.pads[k].1.entity == entity);
                }
                let (id, _) = self.pads.remove(i);
                proof {
                    assert forall|a: int, b: int|
                        0 <= a < b < self@.pads.len() implies #[trigger] self@.pads[a].0
                            < #[trigger] self@.pads[b].0 by {
                        let a0 = if a < i { a } else { a + 1 };
                        let b0 = if b < i { b } else { b + 1 };
                        assert(self@.pads[a] == before.pads[a0]);
                        assert(self@.pads[b] == before.pads[b0]);
                        assert(before.pads[a0].0 < before.pads[b0].0);
                    }
                    assert forall|a: int| 0 <= a < self@.pads.len() implies #[trigger] self@.pads[a].0
                        < self@.next_id by {
                        let a0 = if a < i { a } else { a + 1 };
                        assert(self@.pads[a] == before.pads[a0]);
                    }
                    assert forall|a: int, b: int|
                        0 <= a < self@.pads.len() && 0 <= b < self@.pads.len() && a != b
                            implies #[trigger] self@.pads[a].1.entity
                            != #[trigger] self@.pads[b].1.entity by {
                        let a0 = if a < i { a } else { a + 1 };
                        let b0 = if b < i { b } else { b + 1 };
                        assert(self@.pads[a] == before.pads[a0]);
                        assert(self@.pads[b] == before.pads[b0]);
                    }
                }
                Some(id)
            },
            None => None,
        }
    }

    /// One frame of the gamepad bridge: apply the frame's connection changes
    /// in order (announcing them once `live` and the sweep has run, i.e.
    /// `announced`), run the one-time late-join sweep the first live frame,
    /// and pick the button and axis changes that cross (see
    /// [`crossing_inputs`]). The returned `announced` is the sweep flag for
    /// the next frame.
    pub fn frame(
        &mut self,
        live: bool,
        announced: bool,
        connections: Vec<PadConnection>,
        inputs: &Vec<PadInput>,
    ) -> (r: (GamepadFrame, bool))
        requires
            old(self)@.well_formed(),
            connections_effect(old(self)@, connections@, live, announced).0.next_id <= u32::MAX,
        ensures
            final(self)@.well_formed(),
            final(self)@ == connections_effect(old(self)@, connections@, live, announced).0,
            r.0.announcements@ == connections_effect(old(self)@, connections@, live, announced).1
                + if live && !announced {
                sweep_announcements(final(self)@)
            } else {
                Seq::<PadAnnouncement>::empty()
            },
            (final(self)@, r.0.announcements@) == frame_effect(
                old(self)@,
                announced,
                live,
                connections@,
            ),
            r.0.buttons@ == crossing_inputs(final(self)@, inputs@, live, false),
            r.0.axes@ == crossing_inputs(final(self)@, inputs@, live, true),
            r.1 == (announced || live),
    {
        let ghost all = connections@;
        let ghost r0 = self@;
        let mut rest = connections;
        let mut announcements: Vec<PadAnnouncement> = Vec::new();
        let n = rest.len();
        let mut i: usize = 0;
        while i < n
            invariant
                n == all.len(),
                0 <= i <= n,
                rest@ == all.subrange(i as int, n as int),
                self@.well_formed(),
                self@ == connections_effect(r0, all.take(i as int), live, announced).0,
                announcements@ == connections_effect(r0, all.take(i as int), live, announced).1,
                connections_effect(r0, all, live, announced).0.next_id <= u32::MAX,
            decreases n - i,
        {
            proof {
                assert(all.take(i + 1).drop_last() =~= all.take(i as int));
                assert(all.take(i + 1).last() == all[i as int]);
                lemma_connections_next_id_grows(r0, all, i + 1, live, announced);
            }
            let c = rest.remove(0);
            assert(c == all[i as int]);
            match c {
                PadConnection::Connected { entity, name, vendor_id, product_id } => {
                    let event_name = name.clone();
                    let (id, is_new) = self.connect(entity, name, vendor_id, product_id);
                    if announce_connection(is_new, live, announced) {
                        announcements.push(
                            PadAnnouncement::Connected(
                                GamepadConnectedData {
                                    gamepad: id,
                                    name: event_name,
                                    vendor_id,
                                    product_id,
                                },
                            ),
                        );
                    }
                },
                PadConnection::Disconnected { entity } => {
                    let gone = self.disconnect(entity);
                    if let Some(g) = announce_disconnection(gone, live, announced) {
                        announcements.push(PadAnnouncement::Disconnected { gamepad: g });
                    }
                },
            }
            proof {
                assert(rest@ =~= all.subrange(i + 1, n as int));
            }
            i = i + 1;
        }
        proof {
            assert(all.take(n as int) =~= all);
        }
        let ghost conn_events = announcements@;
        if should_sweep(live, announced) {
            let mut pads = self.connected();
            let ghost listed = pads@;
            let m = pads.len();
            let mut k: usize = 0;
            while k < m
                invariant
                    m == listed.len(),
                    listed.len() == self@.pads.len(),
                    0 <= k <= m,
                    pads@ == listed.subrange(k as int, m as int),
                    forall|j: int|
                        0 <= j < listed.len() ==> {
                            &&& #[trigger] listed[j].gamepad == self@.pads[j].0
                            &&& listed[j].name == self@.pads[j].1.name
                            &&& listed[j].vendor_id == self@.pads[j].1.vendor_id
                            &&& listed[j].product_id == self@.pads[j].1.product_id
                        },
                    announcements@ == conn_events + sweep_announcements(self@).take(k as int),
                decreases m - k,
            {
                let d = pads.remove(0);
                assert(d == listed[k as int]);
                announcements.push(PadAnnouncement::Connected(d));
                proof {
                    let ki = k as int;
                    assert(listed[ki].gamepad == self@.pads[ki].0);
                    assert(d == GamepadConnectedData {
                        gamepad: self@.pads[ki].0,
                        name: self@.pads[ki].1.name,
                        vendor_id: self@.pads[ki].1.vendor_id,
                        product_id: self@.pads[ki].1.product_id,
                    });
                    assert(sweep_announcements(self@)[ki] == PadAnnouncement::Connected(d));
                    assert(sweep_announcements(self@).take(k + 1) =~= sweep_announcements(
                        self@,
                    ).take(k as int).push(PadAnnouncement::Connected(d)));
                    assert(pads@ =~= listed.subrange(k + 1, m as int));
                }
                k = k + 1;
            }
            proof {
                assert(sweep_announcements(self@).take(m as int) =~= sweep_announcements(self@));
            }
        } else {
            assert(announcements@ =~= conn_events + Seq::<PadAnnouncement>::empty());
        }
        let mut buttons: Vec<(u32, usize)> = Vec::new();
        let mut axes: Vec<(u32, usize)> = Vec::new();
        let mut j: usize = 0;
        while j < inputs.len()
            invariant
                0 <= j <= inputs@.len(),
                self@.well_formed(),
                buttons@ == crossing_inputs(self@, inputs@.take(j as int), live, false),
                axes@ == crossing_inputs(self@, inputs@.take(j as int), live, true),
            decreases inputs@.len() - j,
        {
            proof {
                assert(inputs@.take(j + 1).drop_last() =~= inputs@.take(j as int));
                assert(inputs@.take(j + 1).last() == inputs@[j as int]);
            }
            let x = inputs[j];
            if let Some(id) = input_gamepad(live, self.id_for(x.entity)) {
                if x.axis {
                    axes.push((id, x.change));
                } else {
                    buttons.push((id, x.change));
                }
            }
            j = j + 1;
        }
        proof {
            assert(inputs@.take(inputs@.len() as int) =~= inputs@);
        }
        (GamepadFrame { announcements, buttons, axes }, announced || live)
    }

    /// The connected pads as announced to JS, in ascending id order (the
    /// late-join sweep and the `getAll` pull).
    pub fn connected(&self) -> (r: Vec<GamepadConnectedData>)
        requires
            self@.well_formed(),
        ensures
            r@.len() == self@.pads.len(),
            forall|i: int|
                0 <= i < r@.len() ==> {
                    &&& #[trigger] r@[i].gamepad == self@.pads[i].0
                    &&& r@[i].name == self@.pads[i].1.name
                    &&& r@[i].vendor_id == self@.pads[i].1.vendor_id
                    &&& r@[i].product_id == self@.pads[i].1.product_id
                },
    {
        let mut out: Vec<GamepadConnectedData> = Vec::new();
        let mut i: usize = 0;
        while i < self.pads.len()
            invariant
                0 <= i <= self.pads@.len(),
                out@.len() == i,
                forall|j: int|
                    0 <= j < i ==> {
                        &&& #[trigger] out@[j].gamepad == self.pads@[j].0
                        &&& out@[j].name == self.pads@[j].1.name
                        &&& out@[j].vendor_id == self.pads@[j].1.vendor_id
                        &&& out@[j].product_id == self.pads@[j].1.product_id
                    },
            decreases self.pads@.len() - i,
        {
            let pad = &self.pads[i];
            out.push(
                GamepadConnectedData {
                    gamepad: pad.0,
                    name: pad.1.name.clone(),
                    vendor_id: pad.1.vendor_id,
                    product_id: pad.1.product_id,
                },
            );
            i = i + 1;
        }
        out
    }
}

/// A connection change as the dedicated connection stream reports it.
pub enum PadConnection {
    Connected { entity: u64, name: String, vendor_id: Option<u16>, product_id: Option<u16> },
    Disconnected { entity: u64 },
}

/// A button or axis change of a frame: the pad entity, whether it is an
/// axis, and the index of the change in the frame's own record (which holds
/// its value).
#[derive(Debug, Clone, Copy)]
pub struct PadInput {
    pub entity: u64,
    pub axis: bool,
    pub change: usize,
}

/// A connection event sent to JS.
#[derive(Debug)]
pub enum PadAnnouncement {
    Connected(GamepadConnectedData),
    Disconnected { gamepad: u32 },
}

/// What a frame sends: the connection events in order, then (when either
/// list is non-empty) one input event coalescing the frame's button and axis
/// changes, each as its pad's wire id and the change's index.
pub struct GamepadFrame {
    pub announcements: Vec<PadAnnouncement>,
    pub buttons: Vec<(u32, usize)>,
    pub axes: Vec<(u32, usize)>,
}

/// The registry after `entity` connects, the pad's id, and whether it is new.
pub open spec fn connect_view(
    r: RegistryView,
    entity: u64,
    name: String,
    vendor_id: Option<u16>,
    product_id: Option<u16>,
) -> (RegistryView, u32, bool) {
    let k = index_of_entity(r.pads, entity);
    let info = PadInfo { entity, name, vendor_id, product_id };
    if k < 0 {
        (
            RegistryView { next_id: r.next_id + 1, pads: r.pads.push((r.next_id as u32, info)) },
            r.next_id as u32,
            true,
        )
    } else {
        (RegistryView { next_id: r.next_id, pads: r.pads.update(k, (r.pads[k].0, info)) }, r.pads[k].0, false)
    }
}

/// The registry after `entity` disconnects, and the id it was known under.
pub open spec fn disconnect_view(r: RegistryView, entity: u64) -> (RegistryView, Option<u32>) {
    let k = index_of_entity(r.pads, entity);
    if k < 0 {
        (r, None)
    } else {
        (RegistryView { next_id: r.next_id, pads: r.pads.remove(k) }, Some(r.pads[k].0))
    }
}

/// The registry after a frame's connection changes, and the events they
/// send: a fresh pad and a registered pad's disconnect are announced once
/// the bridge is live and the sweep has run (earlier ones are covered by the
/// sweep); a repeated connect of a registered pad refreshes it silently.
pub open spec fn connections_effect(
    r: RegistryView,
    conns: Seq<PadConnection>,
    live: bool,
    announced: bool,
) -> (RegistryView, Seq<PadAnnouncement>)
    decreases conns.len(),
{
    if conns.len() == 0 {
        (r, seq![])
    } else {
        let (r0, ev0) = connections_effect(r, conns.drop_last(), live, announced);
        match conns.last() {
            PadConnection::Connected { entity, name, vendor_id, product_id } => {
                let (r1, id, is_new) = connect_view(r0, entity, name, vendor_id, product_id);
                (
                    r1,
                    if is_new && live && announced {
                        ev0.push(
                            PadAnnouncement::Connected(
                                GamepadConnectedData { gamepad: id, name, vendor_id, product_id },
                            ),
                        )
                    } else {
                        ev0
                    },
                )
            },
            PadConnection::Disconnected { entity } => {
                let (r1, id) = disconnect_view(r0, entity);
                (
                    r1,
                    if id is Some && live && announced {
                        ev0.push(PadAnnouncement::Disconnected { gamepad: id.unwrap() })
                    } else {
                        ev0
                    },
                )
            },
        }
    }
}

/// The late-join sweep: every registered pad announced, in id order.
pub open spec fn sweep_announcements(r: RegistryView) -> Seq<PadAnnouncement> {
    Seq::new(
        r.pads.len(),
        |i: int|
            PadAnnouncement::Connected(
                GamepadConnectedData {
                    gamepad: r.pads[i].0,
                    name: r.pads[i].1.name,
                    vendor_id: r.pads[i].1.vendor_id,
                    product_id: r.pads[i].1.product_id,
                },
            ),
    )
}

/// The frame's changes of one kind (`axis`) that cross: while live, from a
/// registered pad, under its wire id.
pub open spec fn crossing_inputs(r: RegistryView, inputs: Seq<PadInput>, live: bool, axis: bool) -> Seq<
    (u32, usize),
>
    decreases inputs.len(),
{
    if inputs.len() == 0 {
        seq![]
    } else {
        let prev = crossing_inputs(r, inputs.drop_last(), live, axis);
        let x = inputs.last();
        let k = index_of_entity(r.pads, x.entity);
        if x.axis == axis && live && k >= 0 {
            prev.push((r.pads[k].0, x.change))
        } else {
            prev
        }
    }
}

proof fn lemma_connections_next_id_grows(
    r: RegistryView,
    conns: Seq<PadConnection>,
    i: int,
    live: bool,
    announced: bool,
)
    requires
        0 <= i <= conns.len(),
    ensures
        connections_effect(r, conns.take(i), live, announced).0.next_id <= connections_effect(
            r,
            conns,
            live,
            announced,
        ).0.next_id,
    decreases conns.len(),
{
    if i < conns.len() {
        assert(conns.drop_last().take(i) =~= conns.take(i));
        lemma_connections_next_id_grows(r, conns.drop_last(), i, live, announced);
    } else {
        assert(conns.take(i) =~= conns);
    }
}

/// The pad `p` was registered in `r` under the same id.
pub open spec fn kept_pad(r: RegistryView, p: (u32, PadInfo)) -> bool {
    exists|j: int| 0 <= j < r.pads.len() && r.pads[j].0 == p.0 && r.pads[j].1.entity == p.1.entity
}

proof fn lemma_connect_view_step(
    r: RegistryView,
    entity: u64,
    name: String,
    vendor_id: Option<u16>,
    product_id: Option<u16>,
)
    requires
        r.well_formed(),
        r.next_id <= u32::MAX,
        index_of_entity(r.pads, entity) < 0 ==> r.next_id < u32::MAX,
    ensures
        ({
            let f = connect_view(r, entity, name, vendor_id, product_id).0;
            &&& f.well_formed()
            &&& f.next_id >= r.next_id
            &&& forall|i: int|
                0 <= i < f.pads.len() ==> kept_pad(r, #[trigger] f.pads[i]) || f.pads[i].0
                    == r.next_id
        }),
{
    let f = connect_view(r, entity, name, vendor_id, product_id).0;
    let k = index_of_entity(r.pads, entity);
    if k < 0 {
        assert forall|a: int, b: int|
            0 <= a < f.pads.len() && 0 <= b < f.pads.len() && a != b implies #[trigger] f.pads[a].1.entity
                != #[trigger] f.pads[b].1.entity by {
            if a < r.pads.len() && b < r.pads.len() {
                assert(r.pads[a].1.entity != r.pads[b].1.entity);
            } else if a < r.pads.len() {
                assert(f.pads[a] == r.pads[a]);
                assert(r.pads[a].1.entity != entity);
            } else {
                assert(f.pads[b] == r.pads[b]);
                assert(r.pads[b].1.entity != entity);
            }
        }
        assert forall|a: int, b: int| 0 <= a < b < f.pads.len() implies #[trigger] f.pads[a].0
            < #[trigger] f.pads[b].0 by {
            if b < r.pads.len() {
                assert(r.pads[a].0 < r.pads[b].0);
            } else {
                assert(f.pads[a] == r.pads[a]);
            }
        }
        assert forall|i: int| 0 <= i < f.pads.len() implies kept_pad(r, #[trigger] f.pads[i])
            || f.pads[i].0 == r.next_id by {
            if i < r.pads.len() {
                assert(f.pads[i] == r.pads[i]);
                assert(r.pads[i].0 == f.pads[i].0 && r.pads[i].1.entity == f.pads[i].1.entity);
            }
        }
    } else {
        assert(0 <= k < r.pads.len() && r.pads[k].1.entity == entity);
        assert forall|a: int, b: int|
            0 <= a < f.pads.len() && 0 <= b < f.pads.len() && a != b implies #[trigger] f.pads[a].1.entity
                != #[trigger] f.pads[b].1.entity by {
            assert(f.pads[a].1.entity == r.pads[a].1.entity);
            assert(f.pads[b].1.entity == r.pads[b].1.entity);
        }
        assert forall|a: int, b: int| 0 <= a < b < f.pads.len() implies #[trigger] f.pads[a].0
            < #[trigger] f.pads[b].0 by {
            assert(f.pads[a].0 == r.pads[a].0);
            assert(f.pads[b].0 == r.pads[b].0);
        }
        assert forall|i: int| 0 <= i < f.pads.len() implies kept_pad(r, #[trigger] f.pads[i])
            || f.pads[i].0 == r.next_id by {
            assert(r.pads[i].0 == f.pads[i].0 && r.pads[i].1.entity == f.pads[i].1.entity);
        }
    }
}

proof fn lemma_disconnect_view_step(r: RegistryView, entity: u64)
    requires
        r.well_formed(),
    ensures
        ({
            let f = disconnect_view(r, entity).0;
            &&& f.well_formed()
            &&& f.next_id == r.next_id
            &&& forall|i: int| 0 <= i < f.pads.len() ==> kept_pad(r, #[trigger] f.pads[i])
        }),
{
    let f = disconnect_view(r, entity).0;
    let k = index_of_entity(r.pads, entity);
    if k >= 0 {
        assert forall|a: int, b: int|
            0 <= a < f.pads.len() && 0 <= b < f.pads.len() && a != b implies #[trigger] f.pads[a].1.entity
                != #[trigger] f.pads[b].1.entity by {
            let a0 = if a < k { a } else { a + 1 };
            let b0 = if b < k { b } else { b + 1 };
            assert(f.pads[a] == r.pads[a0]);
            assert(f.pads[b] == r.pads[b0]);
        }
        assert forall|a: int, b: int| 0 <= a < b < f.pads.len() implies #[trigger] f.pads[a].0
            < #[trigger] f.pads[b].0 by {
            let a0 = if a < k { a } else { a + 1 };
            let b0 = if b < k { b } else { b + 1 };
            assert(f.pads[a] == r.pads[a0]);
            assert(f.pads[b] == r.pads[b0]);
            assert(r.pads[a0].0 < r.pads[b0].0);
        }
        assert forall|i: int| 0 <= i < f.pads.len() implies kept_pad(r, #[trigger] f.pads[i]) by {
            let i0 = if i < k { i } else { i + 1 };
            assert(f.pads[i] == r.pads[i0]);
        }
    } else {
        assert forall|i: int| 0 <= i < f.pads.len() implies kept_pad(r, #[trigger] f.pads[i]) by {
            assert(f.pads[i] == r.pads[i]);
        }
    }
}

/// Wire ids are never reused: across any sequence of connection changes the
/// registry stays well formed, `next_id` never goes back, and every pad
/// registered afterwards either kept the id it had or got one at or above the
/// previous `next_id` — above every id handed out before, including those
/// of pads that have since disconnected.
pub proof fn lemma_ids_never_reused(
    r: RegistryView,
    conns: Seq<PadConnection>,
    live: bool,
    announced: bool,
)
    requires
        r.well_formed(),
        connections_effect(r, conns, live, announced).0.next_id <= u32::MAX,
    ensures
        ({
            let f = connections_effect(r, conns, live, announced).0;
            &&& f.well_formed()
            &&& f.next_id >= r.next_id
            &&& forall|i: int|
                0 <= i < f.pads.len() ==> kept_pad(r, #[trigger] f.pads[i]) || f.pads[i].0
                    >= r.next_id
        }),
    decreases conns.len(),
{
    if conns.len() > 0 {
        let prev = conns.drop_last();
        lemma_connections_next_id_grows(r, conns, conns.len() - 1, live, announced);
        assert(conns.take(conns.len() - 1) =~= prev);
        lemma_ids_never_reused(r, prev, live, announced);
        let f0 = connections_effect(r, prev, live, announced).0;
        let f = connections_effect(r, conns, live, announced).0;
        match conns.last() {
            PadConnection::Connected { entity, name, vendor_id, product_id } => {
                lemma_connect_view_step(f0, entity, name, vendor_id, product_id);
                assert forall|i: int| 0 <= i < f.pads.len() implies kept_pad(
                    r,
                    #[trigger] f.pads[i],
                ) || f.pads[i].0 >= r.next_id by {
                    if kept_pad(f0, f.pads[i]) {
                        let j = choose|j: int|
                            0 <= j < f0.pads.len() && f0.pads[j].0 == f.pads[i].0
                                && f0.pads[j].1.entity == f.pads[i].1.entity;
                        if !kept_pad(r, f0.pads[j]) {
                            assert(f0.pads[j].0 >= r.next_id);
                        } else {
                            let m = choose|m: int|
                                0 <= m < r.pads.len() && r.pads[m].0 == f0.pads[j].0
                                    && r.pads[m].1.entity == f0.pads[j].1.entity;
                            assert(r.pads[m].0 == f.pads[i].0);
                        }
                    }
                }
            },
            PadConnection::Disconnected { entity } => {
                lemma_disconnect_view_step(f0, entity);
                assert forall|i: int| 0 <= i < f.pads.len() implies kept_pad(
                    r,
                    #[trigger] f.pads[i],
                ) || f.pads[i].0 >= r.next_id by {
                    let j = choose|j: int|
                        0 <= j < f0.pads.len() && f0.pads[j].0 == f.pads[i].0 && f0.pads[j].1.entity
                            == f.pads[i].1.entity;
                    if !kept_pad(r, f0.pads[j]) {
                        assert(f0.pads[j].0 >= r.next_id);
                    } else {
                        let m = choose|m: int|
                            0 <= m < r.pads.len() && r.pads[m].0 == f0.pads[j].0
                                && r.pads[m].1.entity == f0.pads[j].1.entity;
                        assert(r.pads[m].0 == f.pads[i].0);
                    }
                }
            },
        }
    }
}

/// The registry after one frame's connection changes, and what the frame
/// announces: the connection events, then, the first live frame, the
/// late-join sweep.
pub open spec fn frame_effect(
    r: RegistryView,
    announced: bool,
    live: bool,
    conns: Seq<PadConnection>,
) -> (RegistryView, Seq<PadAnnouncement>) {
    let (r1, ev) = connections_effect(r, conns, live, announced);
    (
        r1,
        ev + if live && !announced {
            sweep_announcements(r1)
        } else {
            Seq::<PadAnnouncement>::empty()
        },
    )
}

/// A run of frames, each given as whether the bridge is live and its
/// connection changes: the registry after them, the sweep flag, and every
/// announcement sent, in order.
pub open spec fn run_frames(
    r: RegistryView,
    announced: bool,
    frames: Seq<(bool, Seq<PadConnection>)>,
) -> (RegistryView, bool, Seq<PadAnnouncement>)
    decreases frames.len(),
{
    if frames.len() == 0 {
        (r, announced, seq![])
    } else {
        let (r0, a0, ev0) = run_frames(r, announced, frames.drop_last());
        let (r1, ev1) = frame_effect(r0, a0, frames.last().0, frames.last().1);
        (r1, a0 || frames.last().0, ev0 + ev1)
    }
}

/// The wire ids announced as connected, in order.
pub open spec fn connected_ids(a: Seq<PadAnnouncement>) -> Seq<u32>
    decreases a.len(),
{
    if a.len() == 0 {
        seq![]
    } else {
        let prev = connected_ids(a.drop_last());
        match a.last() {
            PadAnnouncement::Connected(d) => prev.push(d.gamepad),
            _ => prev,
        }
    }
}

/// The wire ids announced as disconnected, in order.
pub open spec fn disconnected_ids(a: Seq<PadAnnouncement>) -> Seq<u32>
    decreases a.len(),
{
    if a.len() == 0 {
        seq![]
    } else {
        let prev = disconnected_ids(a.drop_last());
        match a.last() {
            PadAnnouncement::Disconnected { gamepad } => prev.push(gamepad),
            _ => prev,
        }
    }
}

/// The ids ascend strictly.
pub open spec fn ascending(s: Seq<u32>) -> bool {
    forall|i: int, j: int| 0 <= i < j < s.len() ==> #[trigger] s[i] < #[trigger] s[j]
}

/// Some pad is registered under `id`.
pub open spec fn has_id(pads: Seq<(u32, PadInfo)>, id: u32) -> bool {
    exists|i: int| 0 <= i < pads.len() && #[trigger] pads[i].0 == id
}

/// What the announcements so far say of the registry: nothing before the
/// sweep; after it, connected ids ascend below `next_id`, each disconnect is
/// of an announced id and happens once, and the registered ids are exactly
/// those announced connected and not since disconnected.
pub open spec fn announcements_agree(r: RegistryView, announced: bool, a: Seq<PadAnnouncement>) -> bool {
    let c = connected_ids(a);
    let d = disconnected_ids(a);
    &&& r.well_formed()
    &&& !announced ==> a.len() == 0
    &&& ascending(c)
    &&& forall|i: int| 0 <= i < c.len() ==> #[trigger] c[i] < r.next_id
    &&& d.no_duplicates()
    &&& forall|id: u32| d.contains(id) ==> c.contains(id)
    &&& announced ==> forall|id: u32|
        has_id(r.pads, id) <==> (c.contains(id) && !d.contains(id))
}

proof fn lemma_ids_concat(a: Seq<PadAnnouncement>, b: Seq<PadAnnouncement>)
    ensures
        connected_ids(a + b) == connected_ids(a) + connected_ids(b),
        disconnected_ids(a + b) == disconnected_ids(a) + disconnected_ids(b),
    decreases b.len(),
{
    if b.len() == 0 {
        assert(a + b =~= a);
        assert(connected_ids(a) + connected_ids(b) =~= connected_ids(a));
        assert(disconnected_ids(a) + disconnected_ids(b) =~= disconnected_ids(a));
    } else {
        assert((a + b).drop_last() =~= a + b.drop_last());
        assert((a + b).last() == b.last());
        lemma_ids_concat(a, b.drop_last());
        assert(connected_ids(a) + connected_ids(b.drop_last()).push(b.last()->Connected_0.gamepad)
            =~= (connected_ids(a) + connected_ids(b.drop_last())).push(
            b.last()->Connected_0.gamepad,
        ));
        assert(disconnected_ids(a) + disconnected_ids(b.drop_last()).push(
            b.last()->Disconnected_gamepad,
        ) =~= (disconnected_ids(a) + disconnected_ids(b.drop_last())).push(
            b.last()->Disconnected_gamepad,
        ));
    }
}

proof fn lemma_quiet_effect(r: RegistryView, conns: Seq<PadConnection>, live: bool, announced: bool)
    requires
        !(live && announced),
    ensures
        connections_effect(r, conns, live, announced).1 == Seq::<PadAnnouncement>::empty(),
    decreases conns.len(),
{
    if conns.len() > 0 {
        lemma_quiet_effect(r, conns.drop_last(), live, announced);
    }
}

proof fn lemma_effect_next_id_grows(r: RegistryView, conns: Seq<PadConnection>, live: bool, announced: bool)
    ensures
        connections_effect(r, conns, live, announced).0.next_id >= r.next_id,
    decreases conns.len(),
{
    if conns.len() > 0 {
        lemma_effect_next_id_grows(r, conns.drop_last(), live, announced);
    }
}

proof fn lemma_run_next_id_grows(r: RegistryView, announced: bool, frames: Seq<(bool, Seq<PadConnection>)>)
    requires
        frames.len() > 0,
    ensures
        run_frames(r, announced, frames).0.next_id >= run_frames(
            r,
            announced,
            frames.drop_last(),
        ).0.next_id,
{
    let (r0, a0, ev0) = run_frames(r, announced, frames.drop_last());
    lemma_effect_next_id_grows(r0, frames.last().1, frames.last().0, a0);
}

proof fn lemma_sweep_ids(r: RegistryView)
    ensures
        connected_ids(sweep_announcements(r)) == r.ids(),
        disconnected_ids(sweep_announcements(r)) == Seq::<u32>::empty(),
    decreases r.pads.len(),
{
    if r.pads.len() > 0 {
        let r0 = RegistryView { next_id: r.next_id, pads: r.pads.drop_last() };
        assert(sweep_announcements(r).drop_last() =~= sweep_announcements(r0));
        lemma_sweep_ids(r0);
        assert(r.ids() =~= r0.ids().push(r.pads.last().0));
    }
}

/// One connection change keeps the announcements in agreement with the
/// registry, while the bridge is live and the sweep has run.
proof fn lemma_agree_effect(r: RegistryView, a: Seq<PadAnnouncement>, conns: Seq<PadConnection>)
    requires
        announcements_agree(r, true, a),
        connections_effect(r, conns, true, true).0.next_id <= u32::MAX,
    ensures
        announcements_agree(
            connections_effect(r, conns, true, true).0,
            true,
            a + connections_effect(r, conns, true, true).1,
        ),
    decreases conns.len(),
{
    if conns.len() > 0 {
        let prev = conns.drop_last();
        let (r0, ev0) = connections_effect(r, prev, true, true);
        lemma_effect_next_id_grows(r0, seq![conns.last()], true, true);
        assert(seq![conns.last()].drop_last() =~= Seq::<PadConnection>::empty());
        lemma_agree_effect(r, a, prev);
        let a0 = a + ev0;
        let (r1, ev1) = connections_effect(r, conns, true, true);
        let c0 = connected_ids(a0);
        let d0 = disconnected_ids(a0);
        let c1 = connected_ids(a + ev1);
        let d1 = disconnected_ids(a + ev1);
        match conns.last() {
            PadConnection::Connected { entity, name, vendor_id, product_id } => {
                lemma_connect_view_step(r0, entity, name, vendor_id, product_id);
                let k = index_of_entity(r0.pads, entity);
                if k < 0 {
                    let id = r0.next_id as u32;
                    let ann = PadAnnouncement::Connected(
                        GamepadConnectedData { gamepad: id, name, vendor_id, product_id },
                    );
                    assert(a + ev1 =~= a0.push(ann));
                    assert((a + ev1).drop_last() =~= a0);
                    assert(c1 == c0.push(id));
                    assert(d1 == d0);
                    assert forall|i: int, j: int| 0 <= i < j < c1.len() implies #[trigger] c1[i]
                        < #[trigger] c1[j] by {
                        if j < c0.len() {
                            assert(c0[i] < c0[j]);
                        } else {
                            assert(c0[i] < r0.next_id);
                        }
                    }
                    assert forall|i: int| 0 <= i < c1.len() implies #[trigger] c1[i] < r1.next_id by {
                        if i < c0.len() {
                            assert(c0[i] < r0.next_id);
                        }
                    }
                    assert forall|x: u32| d1.contains(x) implies c1.contains(x) by {
                        let j = choose|j: int| 0 <= j < c0.len() && c0[j] == x;
                        assert(c1[j] == x);
                    }
                    assert forall|x: u32| has_id(r1.pads, x) <==> (c1.contains(x) && !d1.contains(x)) by {
                        if x == id {
                            assert(r1.pads[r0.pads.len() as int].0 == id);
                            assert(c1[c0.len() as int] == id);
                            if d1.contains(x) {
                                let j = choose|j: int| 0 <= j < c0.len() && c0[j] == x;
                                assert(c0[j] < r0.next_id);
                            }
                        } else {
                            if has_id(r1.pads, x) {
                                let i = choose|i: int| 0 <= i < r1.pads.len() && #[trigger] r1.pads[i].0 == x;
                                assert(i < r0.pads.len());
                                assert(r0.pads[i].0 == x);
                                assert(has_id(r0.pads, x));
                                assert(c0.contains(x) && !d0.contains(x));
                                let j = choose|j: int| 0 <= j < c0.len() && c0[j] == x;
                                assert(c1[j] == x);
                            }
                            if c1.contains(x) && !d1.contains(x) {
                                let j = choose|j: int| 0 <= j < c1.len() && c1[j] == x;
                                assert(j < c0.len());
                                assert(c0[j] == x);
                                assert(has_id(r0.pads, x));
                                let i = choose|i: int| 0 <= i < r0.pads.len() && #[trigger] r0.pads[i].0 == x;
                                assert(r1.pads[i] == r0.pads[i]);
                            }
                        }
                    }
                } else {
                    assert(ev1 == ev0);
                    assert(0 <= k < r0.pads.len() && r0.pads[k].1.entity == entity);
                    assert forall|x: u32| has_id(r1.pads, x) <==> has_id(r0.pads, x) by {
                        if has_id(r1.pads, x) {
                            let i = choose|i: int| 0 <= i < r1.pads.len() && #[trigger] r1.pads[i].0 == x;
                            assert(r0.pads[i].0 == x);
                        }
                        if has_id(r0.pads, x) {
                            let i = choose|i: int| 0 <= i < r0.pads.len() && #[trigger] r0.pads[i].0 == x;
                            assert(r1.pads[i].0 == x);
                        }
                    }
                }
            },
            PadConnection::Disconnected { entity } => {
                lemma_disconnect_view_step(r0, entity);
                let k = index_of_entity(r0.pads, entity);
                if k < 0 {
                    assert(ev1 == ev0);
                } else {
                    assert(0 <= k < r0.pads.len() && r0.pads[k].1.entity == entity);
                    let id = r0.pads[k].0;
                    let ann = PadAnnouncement::Disconnected { gamepad: id };
                    assert(a + ev1 =~= a0.push(ann));
                    assert((a + ev1).drop_last() =~= a0);
                    assert(c1 == c0);
                    assert(d1 == d0.push(id));
                    assert(has_id(r0.pads, id));
                    assert(!d0.contains(id));
                    assert forall|i: int, j: int| 0 <= i < d1.len() && 0 <= j < d1.len() && i != j
                        implies d1[i] != d1[j] by {
                        if i < d0.len() && j < d0.len() {
                        } else if i < d0.len() {
                            assert(d0.contains(d1[i]));
                        } else {
                            assert(d0.contains(d1[j]));
                        }
                    }
                    assert(d1.no_duplicates());
                    assert forall|x: u32| d1.contains(x) implies c1.contains(x) by {
                        if x != id {
                            let j = choose|j: int| 0 <= j < d1.len() && d1[j] == x;
                            assert(d0[j] == x);
                        }
                    }
                    assert forall|x: u32| has_id(r1.pads, x) <==> (c1.contains(x) && !d1.contains(x)) by {
                        if has_id(r1.pads, x) {
                            let i = choose|i: int| 0 <= i < r1.pads.len() && #[trigger] r1.pads[i].0 == x;
                            let i0 = if i < k { i } else { i + 1 };
                            assert(r1.pads[i] == r0.pads[i0]);
                            assert(i0 != k);
                            if i0 < k {
                                assert(r0.pads[i0].0 < r0.pads[k].0);
                            } else {
                                assert(r0.pads[k].0 < r0.pads[i0].0);
                            }
                            assert(x != id);
                            assert(has_id(r0.pads, x));
                            if d1.contains(x) {
                                let j = choose|j: int| 0 <= j < d1.len() && d1[j] == x;
                                assert(d0[j] == x);
                            }
                        }
                        if c1.contains(x) && !d1.contains(x) {
                            assert(d1[d0.len() as int] == id);
                            assert(x != id);
                            if d0.contains(x) {
                                let j = choose|j: int| 0 <= j < d0.len() && d0[j] == x;
                                assert(d1[j] == x);
                            }
                            assert(has_id(r0.pads, x));
                            let i = choose|i: int| 0 <= i < r0.pads.len() && #[trigger] r0.pads[i].0 == x;
                            assert(i != k);
                            let i1 = if i < k { i } else { i - 1 };
                            assert(r1.pads[i1] == r0.pads[i]);
                        }
                    }
                }
            },
        }
    } else {
        assert(a + Seq::<PadAnnouncement>::empty() =~= a);
    }
}

/// Across any run of frames from a gated start (the late-join sweep not yet
/// run), with the bridge staying live once it is: the registry stays well
/// formed; nothing is announced before the first live frame (connections
/// still register); every wire id is announced connected at most once (the
/// connected ids ascend over the whole run) and disconnected at most once,
/// and only if it was announced connected; and once live, the registered pads
/// are exactly those announced connected and not since disconnected.
pub proof fn lemma_each_pad_announced_once(r: RegistryView, frames: Seq<(bool, Seq<PadConnection>)>)
    requires
        r.well_formed(),
        forall|i: int, j: int| 0 <= i < j < frames.len() && #[trigger] frames[i].0 ==> #[trigger] frames[j].0,
        run_frames(r, false, frames).0.next_id <= u32::MAX,
    ensures
        run_frames(r, false, frames).1 == exists|i: int| 0 <= i < frames.len() && #[trigger] frames[i].0,
        announcements_agree(run_frames(r, false, frames).0, run_frames(r, false, frames).1, run_frames(r, false, frames).2),
    decreases frames.len(),
{
    if frames.len() == 0 {
        assert(connected_ids(Seq::<PadAnnouncement>::empty()) =~= Seq::<u32>::empty());
        assert(disconnected_ids(Seq::<PadAnnouncement>::empty()) =~= Seq::<u32>::empty());
    } else {
        let prev = frames.drop_last();
        lemma_run_next_id_grows(r, false, frames);
        assert forall|i: int, j: int| 0 <= i < j < prev.len() && #[trigger] prev[i].0 implies #[trigger] prev[j].0 by {
            assert(frames[i] == prev[i] && frames[j] == prev[j]);
        }
        lemma_each_pad_announced_once(r, prev);
        let (r0, a0, ev0) = run_frames(r, false, prev);
        let live = frames.last().0;
        let conns = frames.last().1;
        let (r1, ev1) = frame_effect(r0, a0, live, conns);
        let (f, fa, fev) = run_frames(r, false, frames);
        assert(fev == ev0 + ev1);
        lemma_ids_never_reused(r0, conns, live, a0);
        if exists|i: int| 0 <= i < frames.len() && #[trigger] frames[i].0 {
            let i = choose|i: int| 0 <= i < frames.len() && #[trigger] frames[i].0;
            if i < prev.len() {
                assert(prev[i].0);
            } else {
                assert(live);
            }
        }
        if live && !a0 {
            assert(ev0.len() == 0);
            lemma_quiet_effect(r0, conns, live, a0);
            let sw = sweep_announcements(r1);
            assert(fev =~= sw);
            lemma_sweep_ids(r1);
            let c = connected_ids(fev);
            assert forall|i: int, j: int| 0 <= i < j < c.len() implies #[trigger] c[i] < #[trigger] c[j] by {
                assert(c[i] == r1.pads[i].0 && c[j] == r1.pads[j].0);
            }
            assert forall|i: int| 0 <= i < c.len() implies #[trigger] c[i] < r1.next_id by {
                assert(c[i] == r1.pads[i].0);
            }
            assert forall|x: u32| has_id(r1.pads, x) <==> (c.contains(x) && !disconnected_ids(fev).contains(x)) by {
                if has_id(r1.pads, x) {
                    let i = choose|i: int| 0 <= i < r1.pads.len() && #[trigger] r1.pads[i].0 == x;
                    assert(c[i] == x);
                }
                if c.contains(x) {
                    let i = choose|i: int| 0 <= i < c.len() && c[i] == x;
                    assert(r1.pads[i].0 == x);
                }
            }
        } else if !live {
            if a0 {
                let i = choose|i: int| 0 <= i < prev.len() && #[trigger] prev[i].0;
                assert(frames[i].0);
                assert(frames[frames.len() - 1].0);
            }
            lemma_quiet_effect(r0, conns, live, a0);
            assert(ev1 =~= Seq::<PadAnnouncement>::empty());
            assert(fev =~= ev0);
            assert(!a0);
            assert(connected_ids(fev) =~= Seq::<u32>::empty());
            assert(disconnected_ids(fev) =~= Seq::<u32>::empty());
        } else {
            lemma_agree_effect(r0, ev0, conns);
            assert(ev1 =~= connections_effect(r0, conns, live, a0).1 + Seq::<PadAnnouncement>::empty());
            assert(fev =~= ev0 + connections_effect(r0, conns, live, a0).1);
        }
    }
}

/// Whether a connection is announced live: only a fresh pad, and only once
/// the first op batch has applied and the late-join sweep has run (earlier
/// pads are covered by the sweep).
pub fn announce_connection(is_new: bool, live: bool, announced: bool) -> (r: bool)
    ensures
        r == (is_new && live && announced),
{
    is_new && live && announced
}

/// Whether a disconnection is announced: only of a registered pad, under the
/// same conditions as connections.
pub fn announce_disconnection(id: Option<u32>, live: bool, announced: bool) -> (r: Option<u32>)
    ensures
        r == if live && announced {
            id
        } else {
            None
        },
{
    if live && announced {
        id
    } else {
        None
    }
}

/// Whether this frame runs the one-time late-join sweep (announcing every
/// already-registered pad): the first frame the bridge is live.
pub fn should_sweep(live: bool, announced: bool) -> (r: bool)
    ensures
        r == (live && !announced),
{
    live && !announced
}

/// The wire id an input change crosses under: only while the bridge is live,
/// and only for a registered pad (input from an unknown entity is dropped).
pub fn input_gamepad(live: bool, id: Option<u32>) -> (r: Option<u32>)
    ensures
        r == if live {
            id
        } else {
            None
        },
{
    if live {
        id
    } else {
        None
    }
}

} // verus!
