use std::collections::VecDeque;

use vstd::prelude::*;

use crate::config::{Config, DeviceConfig};
use crate::names::{default_enabled, spec_default_enabled};

verus! {

/// A mouse device that the system reported.
#[derive(Clone)]
pub struct MouseDevice {
    /// The raw input device handle; it changes on reconnection and is never stored.
    pub handle: isize,
    /// The device interface path, the key of the device's setting.
    pub path: String,
    /// The name shown for the device.
    pub name: String,
}

/// What to do with a middle-button release that the hook received.
pub enum UpAction {
    /// Not ours: let it through unchanged.
    Pass,
    /// Swallow it and do nothing (a scroll has ended).
    Swallow,
    /// Swallow it and send the original middle click in its place.
    SynthClick,
}

/// Where a middle-button press stands.
#[derive(Clone, Copy)]
pub enum ScrollState {
    /// No press of ours is under way.
    Idle,
    /// The middle button of `device` is down; not yet known whether it is a click or a
    /// drag. `moved` counts the movement seen since the press; it stays below the drag
    /// threshold.
    Pending { device: isize, moved: u32 },
    /// The press on `device` has become a drag: its movement scrolls.
    Scrolling { device: isize },
}

/// A middle-button press seen through raw input, waiting to be matched by the hook.
#[derive(Clone, Copy)]
pub struct PendingDown {
    /// The device that was pressed.
    pub device: isize,
    /// When it was seen, in nanoseconds on the caller's monotonic clock.
    pub at: u64,
}

/// The movement of a drag to be turned into wheel delta: vertical wheel delta is
/// `dy * speed * vertical_sign`; horizontal wheel delta, where `dx` is present, is
/// `dx * speed`.
pub struct ScrollDelta {
    pub dy: i32,
    pub vertical_sign: i32,
    pub dx: Option<i32>,
}

/// The `dwExtraInfo` marker of the input events that the tool injects itself ("TPSS").
pub const MAGIC_EXTRA: usize = 0x5450_5353;

/// A raw-input press older than this (in nanoseconds) no longer matches a hook event.
pub const PENDING_DOWN_TTL_NS: u64 = 500_000_000;

/// At most this many raw-input presses wait to be matched.
pub const PENDING_DOWN_CAPACITY: usize = 8;

/// Raw input button flag of a middle-button press.
pub const RI_MOUSE_MIDDLE_BUTTON_DOWN: u16 = 0x0010;

/// Raw input movement flag of absolute (not relative) coordinates.
pub const MOUSE_MOVE_ABSOLUTE: u16 = 0x0001;

/// The time elapsed from `at` to `now`; zero when `now` is earlier.
pub open spec fn age(at: u64, now: u64) -> int {
    if now >= at {
        now - at
    } else {
        0
    }
}

/// Whether a waiting press is still recent enough to be matched at time `now`.
pub open spec fn is_fresh(p: PendingDown, now: u64) -> bool {
    age(p.at, now) < PENDING_DOWN_TTL_NS
}

/// The number of leading presses in `q` that have expired at time `now`.
pub open spec fn expired_prefix(q: Seq<PendingDown>, now: u64) -> int
    decreases q.len(),
{
    if q.len() == 0 || is_fresh(q[0], now) {
        0
    } else {
        1 + expired_prefix(q.drop_first(), now)
    }
}

/// The queue after a press of `device` at time `at` is added: the oldest entry leaves
/// when the queue would exceed its capacity.
pub open spec fn queue_after_push(q: Seq<PendingDown>, device: isize, at: u64) -> Seq<PendingDown> {
    let q2 = q.push(PendingDown { device, at });
    if q2.len() > PENDING_DOWN_CAPACITY {
        q2.drop_first()
    } else {
        q2
    }
}

/// The position of the first device with handle `h` at or after `from`, or `ds.len()`.
pub open spec fn handle_pos(ds: Seq<MouseDevice>, h: isize, from: int) -> int
    decreases ds.len() - from,
{
    if from >= ds.len() {
        ds.len() as int
    } else if ds[from].handle == h {
        from
    } else {
        handle_pos(ds, h, from + 1)
    }
}

/// Whether scrolling is on for the device with handle `h`: the first connected device
/// with that handle has a stored setting, and it is enabled.
pub open spec fn spec_device_enabled(
    cfg: Map<Seq<char>, (bool, Seq<char>)>,
    ds: Seq<MouseDevice>,
    h: isize,
) -> bool {
    let i = handle_pos(ds, h, 0);
    &&& 0 <= i < ds.len()
    &&& cfg.contains_key(ds[i].path@)
    &&& cfg[ds[i].path@].0
}

/// The device settings after the connected devices `ds` are registered, in order: a
/// device whose path has no setting gets one, enabled by default as
/// `spec_default_enabled` says and named as the device; stored settings stay.
pub open spec fn synced(
    cfg: Map<Seq<char>, (bool, Seq<char>)>,
    ds: Seq<MouseDevice>,
) -> Map<Seq<char>, (bool, Seq<char>)>
    decreases ds.len(),
{
    if ds.len() == 0 {
        cfg
    } else {
        let prev = synced(cfg, ds.drop_last());
        let d = ds.last();
        if prev.contains_key(d.path@) {
            prev
        } else {
            prev.insert(d.path@, (spec_default_enabled(d.name@, d.path@), d.name@))
        }
    }
}

/// Whether registering `ds` adds a setting: some device has a path with none stored.
pub open spec fn adds_device(cfg: Map<Seq<char>, (bool, Seq<char>)>, ds: Seq<MouseDevice>) -> bool {
    exists|i: int| 0 <= i < ds.len() && !cfg.contains_key(#[trigger] ds[i].path@)
}

/// The paths stored after registering `ds` are those stored before and those of `ds`.
pub proof fn lemma_synced_keys(cfg: Map<Seq<char>, (bool, Seq<char>)>, ds: Seq<MouseDevice>)
    ensures
        forall|k: Seq<char>|
            #[trigger] synced(cfg, ds).contains_key(k) <==> (cfg.contains_key(k) || exists|i: int|
                0 <= i < ds.len() && ds[i].path@ == k),
        forall|k: Seq<char>| cfg.contains_key(k) ==> #[trigger] synced(cfg, ds)[k] == cfg[k],
    decreases ds.len(),
{
    if ds.len() > 0 {
        let init = ds.drop_last();
        let prev = synced(cfg, init);
        let d = ds.last();
        lemma_synced_keys(cfg, init);
        assert(synced(cfg, ds) == if prev.contains_key(d.path@) {
            prev
        } else {
            prev.insert(d.path@, (spec_default_enabled(d.name@, d.path@), d.name@))
        });
        assert forall|k: Seq<char>|
            #[trigger] synced(cfg, ds).contains_key(k) <==> (cfg.contains_key(k) || exists|i: int|
                0 <= i < ds.len() && ds[i].path@ == k) by {
            if exists|i: int| 0 <= i < ds.len() && ds[i].path@ == k {
                let i = choose|i: int| 0 <= i < ds.len() && ds[i].path@ == k;
                if i < ds.len() - 1 {
                    assert(init[i].path@ == k);
                }
            }
            if exists|i: int| 0 <= i < init.len() && init[i].path@ == k {
                let i = choose|i: int| 0 <= i < init.len() && init[i].path@ == k;
                assert(ds[i].path@ == k);
            }
        }
        assert forall|k: Seq<char>| cfg.contains_key(k) implies #[trigger] synced(cfg, ds)[k]
            == cfg[k] by {
            assert(prev.contains_key(k));
        }
    }
}

/// The vertical and horizontal parts of a drag's movement, and the state that follows a
/// relative movement `(dx, dy)` of `device`: during a pending press of that device the
/// movement is counted (as `|dx| + |dy|`), and once the count reaches the drag
/// threshold the press becomes a drag; during a drag of that device
/// the movement scrolls; otherwise nothing happens.
pub open spec fn spec_raw_move(
    config: &Config,
    state: ScrollState,
    device: isize,
    dx: i32,
    dy: i32,
) -> (ScrollState, Option<ScrollDelta>) {
    match state {
        ScrollState::Pending { device: d, moved } => {
            if d == device {
                let m = moved + (if dx < 0 { -dx } else { dx as int }) + (if dy < 0 { -dy } else { dy as int });
                if m >= config.drag_threshold {
                    (ScrollState::Scrolling { device }, None)
                } else {
                    (ScrollState::Pending { device, moved: m as u32 }, None)
                }
            } else {
                (state, None)
            }
        },
        ScrollState::Scrolling { device: d } => {
            if d == device {
                (
                    state,
                    Some(
                        ScrollDelta {
                            dy,
                            vertical_sign: if config.invert_vertical { 1i32 } else { -1i32 },
                            dx: if config.horizontal_scroll { Some(dx) } else { None },
                        },
                    ),
                )
            } else {
                (state, None)
            }
        },
        ScrollState::Idle => (state, None),
    }
}

/// The queue, the state and the answer after the hook receives a middle-button press at
/// time `now`: expired waiting presses leave the queue and the oldest remaining one is
/// taken as the press's source; the press is swallowed, and becomes pending, when there
/// was one, no press of ours was under way, and scrolling is on for its device.
pub open spec fn spec_middle_down(
    cfg: Map<Seq<char>, (bool, Seq<char>)>,
    ds: Seq<MouseDevice>,
    q: Seq<PendingDown>,
    state: ScrollState,
    now: u64,
) -> (Seq<PendingDown>, ScrollState, bool) {
    let rest = q.skip(expired_prefix(q, now));
    if rest.len() == 0 {
        (rest, state, false)
    } else {
        let p = rest[0];
        let ok = state is Idle && spec_device_enabled(cfg, ds, p.device);
        (rest.drop_first(), if ok {
            ScrollState::Pending { device: p.device, moved: 0 }
        } else {
            state
        }, ok)
    }
}

/// The state after a middle-button release, and what becomes of the release.
pub open spec fn spec_middle_up(state: ScrollState) -> (ScrollState, UpAction) {
    match state {
        ScrollState::Idle => (ScrollState::Idle, UpAction::Pass),
        ScrollState::Pending { .. } => (ScrollState::Idle, UpAction::SynthClick),
        ScrollState::Scrolling { .. } => (ScrollState::Idle, UpAction::Swallow),
    }
}

/// The tool's state: its settings, the connected mice, the raw-input presses waiting to
/// be matched, and where the current press stands.
pub struct Engine {
    config: Config,
    devices: Vec<MouseDevice>,
    pending_downs: VecDeque<PendingDown>,
    state: ScrollState,
}

impl Engine {
    /// Where the current press stands.
    pub closed spec fn phase(&self) -> ScrollState {
        self.state
    }

    /// The settings.
    pub closed spec fn configuration(&self) -> Config {
        self.config
    }

    /// The connected mice.
    pub closed spec fn connected(&self) -> Seq<MouseDevice> {
        self.devices@
    }

    /// The settings.
    pub fn config(&self) -> (r: &Config)
        ensures
            *r == self.configuration(),
    {
        &self.config
    }

    /// The connected mice.
    pub fn devices(&self) -> (r: &Vec<MouseDevice>)
        ensures
            r@ == self.connected(),
    {
        &self.devices
    }

    /// The raw-input presses waiting to be matched, oldest first.
    pub closed spec fn queue(&self) -> Seq<PendingDown> {
        self.pending_downs@
    }

    /// Where the current press stands.
    pub fn state(&self) -> (r: ScrollState)
        ensures
            r == self.phase(),
    {
        self.state
    }

    /// The number of raw-input presses waiting to be matched.
    pub fn pending_count(&self) -> (r: usize)
        ensures
            r == self.queue().len(),
    {
        self.pending_downs.len()
    }

    /// Registers the connected devices in the settings; true when a setting was added
    /// (and the settings are to be saved).
    fn sync_config_with_devices(&mut self) -> (changed: bool)
        ensures
            final(self).configuration().devices@ == synced(old(self).configuration().devices@, old(self).connected()),
            changed == adds_device(old(self).configuration().devices@, old(self).connected()),
            final(self).configuration().scroll_speed_bits == old(self).configuration().scroll_speed_bits,
            final(self).configuration().horizontal_scroll == old(self).configuration().horizontal_scroll,
            final(self).configuration().invert_vertical == old(self).configuration().invert_vertical,
            final(self).configuration().drag_threshold == old(self).configuration().drag_threshold,
            final(self).connected() == old(self).connected(),
            final(self).phase() == old(self).phase(),
            final(self).queue() == old(self).queue(),
    {
        let ghost cfg0 = self.config.devices@;
        let ghost ds = self.devices@;
        let mut changed = false;
        let n = self.devices.len();
        let mut i: usize = 0;
        while i < n
            invariant
                n == ds.len(),
                ds == self.devices@,
                i <= n,
                self.config.devices@ == synced(cfg0, ds.take(i as int)),
                changed == adds_device(cfg0, ds.take(i as int)),
                self.config.scroll_speed_bits == old(self).configuration().scroll_speed_bits,
                self.config.horizontal_scroll == old(self).configuration().horizontal_scroll,
                self.config.invert_vertical == old(self).configuration().invert_vertical,
                self.config.drag_threshold == old(self).configuration().drag_threshold,
                self.devices@ == old(self).connected(),
                self.state == old(self).state,
                self.pending_downs == old(self).pending_downs,
            decreases n - i,
        {
            let ghost before = ds.take(i as int);
            let ghost after = ds.take(i + 1);
            assert(after.drop_last() =~= before);
            proof {
                lemma_synced_keys(cfg0, before);
            }
            if !self.config.devices.contains_key(self.devices[i].path.as_str()) {
                let enabled = default_enabled(self.devices[i].name.as_str(), self.devices[i].path.as_str());
                let setting = DeviceConfig { enabled, name: self.devices[i].name.clone() };
                let path = self.devices[i].path.clone();
                self.config.devices.insert(path, setting);
                changed = true;
                assert(!cfg0.contains_key(after[i as int].path@));
            } else {
                assert(adds_device(cfg0, after) == adds_device(cfg0, before)) by {
                    if adds_device(cfg0, after) {
                        let j = choose|j: int| 0 <= j < after.len() && !cfg0.contains_key(#[trigger] after[j].path@);
                        if j == i {
                            let k = after[j].path@;
                            let w = choose|w: int| 0 <= w < before.len() && before[w].path@ == k;
                            assert(!cfg0.contains_key(before[w].path@));
                        } else {
                            assert(before[j] == after[j]);
                        }
                    }
                    if adds_device(cfg0, before) {
                        let j = choose|j: int| 0 <= j < before.len() && !cfg0.contains_key(#[trigger] before[j].path@);
                        assert(before[j] == after[j]);
                    }
                }
            }
            if changed {
                assert(adds_device(cfg0, after)) by {
                    if !adds_device(cfg0, before) {
                        assert(!cfg0.contains_key(after[i as int].path@));
                    } else {
                        let j = choose|j: int| 0 <= j < before.len() && !cfg0.contains_key(#[trigger] before[j].path@);
                        assert(before[j] == after[j]);
                    }
                }
            }
            i += 1;
        }
        assert(ds.take(n as int) =~= ds);
        changed
    }

    /// An engine over `config` and the connected `devices`, with every device registered
    /// in the settings; the flag is true when a setting was added (and the settings are
    /// to be saved).
    pub fn new(config: Config, devices: Vec<MouseDevice>) -> (r: (Engine, bool))
        ensures
            r.0.configuration().devices@ == synced(config.devices@, devices@),
            r.1 == adds_device(config.devices@, devices@),
            r.0.configuration().scroll_speed_bits == config.scroll_speed_bits,
            r.0.configuration().horizontal_scroll == config.horizontal_scroll,
            r.0.configuration().invert_vertical == config.invert_vertical,
            r.0.configuration().drag_threshold == config.drag_threshold,
            r.0.connected() == devices@,
            r.0.phase() == ScrollState::Idle,
            r.0.queue() == Seq::<PendingDown>::empty(),
    {
        let mut e = Engine { config, devices, pending_downs: VecDeque::new(), state: ScrollState::Idle };
        let changed = e.sync_config_with_devices();
        (e, changed)
    }

    /// Replaces the connected devices and registers them in the settings; true when a
    /// setting was added (and the settings are to be saved).
    pub fn refresh_devices(&mut self, devices: Vec<MouseDevice>) -> (changed: bool)
        ensures
            final(self).configuration().devices@ == synced(old(self).configuration().devices@, devices@),
            changed == adds_device(old(self).configuration().devices@, devices@),
            final(self).configuration().scroll_speed_bits == old(self).configuration().scroll_speed_bits,
            final(self).configuration().horizontal_scroll == old(self).configuration().horizontal_scroll,
            final(self).configuration().invert_vertical == old(self).configuration().invert_vertical,
            final(self).configuration().drag_threshold == old(self).configuration().drag_threshold,
            final(self).connected() == devices@,
            final(self).phase() == old(self).phase(),
            final(self).queue() == old(self).queue(),
    {
        self.devices = devices;
        self.sync_config_with_devices()
    }

    /// Records a middle-button press of `device` seen through raw input at time `now`
    /// (it arrives before the hook's event); the oldest waiting press is dropped when
    /// more than `PENDING_DOWN_CAPACITY` would wait.
    pub fn push_middle_down(&mut self, device: isize, now: u64)
        ensures
            final(self).queue() == queue_after_push(old(self).queue(), device, now),
            final(self).phase() == old(self).phase(),
            final(self).configuration() == old(self).configuration(),
            final(self).connected() == old(self).connected(),
    {
        self.pending_downs.push_back(PendingDown { device, at: now });
        if self.pending_downs.len() > PENDING_DOWN_CAPACITY {
            let _ = self.pending_downs.pop_front();
        }
    }

    /// Whether some waiting press is still recent enough to be matched at time `now`.
    pub fn has_pending_down(&self, now: u64) -> (r: bool)
        ensures
            r == exists|i: int| 0 <= i < self.queue().len() && is_fresh(#[trigger] self.queue()[i], now),
    {
        let n = self.pending_downs.len();
        let mut i: usize = 0;
        while i < n
            invariant
                n == self.pending_downs@.len(),
                i <= n,
                forall|k: int| 0 <= k < i ==> !is_fresh(#[trigger] self.pending_downs@[k], now),
            decreases n - i,
        {
            let p = self.pending_downs[i];
            if now < p.at || now - p.at < PENDING_DOWN_TTL_NS {
                assert(is_fresh(self.queue()[i as int], now));
                return true;
            }
            i += 1;
        }
        false
    }

    /// Whether scrolling is on for the device with handle `device`.
    fn device_enabled(&self, device: isize) -> (r: bool)
        ensures
            r == spec_device_enabled(self.config.devices@, self.devices@, device),
    {
        let n = self.devices.len();
        let mut i: usize = 0;
        while i < n
            invariant
                n == self.devices@.len(),
                i <= n,
                handle_pos(self.devices@, device, 0) == handle_pos(self.devices@, device, i as int),
            decreases n - i,
        {
            if self.devices[i].handle == device {
                return match self.config.devices.get(self.devices[i].path.as_str()) {
                    Some(c) => c.enabled,
                    None => false,
                };
            }
            i += 1;
        }
        false
    }

    /// The hook received a middle-button press at time `now`. Expired waiting presses are
    /// dropped and the oldest remaining one is taken as the press's source. True (swallow
    /// the press: it may start a scroll) when there was one, no press of ours was under
    /// way, and scrolling is on for its device; the press is then pending.
    pub fn on_middle_down(&mut self, now: u64) -> (r: bool)
        ensures
            (final(self).queue(), final(self).phase(), r) == spec_middle_down(
                old(self).configuration().devices@,
                old(self).connected(),
                old(self).queue(),
                old(self).phase(),
                now,
            ),
            final(self).configuration() == old(self).configuration(),
            final(self).connected() == old(self).connected(),
    {
        let ghost q0 = self.pending_downs@;
        let ghost mut k: int = 0;
        while self.pending_downs.len() > 0
            invariant
                0 <= k <= q0.len(),
                self.pending_downs@ == q0.skip(k),
                expired_prefix(q0, now) == k + expired_prefix(self.pending_downs@, now),
                self.state == old(self).state,
                self.config == old(self).configuration(),
                self.devices@ == old(self).connected(),
            ensures
                0 <= k <= q0.len(),
                self.pending_downs@ == q0.skip(k),
                expired_prefix(q0, now) == k + expired_prefix(self.pending_downs@, now),
                expired_prefix(self.pending_downs@, now) == 0,
                self.state == old(self).state,
                self.config == old(self).configuration(),
                self.devices@ == old(self).connected(),
            decreases self.pending_downs@.len(),
        {
            let front = self.pending_downs[0];
            if now < front.at || now - front.at < PENDING_DOWN_TTL_NS {
                assert(is_fresh(self.pending_downs@[0], now));
                break;
            }
            let ghost cur = self.pending_downs@;
            let _ = self.pending_downs.pop_front();
            proof {
                assert(cur.drop_first() =~= q0.skip(k + 1));
                k = k + 1;
            }
        }
        assert(self.pending_downs@ == q0.skip(expired_prefix(q0, now)));
        let p = match self.pending_downs.pop_front() {
            Some(p) => p,
            None => {
                return false;
            },
        };
        match self.state {
            ScrollState::Idle => {},
            _ => {
                return false;
            },
        }
        if self.device_enabled(p.device) {
            self.state = ScrollState::Pending { device: p.device, moved: 0 };
            true
        } else {
            false
        }
    }

    /// The hook received a middle-button release: a pending press was a click (send it),
    /// a drag has ended (swallow the release); either way the press is over.
    pub fn on_middle_up(&mut self) -> (r: UpAction)
        ensures
            (final(self).phase(), r) == spec_middle_up(old(self).phase()),
            final(self).queue() == old(self).queue(),
            final(self).configuration() == old(self).configuration(),
            final(self).connected() == old(self).connected(),
    {
        match self.state {
            ScrollState::Idle => UpAction::Pass,
            ScrollState::Pending { .. } => {
                self.state = ScrollState::Idle;
                UpAction::SynthClick
            },
            ScrollState::Scrolling { .. } => {
                self.state = ScrollState::Idle;
                UpAction::Swallow
            },
        }
    }

    /// Whether a press of ours is under way; the cursor stays still while it is.
    pub fn is_active(&self) -> (r: bool)
        ensures
            r == !(self.phase() is Idle),
    {
        match self.state {
            ScrollState::Idle => false,
            _ => true,
        }
    }

    /// A relative movement `(dx, dy)` of `device` seen through raw input; returns the
    /// movement to scroll by during a drag of that device.
    pub fn on_raw_move(&mut self, device: isize, dx: i32, dy: i32) -> (r: Option<ScrollDelta>)
        ensures
            (final(self).phase(), r) == spec_raw_move(&old(self).configuration(), old(self).phase(), device, dx, dy),
            final(self).queue() == old(self).queue(),
            final(self).configuration() == old(self).configuration(),
            final(self).connected() == old(self).connected(),
    {
        match self.state {
            ScrollState::Pending { device: d, moved } => {
                if d == device {
                    let ax: i64 = if dx < 0 { -(dx as i64) } else { dx as i64 };
                    let ay: i64 = if dy < 0 { -(dy as i64) } else { dy as i64 };
                    let m: i64 = moved as i64 + ax + ay;
                    if m >= self.config.drag_threshold as i64 {
                        self.state = ScrollState::Scrolling { device };
                    } else {
                        self.state = ScrollState::Pending { device, moved: m as u32 };
                    }
                }
                None
            },
            ScrollState::Scrolling { device: d } => {
                if d == device {
                    let vertical_sign: i32 = if self.config.invert_vertical { 1 } else { -1 };
                    let h = if self.config.horizontal_scroll { Some(dx) } else { None };
                    Some(ScrollDelta { dy, vertical_sign, dx: h })
                } else {
                    None
                }
            },
            ScrollState::Idle => None,
        }
    }

    /// A raw-input mouse event of `device` at time `now`: a middle-button press (from a
    /// real device, not an injected event with device 0) waits to be matched; a relative
    /// nonzero movement goes to `on_raw_move`, whose result is returned.
    pub fn on_raw_input(
        &mut self,
        device: isize,
        button_flags: u16,
        move_flags: u16,
        dx: i32,
        dy: i32,
        now: u64,
    ) -> (r: Option<ScrollDelta>)
        ensures
            final(self).queue() == if button_flags & RI_MOUSE_MIDDLE_BUTTON_DOWN != 0 && device != 0 {
                queue_after_push(old(self).queue(), device, now)
            } else {
                old(self).queue()
            },
            (final(self).phase(), r) == if move_flags & MOUSE_MOVE_ABSOLUTE == 0 && (dx != 0 || dy
                != 0) {
                spec_raw_move(&old(self).configuration(), old(self).phase(), device, dx, dy)
            } else {
                (old(self).phase(), None)
            },
            final(self).configuration() == old(self).configuration(),
            final(self).connected() == old(self).connected(),
    {
        if button_flags & RI_MOUSE_MIDDLE_BUTTON_DOWN != 0 && device != 0 {
            self.push_middle_down(device, now);
        }
        if move_flags & MOUSE_MOVE_ABSOLUTE == 0 && (dx != 0 || dy != 0) {
            self.on_raw_move(device, dx, dy)
        } else {
            None
        }
    }

    /// Flips whether scrolling is on for the device with interface path `path`; true when
    /// a setting was stored for it (and the settings are to be saved), false (and nothing
    /// changed) otherwise.
    pub fn toggle_device(&mut self, path: &str) -> (changed: bool)
        ensures
            changed == old(self).configuration().devices@.contains_key(path@),
            changed ==> final(self).configuration().devices@ == old(self).configuration().devices@.insert(
                path@,
                (!old(self).configuration().devices@[path@].0, old(self).configuration().devices@[path@].1),
            ),
            !changed ==> final(self).configuration().devices@ == old(self).configuration().devices@,
            final(self).configuration().scroll_speed_bits == old(self).configuration().scroll_speed_bits,
            final(self).configuration().horizontal_scroll == old(self).configuration().horizontal_scroll,
            final(self).configuration().invert_vertical == old(self).configuration().invert_vertical,
            final(self).configuration().drag_threshold == old(self).configuration().drag_threshold,
            final(self).connected() == old(self).connected(),
            final(self).phase() == old(self).phase(),
            final(self).queue() == old(self).queue(),
    {
        self.config.devices.toggle(path)
    }
}

} // verus!
