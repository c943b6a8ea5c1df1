//! Properties that relate several operations of the library.

use vstd::prelude::*;

use crate::config::Config;
use crate::engine::{
    adds_device, expired_prefix, handle_pos, is_fresh, lemma_synced_keys, queue_after_push,
    spec_device_enabled,
    spec_middle_down, spec_middle_up, spec_raw_move, synced, MouseDevice, PendingDown, ScrollState,
    UpAction, PENDING_DOWN_CAPACITY,
};
use crate::input::{
    injected_by_us, spec_hook_event, spec_wheel_inputs, HookEvent, WheelInput, LLMHF_INJECTED,
    WM_MBUTTONDOWN, WM_MBUTTONUP, WM_MOUSEMOVE,
};
use crate::engine::ScrollDelta;
use crate::names::spec_default_enabled;
use crate::text::{decimal, digits, index_from, is_white_space, trimmed, trim_end, trim_start};
use crate::names::{spec_clean_name, spec_devnode_instance_id, spec_short_name};
use crate::menu::{
    count_name, spec_label, spec_menu_command, MenuCommand, CMD_DEVICE_BASE, CMD_EXIT,
    CMD_OPEN_CONFIG,
};

verus! {

/// The state of a press of `device` that has just been swallowed.
pub open spec fn fresh_press(device: isize) -> ScrollState {
    ScrollState::Pending { device, moved: 0 }
}

/// The state of a press of `device` that has counted `moved` of movement.
pub open spec fn pending_press(device: isize, moved: u32) -> ScrollState {
    ScrollState::Pending { device, moved }
}

/// The state of a drag of `device`.
pub open spec fn dragging(device: isize) -> ScrollState {
    ScrollState::Scrolling { device }
}

/// The state after a run of relative movements of `device`, in order.
pub open spec fn after_moves(
    config: &Config,
    state: ScrollState,
    device: isize,
    moves: Seq<(i32, i32)>,
) -> ScrollState
    decreases moves.len(),
{
    if moves.len() == 0 {
        state
    } else {
        let prev = after_moves(config, state, device, moves.drop_last());
        spec_raw_move(config, prev, device, moves.last().0, moves.last().1).0
    }
}

/// The movement counted over a run of movements: the sum of `|dx| + |dy|`.
pub open spec fn total_motion(moves: Seq<(i32, i32)>) -> int
    decreases moves.len(),
{
    if moves.len() == 0 {
        0
    } else {
        let m = moves.last();
        total_motion(moves.drop_last()) + (if m.0 < 0 { -m.0 } else { m.0 as int }) + (if m.1
            < 0 {
            -m.1
        } else {
            m.1 as int
        })
    }
}

proof fn lemma_total_motion_nonneg(moves: Seq<(i32, i32)>)
    ensures
        total_motion(moves) >= 0,
        moves.len() > 0 ==> total_motion(moves) >= total_motion(moves.drop_last()),
    decreases moves.len(),
{
    if moves.len() > 0 {
        lemma_total_motion_nonneg(moves.drop_last());
    }
}

/// A press whose movement stays below the drag threshold stays pending, having counted
/// all of it, and its release is a plain middle click.
pub proof fn law_small_motion_is_click(config: &Config, device: isize, moves: Seq<(i32, i32)>)
    requires
        total_motion(moves) < config.drag_threshold,
    ensures
        after_moves(config, fresh_press(device), device, moves)
            == pending_press(device, total_motion(moves) as u32),
        spec_middle_up(after_moves(config, fresh_press(device), device, moves))
            == (ScrollState::Idle, UpAction::SynthClick),
    decreases moves.len(),
{
    lemma_total_motion_nonneg(moves);
    if moves.len() > 0 {
        let init = moves.drop_last();
        lemma_total_motion_nonneg(init);
        law_small_motion_is_click(config, device, init);
        let t = total_motion(init);
        assert((t as u32) as int == t);
    }
}

/// A press whose movement reaches the drag threshold (with at least one movement) has
/// become a drag, and its release is swallowed.
pub proof fn law_large_motion_is_scroll(config: &Config, device: isize, moves: Seq<(i32, i32)>)
    requires
        moves.len() > 0,
        total_motion(moves) >= config.drag_threshold,
    ensures
        after_moves(config, fresh_press(device), device, moves)
            == dragging(device),
        spec_middle_up(after_moves(config, fresh_press(device), device, moves))
            == (ScrollState::Idle, UpAction::Swallow),
    decreases moves.len(),
{
    let init = moves.drop_last();
    lemma_total_motion_nonneg(moves);
    if init.len() > 0 && total_motion(init) >= config.drag_threshold {
        law_large_motion_is_scroll(config, device, init);
    } else if init.len() > 0 {
        law_small_motion_is_click(config, device, init);
        lemma_total_motion_nonneg(init);
        let t = total_motion(init);
        assert((t as u32) as int == t);
        assert(after_moves(config, fresh_press(device), device, init) == pending_press(device, t as u32));
    } else {
        assert(after_moves(config, fresh_press(device), device, init) == fresh_press(device));
    }
}

/// A swallowed press starts a press of ours on a device for which scrolling is on, and
/// the cursor stays still from then on; the release ends it and frees the cursor.
pub proof fn law_swallowed_press_is_enabled_and_active(
    cfg: Map<Seq<char>, (bool, Seq<char>)>,
    ds: Seq<MouseDevice>,
    q: Seq<PendingDown>,
    state: ScrollState,
    now: u64,
)
    requires
        spec_middle_down(cfg, ds, q, state, now).2,
    ensures
        state is Idle,
        spec_middle_down(cfg, ds, q, state, now).1 is Pending,
        spec_device_enabled(cfg, ds, spec_middle_down(cfg, ds, q, state, now).1->Pending_device),
        spec_middle_up(spec_middle_down(cfg, ds, q, state, now).1) == (
            ScrollState::Idle,
            UpAction::SynthClick,
        ),
{
}

proof fn lemma_all_expired(q: Seq<PendingDown>, now: u64)
    requires
        forall|i: int| 0 <= i < q.len() ==> !is_fresh(#[trigger] q[i], now),
    ensures
        expired_prefix(q, now) == q.len(),
    decreases q.len(),
{
    if q.len() > 0 {
        assert forall|i: int| 0 <= i < q.drop_first().len() implies !is_fresh(
            #[trigger] q.drop_first()[i],
            now,
        ) by {
            assert(q.drop_first()[i] == q[i + 1]);
        }
        lemma_all_expired(q.drop_first(), now);
    }
}

/// When no waiting press is recent, the source of a hook press is unknown: the press is
/// passed on, the state stays as it was, and the stale presses are gone.
pub proof fn law_unknown_source_passes(
    cfg: Map<Seq<char>, (bool, Seq<char>)>,
    ds: Seq<MouseDevice>,
    q: Seq<PendingDown>,
    state: ScrollState,
    now: u64,
)
    requires
        forall|i: int| 0 <= i < q.len() ==> !is_fresh(#[trigger] q[i], now),
    ensures
        spec_middle_down(cfg, ds, q, state, now) == (Seq::<PendingDown>::empty(), state, false),
{
    lemma_all_expired(q, now);
    assert(q.skip(q.len() as int) =~= Seq::<PendingDown>::empty());
}

/// The waiting presses never exceed `PENDING_DOWN_CAPACITY`: adding one keeps the bound,
/// and a hook press only removes presses.
pub proof fn law_queue_bounded(
    cfg: Map<Seq<char>, (bool, Seq<char>)>,
    ds: Seq<MouseDevice>,
    q: Seq<PendingDown>,
    state: ScrollState,
    device: isize,
    now: u64,
)
    requires
        q.len() <= PENDING_DOWN_CAPACITY,
    ensures
        queue_after_push(q, device, now).len() <= PENDING_DOWN_CAPACITY,
        queue_after_push(q, device, now).last().device == device,
        queue_after_push(q, device, now).last().at == now,
        spec_middle_down(cfg, ds, q, state, now).0.len() <= q.len(),
{
    lemma_expired_prefix_bounds(q, now);
}

proof fn lemma_expired_prefix_bounds(q: Seq<PendingDown>, now: u64)
    ensures
        0 <= expired_prefix(q, now) <= q.len(),
    decreases q.len(),
{
    if q.len() > 0 {
        lemma_expired_prefix_bounds(q.drop_first(), now);
    }
}

/// Registering the connected devices keeps every stored setting as it was, gives every
/// connected device a setting, and adds nothing more; registering the same devices
/// again changes nothing and asks for no save.
pub proof fn law_sync_keeps_and_covers(cfg: Map<Seq<char>, (bool, Seq<char>)>, ds: Seq<MouseDevice>)
    ensures
        forall|k: Seq<char>| cfg.contains_key(k) ==> #[trigger] synced(cfg, ds).contains_key(k)
            && synced(cfg, ds)[k] == cfg[k],
        forall|i: int| 0 <= i < ds.len() ==> synced(cfg, ds).contains_key(#[trigger] ds[i].path@),
        forall|k: Seq<char>|
            #[trigger] synced(cfg, ds).contains_key(k) ==> cfg.contains_key(k) || exists|i: int|
                0 <= i < ds.len() && ds[i].path@ == k,
        synced(synced(cfg, ds), ds) == synced(cfg, ds),
        !adds_device(synced(cfg, ds), ds),
{
    lemma_synced_keys(cfg, ds);
    lemma_synced_keys(synced(cfg, ds), ds);
    assert forall|i: int| 0 <= i < ds.len() implies synced(cfg, ds).contains_key(
        #[trigger] ds[i].path@,
    ) by {
        assert(synced(cfg, ds).contains_key(ds[i].path@));
    }
    assert(synced(synced(cfg, ds), ds) =~= synced(cfg, ds));
}

/// Flipping a device's setting twice gives back the settings as they were.
pub proof fn law_toggle_twice_restores(cfg: Map<Seq<char>, (bool, Seq<char>)>, path: Seq<char>)
    requires
        cfg.contains_key(path),
    ensures
        ({
            let once = cfg.insert(path, (!cfg[path].0, cfg[path].1));
            once.insert(path, (!once[path].0, once[path].1))
        }) == cfg,
{
    let once = cfg.insert(path, (!cfg[path].0, cfg[path].1));
    assert(once.insert(path, (!once[path].0, once[path].1)) =~= cfg);
}

/// The menu ID of a listed device decodes to that device, and no device ID is taken for
/// the other commands.
pub proof fn law_menu_command_roundtrip(i: usize, n_items: usize)
    requires
        i < n_items,
        i <= usize::MAX - CMD_DEVICE_BASE,
    ensures
        spec_menu_command((CMD_DEVICE_BASE + i) as usize, n_items) == MenuCommand::ToggleDevice(i),
        spec_menu_command(CMD_EXIT, n_items) == MenuCommand::Exit,
        spec_menu_command(CMD_OPEN_CONFIG, n_items) == MenuCommand::OpenConfig,
{
}

/// Events that the tool injected itself are never taken for a middle-button press or
/// release.
pub proof fn law_own_events_ignored(code: i32, msg: u32, flags: u32, extra: usize)
    requires
        injected_by_us(flags, extra),
    ensures
        !(spec_hook_event(code, msg, flags, extra) is MiddleDown),
        !(spec_hook_event(code, msg, flags, extra) is MiddleUp),
{
}

proof fn lemma_count_single(names: Seq<Seq<char>>, i: int)
    requires
        0 <= i < names.len(),
        forall|a: int, b: int| 0 <= a < names.len() && 0 <= b < names.len() && a != b ==> names[a] != names[b],
    ensures
        count_name(names, names[i]) == 1,
    decreases names.len(),
{
    let init = names.drop_last();
    if i < names.len() - 1 {
        lemma_count_single(init, i);
        assert(names.last() != names[i]);
    } else {
        lemma_count_none(init, names[i]);
    }
}

proof fn lemma_count_none(names: Seq<Seq<char>>, n: Seq<char>)
    requires
        forall|a: int| 0 <= a < names.len() ==> names[a] != n,
    ensures
        count_name(names, n) == 0,
    decreases names.len(),
{
    if names.len() > 0 {
        lemma_count_none(names.drop_last(), n);
    }
}

/// Devices whose names all differ are labelled by their names alone.
pub proof fn law_distinct_names_unnumbered(names: Seq<Seq<char>>, i: int)
    requires
        0 <= i < names.len(),
        forall|a: int, b: int| 0 <= a < names.len() && 0 <= b < names.len() && a != b ==> names[a] != names[b],
    ensures
        spec_label(names, i) == names[i],
{
    lemma_count_single(names, i);
}

/// Settings and device lists that agree on everything but display names: the same
/// paths with the same `enabled` flags, and devices with the same handles and paths in
/// the same order.
pub open spec fn same_but_names(
    cfg1: Map<Seq<char>, (bool, Seq<char>)>,
    cfg2: Map<Seq<char>, (bool, Seq<char>)>,
    ds1: Seq<MouseDevice>,
    ds2: Seq<MouseDevice>,
) -> bool {
    &&& cfg1.dom() == cfg2.dom()
    &&& forall|k: Seq<char>| cfg1.contains_key(k) ==> #[trigger] cfg1[k].0 == cfg2[k].0
    &&& ds1.len() == ds2.len()
    &&& forall|i: int|
        #![trigger ds1[i]]
        0 <= i < ds1.len() ==> ds1[i].handle == ds2[i].handle && ds1[i].path@ == ds2[i].path@
}

proof fn lemma_handle_pos_same(ds1: Seq<MouseDevice>, ds2: Seq<MouseDevice>, h: isize, from: int)
    requires
        0 <= from,
        ds1.len() == ds2.len(),
        forall|i: int| 0 <= i < ds1.len() ==> #[trigger] ds1[i].handle == ds2[i].handle,
    ensures
        handle_pos(ds1, h, from) == handle_pos(ds2, h, from),
    decreases ds1.len() - from,
{
    if from < ds1.len() {
        assert(ds1[from].handle == ds2[from].handle);
        lemma_handle_pos_same(ds1, ds2, h, from + 1);
    }
}

/// Whether a press starts a scroll never depends on display names: neither the names
/// stored in the settings nor those of the connected devices.
pub proof fn law_decision_ignores_names(
    cfg1: Map<Seq<char>, (bool, Seq<char>)>,
    cfg2: Map<Seq<char>, (bool, Seq<char>)>,
    ds1: Seq<MouseDevice>,
    ds2: Seq<MouseDevice>,
    q: Seq<PendingDown>,
    state: ScrollState,
    now: u64,
)
    requires
        same_but_names(cfg1, cfg2, ds1, ds2),
    ensures
        forall|h: isize| #[trigger] spec_device_enabled(cfg1, ds1, h) == spec_device_enabled(cfg2, ds2, h),
        spec_middle_down(cfg1, ds1, q, state, now) == spec_middle_down(cfg2, ds2, q, state, now),
{
    assert forall|h: isize| #[trigger] spec_device_enabled(cfg1, ds1, h) == spec_device_enabled(
        cfg2,
        ds2,
        h,
    ) by {
        assert forall|i: int| 0 <= i < ds1.len() implies #[trigger] ds1[i].handle == ds2[i].handle by {
            assert(ds1[i] == ds1[i]);
        }
        lemma_handle_pos_same(ds1, ds2, h, 0);
        let i = handle_pos(ds1, h, 0);
        if 0 <= i < ds1.len() {
            assert(ds1[i].handle == ds2[i].handle && ds1[i].path@ == ds2[i].path@);
            if cfg1.contains_key(ds1[i].path@) {
                assert(cfg1[ds1[i].path@].0 == cfg2[ds1[i].path@].0);
            }
            assert(cfg1.dom().contains(ds1[i].path@) == cfg2.dom().contains(ds1[i].path@));
        }
    }
}

/// The queue after raw-input presses `pushes` are added in order.
pub open spec fn queue_after_pushes(q: Seq<PendingDown>, pushes: Seq<PendingDown>) -> Seq<PendingDown>
    decreases pushes.len(),
{
    if pushes.len() == 0 {
        q
    } else {
        let p = pushes.last();
        queue_after_push(queue_after_pushes(q, pushes.drop_last()), p.device, p.at)
    }
}

/// Starting from no waiting press, a run of raw-input presses leaves the latest
/// `PENDING_DOWN_CAPACITY` of them waiting, oldest first; older ones are dropped.
pub proof fn law_pushes_keep_latest(pushes: Seq<PendingDown>)
    ensures
        queue_after_pushes(Seq::empty(), pushes) == pushes.subrange(
            if pushes.len() > PENDING_DOWN_CAPACITY {
                pushes.len() - PENDING_DOWN_CAPACITY
            } else {
                0
            },
            pushes.len() as int,
        ),
    decreases pushes.len(),
{
    if pushes.len() > 0 {
        let init = pushes.drop_last();
        law_pushes_keep_latest(init);
        let k = pushes.len() as int;
        let p = pushes.last();
        let start0: int = if k - 1 > 8 { k - 9 } else { 0 };
        assert(init.subrange(start0, k - 1).push(PendingDown { device: p.device, at: p.at })
            =~= pushes.subrange(start0, k));
        if k > 8 {
            assert(pushes.subrange(start0, k).drop_first() =~= pushes.subrange(k - 8, k));
        }
    }
}

/// The queue after `n` hook presses at time `now`.
pub open spec fn queue_after_presses(
    cfg: Map<Seq<char>, (bool, Seq<char>)>,
    ds: Seq<MouseDevice>,
    q: Seq<PendingDown>,
    state: ScrollState,
    now: u64,
    n: nat,
) -> Seq<PendingDown>
    decreases n,
{
    if n == 0 {
        q
    } else {
        spec_middle_down(
            cfg,
            ds,
            queue_after_presses(cfg, ds, q, state, now, (n - 1) as nat),
            state,
            now,
        ).0
    }
}

/// When every waiting press is recent, a hook press takes the oldest one: the press is
/// judged by that device, and that entry alone leaves the queue.
pub proof fn law_fresh_front_taken(
    cfg: Map<Seq<char>, (bool, Seq<char>)>,
    ds: Seq<MouseDevice>,
    q: Seq<PendingDown>,
    state: ScrollState,
    now: u64,
)
    requires
        q.len() > 0,
        forall|i: int| 0 <= i < q.len() ==> is_fresh(#[trigger] q[i], now),
    ensures
        spec_middle_down(cfg, ds, q, state, now) == ({
            let ok = state is Idle && spec_device_enabled(cfg, ds, q[0].device);
            (q.drop_first(), if ok {
                fresh_press(q[0].device)
            } else {
                state
            }, ok)
        }),
{
    assert(is_fresh(q[0], now));
    assert(q.skip(0) =~= q);
}

/// While every waiting press is recent, `n` hook presses take the `n` oldest, in order,
/// whatever becomes of each press; once all are taken, none is left waiting.
pub proof fn law_presses_consume_in_order(
    cfg: Map<Seq<char>, (bool, Seq<char>)>,
    ds: Seq<MouseDevice>,
    q: Seq<PendingDown>,
    state: ScrollState,
    now: u64,
    n: nat,
)
    requires
        n <= q.len(),
        forall|i: int| 0 <= i < q.len() ==> is_fresh(#[trigger] q[i], now),
    ensures
        queue_after_presses(cfg, ds, q, state, now, n) == q.skip(n as int),
        n == q.len() ==> queue_after_presses(cfg, ds, q, state, now, n).len() == 0,
    decreases n,
{
    if n > 0 {
        law_presses_consume_in_order(cfg, ds, q, state, now, (n - 1) as nat);
        let rest = q.skip(n - 1);
        assert forall|i: int| 0 <= i < rest.len() implies is_fresh(#[trigger] rest[i], now) by {
            assert(rest[i] == q[i + n - 1]);
        }
        law_fresh_front_taken(cfg, ds, rest, state, now);
        assert(rest.drop_first() =~= q.skip(n as int));
    }
}

/// An event that reaches the engine.
pub enum EngineEvent {
    /// A raw-input middle-button press of `device` at time `at`.
    Push { device: isize, at: u64 },
    /// A hook middle-button press at time `now`.
    Down { now: u64 },
    /// A hook middle-button release.
    Up,
    /// A raw-input relative movement of `device`.
    Move { device: isize, dx: i32, dy: i32 },
}

/// The queue, the state, and whether a hook press was swallowed, after one event.
pub open spec fn step(
    config: &Config,
    ds: Seq<MouseDevice>,
    q: Seq<PendingDown>,
    state: ScrollState,
    ev: EngineEvent,
) -> (Seq<PendingDown>, ScrollState, bool) {
    match ev {
        EngineEvent::Push { device, at } => (queue_after_push(q, device, at), state, false),
        EngineEvent::Down { now } => spec_middle_down(config.devices@, ds, q, state, now),
        EngineEvent::Up => (q, spec_middle_up(state).0, false),
        EngineEvent::Move { device, dx, dy } => (q, spec_raw_move(config, state, device, dx, dy).0, false),
    }
}

/// The queue and the state after a run of events, in order.
pub open spec fn run(
    config: &Config,
    ds: Seq<MouseDevice>,
    q: Seq<PendingDown>,
    state: ScrollState,
    evs: Seq<EngineEvent>,
) -> (Seq<PendingDown>, ScrollState)
    decreases evs.len(),
{
    if evs.len() == 0 {
        (q, state)
    } else {
        let prev = run(config, ds, q, state, evs.drop_last());
        let o = step(config, ds, prev.0, prev.1, evs.last());
        (o.0, o.1)
    }
}

/// Whether the event at position `i` of a run is a hook press that was swallowed.
pub open spec fn swallowed_at(
    config: &Config,
    ds: Seq<MouseDevice>,
    q: Seq<PendingDown>,
    state: ScrollState,
    evs: Seq<EngineEvent>,
    i: int,
) -> bool {
    let prev = run(config, ds, q, state, evs.take(i));
    evs[i] is Down && step(config, ds, prev.0, prev.1, evs[i]).2
}

/// Whether some hook press of the run was swallowed and no release followed it.
pub open spec fn unreleased_press(
    config: &Config,
    ds: Seq<MouseDevice>,
    q: Seq<PendingDown>,
    state: ScrollState,
    evs: Seq<EngineEvent>,
) -> bool {
    exists|i: int|
        0 <= i < evs.len() && #[trigger] swallowed_at(config, ds, q, state, evs, i) && forall|j: int|
            i < j < evs.len() ==> !(#[trigger] evs[j] is Up)
}

/// Starting idle, the engine is active (the cursor is frozen) exactly when some hook
/// press was swallowed and no release has come since.
pub proof fn law_active_iff_unreleased(
    config: &Config,
    ds: Seq<MouseDevice>,
    q: Seq<PendingDown>,
    state: ScrollState,
    evs: Seq<EngineEvent>,
)
    requires
        state is Idle,
    ensures
        !(run(config, ds, q, state, evs).1 is Idle) <==> unreleased_press(config, ds, q, state, evs),
    decreases evs.len(),
{
    if evs.len() > 0 {
        let n = evs.len() as int;
        let init = evs.drop_last();
        let e = evs.last();
        law_active_iff_unreleased(config, ds, q, state, init);
        let prev = run(config, ds, q, state, init);
        let o = step(config, ds, prev.0, prev.1, e);
        assert(evs.take(n - 1) =~= init);
        assert forall|i: int| 0 <= i < n - 1 implies #[trigger] swallowed_at(
            config,
            ds,
            q,
            state,
            evs,
            i,
        ) == swallowed_at(config, ds, q, state, init, i) by {
            assert(evs.take(i) =~= init.take(i));
            assert(evs[i] == init[i]);
        }
        if e is Up {
            assert(!unreleased_press(config, ds, q, state, evs)) by {
                if unreleased_press(config, ds, q, state, evs) {
                    let i = choose|i: int|
                        0 <= i < evs.len() && #[trigger] swallowed_at(config, ds, q, state, evs, i)
                            && forall|j: int| i < j < evs.len() ==> !(#[trigger] evs[j] is Up);
                    if i < n - 1 {
                        assert(evs[n - 1] is Up);
                    }
                }
            }
        } else if e is Down && o.2 {
            assert(swallowed_at(config, ds, q, state, evs, n - 1));
        } else {
            assert(!swallowed_at(config, ds, q, state, evs, n - 1));
            assert(!(o.1 is Idle) == !(prev.1 is Idle));
            if unreleased_press(config, ds, q, state, init) {
                let i = choose|i: int|
                    0 <= i < init.len() && #[trigger] swallowed_at(config, ds, q, state, init, i)
                        && forall|j: int| i < j < init.len() ==> !(#[trigger] init[j] is Up);
                assert(swallowed_at(config, ds, q, state, evs, i));
                assert forall|j: int| i < j < evs.len() implies !(#[trigger] evs[j] is Up) by {
                    if j < n - 1 {
                        assert(evs[j] == init[j]);
                        assert(!(init[j] is Up));
                    }
                }
            }
            if unreleased_press(config, ds, q, state, evs) {
                let i = choose|i: int|
                    0 <= i < evs.len() && #[trigger] swallowed_at(config, ds, q, state, evs, i)
                        && forall|j: int| i < j < evs.len() ==> !(#[trigger] evs[j] is Up);
                assert(i < n - 1);
                assert(swallowed_at(config, ds, q, state, init, i));
                assert forall|j: int| i < j < init.len() implies !(#[trigger] init[j] is Up) by {
                    assert(evs[j] == init[j]);
                }
            }
        }
    }
}

/// During a drag of the pressed device, the movement is handed on as it came: the
/// vertical movement with the sign that `invert_vertical` chooses (up scrolls up unless
/// inverted), the horizontal movement unchanged when horizontal scrolling is on and
/// absent when it is off; the drag goes on.
pub proof fn law_drag_directions(config: &Config, device: isize, dx: i32, dy: i32)
    ensures
        ({
            let o = spec_raw_move(config, dragging(device), device, dx, dy);
            &&& o.0 == dragging(device)
            &&& o.1 is Some
            &&& o.1->0.dy == dy
            &&& o.1->0.vertical_sign == (if config.invert_vertical {
                1i32
            } else {
                -1i32
            })
            &&& config.horizontal_scroll ==> o.1->0.dx == Some(dx)
            &&& !config.horizontal_scroll ==> o.1->0.dx is None
        }),
{
}

/// Settings that differ only in `invert_vertical` give drags the same horizontal and
/// vertical movement, with opposite vertical signs.
pub proof fn law_invert_flips_vertical_only(
    c1: &Config,
    c2: &Config,
    device: isize,
    dx: i32,
    dy: i32,
)
    requires
        c1.horizontal_scroll == c2.horizontal_scroll,
        c1.invert_vertical != c2.invert_vertical,
    ensures
        ({
            let o1 = spec_raw_move(c1, dragging(device), device, dx, dy).1;
            let o2 = spec_raw_move(c2, dragging(device), device, dx, dy).1;
            &&& o1 is Some && o2 is Some
            &&& o1->0.dx == o2->0.dx
            &&& o1->0.dy == o2->0.dy
            &&& o1->0.vertical_sign == -o2->0.vertical_sign
            &&& (o1->0.vertical_sign == 1 || o1->0.vertical_sign == -1)
        }),
{
}

/// Movement of another device, or movement while no press of ours is under way, changes
/// nothing and scrolls nothing.
pub proof fn law_other_movement_ignored(
    config: &Config,
    state: ScrollState,
    device: isize,
    dx: i32,
    dy: i32,
)
    requires
        state is Idle || (state is Pending && state->Pending_device != device) || (state is Scrolling
            && state->Scrolling_device != device),
    ensures
        spec_raw_move(config, state, device, dx, dy).0 == state,
        spec_raw_move(config, state, device, dx, dy).1 is None,
{
}

/// A release ends every press of ours: it gives a click for a pending press, is
/// swallowed after a drag, and passes through when no press of ours was under way.
pub proof fn law_release_outcomes(state: ScrollState)
    ensures
        spec_middle_up(state).0 is Idle,
        state is Idle ==> spec_middle_up(state).1 is Pass,
        state is Pending ==> spec_middle_up(state).1 is SynthClick,
        state is Scrolling ==> spec_middle_up(state).1 is Swallow,
{
}

/// Registration gives every connected device whose path had no setting (the first device
/// with that path, if several share it) the setting that its own name and path call for,
/// whatever other devices are registered with it or before it.
pub proof fn law_new_device_setting(cfg: Map<Seq<char>, (bool, Seq<char>)>, ds: Seq<MouseDevice>, i: int)
    requires
        0 <= i < ds.len(),
        !cfg.contains_key(ds[i].path@),
        forall|j: int| 0 <= j < i ==> ds[j].path@ != ds[i].path@,
    ensures
        synced(cfg, ds).contains_key(ds[i].path@),
        synced(cfg, ds)[ds[i].path@] == (spec_default_enabled(ds[i].name@, ds[i].path@), ds[i].name@),
    decreases ds.len(),
{
    let init = ds.drop_last();
    let k = ds[i].path@;
    if i < ds.len() - 1 {
        assert forall|j: int| 0 <= j < i implies init[j].path@ != init[i].path@ by {
            assert(init[j] == ds[j]);
        }
        law_new_device_setting(cfg, init, i);
        assert(init[i] == ds[i]);
    } else {
        lemma_synced_keys(cfg, init);
        assert(!synced(cfg, init).contains_key(k)) by {
            if synced(cfg, init).contains_key(k) {
                let j = choose|j: int| 0 <= j < init.len() && init[j].path@ == k;
                assert(ds[j] == init[j]);
            }
        }
    }
}

/// The positions up to (not including) `k` whose name is `n`.
pub open spec fn positions(names: Seq<Seq<char>>, n: Seq<char>, k: int) -> Set<int> {
    Set::new(|j: int| 0 <= j < k && names[j] == n)
}

proof fn lemma_count_is_positions(names: Seq<Seq<char>>, n: Seq<char>, k: int)
    requires
        0 <= k <= names.len(),
    ensures
        positions(names, n, k).finite(),
        positions(names, n, k).len() == count_name(names.take(k), n),
    decreases k,
{
    if k == 0 {
        assert(positions(names, n, 0) =~= Set::<int>::empty());
    } else {
        lemma_count_is_positions(names, n, k - 1);
        assert(names.take(k).drop_last() =~= names.take(k - 1));
        if names[k - 1] == n {
            assert(positions(names, n, k) =~= positions(names, n, k - 1).insert(k - 1));
        } else {
            assert(positions(names, n, k) =~= positions(names, n, k - 1));
        }
    }
}

/// The menu label of a device whose name another device shares is the name, ` #`, and
/// the number of devices with that name up to and including it, so that devices sharing
/// a name are numbered 1, 2, ... in menu order; a device whose name no other has is
/// labelled by its name alone.
pub proof fn law_label_numbering(names: Seq<Seq<char>>, i: int)
    requires
        0 <= i < names.len(),
    ensures
        (exists|j: int| 0 <= j < names.len() && j != i && names[j] == names[i]) ==> spec_label(
            names,
            i,
        ) == names[i] + seq![' ', '#'] + decimal(positions(names, names[i], i + 1).len()),
        (forall|j: int| 0 <= j < names.len() && j != i ==> names[j] != names[i]) ==> spec_label(
            names,
            i,
        ) == names[i],
{
    let n = names[i];
    let len = names.len() as int;
    lemma_count_is_positions(names, n, i + 1);
    lemma_count_is_positions(names, n, len);
    assert(names.take(len) =~= names);
    let all = positions(names, n, len);
    assert(all.contains(i));
    if exists|j: int| 0 <= j < names.len() && j != i && names[j] == names[i] {
        let j = choose|j: int| 0 <= j < names.len() && j != i && names[j] == names[i];
        assert(all.contains(j));
        let two = Set::<int>::empty().insert(i).insert(j);
        assert(two.len() == 2);
        assert(two.subset_of(all));
        vstd::set_lib::lemma_len_subset(two, all);
    }
    if forall|j: int| 0 <= j < names.len() && j != i ==> names[j] != names[i] {
        assert(all =~= Set::<int>::empty().insert(i));
    }
}

/// A hook event with a nonnegative code: a pointer movement is a movement whatever its
/// flags and marker; a middle press or release is acted on unless the tool injected it.
pub proof fn law_hook_event_kinds(code: i32, msg: u32, flags: u32, extra: usize)
    requires
        code >= 0,
    ensures
        msg == WM_MOUSEMOVE ==> spec_hook_event(code, msg, flags, extra) is Move,
        msg == WM_MBUTTONDOWN ==> (spec_hook_event(code, msg, flags, extra) is MiddleDown
            <==> !(flags & LLMHF_INJECTED != 0 && extra == crate::engine::MAGIC_EXTRA)),
        msg == WM_MBUTTONUP ==> (spec_hook_event(code, msg, flags, extra) is MiddleUp
            <==> !(flags & LLMHF_INJECTED != 0 && extra == crate::engine::MAGIC_EXTRA)),
        msg != WM_MOUSEMOVE && msg != WM_MBUTTONDOWN && msg != WM_MBUTTONUP ==> spec_hook_event(
            code,
            msg,
            flags,
            extra,
        ) is Other,
{
}

/// A negative hook code is always passed on.
pub proof fn law_negative_code_passes(code: i32, msg: u32, flags: u32, extra: usize)
    requires
        code < 0,
    ensures
        spec_hook_event(code, msg, flags, extra) is Other,
{
}

/// There is one wheel event per nonzero delta, carrying that delta: the vertical one
/// first, the horizontal one last, and none for a zero delta.
pub proof fn law_wheel_events(v: i32, h: i32)
    ensures
        spec_wheel_inputs(v, h).len() == (if v != 0 {
            1int
        } else {
            0int
        }) + (if h != 0 {
            1int
        } else {
            0int
        }),
        v != 0 ==> spec_wheel_inputs(v, h)[0] == WheelInput::Vertical(v),
        h != 0 ==> spec_wheel_inputs(v, h).last() == WheelInput::Horizontal(h),
{
}

/// Whether `i` is where the first `#` at or after `from` stands in `b` (`b.len()` when
/// there is none).
pub open spec fn first_hash(b: Seq<char>, from: int, i: int) -> bool {
    &&& from <= i <= b.len()
    &&& (i < b.len() ==> b[i] == '#')
    &&& forall|k: int| from <= k < i ==> b[k] != '#'
}

proof fn lemma_index_from(s: Seq<char>, c: char, from: int)
    requires
        0 <= from <= s.len(),
    ensures
        from <= index_from(s, c, from) <= s.len(),
        index_from(s, c, from) < s.len() ==> s[index_from(s, c, from)] == c,
        forall|k: int| from <= k < index_from(s, c, from) ==> s[k] != c,
    decreases s.len() - from,
{
    if from < s.len() && s[from] != c {
        lemma_index_from(s, c, from + 1);
    }
}

proof fn lemma_first_hash_unique(b: Seq<char>, from: int, i: int)
    requires
        0 <= from,
        first_hash(b, from, i),
    ensures
        index_from(b, '#', from) == i,
{
    lemma_index_from(b, '#', from);
    let r = index_from(b, '#', from);
    if r < i {
        assert(b[r] == '#');
    }
    if i < r {
        assert(b[i] == '#');
    }
}

/// The part of a device path after a leading `\\?\`, or the whole path without one.
pub open spec fn body_of(p: Seq<char>) -> Seq<char> {
    if p.len() >= 4 && p[0] == '\\' && p[1] == '\\' && p[2] == '?' && p[3] == '\\' {
        p.skip(4)
    } else {
        p
    }
}

/// The short name of a device path is the first `#`-separated field of its body, then,
/// where the body has a `#`, `\` and the second field; it never holds a `#`.
pub proof fn law_short_name_fields(p: Seq<char>, i: int, j: int)
    requires
        first_hash(body_of(p), 0, i),
        i < body_of(p).len() ==> first_hash(body_of(p), i + 1, j),
    ensures
        i == body_of(p).len() ==> spec_short_name(p) == body_of(p),
        i < body_of(p).len() ==> spec_short_name(p) == body_of(p).take(i) + seq!['\\']
            + body_of(p).subrange(i + 1, j),
        forall|k: int| 0 <= k < spec_short_name(p).len() ==> spec_short_name(p)[k] != '#',
{
    let b = body_of(p);
    lemma_first_hash_unique(b, 0, i);
    if i < b.len() {
        lemma_first_hash_unique(b, i + 1, j);
        let r = spec_short_name(p);
        assert forall|k: int| 0 <= k < r.len() implies r[k] != '#' by {
            if k < i {
                assert(r[k] == b[k]);
            } else if k > i {
                assert(r[k] == b[k]);
            }
        }
    }
}

/// A path has a device instance ID exactly when it starts with `\\?\` and its body has
/// at least three `#`-separated fields; the ID is the first three fields joined by `\`.
pub proof fn law_devnode_fields(p: Seq<char>, i: int, j: int, k: int)
    requires
        first_hash(p.skip(4), 0, i),
        i < p.skip(4).len() ==> first_hash(p.skip(4), i + 1, j),
        i < p.skip(4).len() && j < p.skip(4).len() ==> first_hash(p.skip(4), j + 1, k),
    ensures
        !(p.len() >= 4 && p[0] == '\\' && p[1] == '\\' && p[2] == '?' && p[3] == '\\')
            ==> spec_devnode_instance_id(p) is None,
        (p.len() >= 4 && p[0] == '\\' && p[1] == '\\' && p[2] == '?' && p[3] == '\\') ==> {
            let b = p.skip(4);
            &&& (i == b.len() || j == b.len()) ==> spec_devnode_instance_id(p) is None
            &&& (i < b.len() && j < b.len()) ==> spec_devnode_instance_id(p) == Some(
                b.take(i) + seq!['\\'] + b.subrange(i + 1, j) + seq!['\\'] + b.subrange(j + 1, k),
            )
        },
{
    let b = p.skip(4);
    lemma_first_hash_unique(b, 0, i);
    if i < b.len() {
        lemma_first_hash_unique(b, i + 1, j);
        if j < b.len() {
            lemma_first_hash_unique(b, j + 1, k);
        }
    } else {
        assert(index_from(b, '#', i + 1) == b.len());
    }
}

proof fn lemma_trim_start(s: Seq<char>)
    ensures
        exists|a: int|
            0 <= a <= s.len() && trim_start(s) == s.skip(a) && (forall|k: int| 0 <= k < a ==> is_white_space(#[trigger] s[k]))
                && (a < s.len() ==> !is_white_space(s[a])),
    decreases s.len(),
{
    if s.len() > 0 && is_white_space(s[0]) {
        let t = s.drop_first();
        lemma_trim_start(t);
        let a = choose|a: int|
            0 <= a <= t.len() && trim_start(t) == t.skip(a) && (forall|k: int| 0 <= k < a ==> is_white_space(#[trigger] t[k]))
                && (a < t.len() ==> !is_white_space(t[a]));
        assert(t.skip(a) =~= s.skip(a + 1));
        assert forall|k: int| 0 <= k < a + 1 implies is_white_space(#[trigger] s[k]) by {
            if k > 0 {
                assert(s[k] == t[k - 1]);
            }
        }
    } else {
        assert(s.skip(0) =~= s);
    }
}

proof fn lemma_trim_end(s: Seq<char>)
    ensures
        exists|e: int|
            0 <= e <= s.len() && trim_end(s) == s.take(e) && (forall|k: int| e <= k < s.len() ==> is_white_space(#[trigger] s[k]))
                && (e > 0 ==> !is_white_space(s[e - 1])),
    decreases s.len(),
{
    if s.len() > 0 && is_white_space(s.last()) {
        let t = s.drop_last();
        lemma_trim_end(t);
        let e = choose|e: int|
            0 <= e <= t.len() && trim_end(t) == t.take(e) && (forall|k: int| e <= k < t.len() ==> is_white_space(#[trigger] t[k]))
                && (e > 0 ==> !is_white_space(t[e - 1]));
        assert(t.take(e) =~= s.take(e));
        assert forall|k: int| e <= k < s.len() implies is_white_space(#[trigger] s[k]) by {
            if k < s.len() - 1 {
                assert(s[k] == t[k]);
            }
        }
    } else {
        assert(s.take(s.len() as int) =~= s);
    }
}

/// A cleaned device name is the reported name with white space cut from both ends and
/// nowhere else: a run of the name that neither starts nor ends with white space, with
/// only white space before and after it; there is none when the name is all white space.
pub proof fn law_clean_name_trims(raw: Seq<char>)
    ensures
        exists|a: int, e: int|
            0 <= a <= e <= raw.len() && trimmed(raw) == raw.subrange(a, e) && (forall|k: int|
                0 <= k < a ==> is_white_space(#[trigger] raw[k])) && (forall|k: int|
                e <= k < raw.len() ==> is_white_space(#[trigger] raw[k])) && (a < e ==> !is_white_space(raw[a])
                && !is_white_space(raw[e - 1])),
        spec_clean_name(raw) is None <==> (forall|k: int| 0 <= k < raw.len() ==> is_white_space(#[trigger] raw[k])),
        spec_clean_name(raw) matches Some(c) ==> c == trimmed(raw) && c.len() > 0,
{
    lemma_trim_start(raw);
    let a = choose|a: int|
        0 <= a <= raw.len() && trim_start(raw) == raw.skip(a) && (forall|k: int| 0 <= k < a ==> is_white_space(#[trigger] raw[k]))
            && (a < raw.len() ==> !is_white_space(raw[a]));
    let t = raw.skip(a);
    lemma_trim_end(t);
    let e0 = choose|e: int|
        0 <= e <= t.len() && trim_end(t) == t.take(e) && (forall|k: int| e <= k < t.len() ==> is_white_space(#[trigger] t[k]))
            && (e > 0 ==> !is_white_space(t[e - 1]));
    let e = a + e0;
    assert(t.take(e0) =~= raw.subrange(a, e));
    assert forall|k: int| e <= k < raw.len() implies is_white_space(#[trigger] raw[k]) by {
        assert(raw[k] == t[k - a]);
    }
    if a < e {
        assert(raw[a] == t[0]);
        assert(raw[e - 1] == t[e0 - 1]);
    }
    assert(exists|a: int, e: int|
        0 <= a <= e <= raw.len() && trimmed(raw) == raw.subrange(a, e) && (forall|k: int|
            0 <= k < a ==> is_white_space(#[trigger] raw[k])) && (forall|k: int|
            e <= k < raw.len() ==> is_white_space(#[trigger] raw[k])) && (a < e ==> !is_white_space(raw[a])
            && !is_white_space(raw[e - 1])));
    if forall|k: int| 0 <= k < raw.len() ==> is_white_space(#[trigger] raw[k]) {
        if a < e {
            assert(is_white_space(raw[a]));
        }
    }
    if trimmed(raw).len() == 0 {
        assert(a == e);
        assert forall|k: int| 0 <= k < raw.len() implies is_white_space(#[trigger] raw[k]) by {
            if k >= a {
                assert(k >= e);
            }
        }
    }
}

/// The number that a string of decimal digits stands for.
pub open spec fn decimal_value(s: Seq<char>) -> int
    decreases s.len(),
{
    if s.len() == 0 {
        0
    } else {
        decimal_value(s.drop_last()) * 10 + (s.last() as int - '0' as int)
    }
}

/// The decimal form of `n` is a nonempty string of the digits `0` to `9` that stands
/// for `n`, with no leading zero.
pub proof fn law_decimal_digits(n: nat)
    ensures
        decimal(n).len() > 0,
        forall|k: int| 0 <= k < decimal(n).len() ==> '0' <= #[trigger] decimal(n)[k] <= '9',
        decimal_value(decimal(n)) == n,
        decimal(n).len() > 1 ==> decimal(n)[0] != '0',
    decreases n,
{
    assert(digits()[0] == '0' && digits()[1] == '1' && digits()[2] == '2' && digits()[3] == '3');
    assert(digits()[4] == '4' && digits()[5] == '5' && digits()[6] == '6' && digits()[7] == '7');
    assert(digits()[8] == '8' && digits()[9] == '9');
    assert forall|d: int| 0 <= d < 10 implies (#[trigger] digits()[d]) as int == '0' as int + d
        && '0' <= digits()[d] <= '9' by {
        assert(digits()[d] == digits()[d]);
    }
    if n >= 10 {
        law_decimal_digits(n / 10);
        let s = decimal(n);
        let t = decimal(n / 10);
        let d = (n % 10) as int;
        assert(s == t.push(digits()[d]));
        assert(s.drop_last() =~= t);
        assert(s.last() == digits()[d]);
        assert(decimal_value(s) == decimal_value(t) * 10 + (digits()[d] as int - '0' as int));
        assert(decimal_value(s) == (n / 10) * 10 + d);
        assert forall|k: int| 0 <= k < s.len() implies '0' <= #[trigger] s[k] <= '9' by {
            if k < t.len() {
                assert(s[k] == t[k]);
            }
        }
        assert(s[0] == t[0]);
        if t.len() == 1 {
            assert(t.drop_last().len() == 0);
            assert(decimal_value(t.drop_last()) == 0);
            assert(t.last() == t[0]);
            assert(decimal_value(t) == t[0] as int - '0' as int);
        }
    } else {
        let s = decimal(n);
        assert(s == seq![digits()[n as int]]);
        assert(s.drop_last().len() == 0);
        assert(decimal_value(s.drop_last()) == 0);
        assert(s.last() == digits()[n as int]);
    }
}

/// Scrolling is on for a handle exactly when the first connected device with that handle
/// has a stored setting that is enabled; an unknown handle never scrolls.
pub proof fn law_device_enabled_first_match(
    cfg: Map<Seq<char>, (bool, Seq<char>)>,
    ds: Seq<MouseDevice>,
    h: isize,
)
    ensures
        spec_device_enabled(cfg, ds, h) <==> exists|i: int|
            0 <= i < ds.len() && #[trigger] ds[i].handle == h && (forall|j: int|
                0 <= j < i ==> ds[j].handle != h) && cfg.contains_key(ds[i].path@) && cfg[ds[i].path@].0,
        (forall|i: int| 0 <= i < ds.len() ==> ds[i].handle != h) ==> !spec_device_enabled(cfg, ds, h),
{
    lemma_handle_pos(ds, h, 0);
    let p = handle_pos(ds, h, 0);
    if exists|i: int|
        0 <= i < ds.len() && #[trigger] ds[i].handle == h && (forall|j: int|
            0 <= j < i ==> ds[j].handle != h) && cfg.contains_key(ds[i].path@) && cfg[ds[i].path@].0 {
        let i = choose|i: int|
            0 <= i < ds.len() && #[trigger] ds[i].handle == h && (forall|j: int|
                0 <= j < i ==> ds[j].handle != h) && cfg.contains_key(ds[i].path@) && cfg[ds[i].path@].0;
        if p < i {
            assert(ds[p].handle == h);
        }
        if i < p {
            assert(ds[i].handle != h);
        }
    }
    if p < ds.len() {
        assert(ds[p].handle == h);
    }
}

proof fn lemma_handle_pos(ds: Seq<MouseDevice>, h: isize, from: int)
    requires
        0 <= from <= ds.len(),
    ensures
        from <= handle_pos(ds, h, from) <= ds.len(),
        handle_pos(ds, h, from) < ds.len() ==> ds[handle_pos(ds, h, from)].handle == h,
        forall|k: int| from <= k < handle_pos(ds, h, from) ==> ds[k].handle != h,
    decreases ds.len() - from,
{
    if from < ds.len() && ds[from].handle != h {
        lemma_handle_pos(ds, h, from + 1);
    }
}

/// A menu ID that is neither exit, nor open-config, nor the ID of a listed device asks
/// for nothing.
pub proof fn law_unknown_command_nothing(cmd: usize, n_items: usize)
    requires
        cmd != CMD_EXIT,
        cmd != CMD_OPEN_CONFIG,
        !(CMD_DEVICE_BASE <= cmd < CMD_DEVICE_BASE + n_items),
    ensures
        spec_menu_command(cmd, n_items) is Nothing,
{
}

/// Each code unit is read from its byte pair with the first byte low and the second
/// high, and an odd trailing byte adds no unit.
pub proof fn law_le_units(b: Seq<u8>)
    ensures
        crate::names::le_units(b).len() * 2 <= b.len() < crate::names::le_units(b).len() * 2 + 2,
        forall|i: int|
            0 <= i < crate::names::le_units(b).len() ==> (#[trigger] crate::names::le_units(b)[i])
                % 256 == b[2 * i] && crate::names::le_units(b)[i] / 256 == b[2 * i + 1],
{
    assert forall|i: int| 0 <= i < crate::names::le_units(b).len() implies (#[trigger] crate::names::le_units(
        b,
    )[i]) % 256 == b[2 * i] && crate::names::le_units(b)[i] / 256 == b[2 * i + 1] by {
        assert(2 * i + 1 < b.len());
        let lo = b[2 * i] as int;
        let hi = b[2 * i + 1] as int;
        assert(crate::names::le_units(b)[i] == (lo + 256 * hi) as u16);
        assert(0 <= lo + 256 * hi < 65536);
    }
}

/// The values that the tool's rules and the Windows interfaces fix: the default speed is
/// 4.0 wheel delta per count and the default threshold 3 counts; a raw-input press is
/// matched for 500 ms and at most 8 wait; and the Windows message, flag and menu IDs.
pub proof fn law_constants()
    ensures
        crate::config::DEFAULT_SCROLL_SPEED_BITS == 0x4010_0000_0000_0000u64,
        crate::config::DEFAULT_DRAG_THRESHOLD == 3,
        crate::engine::PENDING_DOWN_TTL_NS == 500_000_000,
        PENDING_DOWN_CAPACITY == 8,
        crate::engine::MAGIC_EXTRA == 0x5450_5353usize,
        crate::engine::RI_MOUSE_MIDDLE_BUTTON_DOWN == 0x0010,
        crate::engine::MOUSE_MOVE_ABSOLUTE == 0x0001,
        WM_MOUSEMOVE == 0x0200,
        WM_MBUTTONDOWN == 0x0207,
        WM_MBUTTONUP == 0x0208,
        LLMHF_INJECTED == 1,
        CMD_EXIT == 1,
        CMD_OPEN_CONFIG == 2,
        CMD_DEVICE_BASE == 100,
        crate::menu::WM_LBUTTONUP == 0x0202,
        crate::menu::WM_RBUTTONUP == 0x0205,
{
}

/// A raw-input press is recent, and may be matched, while less than 500 ms have passed
/// since it was seen (a press stamped later than `now` counts as just seen).
pub proof fn law_fresh_window(p: PendingDown, now: u64)
    ensures
        is_fresh(p, now) <==> (now < p.at || now - p.at < 500_000_000),
{
}

proof fn lemma_expired_prefix_at(q: Seq<PendingDown>, now: u64, i: int)
    requires
        0 <= i <= q.len(),
        forall|k: int| 0 <= k < i ==> !is_fresh(#[trigger] q[k], now),
        i < q.len() ==> is_fresh(q[i], now),
    ensures
        expired_prefix(q, now) == i,
    decreases i,
{
    if i > 0 {
        let t = q.drop_first();
        assert forall|k: int| 0 <= k < i - 1 implies !is_fresh(#[trigger] t[k], now) by {
            assert(t[k] == q[k + 1]);
        }
        if i - 1 < t.len() {
            assert(t[i - 1] == q[i]);
        }
        lemma_expired_prefix_at(t, now, i - 1);
        assert(!is_fresh(q[0], now));
    } else if q.len() > 0 {
        assert(is_fresh(q[0], now));
    }
}

/// A hook press drops the expired presses at the front of the queue and takes the first
/// recent one after them: the press is judged by that device, and the queue keeps what
/// came after it.
pub proof fn law_skips_expired_front(
    cfg: Map<Seq<char>, (bool, Seq<char>)>,
    ds: Seq<MouseDevice>,
    q: Seq<PendingDown>,
    state: ScrollState,
    now: u64,
    i: int,
)
    requires
        0 <= i < q.len(),
        forall|k: int| 0 <= k < i ==> !is_fresh(#[trigger] q[k], now),
        is_fresh(q[i], now),
    ensures
        spec_middle_down(cfg, ds, q, state, now) == ({
            let ok = state is Idle && spec_device_enabled(cfg, ds, q[i].device);
            (q.skip(i + 1), if ok {
                fresh_press(q[i].device)
            } else {
                state
            }, ok)
        }),
{
    lemma_expired_prefix_at(q, now, i);
    assert(q.skip(i).drop_first() =~= q.skip(i + 1));
    assert(q.skip(i)[0] == q[i]);
}

/// A device's menu entry shows its path and name, and is checked exactly when a setting
/// is stored for its path and that setting is enabled.
pub proof fn law_menu_item(cfg: Map<Seq<char>, (bool, Seq<char>)>, d: MouseDevice)
    ensures
        crate::menu::spec_menu_item(cfg, d).0 == d.path@,
        crate::menu::spec_menu_item(cfg, d).1 == d.name@,
        crate::menu::spec_menu_item(cfg, d).2 <==> (cfg.contains_key(d.path@) && cfg[d.path@].0),
{
}

/// The name shown for a device is the HID product string when there is one, else the
/// device manager name when there is one, else the short form of its path.
pub proof fn law_friendly_name_order(
    path: Seq<char>,
    product: Option<Seq<char>>,
    devnode: Option<Seq<char>>,
)
    ensures
        product matches Some(p) ==> crate::names::spec_friendly_name(path, product, devnode) == p,
        product is None && devnode is Some ==> crate::names::spec_friendly_name(
            path,
            product,
            devnode,
        ) == devnode->0,
        product is None && devnode is None ==> crate::names::spec_friendly_name(path, product, devnode)
            == spec_short_name(path),
{
}

/// Whether every character of `n` follows in `h`, in turn, from position `i`.
pub open spec fn chars_follow(h: Seq<char>, n: Seq<char>, i: int) -> bool {
    &&& 0 <= i
    &&& i + n.len() <= h.len()
    &&& forall|k: int| 0 <= k < n.len() ==> #[trigger] h[i + k] == n[k]
}

/// `n` occurs in `h` exactly when, at some position, every character of `n` follows in
/// `h` in turn.
pub proof fn law_contains_chars(h: Seq<char>, n: Seq<char>)
    ensures
        crate::text::seq_contains(h, n) <==> exists|i: int| #[trigger] chars_follow(h, n, i),
{
    if crate::text::seq_contains(h, n) {
        let i = choose|i: int| crate::text::occurs_at(h, n, i);
        assert forall|k: int| 0 <= k < n.len() implies #[trigger] h[i + k] == n[k] by {
            assert(h.subrange(i, i + n.len())[k] == h[i + k]);
        }
        assert(chars_follow(h, n, i));
    }
    if exists|i: int| #[trigger] chars_follow(h, n, i) {
        let i = choose|i: int| #[trigger] chars_follow(h, n, i);
        assert forall|k: int| 0 <= k < n.len() implies h.subrange(i, i + n.len())[k] == n[k] by {
            assert(h[i + k] == n[k]);
        }
        assert(h.subrange(i, i + n.len()) =~= n);
        assert(crate::text::occurs_at(h, n, i));
    }
}

/// A new device starts enabled exactly when the lowercased text `name + " " + path`
/// holds the ten characters `trackpoint` in a row.
pub proof fn law_default_enabled_word(name: Seq<char>, path: Seq<char>)
    ensures
        spec_default_enabled(name, path) <==> crate::text::seq_contains(
            crate::text::lowercase(name + seq![' '] + path),
            seq!['t', 'r', 'a', 'c', 'k', 'p', 'o', 'i', 'n', 't'],
        ),
{
    assert(crate::names::trackpoint_word() =~= seq!['t', 'r', 'a', 'c', 'k', 'p', 'o', 'i', 'n', 't']);
}

} // verus!
