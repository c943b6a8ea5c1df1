use vstd::prelude::*;

use crate::engine::{spec_middle_down, spec_middle_up, Engine, UpAction, MAGIC_EXTRA};

verus! {

/// Low-level mouse hook message of a pointer movement.
pub const WM_MOUSEMOVE: u32 = 0x0200;

/// Low-level mouse hook message of a middle-button press.
pub const WM_MBUTTONDOWN: u32 = 0x0207;

/// Low-level mouse hook message of a middle-button release.
pub const WM_MBUTTONUP: u32 = 0x0208;

/// Low-level mouse hook flag of an injected event.
pub const LLMHF_INJECTED: u32 = 0x0000_0001;

/// The low-level mouse hook events that the tool acts on.
pub enum HookEvent {
    /// A middle-button press that the tool did not inject.
    MiddleDown,
    /// A middle-button release that the tool did not inject.
    MiddleUp,
    /// A pointer movement.
    Move,
    /// Anything else: passed on untouched.
    Other,
}

/// What the hook does with an event.
pub enum HookResponse {
    /// Pass the event on.
    Pass,
    /// Swallow the event.
    Swallow,
    /// Swallow the event and send a middle click in its place.
    SwallowAndClick,
}

/// Whether a hook event is one that the tool injected itself: flagged as injected and
/// carrying the tool's marker.
pub open spec fn injected_by_us(flags: u32, extra: usize) -> bool {
    flags & LLMHF_INJECTED != 0 && extra == MAGIC_EXTRA
}

/// The kind of a low-level mouse hook event (`code` is the hook code; a negative one
/// must be passed on untouched).
pub open spec fn spec_hook_event(code: i32, msg: u32, flags: u32, extra: usize) -> HookEvent {
    if code < 0 {
        HookEvent::Other
    } else if msg == WM_MBUTTONDOWN && !injected_by_us(flags, extra) {
        HookEvent::MiddleDown
    } else if msg == WM_MBUTTONUP && !injected_by_us(flags, extra) {
        HookEvent::MiddleUp
    } else if msg == WM_MOUSEMOVE {
        HookEvent::Move
    } else {
        HookEvent::Other
    }
}

/// Classifies a low-level mouse hook event.
pub fn classify_hook_event(code: i32, msg: u32, flags: u32, extra: usize) -> (r: HookEvent)
    ensures
        r == spec_hook_event(code, msg, flags, extra),
{
    if code < 0 {
        return HookEvent::Other;
    }
    let ours = flags & LLMHF_INJECTED != 0 && extra == MAGIC_EXTRA;
    if msg == WM_MBUTTONDOWN && !ours {
        HookEvent::MiddleDown
    } else if msg == WM_MBUTTONUP && !ours {
        HookEvent::MiddleUp
    } else if msg == WM_MOUSEMOVE {
        HookEvent::Move
    } else {
        HookEvent::Other
    }
}

/// The hook's response to a middle-button release.
pub open spec fn up_response(a: UpAction) -> HookResponse {
    match a {
        UpAction::Pass => HookResponse::Pass,
        UpAction::Swallow => HookResponse::Swallow,
        UpAction::SynthClick => HookResponse::SwallowAndClick,
    }
}

impl Engine {
    /// Decides what the hook does with an event at time `now`: a press that may start a
    /// scroll is swallowed, a release is handled as `on_middle_up` says, and movement is
    /// swallowed (the cursor stays still) while a press of ours is under way.
    pub fn hook_response(&mut self, event: HookEvent, now: u64) -> (r: HookResponse)
        ensures
            match event {
                HookEvent::MiddleDown => {
                    let o = spec_middle_down(
                        old(self).configuration().devices@,
                        old(self).connected(),
                        old(self).queue(),
                        old(self).phase(),
                        now,
                    );
                    &&& final(self).queue() == o.0
                    &&& final(self).phase() == o.1
                    &&& r == if o.2 {
                        HookResponse::Swallow
                    } else {
                        HookResponse::Pass
                    }
                },
                HookEvent::MiddleUp => {
                    let o = spec_middle_up(old(self).phase());
                    &&& final(self).queue() == old(self).queue()
                    &&& final(self).phase() == o.0
                    &&& r == up_response(o.1)
                },
                HookEvent::Move => {
                    &&& final(self).queue() == old(self).queue()
                    &&& final(self).phase() == old(self).phase()
                    &&& r == if old(self).phase() is Idle {
                        HookResponse::Pass
                    } else {
                        HookResponse::Swallow
                    }
                },
                HookEvent::Other => {
                    &&& final(self).queue() == old(self).queue()
                    &&& final(self).phase() == old(self).phase()
                    &&& r == HookResponse::Pass
                },
            },
            final(self).configuration() == old(self).configuration(),
            final(self).connected() == old(self).connected(),
    {
        match event {
            HookEvent::MiddleDown => {
                if self.on_middle_down(now) {
                    HookResponse::Swallow
                } else {
                    HookResponse::Pass
                }
            },
            HookEvent::MiddleUp => match self.on_middle_up() {
                UpAction::Pass => HookResponse::Pass,
                UpAction::Swallow => HookResponse::Swallow,
                UpAction::SynthClick => HookResponse::SwallowAndClick,
            },
            HookEvent::Move => {
                if self.is_active() {
                    HookResponse::Swallow
                } else {
                    HookResponse::Pass
                }
            },
            HookEvent::Other => HookResponse::Pass,
        }
    }
}

/// A wheel event to inject.
pub enum WheelInput {
    /// Vertical wheel delta.
    Vertical(i32),
    /// Horizontal wheel delta.
    Horizontal(i32),
}

/// The wheel events that carry a vertical delta `v` and a horizontal delta `h`: one for
/// each nonzero delta, vertical first.
pub open spec fn spec_wheel_inputs(v: i32, h: i32) -> Seq<WheelInput> {
    let vs = if v != 0 {
        seq![WheelInput::Vertical(v)]
    } else {
        Seq::empty()
    };
    if h != 0 {
        vs.push(WheelInput::Horizontal(h))
    } else {
        vs
    }
}

/// The wheel events to inject for the deltas `v` and `h`.
pub fn wheel_inputs(v: i32, h: i32) -> (r: Vec<WheelInput>)
    ensures
        r@ == spec_wheel_inputs(v, h),
{
    let mut inputs: Vec<WheelInput> = Vec::new();
    if v != 0 {
        inputs.push(WheelInput::Vertical(v));
    }
    if h != 0 {
        inputs.push(WheelInput::Horizontal(h));
    }
    assert(inputs@ =~= spec_wheel_inputs(v, h));
    inputs
}

} // verus!
