//! The mathematical model of the engine.  Every executable state change is
//! proved to equal one of the transition functions below, so the engine's
//! behaviour can be reasoned about, and its laws proved, purely at this
//! level.

use vstd::prelude::*;

use crate::text::{contains_seq, first_comma_index, has_token};

verus! {

/// The registries never grow past this many layouts, so a position in the
/// layout registry always fits in a `u16` layout index.
pub const LAYOUT_CAPACITY: usize = 65535;

/// Marker in device names of synthetic virtual keyboards whose layout
/// events are ignored entirely.
pub open spec fn virtual_kb_marker() -> Seq<char> {
    "wlr_virtual_keyboard_v"@
}

/// Marker in device names (hardware security tokens) that are registered
/// but never receive switch commands.
pub open spec fn excluded_marker() -> Seq<char> {
    "yubikey"@
}

/// Pseudo-layout names injected by on-screen keyboards; they are never
/// allowed into the layout registry.
pub open spec fn blacklisted_layout(name: Seq<char>) -> bool {
    name == "wvkbd"@
}

/// The normalized address form of a raw window handle.
pub open spec fn window_address(data: Seq<char>) -> Seq<char> {
    "0x"@ + data
}

/// The whole engine state: associations, the two registries, and the
/// active window, class and layout index.
pub struct EngineModel {
    pub associations: Map<Seq<char>, u16>,
    pub layouts: Seq<Seq<char>>,
    pub keyboards: Seq<Seq<char>>,
    pub active_window: Seq<char>,
    pub active_class: Seq<char>,
    pub active_layout: u16,
}

/// The state at process start: everything empty, layout index 0.
pub open spec fn init_model() -> EngineModel {
    EngineModel {
        associations: Map::empty(),
        layouts: Seq::empty(),
        keyboards: Seq::empty(),
        active_window: Seq::empty(),
        active_class: Seq::empty(),
        active_layout: 0,
    }
}

/// Registering a keyboard device name: append it unless already present.
pub open spec fn register_keyboard(ks: Seq<Seq<char>>, name: Seq<char>) -> Seq<Seq<char>> {
    if ks.contains(name) {
        ks
    } else {
        ks.push(name)
    }
}

/// Registering a layout long name: blacklisted names are discarded, known
/// names keep their position, and the registry never grows past
/// `LAYOUT_CAPACITY` entries.
pub open spec fn register_layout(ls: Seq<Seq<char>>, name: Seq<char>) -> Seq<Seq<char>> {
    if blacklisted_layout(name) {
        ls
    } else if ls.contains(name) {
        ls
    } else if ls.len() < LAYOUT_CAPACITY {
        ls.push(name)
    } else {
        ls
    }
}

/// The position of the first occurrence of `name` in `ls` (its length if
/// absent); for a registered layout name this is its layout index.
pub open spec fn position_of(ls: Seq<Seq<char>>, name: Seq<char>) -> int
    decreases ls.len(),
{
    if ls.len() == 0 {
        0
    } else if ls[0] == name {
        0
    } else {
        1 + position_of(ls.drop_first(), name)
    }
}

/// In a duplicate-free sequence, any index holding `name` is its position.
pub proof fn lemma_position_of_distinct(ls: Seq<Seq<char>>, name: Seq<char>, i: int)
    requires
        forall|a: int, b: int| 0 <= a < b < ls.len() ==> ls[a] != ls[b],
        0 <= i < ls.len(),
        ls[i] == name,
    ensures
        position_of(ls, name) == i,
    decreases ls.len(),
{
    if ls[0] == name {
        if i != 0 {
            assert(ls[0] != ls[i]);
        }
    } else {
        assert(i >= 1);
        assert(ls.drop_first()[i - 1] == name);
        assert forall|a: int, b: int|
            0 <= a < b < ls.drop_first().len() implies ls.drop_first()[a] != ls.drop_first()[b] by {
            assert(ls[a + 1] != ls[b + 1]);
        }
        lemma_position_of_distinct(ls.drop_first(), name, i - 1);
    }
}

/// Whether some pattern of a policy entry matches a token of `class`.
pub open spec fn entry_matches(patterns: Seq<Seq<char>>, class: Seq<char>) -> bool {
    exists|j: int| 0 <= j < patterns.len() && has_token(class, #[trigger] patterns[j])
}

/// The layout index the policy assigns to a first-seen window with active
/// class `class`: the index of the first matching entry, 0 if none match.
pub open spec fn policy_choice(policy: Seq<(u16, Seq<Seq<char>>)>, class: Seq<char>) -> u16
    decreases policy.len(),
{
    if policy.len() == 0 {
        0
    } else if entry_matches(policy[0].1, class) {
        policy[0].0
    } else {
        policy_choice(policy.drop_first(), class)
    }
}

pub proof fn lemma_policy_choice_first_match(
    policy: Seq<(u16, Seq<Seq<char>>)>,
    class: Seq<char>,
    i: int,
)
    requires
        0 <= i < policy.len(),
        forall|e: int| 0 <= e < i ==> !entry_matches((#[trigger] policy[e]).1, class),
        entry_matches(policy[i].1, class),
    ensures
        policy_choice(policy, class) == policy[i].0,
    decreases policy.len(),
{
    if i == 0 {
    } else {
        assert(!entry_matches(policy[0].1, class));
        assert forall|e: int|
            0 <= e < i - 1 implies !entry_matches((#[trigger] policy.drop_first()[e]).1, class) by {
            assert(policy.drop_first()[e] == policy[e + 1]);
        }
        assert(policy.drop_first()[i - 1] == policy[i]);
        lemma_policy_choice_first_match(policy.drop_first(), class, i - 1);
    }
}

pub proof fn lemma_policy_choice_none(policy: Seq<(u16, Seq<Seq<char>>)>, class: Seq<char>)
    requires
        forall|e: int| 0 <= e < policy.len() ==> !entry_matches((#[trigger] policy[e]).1, class),
    ensures
        policy_choice(policy, class) == 0,
    decreases policy.len(),
{
    if policy.len() > 0 {
        assert(!entry_matches(policy[0].1, class));
        assert forall|e: int|
            0 <= e < policy.drop_first().len() implies !entry_matches(
            (#[trigger] policy.drop_first()[e]).1,
            class,
        ) by {
            assert(policy.drop_first()[e] == policy[e + 1]);
        }
        lemma_policy_choice_none(policy.drop_first(), class);
    }
}

/// The devices that receive switch commands: every registered keyboard
/// whose name does not carry the exclusion marker.
pub open spec fn commandable(ks: Seq<Seq<char>>) -> Seq<Seq<char>> {
    ks.filter(|k: Seq<char>| !contains_seq(k, excluded_marker()))
}

/// The switch commands issued for layout `index`: one per commandable
/// device, in registration order.
pub open spec fn commands_for(ks: Seq<Seq<char>>, index: u16) -> Seq<(Seq<char>, u16)> {
    commandable(ks).map_values(|k: Seq<char>| (k, index))
}

/// Applying a layout: a no-op while no keyboard is known; otherwise the
/// active layout index is set first and one command per commandable
/// device is issued.
pub open spec fn change_layout_model(s: EngineModel, index: u16) -> (EngineModel, Seq<
    (Seq<char>, u16),
>) {
    if s.keyboards.len() == 0 {
        (s, Seq::empty())
    } else {
        (EngineModel { active_layout: index, ..s }, commands_for(s.keyboards, index))
    }
}

/// Dropping every device whose command failed, survivors keeping their
/// relative order.
pub open spec fn prune_model(s: EngineModel, failed: Seq<Seq<char>>) -> EngineModel {
    EngineModel { keyboards: s.keyboards.filter(|k: Seq<char>| !failed.contains(k)), ..s }
}

/// A focus change: a re-focused window gets its stored layout applied; a
/// first-seen window is assigned the policy's choice for the last active
/// class (0 when nothing matches), which is recorded and applied.
pub open spec fn focus_model(
    s: EngineModel,
    data: Seq<char>,
    policy: Seq<(u16, Seq<Seq<char>>)>,
) -> (EngineModel, Seq<(Seq<char>, u16)>) {
    let addr = window_address(data);
    let s1 = EngineModel { active_window: addr, ..s };
    if s.associations.contains_key(addr) {
        change_layout_model(s1, s.associations[addr])
    } else {
        let index = policy_choice(policy, s.active_class);
        let s2 = EngineModel { associations: s.associations.insert(addr, index), ..s1 };
        change_layout_model(s2, index)
    }
}

/// A layout-change notification: register the device and (subject to the
/// blacklist) the layout name, resolve the name to its index, and if that
/// index differs from the active one, record it for the active window.
/// No commands are issued: the change has already happened on the device.
pub open spec fn layout_notice_model(s: EngineModel, data: Seq<char>) -> EngineModel {
    let cut = first_comma_index(data);
    if cut == data.len() {
        s
    } else {
        let device = data.subrange(0, cut);
        let layout = data.subrange(cut + 1, data.len() as int);
        if contains_seq(device, virtual_kb_marker()) {
            s
        } else {
            let s1 = EngineModel {
                keyboards: register_keyboard(s.keyboards, device),
                layouts: register_layout(s.layouts, layout),
                ..s
            };
            if s1.layouts.contains(layout) {
                let index = position_of(s1.layouts, layout) as u16;
                if index == s.active_layout {
                    s1
                } else {
                    EngineModel {
                        active_layout: index,
                        associations: s1.associations.insert(s.active_window, index),
                        ..s1
                    }
                }
            } else {
                s1
            }
        }
    }
}

/// One step of the engine: dispatch on the event name.  Unknown names and
/// malformed payloads leave the state unchanged.
pub open spec fn event_model(
    s: EngineModel,
    name: Seq<char>,
    data: Seq<char>,
    policy: Seq<(u16, Seq<Seq<char>>)>,
) -> (EngineModel, Seq<(Seq<char>, u16)>) {
    if name == "activewindow"@ {
        (
            EngineModel { active_class: data.subrange(0, first_comma_index(data)), ..s },
            Seq::empty(),
        )
    } else if name == "activewindowv2"@ {
        focus_model(s, data, policy)
    } else if name == "closewindow"@ {
        (EngineModel { associations: s.associations.remove(window_address(data)), ..s }, Seq::empty())
    } else if name == "activelayout"@ {
        (layout_notice_model(s, data), Seq::empty())
    } else {
        (s, Seq::empty())
    }
}

/// Running a whole sequence of events: the final state, and every
/// command issued along the way, in order.
pub open spec fn run_events_model(
    s: EngineModel,
    events: Seq<(Seq<char>, Seq<char>)>,
    policy: Seq<(u16, Seq<Seq<char>>)>,
) -> (EngineModel, Seq<(Seq<char>, u16)>)
    decreases events.len(),
{
    if events.len() == 0 {
        (s, Seq::empty())
    } else {
        let step = event_model(s, events[0].0, events[0].1, policy);
        let rest = run_events_model(step.0, events.drop_first(), policy);
        (rest.0, step.1 + rest.1)
    }
}

} // verus!
