//! Laws of the engine, stated and proved once and for all over the model.
//! Each law holds of every state and input its `requires` admits; since
//! every executable method is proved to follow the model, the laws carry
//! over to the running engine.

use vstd::prelude::*;

use crate::model::{
    blacklisted_layout, change_layout_model, commandable, commands_for, entry_matches,
    event_model, excluded_marker, prune_model, register_keyboard, register_layout,
    run_events_model, window_address, EngineModel, LAYOUT_CAPACITY,
};
use crate::registry::lemma_filter_membership;
use crate::text::{contains_seq, first_comma_index};

verus! {

broadcast use vstd::string::group_string_axioms;

/// The four recognized event names are pairwise distinct, so the
/// dispatch in `event_model` takes exactly one branch.
proof fn lemma_event_names_distinct()
    ensures
        "activewindow"@ != "activewindowv2"@,
        "activewindow"@ != "closewindow"@,
        "activewindow"@ != "activelayout"@,
        "activewindowv2"@ != "closewindow"@,
        "activewindowv2"@ != "activelayout"@,
        "closewindow"@ != "activelayout"@,
{
    reveal_strlit("activewindow");
    reveal_strlit("activewindowv2");
    reveal_strlit("closewindow");
    reveal_strlit("activelayout");
    assert("activewindow"@.len() == 12);
    assert("activewindowv2"@.len() == 14);
    assert("closewindow"@.len() == 11);
    assert("activelayout"@.len() == 12);
    assert("activewindow"@[6] == 'w');
    assert("activelayout"@[6] == 'l');
}

/// Every command issued for layout `index` names a device without the
/// exclusion marker, so it can never name `d`.
proof fn lemma_commands_exclude(ks: Seq<Seq<char>>, index: u16, d: Seq<char>)
    requires
        contains_seq(d, excluded_marker()),
    ensures
        forall|k: int|
            0 <= k < commands_for(ks, index).len() ==> (#[trigger] commands_for(ks, index)[k]).0
                != d,
{
    let pred = |k: Seq<char>| !contains_seq(k, excluded_marker());
    assert forall|k: int|
        0 <= k < commands_for(ks, index).len() implies (#[trigger] commands_for(ks, index)[k]).0
        != d by {
        assert(commands_for(ks, index)[k].0 == commandable(ks)[k]);
        ks.lemma_filter_pred(pred, k);
    }
}

/// Law: focusing a window that has no association and then closing it
/// leaves the associations exactly as they were — in particular without
/// an entry for that window — and leaves both registries unchanged.
pub proof fn law_unseen_focus_then_close(
    s: EngineModel,
    data: Seq<char>,
    policy: Seq<(u16, Seq<Seq<char>>)>,
)
    requires
        !s.associations.contains_key(window_address(data)),
    ensures
        ({
            let s1 = event_model(s, "activewindowv2"@, data, policy).0;
            let s2 = event_model(s1, "closewindow"@, data, policy).0;
            &&& !s2.associations.contains_key(window_address(data))
            &&& s2.associations == s.associations
            &&& s2.keyboards == s.keyboards
            &&& s2.layouts == s.layouts
        }),
{
    lemma_event_names_distinct();
    let addr = window_address(data);
    let s1 = event_model(s, "activewindowv2"@, data, policy).0;
    let s2 = event_model(s1, "closewindow"@, data, policy).0;
    assert(s2.associations =~= s.associations);
}

/// Law: applying the same layout twice in a row is idempotent on the
/// state, and the second call re-issues exactly the commands of the
/// first: re-application is not suppressed (only the notification path
/// suppresses redundant work).
pub proof fn law_apply_layout_idempotent(s: EngineModel, index: u16)
    ensures
        ({
            let first = change_layout_model(s, index);
            let second = change_layout_model(first.0, index);
            &&& second.0 == first.0
            &&& second.1 == first.1
        }),
{
}

/// Law: a first-seen window whose active class matches no policy entry
/// is assigned layout index 0.
pub proof fn law_unmatched_class_defaults_to_zero(
    s: EngineModel,
    data: Seq<char>,
    policy: Seq<(u16, Seq<Seq<char>>)>,
)
    requires
        !s.associations.contains_key(window_address(data)),
        forall|e: int|
            0 <= e < policy.len() ==> !entry_matches((#[trigger] policy[e]).1, s.active_class),
    ensures
        ({
            let s1 = event_model(s, "activewindowv2"@, data, policy).0;
            &&& s1.associations.contains_key(window_address(data))
            &&& s1.associations[window_address(data)] == 0
        }),
{
    lemma_event_names_distinct();
    crate::model::lemma_policy_choice_none(policy, s.active_class);
}

/// Law: a device name carrying the exclusion marker is registered like
/// any other, but no event ever issues a command naming it; since every
/// step's commands avoid it, it never reaches the command runner across
/// any sequence of events.
pub proof fn law_excluded_device_never_commanded(
    s: EngineModel,
    name: Seq<char>,
    data: Seq<char>,
    policy: Seq<(u16, Seq<Seq<char>>)>,
    d: Seq<char>,
)
    requires
        contains_seq(d, excluded_marker()),
    ensures
        register_keyboard(s.keyboards, d).contains(d),
        ({
            let cmds = event_model(s, name, data, policy).1;
            forall|k: int| 0 <= k < cmds.len() ==> (#[trigger] cmds[k]).0 != d
        }),
{
    if !s.keyboards.contains(d) {
        assert(register_keyboard(s.keyboards, d)[s.keyboards.len() as int] == d);
    }
    if name == "activewindowv2"@ {
        let addr = window_address(data);
        if s.associations.contains_key(addr) {
            lemma_commands_exclude(s.keyboards, s.associations[addr], d);
        } else {
            lemma_commands_exclude(
                s.keyboards,
                crate::model::policy_choice(policy, s.active_class),
                d,
            );
        }
    }
}

/// Law: across any whole sequence of events, no command issued along the
/// way ever names a device carrying the exclusion marker.
pub proof fn law_excluded_device_never_commanded_in_run(
    s: EngineModel,
    events: Seq<(Seq<char>, Seq<char>)>,
    policy: Seq<(u16, Seq<Seq<char>>)>,
    d: Seq<char>,
)
    requires
        contains_seq(d, excluded_marker()),
    ensures
        ({
            let cmds = run_events_model(s, events, policy).1;
            forall|k: int| 0 <= k < cmds.len() ==> (#[trigger] cmds[k]).0 != d
        }),
    decreases events.len(),
{
    if events.len() > 0 {
        let step = event_model(s, events[0].0, events[0].1, policy);
        law_excluded_device_never_commanded(s, events[0].0, events[0].1, policy, d);
        law_excluded_device_never_commanded_in_run(step.0, events.drop_first(), policy, d);
        let rest = run_events_model(step.0, events.drop_first(), policy);
        assert forall|k: int| 0 <= k < (step.1 + rest.1).len() implies (#[trigger] (step.1
            + rest.1)[k]).0 != d by {
            if k < step.1.len() {
                assert((step.1 + rest.1)[k] == step.1[k]);
            } else {
                assert((step.1 + rest.1)[k] == rest.1[k - step.1.len()]);
            }
        }
    }
}

/// Law: registering a blacklisted layout name never changes the layout
/// registry, so it never increases its length.
pub proof fn law_blacklisted_layout_never_registered(ls: Seq<Seq<char>>, name: Seq<char>)
    requires
        blacklisted_layout(name),
    ensures
        register_layout(ls, name) == ls,
{
}

/// Law: a blacklisted layout name absent from the registry stays absent
/// across every event, so it never resolves to a layout index.
pub proof fn law_blacklisted_layout_never_resolvable(
    s: EngineModel,
    name: Seq<char>,
    data: Seq<char>,
    policy: Seq<(u16, Seq<Seq<char>>)>,
    bad: Seq<char>,
)
    requires
        blacklisted_layout(bad),
        !s.layouts.contains(bad),
    ensures
        !event_model(s, name, data, policy).0.layouts.contains(bad),
{
    if name == "activelayout"@ {
        let cut = first_comma_index(data);
        if cut < data.len() {
            let layout = data.subrange(cut + 1, data.len() as int);
            let ls1 = register_layout(s.layouts, layout);
            assert(!ls1.contains(bad)) by {
                if ls1.contains(bad) {
                    let w = choose|w: int| 0 <= w < ls1.len() && ls1[w] == bad;
                    if blacklisted_layout(layout) || s.layouts.contains(layout) || s.layouts.len()
                        >= LAYOUT_CAPACITY {
                        assert(s.layouts[w] == bad);
                        assert(s.layouts.contains(bad));
                    } else {
                        if w < s.layouts.len() {
                            assert(s.layouts[w] == bad);
                            assert(s.layouts.contains(bad));
                        } else {
                            assert(layout == bad);
                            assert(blacklisted_layout(layout));
                        }
                    }
                }
            }
        }
    }
}

/// Law: after pruning with a failure list naming device `d`, the device
/// registry no longer holds `d`, and a subsequent layout application
/// issues no command naming `d`.
pub proof fn law_pruned_device_not_retried(
    s: EngineModel,
    failed: Seq<Seq<char>>,
    d: Seq<char>,
    index: u16,
)
    requires
        failed.contains(d),
    ensures
        ({
            let s1 = prune_model(s, failed);
            let cmds = change_layout_model(s1, index).1;
            &&& !s1.keyboards.contains(d)
            &&& forall|k: int| 0 <= k < cmds.len() ==> (#[trigger] cmds[k]).0 != d
        }),
{
    let pred = |k: Seq<char>| !failed.contains(k);
    let s1 = prune_model(s, failed);
    assert(!s1.keyboards.contains(d)) by {
        if s1.keyboards.contains(d) {
            let w = choose|w: int| 0 <= w < s1.keyboards.len() && s1.keyboards[w] == d;
            s.keyboards.lemma_filter_pred(pred, w);
        }
    }
    let cmds = change_layout_model(s1, index).1;
    let excl = |k: Seq<char>| !contains_seq(k, excluded_marker());
    assert forall|k: int| 0 <= k < cmds.len() implies (#[trigger] cmds[k]).0 != d by {
        assert(cmds[k].0 == commandable(s1.keyboards)[k]);
        lemma_filter_membership(s1.keyboards, excl, k);
    }
}

} // verus!
