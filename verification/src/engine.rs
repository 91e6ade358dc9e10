//! The event-driven window-to-layout association engine.  Every public
//! method is proved to perform exactly the transition that the model in
//! `model` describes.
//!
//! The engine never runs external commands itself: applying a layout
//! returns the switch commands to issue, and the caller reports the
//! devices whose command failed back through `prune_keyboards`.

use vstd::prelude::*;

use crate::assoc::AssociationStore;
use crate::model::{
    change_layout_model, commands_for, entry_matches, event_model, excluded_marker, focus_model,
    init_model, layout_notice_model, lemma_policy_choice_first_match, lemma_policy_choice_none,
    lemma_position_of_distinct, policy_choice, prune_model, register_keyboard, register_layout,
    window_address, EngineModel, LAYOUT_CAPACITY,
};
use crate::options::Options;
use crate::registry::{lemma_filter_push, names_of, NameRegistry};
use crate::text::{
    contains_seq, contains_str, has_token, has_token_exec, prefix_before_comma,
    split_at_first_comma, str_eq,
};

verus! {

/// Signals that an external control command could not be confirmed to
/// complete.
#[derive(Debug)]
pub struct CommandFailed {}

impl CommandFailed {
    /// The fixed description the failure carries.
    pub fn message(&self) -> (r: String)
        ensures
            r@ == "Command returned error"@,
    {
        String::from_str("Command returned error")
    }
}

/// One layout-switch command to issue: set `device` to layout `index`.
pub struct SwitchCommand {
    pub device: String,
    pub index: u16,
}

impl View for SwitchCommand {
    type V = (Seq<char>, u16);

    open spec fn view(&self) -> (Seq<char>, u16) {
        (self.device@, self.index)
    }
}

/// The views of a list of switch commands.
pub open spec fn commands_view(cs: Seq<SwitchCommand>) -> Seq<(Seq<char>, u16)> {
    cs.map_values(|c: SwitchCommand| c@)
}

/// The normalized address form of a raw window handle.
pub fn make_address(data: &str) -> (r: String)
    ensures
        r@ == window_address(data@),
{
    let mut r = String::from_str("0x");
    r.append(data);
    r
}

/// The layout index the policy assigns to a first-seen window whose
/// active class is `class`.
fn default_index(class: &str, options: &Options) -> (r: u16)
    ensures
        r == policy_choice(options.policy(), class@),
{
    let ghost policy = options.policy();
    let n = options.default_layouts.len();
    let mut i: usize = 0;
    while i < n
        invariant
            n == options.default_layouts@.len(),
            policy == options.policy(),
            policy.len() == n,
            0 <= i <= n,
            forall|e: int| 0 <= e < i ==> !entry_matches((#[trigger] policy[e]).1, class@),
        decreases n - i,
    {
        let patterns: &Vec<String> = &options.default_layouts[i].1;
        let m = patterns.len();
        let mut j: usize = 0;
        while j < m
            invariant
                n == options.default_layouts@.len(),
                policy == options.policy(),
                policy.len() == n,
                0 <= i < n,
                m == patterns@.len(),
                patterns@ == options.default_layouts@[i as int].1@,
                forall|e: int| 0 <= e < i ==> !entry_matches((#[trigger] policy[e]).1, class@),
                0 <= j <= m,
                forall|p: int| 0 <= p < j ==> !has_token(class@, (#[trigger] patterns@[p])@),
            decreases m - j,
        {
            if has_token_exec(class, patterns[j].as_str()) {
                proof {
                    assert(policy[i as int].1[j as int] == patterns@[j as int]@);
                    assert(entry_matches(policy[i as int].1, class@));
                    lemma_policy_choice_first_match(policy, class@, i as int);
                }
                return options.default_layouts[i].0;
            }
            j = j + 1;
        }
        proof {
            assert forall|p: int| 0 <= p < policy[i as int].1.len() implies !has_token(
                class@,
                #[trigger] policy[i as int].1[p],
            ) by {
                assert(policy[i as int].1[p] == patterns@[p]@);
            }
            assert(!entry_matches(policy[i as int].1, class@));
        }
        i = i + 1;
    }
    proof {
        lemma_policy_choice_none(policy, class@);
    }
    0
}

/// The engine state: the association store, the two registries, and the
/// active window, class and layout index.
pub struct Engine {
    associations: AssociationStore,
    layouts: NameRegistry,
    keyboards: NameRegistry,
    active_window: String,
    active_class: String,
    active_layout: u16,
}

impl View for Engine {
    type V = EngineModel;

    closed spec fn view(&self) -> EngineModel {
        EngineModel {
            associations: self.associations@,
            layouts: self.layouts@,
            keyboards: self.keyboards@,
            active_window: self.active_window@,
            active_class: self.active_class@,
            active_layout: self.active_layout,
        }
    }
}

impl Engine {
    /// The association keys and each registry's names are distinct, and
    /// the layout registry is small enough that every position fits in a
    /// `u16` layout index.
    pub closed spec fn wf(self) -> bool {
        &&& self.associations.wf()
        &&& self.layouts.wf()
        &&& self.keyboards.wf()
        &&& self.layouts@.len() <= LAYOUT_CAPACITY
    }

    /// A fresh engine: no associations, no registered names, layout 0.
    pub fn new() -> (r: Engine)
        ensures
            r.wf(),
            r@ == init_model(),
    {
        Engine {
            associations: AssociationStore::new(),
            layouts: NameRegistry::new(),
            keyboards: NameRegistry::new(),
            active_window: String::new(),
            active_class: String::new(),
            active_layout: 0,
        }
    }

    /// Registers a keyboard device name; present names keep their place.
    pub fn fullfill_keyboards_list(&mut self, name: String)
        requires
            old(self).wf(),
        ensures
            final(self).wf(),
            final(self)@ == (EngineModel {
                keyboards: register_keyboard(old(self)@.keyboards, name@),
                ..old(self)@
            }),
    {
        self.keyboards.push_if_absent(name);
    }

    /// Registers a layout long name; blacklisted pseudo-layouts are
    /// discarded and present names keep their place.
    pub fn fullfill_layouts_list(&mut self, long_name: String)
        requires
            old(self).wf(),
        ensures
            final(self).wf(),
            final(self)@ == (EngineModel {
                layouts: register_layout(old(self)@.layouts, long_name@),
                ..old(self)@
            }),
    {
        if str_eq(long_name.as_str(), "wvkbd") {
            return ;
        }
        if self.layouts.contains_name(long_name.as_str()) {
            return ;
        }
        if self.layouts.len() < LAYOUT_CAPACITY {
            self.layouts.push_if_absent(long_name);
        }
    }

    /// Applies layout `index`: a no-op while no keyboard is registered;
    /// otherwise the active layout index is updated first, and one switch
    /// command per non-excluded device is returned for the caller to run.
    pub fn change_layout(&mut self, index: u16) -> (cmds: Vec<SwitchCommand>)
        requires
            old(self).wf(),
        ensures
            final(self).wf(),
            final(self)@ == change_layout_model(old(self)@, index).0,
            commands_view(cmds@) == change_layout_model(old(self)@, index).1,
    {
        let n = self.keyboards.len();
        if n == 0 {
            let cmds: Vec<SwitchCommand> = Vec::new();
            proof {
                assert(commands_view(cmds@) =~= Seq::<(Seq<char>, u16)>::empty());
            }
            return cmds;
        }
        self.active_layout = index;
        let mut cmds: Vec<SwitchCommand> = Vec::new();
        let mut i: usize = 0;
        proof {
            assert(old(self)@.keyboards.subrange(0, 0) =~= Seq::<Seq<char>>::empty());
            assert(commands_for(old(self)@.keyboards.subrange(0, 0), index) =~= Seq::<
                (Seq<char>, u16),
            >::empty());
            assert(commands_view(cmds@) =~= Seq::<(Seq<char>, u16)>::empty());
        }
        while i < n
            invariant
                old(self).wf(),
                n == self.keyboards@.len(),
                self@ == (EngineModel { active_layout: index, ..old(self)@ }),
                self.wf(),
                0 <= i <= n,
                commands_view(cmds@) == commands_for(
                    old(self)@.keyboards.subrange(0, i as int),
                    index,
                ),
            decreases n - i,
        {
            let ghost prefix = old(self)@.keyboards.subrange(0, i as int);
            let kb: &String = self.keyboards.get_at(i);
            proof {
                assert(old(self)@.keyboards.subrange(0, i + 1) =~= prefix.push(kb@));
                lemma_filter_push(prefix, kb@, |k: Seq<char>| !contains_seq(k, excluded_marker()));
            }
            if !contains_str(kb.as_str(), "yubikey") {
                let ghost ghost_cmds = cmds@;
                cmds.push(SwitchCommand { device: kb.clone(), index });
                proof {
                    assert(commands_view(cmds@) =~= commands_view(ghost_cmds).push(
                        cmds@.last()@,
                    ));
                    assert(commands_for(prefix.push(kb@), index) =~= commands_for(
                        prefix,
                        index,
                    ).push((kb@, index)));
                }
            } else {
                proof {
                    assert(commands_for(prefix.push(kb@), index) =~= commands_for(prefix, index));
                }
            }
            i = i + 1;
        }
        proof {
            assert(old(self)@.keyboards.subrange(0, n as int) =~= old(self)@.keyboards);
        }
        cmds
    }

    /// Drops every registered keyboard whose name occurs in `failed`
    /// (devices whose switch command could not be confirmed), keeping the
    /// survivors in their relative order.
    pub fn prune_keyboards(&mut self, failed: &Vec<String>)
        requires
            old(self).wf(),
        ensures
            final(self).wf(),
            final(self)@ == prune_model(old(self)@, names_of(failed@)),
    {
        self.keyboards.remove_names(failed);
    }

    /// Handles one compositor event and returns the switch commands to
    /// issue, if any.  Unknown event names and malformed payloads leave
    /// the state unchanged.
    pub fn event(&mut self, name: &str, data: &str, options: &Options) -> (cmds: Vec<
        SwitchCommand,
    >)
        requires
            old(self).wf(),
        ensures
            final(self).wf(),
            final(self)@ == event_model(old(self)@, name@, data@, options.policy()).0,
            commands_view(cmds@) == event_model(old(self)@, name@, data@, options.policy()).1,
    {
        if str_eq(name, "activewindow") {
            let class = prefix_before_comma(data);
            self.active_class = class;
            let cmds: Vec<SwitchCommand> = Vec::new();
            proof {
                assert(commands_view(cmds@) =~= Seq::<(Seq<char>, u16)>::empty());
            }
            return cmds;
        }
        if str_eq(name, "activewindowv2") {
            return self.handle_focus(data, options);
        }
        if str_eq(name, "closewindow") {
            let addr = make_address(data);
            self.associations.remove(addr.as_str());
            let cmds: Vec<SwitchCommand> = Vec::new();
            proof {
                assert(commands_view(cmds@) =~= Seq::<(Seq<char>, u16)>::empty());
            }
            return cmds;
        }
        if str_eq(name, "activelayout") {
            self.handle_layout_notice(data);
            let cmds: Vec<SwitchCommand> = Vec::new();
            proof {
                assert(commands_view(cmds@) =~= Seq::<(Seq<char>, u16)>::empty());
            }
            return cmds;
        }
        let cmds: Vec<SwitchCommand> = Vec::new();
        proof {
            assert(commands_view(cmds@) =~= Seq::<(Seq<char>, u16)>::empty());
        }
        cmds
    }

    /// A focus change: a re-focused window gets its stored layout
    /// applied; a first-seen window is assigned the policy's choice for
    /// the last active class and that choice is recorded and applied.
    fn handle_focus(&mut self, data: &str, options: &Options) -> (cmds: Vec<SwitchCommand>)
        requires
            old(self).wf(),
        ensures
            final(self).wf(),
            final(self)@ == focus_model(old(self)@, data@, options.policy()).0,
            commands_view(cmds@) == focus_model(old(self)@, data@, options.policy()).1,
    {
        let addr = make_address(data);
        self.active_window = addr.clone();
        match self.associations.get(addr.as_str()) {
            Some(index) => self.change_layout(index),
            None => {
                let index = default_index(self.active_class.as_str(), options);
                self.associations.set(addr.as_str(), index);
                self.change_layout(index)
            },
        }
    }

    /// A layout-change notification: register the device and (subject to
    /// the blacklist) the layout name, resolve the name to its index, and
    /// if that index differs from the active one, record it for the
    /// active window.  No command is issued: the device already switched.
    fn handle_layout_notice(&mut self, data: &str)
        requires
            old(self).wf(),
        ensures
            final(self).wf(),
            final(self)@ == layout_notice_model(old(self)@, data@),
    {
        match split_at_first_comma(data) {
            None => {},
            Some((device, layout)) => {
                if contains_str(device.as_str(), "wlr_virtual_keyboard_v") {
                    return ;
                }
                self.fullfill_keyboards_list(device);
                self.fullfill_layouts_list(layout.clone());
                match self.layouts.index_of(layout.as_str()) {
                    None => {},
                    Some(i) => {
                        proof {
                            lemma_position_of_distinct(self.layouts@, layout@, i as int);
                        }
                        let index: u16 = i as u16;
                        if index != self.active_layout {
                            self.active_layout = index;
                            let addr = self.active_window.clone();
                            self.associations.set(addr.as_str(), index);
                        }
                    },
                }
            },
        }
    }

    /// The layout index stored for a window address, if any.
    pub fn association_of(&self, addr: &str) -> (r: Option<u16>)
        requires
            self.wf(),
        ensures
            match r {
                Some(v) => self@.associations.contains_key(addr@) && self@.associations[addr@]
                    == v,
                None => !self@.associations.contains_key(addr@),
            },
    {
        self.associations.get(addr)
    }

    /// A copy of the layout registry, in index order.
    pub fn layout_names(&self) -> (r: Vec<String>)
        ensures
            names_of(r@) == self@.layouts,
    {
        self.layouts.to_names()
    }

    /// A copy of the keyboard registry, in registration order.
    pub fn keyboard_names(&self) -> (r: Vec<String>)
        ensures
            names_of(r@) == self@.keyboards,
    {
        self.keyboards.to_names()
    }

    /// The layout index currently believed applied on the devices.
    pub fn active_layout_index(&self) -> (r: u16)
        ensures
            r == self@.active_layout,
    {
        self.active_layout
    }
}

} // verus!
