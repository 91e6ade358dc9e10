//! Start-up configuration handed to the engine: keyboard devices to
//! pre-seed, and the default-layout policy for windows seen for the first
//! time.  The policy is an explicitly ordered table; the first matching
//! entry wins, so iteration order is deterministic.

use vstd::prelude::*;

use crate::registry::names_of;

verus! {

/// Configuration supplied at start-up.  The loader that fills this in from
/// a configuration file lives outside the verified library.
pub struct Options {
    /// Keyboard devices to register before any event is processed.
    pub keyboards: Vec<String>,
    /// Ordered default-layout policy: each entry pairs a layout index with
    /// the window-class patterns that select it.
    pub default_layouts: Vec<(u16, Vec<String>)>,
}

/// The mathematical view of a policy table.
pub open spec fn policy_view(p: Seq<(u16, Vec<String>)>) -> Seq<(u16, Seq<Seq<char>>)> {
    p.map_values(|e: (u16, Vec<String>)| (e.0, names_of(e.1@)))
}

impl Options {
    /// The mathematical view of this table's policy.
    pub open spec fn policy(self) -> Seq<(u16, Seq<Seq<char>>)> {
        policy_view(self.default_layouts@)
    }

    /// An empty configuration: no pre-seeded keyboards, no policy.
    pub fn new() -> (r: Options)
        ensures
            r.policy() == Seq::<(u16, Seq<Seq<char>>)>::empty(),
            names_of(r.keyboards@) == Seq::<Seq<char>>::empty(),
    {
        let r = Options { keyboards: Vec::new(), default_layouts: Vec::new() };
        proof {
            assert(r.policy() =~= Seq::<(u16, Seq<Seq<char>>)>::empty());
            assert(names_of(r.keyboards@) =~= Seq::<Seq<char>>::empty());
        }
        r
    }
}

} // verus!
