//! The mapping from aliases to settings.

use crate::config::{PoliteConfig, DYNAMIC_ALIAS};
use std::collections::HashMap;
use vstd::prelude::*;

verus! {

broadcast use vstd::std_specs::hash::group_hash_axioms;

/// What every mapping of aliases to settings is: the reserved alias is no
/// key, and all settings lie within their ranges.
pub open spec fn is_mapping(m: Map<i8, PoliteConfig>) -> bool {
    &&& !m.contains_key(DYNAMIC_ALIAS)
    &&& forall|alias: i8| #[trigger] m.contains_key(alias) ==> m[alias].valid()
}

/// A mapping from aliases to settings. The reserved alias is never a key.
pub struct ConfigMapping {
    entries: HashMap<i8, PoliteConfig>,
}

impl View for ConfigMapping {
    type V = Map<i8, PoliteConfig>;

    closed spec fn view(&self) -> Map<i8, PoliteConfig> {
        self.entries@
    }
}

impl ConfigMapping {
    #[verifier::type_invariant]
    spec fn well_formed(self) -> bool {
        is_mapping(self.entries@)
    }

    /// The mapping without entries.
    pub fn new() -> (m: ConfigMapping)
        ensures
            m@ == Map::<i8, PoliteConfig>::empty(),
    {
        ConfigMapping { entries: HashMap::new() }
    }

    /// Records `config` under `alias`, in place of what was recorded under
    /// it before, and tells that it did. The reserved alias is not
    /// recorded: for it the mapping stays as it is.
    pub fn insert(&mut self, alias: i8, config: PoliteConfig) -> (recorded: bool)
        ensures
            recorded == (alias != DYNAMIC_ALIAS),
            final(self)@ == if recorded {
                old(self)@.insert(alias, config)
            } else {
                old(self)@
            },
            is_mapping(final(self)@),
    {
        proof {
            use_type_invariant(&*self);
            use_type_invariant(&config);
        }
        if alias == DYNAMIC_ALIAS {
            return false;
        }
        // The map is taken out while it changes, so that the mapping is
        // whole at every point.
        let mut entries: HashMap<i8, PoliteConfig> = HashMap::new();
        core::mem::swap(&mut self.entries, &mut entries);
        entries.insert(alias, config);
        core::mem::swap(&mut self.entries, &mut entries);
        true
    }

    /// The settings recorded under `alias`, if there are any.
    pub fn get(&self, alias: i8) -> (r: Option<PoliteConfig>)
        ensures
            r == if self@.contains_key(alias) {
                Some(self@[alias])
            } else {
                None
            },
            is_mapping(self@),
    {
        proof {
            use_type_invariant(self);
        }
        match self.entries.get(&alias) {
            Some(config) => Some(*config),
            None => None,
        }
    }

    /// Tells whether the mapping is without entries.
    pub fn is_empty(&self) -> (b: bool)
        ensures
            b == (self@ == Map::<i8, PoliteConfig>::empty()),
            is_mapping(self@),
    {
        proof {
            use_type_invariant(self);
        }
        let b = self.entries.is_empty();
        assert(b == (self.entries@ =~= Map::<i8, PoliteConfig>::empty()));
        b
    }

    /// The entries of the mapping, by rising alias.
    pub fn entries(&self) -> (out: Vec<(i8, PoliteConfig)>)
        ensures
            forall|i: int| 0 <= i < out@.len() ==> self@.contains_pair(out@[i].0, out@[i].1),
            forall|alias: i8|
                self@.contains_key(alias) ==> exists|i: int|
                    0 <= i < out@.len() && out@[i].0 == alias,
            forall|i: int, j: int| 0 <= i < j < out@.len() ==> out@[i].0 < out@[j].0,
            is_mapping(self@),
    {
        proof {
            use_type_invariant(self);
        }
        let mut out: Vec<(i8, PoliteConfig)> = Vec::new();
        let mut next: i16 = -128;
        while next <= 127
            invariant
                -128 <= next <= 128,
                forall|i: int| 0 <= i < out@.len() ==> self@.contains_pair(out@[i].0, out@[i].1),
                forall|i: int| 0 <= i < out@.len() ==> out@[i].0 < next,
                forall|alias: i8|
                    self@.contains_key(alias) && alias < next ==> exists|i: int|
                        0 <= i < out@.len() && out@[i].0 == alias,
                forall|i: int, j: int| 0 <= i < j < out@.len() ==> out@[i].0 < out@[j].0,
            decreases 128 - next,
        {
            let alias: i8 = next as i8;
            let ghost before = out@;
            if let Some(config) = self.get(alias) {
                out.push((alias, config));
                assert(out@[before.len() as int].0 == alias);
            }
            assert forall|a: i8| self@.contains_key(a) && a < next + 1 implies exists|i: int|
                0 <= i < out@.len() && out@[i].0 == a by {
                if a < next {
                    let i = choose|i: int| 0 <= i < before.len() && before[i].0 == a;
                    assert(out@[i].0 == a);
                } else {
                    assert(out@[before.len() as int].0 == a);
                }
            }
            next += 1;
        }
        out
    }
}

} // verus!
