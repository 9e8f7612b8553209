//! The table of loaded plugins, keyed by name.

use vstd::prelude::*;
use crate::plugin::{PluginDescriptor, PLUGIN_ABI_VERSION};

verus! {

/// A plugin found while loading, before it is admitted.
#[derive(Clone, Debug)]
pub struct Candidate {
    /// The version field that precedes the plugin's function table.
    pub abi_version: u32,
    pub descriptor: PluginDescriptor,
}

/// Why a candidate was left out. Neither stops the loading of the others.
#[derive(Clone, Debug)]
pub enum PluginLoadError {
    /// Candidate `slot` was built for another version of the function table.
    BadVersion { slot: usize, found: u32 },
    /// Candidate `slot` is named like an earlier admitted one, which wins.
    Duplicate { slot: usize, name: String },
}

/// The admitted plugins: `names[k]` is the name of candidate `slots[k]`.
#[derive(Debug)]
pub struct Registry {
    pub slots: Vec<usize>,
    pub names: Vec<String>,
}

/// Each candidate's version and name.
pub open spec fn candidate_view(cs: Seq<Candidate>) -> Seq<(u32, Seq<char>)> {
    cs.map_values(|c: Candidate| (c.abi_version, c.descriptor.name@))
}

/// The candidates admitted, in order: those with the expected version whose
/// name no earlier admitted candidate has.
pub open spec fn admitted(c: Seq<(u32, Seq<char>)>) -> Seq<usize>
    decreases c.len(),
{
    if c.len() == 0 {
        Seq::empty()
    } else {
        let prev = admitted(c.drop_last());
        let i = c.len() - 1;
        if c[i].0 == PLUGIN_ABI_VERSION && !(exists|k: int|
            0 <= k < prev.len() && c[prev[k] as int].1 == #[trigger] c[i].1) {
            prev.push(i as usize)
        } else {
            prev
        }
    }
}

proof fn lemma_admitted_bounds(c: Seq<(u32, Seq<char>)>)
    ensures
        forall|k: int| 0 <= k < admitted(c).len() ==> #[trigger] admitted(c)[k] < c.len(),
        admitted(c).len() <= c.len(),
    decreases c.len(),
{
    if c.len() > 0 {
        lemma_admitted_bounds(c.drop_last());
    }
}

impl Registry {
    pub open spec fn names_distinct(&self) -> bool {
        forall|a: int, b: int|
            0 <= a < self.names@.len() && 0 <= b < self.names@.len() && a != b
                ==> #[trigger] self.names@[a]@ != #[trigger] self.names@[b]@
    }

    /// Admits the candidates in order, skipping those with another function
    /// table version and those whose name was already taken.
    pub fn build(candidates: &Vec<Candidate>) -> (r: (Registry, Vec<PluginLoadError>))
        ensures
            r.0.slots@ == admitted(candidate_view(candidates@)),
            r.0.names@.len() == r.0.slots@.len(),
            forall|k: int|
                0 <= k < r.0.names@.len() ==> (#[trigger] r.0.names@[k])@
                    == candidates@[r.0.slots@[k] as int].descriptor.name@,
            r.0.names_distinct(),
            r.1@.len() + r.0.slots@.len() == candidates@.len(),
            forall|k: int|
                0 <= k < r.1@.len() ==> match #[trigger] r.1@[k] {
                    PluginLoadError::BadVersion { slot, found } => slot < candidates@.len()
                        && found == candidates@[slot as int].abi_version && found != PLUGIN_ABI_VERSION,
                    PluginLoadError::Duplicate { slot, name } => slot < candidates@.len()
                        && name@ == candidates@[slot as int].descriptor.name@ && exists|j: int|
                        0 <= j < r.0.names@.len() && r.0.names@[j]@ == name@ && r.0.slots@[j] < slot,
                },
    {
        let ghost view = candidate_view(candidates@);
        let mut slots: Vec<usize> = Vec::new();
        let mut names: Vec<String> = Vec::new();
        let mut errors: Vec<PluginLoadError> = Vec::new();
        let mut i: usize = 0;
        proof {
            assert(view.take(0) =~= Seq::<(u32, Seq<char>)>::empty());
        }
        while i < candidates.len()
            invariant
                view == candidate_view(candidates@),
                i <= candidates@.len(),
                slots@ == admitted(view.take(i as int)),
                names@.len() == slots@.len(),
                forall|k: int| 0 <= k < slots@.len() ==> #[trigger] slots@[k] < i,
                forall|k: int|
                    0 <= k < names@.len() ==> (#[trigger] names@[k])@
                        == candidates@[slots@[k] as int].descriptor.name@,
                forall|a: int, b: int|
                    0 <= a < names@.len() && 0 <= b < names@.len() && a != b
                        ==> #[trigger] names@[a]@ != #[trigger] names@[b]@,
                forall|a: int, b: int| 0 <= a < b < slots@.len() ==> slots@[a] < slots@[b],
                errors@.len() + slots@.len() == i,
                forall|k: int|
                    0 <= k < errors@.len() ==> match #[trigger] errors@[k] {
                        PluginLoadError::BadVersion { slot, found } => slot < candidates@.len()
                            && found == candidates@[slot as int].abi_version && found
                            != PLUGIN_ABI_VERSION,
                        PluginLoadError::Duplicate { slot, name } => slot < candidates@.len()
                            && name@ == candidates@[slot as int].descriptor.name@ && exists|j: int|
                            0 <= j < names@.len() && names@[j]@ == name@ && slots@[j] < slot,
                    },
            decreases candidates@.len() - i,
        {
            let ghost pre = view.take(i as int + 1);
            proof {
                assert(pre.drop_last() =~= view.take(i as int));
                lemma_admitted_bounds(view.take(i as int));
            }
            let c = &candidates[i];
            if c.abi_version != PLUGIN_ABI_VERSION {
                errors.push(PluginLoadError::BadVersion { slot: i, found: c.abi_version });
            } else {
                let mut k: usize = 0;
                let mut taken: bool = false;
                while k < names.len()
                    invariant
                        k <= names@.len(),
                        taken == exists|q: int| 0 <= q < k && names@[q]@ == c.descriptor.name@,
                    decreases names@.len() - k,
                {
                    if names[k] == c.descriptor.name {
                        taken = true;
                    }
                    k = k + 1;
                }
                proof {
                    assert(pre[i as int].1 == c.descriptor.name@);
                    assert(taken == exists|q: int|
                        0 <= q < slots@.len() && pre[slots@[q] as int].1 == #[trigger] pre[i as int].1) by {
                        if taken {
                            let q = choose|q: int| 0 <= q < names@.len() && names@[q]@ == c.descriptor.name@;
                            assert(pre[slots@[q] as int].1 == names@[q]@);
                        }
                        if exists|q: int|
                            0 <= q < slots@.len() && pre[slots@[q] as int].1 == #[trigger] pre[i as int].1 {
                            let q = choose|q: int|
                                0 <= q < slots@.len() && pre[slots@[q] as int].1 == #[trigger] pre[i as int].1;
                            assert(names@[q]@ == pre[slots@[q] as int].1);
                        }
                    }
                }
                if taken {
                    errors.push(PluginLoadError::Duplicate { slot: i, name: c.descriptor.name.clone() });
                } else {
                    slots.push(i);
                    names.push(c.descriptor.name.clone());
                }
            }
            i = i + 1;
        }
        proof {
            assert(view.take(candidates@.len() as int) =~= view);
        }
        (Registry { slots, names }, errors)
    }

    /// The candidate slot of the plugin named `name`.
    pub fn get(&self, name: &String) -> (r: Option<usize>)
        requires
            self.names@.len() == self.slots@.len(),
        ensures
            r matches Some(s) ==> exists|k: int|
                0 <= k < self.names@.len() && self.names@[k]@ == name@ && self.slots@[k] == s,
            r is None <==> forall|k: int| 0 <= k < self.names@.len() ==> self.names@[k]@ != name@,
    {
        let mut k: usize = 0;
        while k < self.names.len()
            invariant
                self.names@.len() == self.slots@.len(),
                k <= self.names@.len(),
                forall|q: int| 0 <= q < k ==> self.names@[q]@ != name@,
            decreases self.names@.len() - k,
        {
            if self.names[k] == *name {
                return Some(self.slots[k]);
            }
            k = k + 1;
        }
        None
    }
}

} // verus!
