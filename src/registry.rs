use std::collections::{BTreeMap, HashMap};
use std::sync::Arc;

use vstd::prelude::*;

use crate::catalog::{ModuleInfo, ModuleKey};

verus! {

broadcast use vstd::std_specs::hash::group_hash_axioms, vstd::laws_cmp::group_laws_cmp;

/// One mapping of a module into one process.
#[derive(Debug)]
pub struct ModuleInfoRunning {
    pub id: u32,
    pub module_info: Arc<ModuleInfo>,
    pub base_of_dll: u64,
    pub size_of_image: u32,
    pub entry_point: u64,
    pub start: u64,
    pub end: Option<u64>,
}

/// What a running module instance holds, with its descriptor as a key.
pub struct InstanceView {
    pub id: u32,
    pub key: ModuleKey,
    pub base_of_dll: u64,
    pub size_of_image: u32,
    pub entry_point: u64,
    pub start: u64,
    pub end: Option<u64>,
}

impl View for ModuleInfoRunning {
    type V = InstanceView;

    open spec fn view(&self) -> InstanceView {
        InstanceView {
            id: self.id,
            key: self.module_info@,
            base_of_dll: self.base_of_dll,
            size_of_image: self.size_of_image,
            entry_point: self.entry_point,
            start: self.start,
            end: self.end,
        }
    }
}

impl ModuleInfoRunning {
    /// Records the unload time once: succeeds only while the instance is
    /// still loaded, and never changes a recorded unload time.
    pub fn mark_unloaded(&mut self, at: u64) -> (r: bool)
        ensures
            r == (old(self).end is None),
            final(self).end == (if r { Some(at) } else { old(self).end }),
            final(self).id == old(self).id,
            final(self).module_info == old(self).module_info,
            final(self).base_of_dll == old(self).base_of_dll,
            final(self).size_of_image == old(self).size_of_image,
            final(self).entry_point == old(self).entry_point,
            final(self).start == old(self).start,
    {
        match self.end {
            Some(_) => false,
            None => {
                self.end = Some(at);
                true
            },
        }
    }
}

/// The running modules of one process, keyed by base address.
pub struct ProcessModuleSet {
    modules: BTreeMap<u64, ModuleInfoRunning>,
}

impl View for ProcessModuleSet {
    type V = Map<u64, InstanceView>;

    closed spec fn view(&self) -> Map<u64, InstanceView> {
        self.modules@.map_values(|m: ModuleInfoRunning| m@)
    }
}

/// A set after inserting `inst` at its base address, where that is free.
pub open spec fn set_after_insert(
    s: Map<u64, InstanceView>,
    inst: InstanceView,
) -> Map<u64, InstanceView> {
    if s.contains_key(inst.base_of_dll) {
        s
    } else {
        s.insert(inst.base_of_dll, inst)
    }
}

impl ProcessModuleSet {
    pub fn new() -> (r: Self)
        ensures
            r@ == Map::<u64, InstanceView>::empty(),
    {
        let r = ProcessModuleSet { modules: BTreeMap::new() };
        assert(r@ =~= Map::<u64, InstanceView>::empty());
        r
    }

    /// Inserts `inst` at its base address unless that address is taken, in
    /// which case the stored instance stays. Returns whether it was inserted.
    pub fn insert_instance(&mut self, inst: ModuleInfoRunning) -> (r: bool)
        ensures
            r == !old(self)@.contains_key(inst.base_of_dll),
            final(self)@ == set_after_insert(old(self)@, inst@),
    {
        if self.modules.contains_key(&inst.base_of_dll) {
            false
        } else {
            let base = inst.base_of_dll;
            self.modules.insert(base, inst);
            assert(self@ =~= set_after_insert(old(self)@, inst@));
            true
        }
    }

    /// The number of instances.
    pub fn len(&self) -> (r: usize)
        ensures
            r == self@.len(),
    {
        proof {
            assert(self.modules@.dom() =~= self@.dom());
        }
        self.modules.len()
    }

    /// The instance at base address `base`, if any.
    pub fn get(&self, base: u64) -> (r: Option<&ModuleInfoRunning>)
        ensures
            match r {
                Some(m) => self@.contains_key(base) && m@ == self@[base],
                None => !self@.contains_key(base),
            },
    {
        self.modules.get(&base)
    }
}

/// The registry of all observed processes, each with its module set.
pub struct ProcessRegistry {
    sets: HashMap<u32, ProcessModuleSet>,
}

impl View for ProcessRegistry {
    type V = Map<u32, Map<u64, InstanceView>>;

    closed spec fn view(&self) -> Map<u32, Map<u64, InstanceView>> {
        self.sets@.map_values(|s: ProcessModuleSet| s@)
    }
}

/// A registry after creating the set of `pid` where it is missing.
pub open spec fn registry_with_process(
    r: Map<u32, Map<u64, InstanceView>>,
    pid: u32,
) -> Map<u32, Map<u64, InstanceView>> {
    if r.contains_key(pid) {
        r
    } else {
        r.insert(pid, Map::empty())
    }
}

/// A registry after inserting `inst` into the set of `pid`.
pub open spec fn registry_after_insert(
    r: Map<u32, Map<u64, InstanceView>>,
    pid: u32,
    inst: InstanceView,
) -> Map<u32, Map<u64, InstanceView>> {
    let r1 = registry_with_process(r, pid);
    r1.insert(pid, set_after_insert(r1[pid], inst))
}

impl ProcessRegistry {
    pub fn new() -> (r: Self)
        ensures
            r@ == Map::<u32, Map<u64, InstanceView>>::empty(),
    {
        let r = ProcessRegistry { sets: HashMap::new() };
        assert(r@ =~= Map::<u32, Map<u64, InstanceView>>::empty());
        r
    }

    /// Creates the empty set of `pid` unless it exists. Returns whether it
    /// was created.
    pub fn get_or_create_process_set(&mut self, pid: u32) -> (r: bool)
        ensures
            r == !old(self)@.contains_key(pid),
            final(self)@ == registry_with_process(old(self)@, pid),
    {
        if self.sets.contains_key(&pid) {
            false
        } else {
            self.sets.insert(pid, ProcessModuleSet::new());
            assert(self@ =~= old(self)@.insert(pid, Map::empty()));
            true
        }
    }

    /// Inserts `inst` into the set of `pid`, creating the set where needed;
    /// an occupied base address keeps its instance. Returns whether it was
    /// inserted.
    pub fn insert_instance(&mut self, pid: u32, inst: ModuleInfoRunning) -> (r: bool)
        ensures
            r == !registry_with_process(old(self)@, pid)[pid].contains_key(inst.base_of_dll),
            final(self)@ == registry_after_insert(old(self)@, pid, inst@),
    {
        let mut set = match self.sets.remove(&pid) {
            Some(s) => s,
            None => ProcessModuleSet::new(),
        };
        let inserted = set.insert_instance(inst);
        self.sets.insert(pid, set);
        assert(self@ =~= registry_after_insert(old(self)@, pid, inst@));
        inserted
    }

    /// The set of `pid`, if it was observed.
    pub fn process_set(&self, pid: u32) -> (r: Option<&ProcessModuleSet>)
        ensures
            match r {
                Some(s) => self@.contains_key(pid) && s@ == self@[pid],
                None => !self@.contains_key(pid),
            },
    {
        self.sets.get(&pid)
    }
}

/// Inserting at an occupied base address is a no-op: after one insert, a
/// second at the same process and base address leaves the registry, and the
/// instance stored there, unchanged.
pub proof fn lemma_insert_idempotent(
    r: Map<u32, Map<u64, InstanceView>>,
    pid: u32,
    a: InstanceView,
    b: InstanceView,
)
    requires
        a.base_of_dll == b.base_of_dll,
    ensures
        registry_after_insert(registry_after_insert(r, pid, a), pid, b) == registry_after_insert(
            r,
            pid,
            a,
        ),
        registry_after_insert(r, pid, a)[pid][a.base_of_dll] == (if registry_with_process(
            r,
            pid,
        )[pid].contains_key(a.base_of_dll) {
            registry_with_process(r, pid)[pid][a.base_of_dll]
        } else {
            a
        }),
{
    let r1 = registry_after_insert(r, pid, a);
    assert(registry_with_process(r1, pid) == r1);
    assert(r1.insert(pid, r1[pid]) =~= r1);
}

} // verus!
