use std::sync::Arc;

use vstd::prelude::*;

use crate::catalog::{identity_in, keys_after, ModuleCatalog, ModuleInfo, ModuleKey};
use crate::registry::{
    registry_after_insert, registry_with_process, InstanceView, ModuleInfoRunning,
    ProcessRegistry,
};

verus! {

/// Where a module sits in its process.
#[derive(Clone, Copy, Debug, PartialEq, Eq)]
pub struct ModulePlacement {
    pub base: u64,
    pub size: u32,
    pub entry: u64,
}

/// What bulk enumeration learned of one module: its path and its placement,
/// each `None` where the lookup failed.
#[derive(Debug)]
pub struct ModuleRecord {
    pub path: Option<String>,
    pub placement: Option<ModulePlacement>,
}

/// An image-load notification.
#[derive(Debug)]
pub struct Image {
    pub process_id: u32,
    pub file_name: String,
    pub time_date_stamp: u32,
    pub image_base: u64,
    pub image_size: u32,
    pub default_base: u64,
}

/// The path recorded for a module: the one found, or the empty string.
pub open spec fn recorded_path(path: Option<Seq<char>>) -> Seq<char> {
    match path {
        Some(p) => p,
        None => Seq::empty(),
    }
}

/// The placement recorded for a module: the one found, or all zero.
pub open spec fn recorded_placement(p: Option<ModulePlacement>) -> ModulePlacement {
    match p {
        Some(p) => p,
        None => ModulePlacement { base: 0, size: 0, entry: 0 },
    }
}

/// The path of a record, as a sequence of characters.
pub open spec fn record_path_view(r: ModuleRecord) -> Option<Seq<char>> {
    match r.path {
        Some(p) => Some(p@),
        None => None,
    }
}

/// The catalog key of an enumerated module: its path with build timestamp 0.
pub open spec fn record_key(r: ModuleRecord) -> ModuleKey {
    (recorded_path(record_path_view(r)), 0u32)
}

/// The path under which an image-load notification is catalogued.
pub open spec fn event_path_of(raw: Seq<char>, normalized: Option<Seq<char>>) -> Seq<char> {
    match normalized {
        Some(n) => n,
        None => raw,
    }
}

/// The path of a module whose path lookup may have failed.
pub fn path_or_empty(path: Option<String>) -> (r: String)
    ensures
        r@ == recorded_path(
            match path {
                Some(p) => Some(p@),
                None => None,
            },
        ),
{
    match path {
        Some(p) => p,
        None => String::new(),
    }
}

/// The placement of a module whose placement lookup may have failed.
pub fn placement_or_zero(p: Option<ModulePlacement>) -> (r: ModulePlacement)
    ensures
        r == recorded_placement(p),
{
    match p {
        Some(p) => p,
        None => ModulePlacement { base: 0, size: 0, entry: 0 },
    }
}

/// The path to catalogue for a notification: the normalized one where
/// normalization succeeded, else the raw one.
pub fn event_path(raw: String, normalized: Option<String>) -> (r: String)
    ensures
        r@ == event_path_of(
            raw@,
            match normalized {
                Some(n) => Some(n@),
                None => None,
            },
        ),
{
    match normalized {
        Some(n) => n,
        None => raw,
    }
}

/// The view of an instance built from a catalog identity and key.
pub open spec fn instance_of(
    id: nat,
    key: ModuleKey,
    p: ModulePlacement,
    start: u64,
) -> InstanceView {
    InstanceView {
        id: id as u32,
        key,
        base_of_dll: p.base,
        size_of_image: p.size,
        entry_point: p.entry,
        start,
        end: None,
    }
}

/// A loaded instance of the descriptor that `resolve` returned.
pub fn new_instance(
    resolved: (usize, Arc<ModuleInfo>),
    p: ModulePlacement,
    start: u64,
) -> (r: ModuleInfoRunning)
    ensures
        r@ == instance_of(resolved.0 as nat, resolved.1@, p, start),
{
    ModuleInfoRunning {
        id: resolved.0 as u32,
        module_info: resolved.1,
        base_of_dll: p.base,
        size_of_image: p.size,
        entry_point: p.entry,
        start,
        end: None,
    }
}

/// The catalog keys after registering each of `recs` in turn.
pub open spec fn keys_after_records(keys: Seq<ModuleKey>, recs: Seq<ModuleRecord>) -> Seq<
    ModuleKey,
>
    decreases recs.len(),
{
    if recs.len() == 0 {
        keys
    } else {
        keys_after(keys_after_records(keys, recs.drop_last()), record_key(recs.last()))
    }
}

/// The registry after registering each of `recs` in turn into process `pid`.
pub open spec fn registry_after_records(
    reg: Map<u32, Map<u64, InstanceView>>,
    keys: Seq<ModuleKey>,
    pid: u32,
    recs: Seq<ModuleRecord>,
    start: u64,
) -> Map<u32, Map<u64, InstanceView>>
    decreases recs.len(),
{
    if recs.len() == 0 {
        registry_with_process(reg, pid)
    } else {
        let front = recs.drop_last();
        let k = keys_after_records(keys, front);
        let rec = recs.last();
        registry_after_insert(
            registry_after_records(reg, keys, pid, front, start),
            pid,
            instance_of(
                identity_in(k, record_key(rec)),
                record_key(rec),
                recorded_placement(rec.placement),
                start,
            ),
        )
    }
}

/// The catalog and the registry of running modules, owned together.
pub struct ModuleTracker {
    pub catalog: ModuleCatalog,
    pub registry: ProcessRegistry,
}

impl ModuleTracker {
    /// The catalog is well formed.
    pub open spec fn wf(&self) -> bool {
        self.catalog.wf()
    }

    pub fn new() -> (r: Self)
        ensures
            r.wf(),
            r.catalog.keys() == Seq::<ModuleKey>::empty(),
            r.registry@ == Map::<u32, Map<u64, InstanceView>>::empty(),
    {
        ModuleTracker { catalog: ModuleCatalog::new(), registry: ProcessRegistry::new() }
    }

    /// Registers the modules that one bulk enumeration of process `pid`
    /// found, in order, each under its path with build timestamp 0.
    pub fn ingest_bulk(&mut self, pid: u32, records: Vec<ModuleRecord>, start: u64)
        requires
            old(self).wf(),
        ensures
            final(self).wf(),
            final(self).catalog.keys() == keys_after_records(old(self).catalog.keys(), records@),
            final(self).registry@ == registry_after_records(
                old(self).registry@,
                old(self).catalog.keys(),
                pid,
                records@,
                start,
            ),
    {
        let ghost keys0 = self.catalog.keys();
        let ghost reg0 = self.registry@;
        self.registry.get_or_create_process_set(pid);
        let mut records = records;
        let ghost all = records@;
        let mut done: usize = 0;
        let n = records.len();
        while done < n
            invariant
                self.wf(),
                n == all.len(),
                done <= n,
                records@.len() == n - done,
                records@ == all.skip(done as int),
                self.catalog.keys() == keys_after_records(keys0, all.take(done as int)),
                self.registry@ == registry_after_records(
                    reg0,
                    keys0,
                    pid,
                    all.take(done as int),
                    start,
                ),
            decreases n - done,
        {
            let rec = records.remove(0);
            proof {
                assert(rec == all[done as int]);
                assert(records@ =~= all.skip(done + 1));
                assert(all.take(done + 1).drop_last() =~= all.take(done as int));
            }
            let path = path_or_empty(rec.path);
            let placement = placement_or_zero(rec.placement);
            let resolved = self.catalog.resolve(path, 0);
            let inst = new_instance(resolved, placement, start);
            self.registry.insert_instance(pid, inst);
            done = done + 1;
        }
        proof {
            assert(all.take(n as int) =~= all);
        }
    }

    /// Registers the module of one image-load notification, catalogued under
    /// `normalized` where path normalization succeeded, else under the raw
    /// path, with build timestamp 0.
    pub fn ingest_event(&mut self, image: Image, normalized: Option<String>, start: u64)
        requires
            old(self).wf(),
        ensures
            ({
                let key = (
                    event_path_of(
                        image.file_name@,
                        match normalized {
                            Some(n) => Some(n@),
                            None => None,
                        },
                    ),
                    0u32,
                );
                let p = ModulePlacement {
                    base: image.image_base,
                    size: image.image_size,
                    entry: image.default_base,
                };
                &&& final(self).wf()
                &&& final(self).catalog.keys() == keys_after(old(self).catalog.keys(), key)
                &&& final(self).registry@ == registry_after_insert(
                    old(self).registry@,
                    image.process_id,
                    instance_of(identity_in(old(self).catalog.keys(), key), key, p, start),
                )
            }),
    {
        let path = event_path(image.file_name, normalized);
        let resolved = self.catalog.resolve(path, 0);
        let placement = ModulePlacement {
            base: image.image_base,
            size: image.image_size,
            entry: image.default_base,
        };
        let inst = new_instance(resolved, placement, start);
        self.registry.insert_instance(image.process_id, inst);
    }
}

} // verus!
