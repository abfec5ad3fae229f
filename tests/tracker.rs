use process_modules::catalog::ModuleCatalog;
use process_modules::drives::{drive_letter_candidates, DeviceQuery, DriveLetterMap};
use process_modules::enumeration::{
    handles_in, next_step, EnumStep, DEFAULT_MODULE_CAPACITY,
};
use process_modules::ingest::{
    event_path, path_or_empty, placement_or_zero, Image, ModulePlacement, ModuleRecord,
    ModuleTracker,
};
use process_modules::registry::{ModuleInfoRunning, ProcessModuleSet, ProcessRegistry};
use std::sync::Arc;

fn record(path: &str, base: u64) -> ModuleRecord {
    ModuleRecord {
        path: Some(path.to_string()),
        placement: Some(ModulePlacement { base, size: 0x1000, entry: base + 0x10 }),
    }
}

fn image(pid: u32, path: &str, base: u64) -> Image {
    Image {
        process_id: pid,
        file_name: path.to_string(),
        time_date_stamp: 0x5E00_0000,
        image_base: base,
        image_size: 0x2000,
        default_base: base + 0x40,
    }
}

#[test]
fn resolve_is_stable() {
    let mut c = ModuleCatalog::new();
    let (a, da) = c.resolve("C:\\Windows\\System32\\ntdll.dll".to_string(), 0);
    let (b, db) = c.resolve("C:\\Windows\\System32\\ntdll.dll".to_string(), 0);
    assert_eq!(a, 0);
    assert_eq!(a, b);
    assert!(Arc::ptr_eq(&da, &db));
    assert_eq!(da.file_name, "C:\\Windows\\System32\\ntdll.dll");
    assert_eq!(da.time_data_stamp, 0);
    assert_eq!(c.len(), 1);
}

#[test]
fn resolve_distinguishes_timestamp() {
    let mut c = ModuleCatalog::new();
    let (a, _) = c.resolve("a.dll".to_string(), 0);
    let (b, db) = c.resolve("a.dll".to_string(), 7);
    assert_eq!(a, 0);
    assert_eq!(b, 1);
    assert_eq!(db.time_data_stamp, 7);
    assert_eq!(c.len(), 2);
}

#[test]
fn identities_are_first_seen_ordered() {
    let mut c = ModuleCatalog::new();
    let keys = ["x.dll", "y.dll", "x.dll", "z.dll", "y.dll", "w.dll"];
    let ids: Vec<usize> = keys.iter().map(|k| c.resolve(k.to_string(), 0).0).collect();
    assert_eq!(ids, vec![0, 1, 0, 2, 1, 3]);
    assert_eq!(c.len(), 4);
}

#[test]
fn distinct_keys_give_distinct_identities() {
    let mut c = ModuleCatalog::new();
    let n: usize = 200;
    let mut ids = Vec::new();
    // Interleave the keys as several callers taking turns would.
    for round in 0..4 {
        for i in 0..n {
            let k = (i * 7 + round * 13) % n;
            ids.push((k, c.resolve(format!("mod{k}.dll"), 0).0));
        }
    }
    assert_eq!(c.len(), n);
    let mut seen = vec![usize::MAX; n];
    for (k, id) in ids {
        assert!(id < n);
        if seen[k] == usize::MAX {
            seen[k] = id;
        }
        assert_eq!(seen[k], id);
    }
    let mut sorted = seen.clone();
    sorted.sort();
    assert_eq!(sorted, (0..n).collect::<Vec<usize>>());
}

#[test]
fn insert_instance_is_idempotent() {
    let mut c = ModuleCatalog::new();
    let mut s = ProcessModuleSet::new();
    let first = ModuleInfoRunning {
        id: 0,
        module_info: c.resolve("a.dll".to_string(), 0).1,
        base_of_dll: 0x1000,
        size_of_image: 10,
        entry_point: 0x1010,
        start: 5,
        end: None,
    };
    let second = ModuleInfoRunning {
        id: 1,
        module_info: c.resolve("b.dll".to_string(), 0).1,
        base_of_dll: 0x1000,
        size_of_image: 20,
        entry_point: 0x2020,
        start: 6,
        end: None,
    };
    assert!(s.insert_instance(first));
    assert!(!s.insert_instance(second));
    assert_eq!(s.len(), 1);
    let kept = s.get(0x1000).unwrap();
    assert_eq!(kept.id, 0);
    assert_eq!(kept.size_of_image, 10);
    assert_eq!(kept.module_info.file_name, "a.dll");
}

#[test]
fn registry_creates_sets_lazily() {
    let mut c = ModuleCatalog::new();
    let mut r = ProcessRegistry::new();
    assert!(r.process_set(4).is_none());
    assert!(r.get_or_create_process_set(4));
    assert!(!r.get_or_create_process_set(4));
    assert_eq!(r.process_set(4).unwrap().len(), 0);
    let inst = ModuleInfoRunning {
        id: 0,
        module_info: c.resolve("a.dll".to_string(), 0).1,
        base_of_dll: 0x10,
        size_of_image: 1,
        entry_point: 0x11,
        start: 0,
        end: None,
    };
    assert!(r.insert_instance(9, inst));
    assert_eq!(r.process_set(9).unwrap().len(), 1);
}

#[test]
fn unload_time_is_set_once() {
    let mut c = ModuleCatalog::new();
    let mut inst = ModuleInfoRunning {
        id: 0,
        module_info: c.resolve("a.dll".to_string(), 0).1,
        base_of_dll: 0x10,
        size_of_image: 1,
        entry_point: 0x11,
        start: 3,
        end: None,
    };
    assert!(inst.mark_unloaded(10));
    assert!(!inst.mark_unloaded(20));
    assert_eq!(inst.end, Some(10));
}

/// A simulated facility: call `i` reports `replies[i]` handles needed.
fn run_protocol(replies: &[usize]) -> (usize, usize, usize) {
    let mut capacity = DEFAULT_MODULE_CAPACITY;
    let mut calls = 0;
    loop {
        let required = replies[calls];
        calls += 1;
        match next_step(capacity, required) {
            EnumStep::Grow(c) => capacity = c,
            EnumStep::Accept(n) => return (calls, capacity, n),
        }
    }
}

#[test]
fn growing_buffer_takes_one_call_when_it_fits() {
    assert_eq!(run_protocol(&[12]), (1, 1024, 12));
    assert_eq!(run_protocol(&[1024]), (1, 1024, 1024));
}

#[test]
fn growing_buffer_grows_to_exact_size() {
    // The facility reports a larger size twice, then it fits.
    assert_eq!(run_protocol(&[1500, 1800, 1700, 9999]), (3, 1800, 1700));
    assert_eq!(run_protocol(&[1025, 1025]), (2, 1025, 1025));
    assert_eq!(next_step(10, 11), EnumStep::Grow(11));
    assert_eq!(next_step(10, 10), EnumStep::Accept(10));
}

#[test]
fn handle_count_from_bytes() {
    assert_eq!(handles_in(8192), 1024);
    assert_eq!(handles_in(20), 2);
    assert_eq!(handles_in(0), 0);
}

#[test]
fn failed_lookups_degrade() {
    assert_eq!(path_or_empty(None), "");
    assert_eq!(path_or_empty(Some("a.dll".to_string())), "a.dll");
    assert_eq!(placement_or_zero(None), ModulePlacement { base: 0, size: 0, entry: 0 });
    let p = ModulePlacement { base: 1, size: 2, entry: 3 };
    assert_eq!(placement_or_zero(Some(p)), p);
    assert_eq!(event_path("raw".to_string(), Some("C:\\n".to_string())), "C:\\n");
    assert_eq!(event_path("raw".to_string(), None), "raw");
}

#[test]
fn bulk_enumeration_registers_two_modules() {
    let mut t = ModuleTracker::new();
    let recs = vec![record("C:\\a\\first.dll", 0x7FFE0000), record("C:\\a\\second.dll", 0x7FFC0000)];
    t.ingest_bulk(1234, recs, 77);
    assert_eq!(t.catalog.len(), 2);
    assert_eq!(t.catalog.resolve("C:\\a\\first.dll".to_string(), 0).0, 0);
    assert_eq!(t.catalog.resolve("C:\\a\\second.dll".to_string(), 0).0, 1);
    let set = t.registry.process_set(1234).unwrap();
    assert_eq!(set.len(), 2);
    let a = set.get(0x7FFE0000).unwrap();
    let b = set.get(0x7FFC0000).unwrap();
    assert_eq!(a.id, 0);
    assert_eq!(b.id, 1);
    assert_eq!(a.end, None);
    assert_eq!(b.end, None);
    assert_eq!(a.start, 77);
    assert_eq!(a.size_of_image, 0x1000);
    assert_eq!(a.entry_point, 0x7FFE0010);
}

#[test]
fn bulk_enumeration_with_failed_lookups() {
    let mut t = ModuleTracker::new();
    let recs = vec![
        ModuleRecord { path: None, placement: None },
        ModuleRecord { path: Some("k.dll".to_string()), placement: None },
    ];
    t.ingest_bulk(8, recs, 0);
    let set = t.registry.process_set(8).unwrap();
    // Both land at base 0; the first keeps the slot.
    assert_eq!(set.len(), 1);
    let m = set.get(0).unwrap();
    assert_eq!(m.module_info.file_name, "");
    assert_eq!(m.size_of_image, 0);
    assert_eq!(t.catalog.len(), 2);
}

#[test]
fn bulk_enumeration_of_no_modules_creates_the_set() {
    let mut t = ModuleTracker::new();
    t.ingest_bulk(5, Vec::new(), 0);
    assert_eq!(t.registry.process_set(5).unwrap().len(), 0);
    assert_eq!(t.catalog.len(), 0);
}

#[test]
fn event_for_unseen_process() {
    let mut t = ModuleTracker::new();
    assert!(t.registry.process_set(42).is_none());
    t.ingest_event(image(42, "\\Device\\HarddiskVolume3\\x.dll", 0x5000), Some("C:\\x.dll".to_string()), 9);
    let set = t.registry.process_set(42).unwrap();
    assert_eq!(set.len(), 1);
    let m = set.get(0x5000).unwrap();
    assert_eq!(m.module_info.file_name, "C:\\x.dll");
    assert_eq!(m.module_info.time_data_stamp, 0);
    assert_eq!(m.size_of_image, 0x2000);
    assert_eq!(m.entry_point, 0x5040);
    assert_eq!(t.catalog.len(), 1);
    // A second event with a known key adds no descriptor.
    t.ingest_event(image(43, "\\Device\\HarddiskVolume3\\x.dll", 0x6000), Some("C:\\x.dll".to_string()), 9);
    assert_eq!(t.catalog.len(), 1);
    // Without normalization the raw path is the key.
    t.ingest_event(image(43, "\\Device\\HarddiskVolume3\\x.dll", 0x7000), None, 9);
    assert_eq!(t.catalog.len(), 2);
}

#[test]
fn bulk_and_event_share_identity() {
    let mut t = ModuleTracker::new();
    t.ingest_bulk(100, vec![record("C:\\lib\\shared.dll", 0x1000)], 1);
    t.ingest_event(image(200, "\\Device\\HarddiskVolume1\\lib\\shared.dll", 0x2000), Some("C:\\lib\\shared.dll".to_string()), 2);
    let a = t.registry.process_set(100).unwrap().get(0x1000).unwrap();
    let b = t.registry.process_set(200).unwrap().get(0x2000).unwrap();
    assert_eq!(a.id, b.id);
    assert!(Arc::ptr_eq(&a.module_info, &b.module_info));
    assert_eq!(t.catalog.len(), 1);
}

#[test]
fn drive_letters_are_c_to_y() {
    let c = drive_letter_candidates();
    assert_eq!(c.len(), 23);
    assert_eq!(c[0], 'c');
    assert_eq!(c[22], 'y');
}

#[test]
fn drive_letter_map_records_found_names() {
    let mut m = DriveLetterMap::new();
    assert!(!m.record('c', DeviceQuery::Found("\\Device\\HarddiskVolume3".to_string())));
    assert!(!m.record('d', DeviceQuery::NotFound));
    assert!(m.record('e', DeviceQuery::Failed));
    assert!(!m.record('f', DeviceQuery::Found("\\Device\\CdRom0".to_string())));
    assert_eq!(m.letter_for(&"\\Device\\HarddiskVolume3".to_string()), Some('c'));
    assert_eq!(m.letter_for(&"\\Device\\CdRom0".to_string()), Some('f'));
    assert_eq!(m.letter_for(&"\\Device\\Nothing".to_string()), None);
    assert!(!m.record('g', DeviceQuery::Found("\\Device\\CdRom0".to_string())));
    assert_eq!(m.letter_for(&"\\Device\\CdRom0".to_string()), Some('g'));
}
