use procmon::memory::parse_meminfo;
use procmon::sample::{assemble_sample, ProcessSample};
use procmon::snapshot::ProcessSnapshot;
use procmon::store::{CpuStore, MemStore, ProcessStore};
use procmon::tree::{build_forest, forest_of_snapshot};

fn plain(pid: u32, parent: u32, owner: &[u8], children: Vec<u32>) -> ProcessSample {
    let mut s = assemble_sample(pid, None, None, Some(owner.to_vec()), None, Some(children));
    s.parent_pid = parent;
    s
}

#[test]
fn snapshot_keys_by_pid_and_replaces() {
    let mut snap = ProcessSnapshot::new();
    snap.insert(plain(5, 1, b"alice", vec![]));
    snap.insert(plain(2, 1, b"bob", vec![]));
    snap.insert(plain(9, 1, b"carol", vec![]));
    assert_eq!(snap.len(), 3);
    // Ascending pid order regardless of insertion order.
    assert_eq!(snap.samples[0].pid, 2);
    assert_eq!(snap.samples[1].pid, 5);
    assert_eq!(snap.samples[2].pid, 9);
    // Re-inserting a pid replaces its sample.
    snap.insert(plain(5, 2, b"dave", vec![]));
    assert_eq!(snap.len(), 3);
    assert_eq!(snap.get(5).unwrap().owner, b"dave".to_vec());
    assert!(snap.get(4).is_none());
}

#[test]
fn empty_record_still_appears_in_snapshot() {
    let mut snap = ProcessSnapshot::new();
    snap.insert(assemble_sample(9, None, None, None, None, None));
    let got = snap.get(9).expect("best-effort record must appear");
    assert_eq!(got.pid, 9);
    assert_eq!(got.name, Vec::<u8>::new());
}

#[test]
fn visible_view_filters_root_owned_samples() {
    let mut snap = ProcessSnapshot::new();
    snap.insert(plain(1, 0, b"root", vec![]));
    snap.insert(plain(2, 1, b"alice", vec![]));
    snap.insert(plain(3, 1, b"root", vec![]));
    let all = snap.visible_samples(true);
    assert_eq!(all.len(), 3);
    let some = snap.visible_samples(false);
    assert_eq!(some.len(), 1);
    assert_eq!(some[0].pid, 2);
}

#[test]
fn forest_roots_children_and_stale_references() {
    let mut snap = ProcessSnapshot::new();
    snap.insert(plain(1, 1, b"root", vec![2, 999]));
    snap.insert(plain(2, 1, b"alice", vec![4]));
    snap.insert(plain(3, 77, b"bob", vec![]));
    snap.insert(plain(4, 2, b"carol", vec![]));
    let view = snap.visible_samples(true);
    let rows = build_forest(&view);
    // Every sample exactly once.
    assert_eq!(rows.len(), 4);
    for i in 0..rows.len() {
        for j in (i + 1)..rows.len() {
            assert_ne!(rows[i].pid, rows[j].pid);
        }
    }
    // Roots: pid 1 (its own parent) and pid 3 (parent 77 not in view).
    let mut roots: Vec<u32> = rows.iter().filter(|r| r.depth == 0).map(|r| r.pid).collect();
    roots.sort();
    assert_eq!(roots, vec![1, 3]);
    // The chain under 1 descends in depth-first order; 999 was skipped.
    let d1: Vec<u32> = rows.iter().filter(|r| r.depth == 1).map(|r| r.pid).collect();
    assert_eq!(d1, vec![2]);
    let d2: Vec<u32> = rows.iter().filter(|r| r.depth == 2).map(|r| r.pid).collect();
    assert_eq!(d2, vec![4]);
}

#[test]
fn filtered_view_turns_orphans_into_roots() {
    let mut snap = ProcessSnapshot::new();
    snap.insert(plain(1, 1, b"root", vec![2]));
    snap.insert(plain(2, 1, b"alice", vec![]));
    let view = snap.visible_samples(false);
    let rows = build_forest(&view);
    // With its parent filtered out, pid 2 roots the displayed forest.
    assert_eq!(rows.len(), 1);
    assert_eq!(rows[0].pid, 2);
    assert_eq!(rows[0].depth, 0);
}

#[test]
fn child_reference_to_a_root_stays_a_root() {
    let mut snap = ProcessSnapshot::new();
    // Sample 1 claims 3 as a child, but 3 has no resolvable parent in the
    // view: 3 is rendered as a root, once, not beneath 1.
    snap.insert(plain(1, 1, b"root", vec![3]));
    snap.insert(plain(3, 99, b"bob", vec![]));
    let view = snap.visible_samples(true);
    let rows = build_forest(&view);
    assert_eq!(rows.len(), 2);
    assert!(rows.iter().all(|r| r.depth == 0));
    let mut pids: Vec<u32> = rows.iter().map(|r| r.pid).collect();
    pids.sort();
    assert_eq!(pids, vec![1, 3]);
}

#[test]
fn every_present_child_of_a_rendered_sample_is_rendered() {
    let mut snap = ProcessSnapshot::new();
    // A diamond of references: both 2 and 3 claim 4; it is rendered once.
    snap.insert(plain(1, 1, b"root", vec![2, 3]));
    snap.insert(plain(2, 1, b"alice", vec![4]));
    snap.insert(plain(3, 1, b"bob", vec![4]));
    snap.insert(plain(4, 2, b"carol", vec![]));
    let view = snap.visible_samples(true);
    let rows = build_forest(&view);
    assert_eq!(rows.len(), 4);
    assert_eq!(rows.iter().filter(|r| r.pid == 4).count(), 1);
    let four = rows.iter().find(|r| r.pid == 4).unwrap();
    assert_eq!(four.depth, 2);
}

#[test]
fn snapshot_forest_matches_view_forest() {
    let mut snap = ProcessSnapshot::new();
    snap.insert(plain(1, 1, b"root", vec![2]));
    snap.insert(plain(2, 1, b"alice", vec![]));
    let rows = forest_of_snapshot(&snap, true);
    assert_eq!(rows.len(), 2);
    assert_eq!(rows[0].pid, 1);
    assert_eq!(rows[0].depth, 0);
    assert_eq!(rows[1].pid, 2);
    assert_eq!(rows[1].depth, 1);
}

#[test]
fn process_store_hands_whole_tables_out() {
    let mut snap = ProcessSnapshot::new();
    snap.insert(plain(1, 0, b"root", vec![]));
    let store = ProcessStore::new(snap);
    let got = store.read();
    assert_eq!(got.len(), 1);
    let mut next = ProcessSnapshot::new();
    next.insert(plain(2, 1, b"alice", vec![]));
    next.insert(plain(3, 1, b"bob", vec![]));
    store.publish(next);
    let got = store.read();
    assert_eq!(got.len(), 2);
    assert_eq!(got.get(2).unwrap().owner, b"alice".to_vec());
}

#[test]
fn cpu_store_starts_empty_and_keeps_percentages() {
    let store = CpuStore::new();
    assert_eq!(store.read(), None);
    store.publish(Some(5833));
    assert_eq!(store.read(), Some(5833));
}

#[test]
fn mem_store_publishes_consistent_figures() {
    let store = MemStore::new();
    let m = parse_meminfo(b"MemTotal: 16000000 kB\nMemFree: 8000000 kB\nMemAvailable: 4000000 kB\n");
    store.publish(m.figures());
    let f = store.read();
    assert_eq!(f.total_kb, 16000000);
    assert_eq!(f.used_kb, 12000000);
    assert!(f.used_kb <= f.total_kb);
}
