use procmon::enumerate::list_pids;
use procmon::hostcpu::{cpu_usage_centi, parse_host_cpu, CpuCounters, CpuTracker};
use procmon::sample::{assemble_sample, exe_path_of_lookup, owner_of_listing, parse_children};
use procmon::status::parse_status;

#[test]
fn cpu_line_yields_idle_and_total() {
    let c = parse_host_cpu(b"cpu 100 0 50 800 0 0 0\nper-cpu lines follow\n").unwrap();
    assert_eq!(c.idle, 800);
    assert_eq!(c.total, 950);
    let c = parse_host_cpu(b"cpu 150 0 70 850 0 0 0\n").unwrap();
    assert_eq!(c.idle, 850);
    assert_eq!(c.total, 1070);
}

#[test]
fn cpu_line_without_text_is_no_reading() {
    assert!(parse_host_cpu(b"").is_none());
}

#[test]
fn cpu_line_short_or_malformed_fields_read_as_zero() {
    let c = parse_host_cpu(b"cpu 1 2\n").unwrap();
    assert_eq!(c.idle, 0);
    assert_eq!(c.total, 3);
    let c = parse_host_cpu(b"cpu 1 x 2 3 4\n").unwrap();
    assert_eq!(c.total, 10);
    assert_eq!(c.idle, 3);
}

#[test]
fn usage_of_a_sane_delta_is_a_percentage() {
    let prev = CpuCounters { total: 950, idle: 800 };
    let curr = CpuCounters { total: 1070, idle: 850 };
    // 100 * (1 - 50/120) is about 58.3 percent.
    assert_eq!(cpu_usage_centi(prev, curr), Some(5833));
    // A shrinking total is not a meaningful delta.
    assert_eq!(cpu_usage_centi(curr, prev), None);
}

#[test]
fn tracker_warm_up_then_windowed_usage() {
    let mut tr = CpuTracker::new();
    // The first cycle only primes the carried state.
    assert_eq!(tr.cycle(b"cpu 100 0 50 800 0 0 0\n"), None);
    // The second cycle reports the windowed share.
    assert_eq!(tr.cycle(b"cpu 150 0 70 850 0 0 0\n"), Some(5833));
    // A failed read leaves the carried state untouched...
    assert_eq!(tr.cycle(b""), None);
    // ...so the next good reading still deltas against the last one.
    assert_eq!(tr.cycle(b"cpu 200 0 90 900 0 0 0\n"), Some(5833));
}

#[test]
fn enumeration_keeps_only_numeric_entries() {
    let names: Vec<Vec<u8>> = vec![
        b"1".to_vec(),
        b"self".to_vec(),
        b"42".to_vec(),
        b"4x2".to_vec(),
        b"meminfo".to_vec(),
        b"137".to_vec(),
    ];
    let pids = list_pids(&names);
    assert_eq!(pids, vec![1, 42, 137]);
}

#[test]
fn enumeration_of_nothing_is_empty() {
    let pids = list_pids(&Vec::new());
    assert!(pids.is_empty());
}

#[test]
fn children_tokens_parse_and_skip_bad_ones() {
    assert_eq!(parse_children(b"12 9999 x 7\n"), vec![12, 9999, 7]);
    assert_eq!(parse_children(b""), Vec::<u32>::new());
}

#[test]
fn owner_comes_from_third_field_of_last_line() {
    let listing = b"total 0\n-rw-r--r-- 1 alice users 0 Jan 1 00:00 stat\n";
    assert_eq!(owner_of_listing(Some(listing.to_vec())), b"alice".to_vec());
}

#[test]
fn owner_falls_back_to_na_or_root() {
    assert_eq!(owner_of_listing(Some(b"".to_vec())), b"N/A".to_vec());
    assert_eq!(owner_of_listing(Some(b"one two\n".to_vec())), b"N/A".to_vec());
    // A denied listing is itself evidence of root ownership.
    assert_eq!(owner_of_listing(None), b"root".to_vec());
}

#[test]
fn denied_path_lookup_yields_sentinel_with_other_fields_intact() {
    let status = parse_status(b"Name:\tnginx\nState:\tS\nVmRSS:\t1024 kB\nPPid:\t1\n");
    let path = exe_path_of_lookup(None);
    let s = assemble_sample(
        77,
        Some(status),
        Some(250),
        Some(b"www".to_vec()),
        Some(path),
        Some(vec![80, 81]),
    );
    assert_eq!(s.executable_path, b"Not found!".to_vec());
    assert_eq!(s.pid, 77);
    assert_eq!(s.name, b"nginx".to_vec());
    assert_eq!(s.status, b"S".to_vec());
    assert_eq!(s.memory_kb, 1024);
    assert_eq!(s.parent_pid, 1);
    assert_eq!(s.owner, b"www".to_vec());
    assert_eq!(s.cpu_centi_percent, 250);
    assert_eq!(s.children_pids, vec![80, 81]);
}

#[test]
fn successful_path_lookup_passes_through() {
    assert_eq!(exe_path_of_lookup(Some(b"/usr/bin/bash\n".to_vec())), b"/usr/bin/bash\n".to_vec());
}

#[test]
fn resident_memory_converts_to_megabytes() {
    let status = parse_status(b"VmRSS:\t2048 kB\n");
    let s = assemble_sample(1, Some(status), None, None, None, None);
    assert_eq!(s.memory_kb, 2048);
    assert_eq!(s.memory_mb_milli(), 2000);
}

#[test]
fn record_with_no_successful_sub_read_still_assembles() {
    let s = assemble_sample(9, None, None, None, None, None);
    assert_eq!(s.pid, 9);
    assert_eq!(s.name, Vec::<u8>::new());
    assert_eq!(s.status, Vec::<u8>::new());
    assert_eq!(s.owner, b"N/A".to_vec());
    assert_eq!(s.executable_path, b"Not found!".to_vec());
    assert_eq!(s.cpu_centi_percent, 0);
    assert_eq!(s.memory_kb, 0);
    assert_eq!(s.parent_pid, 0);
    assert!(s.children_pids.is_empty());
}
