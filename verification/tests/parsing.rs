use procmon::memory::{kb_to_gb_milli, parse_meminfo};
use procmon::procstat::{parse_proc_stat, parse_uptime_secs, process_cpu_centi, ProcTicks};
use procmon::status::parse_status;
use procmon::text::{parse_u32, parse_u64, split_lines, tokenize};

#[test]
fn parse_u64_accepts_digits_only() {
    assert_eq!(parse_u64(b"0"), Some(0));
    assert_eq!(parse_u64(b"12345"), Some(12345));
    assert_eq!(parse_u64(b"18446744073709551615"), Some(u64::MAX));
    assert_eq!(parse_u64(b""), None);
    assert_eq!(parse_u64(b"12a"), None);
    assert_eq!(parse_u64(b"-3"), None);
    assert_eq!(parse_u64(b" 7"), None);
}

#[test]
fn parse_u64_rejects_overflow() {
    assert_eq!(parse_u64(b"18446744073709551616"), None);
    assert_eq!(parse_u64(b"99999999999999999999999"), None);
}

#[test]
fn parse_u32_respects_its_range() {
    assert_eq!(parse_u32(b"4294967295"), Some(u32::MAX));
    assert_eq!(parse_u32(b"4294967296"), None);
    assert_eq!(parse_u32(b"17"), Some(17));
}

#[test]
fn split_lines_matches_line_semantics() {
    let ls = split_lines(b"a\nbb\n");
    assert_eq!(ls.len(), 2);
    assert_eq!(ls[0], b"a".to_vec());
    assert_eq!(ls[1], b"bb".to_vec());
    assert_eq!(split_lines(b"").len(), 0);
    let ls = split_lines(b"x\n\ny");
    assert_eq!(ls.len(), 3);
    assert_eq!(ls[1], b"".to_vec());
    assert_eq!(ls[2], b"y".to_vec());
}

#[test]
fn tokenize_splits_on_whitespace_runs() {
    let ts = tokenize(b"  cpu\t100  0\r\n50 ");
    assert_eq!(ts.len(), 4);
    assert_eq!(ts[0], b"cpu".to_vec());
    assert_eq!(ts[1], b"100".to_vec());
    assert_eq!(ts[2], b"0".to_vec());
    assert_eq!(ts[3], b"50".to_vec());
    assert_eq!(tokenize(b"   ").len(), 0);
}

#[test]
fn status_extracts_recognized_keys() {
    let text = b"Name:\tbash\nUmask:\t0022\nState:\tS (sleeping)\nPPid:\t100\nVmRSS:\t2048 kB\n";
    let info = parse_status(text);
    assert_eq!(info.name, b"bash".to_vec());
    assert_eq!(info.state, b"S".to_vec());
    assert_eq!(info.parent_pid, 100);
    assert_eq!(info.memory_kb, 2048);
}

#[test]
fn status_is_order_independent_and_ignores_unknown_keys() {
    let a = parse_status(b"Name:\tx\nState:\tR\nVmRSS:\t10 kB\nPPid:\t1\n");
    let b = parse_status(b"PPid:\t1\nVmRSS:\t10 kB\nNoise:\tjunk\nState:\tR\nName:\tx\n");
    assert_eq!(a.name, b.name);
    assert_eq!(a.state, b.state);
    assert_eq!(a.memory_kb, b.memory_kb);
    assert_eq!(a.parent_pid, b.parent_pid);
}

#[test]
fn status_defaults_survive_malformed_values() {
    let info = parse_status(b"VmRSS:\tlots kB\nPPid:\t-1\nShort\n");
    assert_eq!(info.name, Vec::<u8>::new());
    assert_eq!(info.state, Vec::<u8>::new());
    assert_eq!(info.memory_kb, 0);
    assert_eq!(info.parent_pid, 0);
}

#[test]
fn status_last_line_wins_on_repeated_keys() {
    let info = parse_status(b"Name:\tfirst\nName:\tsecond\n");
    assert_eq!(info.name, b"second".to_vec());
}

#[test]
fn meminfo_positional_parse_and_gb_conversion() {
    let text = b"MemTotal: 16000000 kB\nMemFree: 8000000 kB\nMemAvailable: 4000000 kB\n";
    let m = parse_meminfo(text);
    assert_eq!(m.total_kb, 16000000);
    assert_eq!(m.available_kb, 4000000);
    assert_eq!(m.used_kb(), 12000000);
    assert_eq!(kb_to_gb_milli(m.total_kb), 15258);
    assert_eq!(kb_to_gb_milli(m.used_kb()), 11444);
    let total_gb = m.total_kb as f64 / 1048576.0;
    let used_gb = m.used_kb() as f64 / 1048576.0;
    assert!((total_gb - 15.26).abs() < 0.01);
    assert!((used_gb - 11.44).abs() < 0.01);
}

#[test]
fn meminfo_short_input_reads_as_zero() {
    let m = parse_meminfo(b"MemTotal: 1000 kB\n");
    assert_eq!(m.total_kb, 1000);
    assert_eq!(m.available_kb, 0);
    assert_eq!(m.used_kb(), 1000);
    let m = parse_meminfo(b"");
    assert_eq!(m.total_kb, 0);
    assert_eq!(m.used_kb(), 0);
}

#[test]
fn meminfo_inverted_figures_floor_at_zero() {
    let m = parse_meminfo(b"MemTotal: 10 kB\nMemFree: 10 kB\nMemAvailable: 900 kB\n");
    assert_eq!(m.used_kb(), 0);
}

#[test]
fn proc_stat_picks_fields_13_14_22() {
    let mut fields: Vec<String> = (1..=52).map(|i| format!("{}", i * 10)).collect();
    fields[0] = "7".to_string();
    fields[1] = "(bash)".to_string();
    let text = fields.join(" ");
    let t = parse_proc_stat(text.as_bytes());
    assert_eq!(t.utime, 130);
    assert_eq!(t.stime, 140);
    assert_eq!(t.start_time, 220);
}

#[test]
fn proc_stat_short_record_defaults_to_zero() {
    let t = parse_proc_stat(b"7 (x) S 1");
    assert_eq!(t.utime, 0);
    assert_eq!(t.stime, 0);
    assert_eq!(t.start_time, 0);
}

#[test]
fn uptime_reads_whole_seconds() {
    assert_eq!(parse_uptime_secs(b"12345.67 99888.21\n"), 12345);
    assert_eq!(parse_uptime_secs(b"9 1\n"), 9);
    assert_eq!(parse_uptime_secs(b""), 0);
    assert_eq!(parse_uptime_secs(b"abc"), 0);
}

#[test]
fn process_cpu_share_formula() {
    let t = ProcTicks { utime: 50, stime: 50, start_time: 1000 };
    // 20 s of uptime at 100 Hz: 2000 ticks, 1000 since start; 100 CPU
    // ticks over that lifetime is 10 percent.
    assert_eq!(process_cpu_centi(t, 20, 100), 1000);
    // A start tick in the future reads as zero.
    assert_eq!(process_cpu_centi(t, 5, 100), 0);
    // A zero tick rate reads as zero.
    assert_eq!(process_cpu_centi(t, 20, 0), 0);
}
