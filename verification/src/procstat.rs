//! Per-process CPU accounting: the flat numeric stat record (user ticks,
//! kernel ticks, start tick), the host uptime reading, and the lifetime
//! CPU share derived from them with the machine's tick rate.

use vstd::prelude::*;

use crate::text::{all_digits, cap64, dec_value, is_digit, token_u64, token_value, tokenize, tokens_of, seq_views};

verus! {

/// The tick counters of one process's flat stat record.
#[derive(Clone, Copy, PartialEq, Eq, Structural, Debug)]
pub struct ProcTicks {
    pub utime: u64,
    pub stime: u64,
    pub start_time: u64,
}

/// Numeric value of whitespace field `i` of a text, zero when the field
/// is missing or not a decimal number.
pub open spec fn spec_stat_field(s: Seq<u8>, i: int) -> nat {
    let ts = tokens_of(s);
    if 0 <= i < ts.len() {
        token_u64(ts[i])
    } else {
        0
    }
}

/// The three counters of a process stat record: user-mode ticks at field
/// 13, kernel-mode ticks at field 14, start tick at field 22 (1-based).
pub open spec fn spec_parse_proc_stat(s: Seq<u8>) -> ProcTicks {
    ProcTicks {
        utime: spec_stat_field(s, 12) as u64,
        stime: spec_stat_field(s, 13) as u64,
        start_time: spec_stat_field(s, 21) as u64,
    }
}

/// Numeric value of token `i`, zero when missing.
fn field_at(ts: &Vec<Vec<u8>>, i: usize) -> (r: u64)
    ensures
        r == (if i < ts@.len() {
            token_u64(ts@[i as int]@)
        } else {
            0nat
        }),
{
    if i < ts.len() {
        token_value(&ts[i])
    } else {
        0
    }
}

/// Reads the three CPU counters out of a process stat text. Missing or
/// malformed fields count as zero, never as an error.
pub fn parse_proc_stat(text: &[u8]) -> (r: ProcTicks)
    ensures
        r == spec_parse_proc_stat(text@),
{
    let ts = tokenize(text);
    proof {
        if 12 < ts@.len() {
            assert(seq_views(ts@)[12] == ts@[12]@);
        }
        if 13 < ts@.len() {
            assert(seq_views(ts@)[13] == ts@[13]@);
        }
        if 21 < ts@.len() {
            assert(seq_views(ts@)[21] == ts@[21]@);
        }
    }
    ProcTicks { utime: field_at(&ts, 12), stime: field_at(&ts, 13), start_time: field_at(&ts, 21) }
}

/// The run of decimal digits a token begins with: the whole-second part
/// of the kernel's fractional uptime figure.
pub open spec fn leading_digits(t: Seq<u8>) -> Seq<u8>
    decreases t.len(),
{
    if t.len() > 0 && is_digit(t[0]) {
        seq![t[0]] + leading_digits(t.drop_first())
    } else {
        Seq::empty()
    }
}

pub proof fn lemma_leading_digits_prefix(t: Seq<u8>, j: int)
    requires
        0 <= j <= t.len(),
        all_digits(t.subrange(0, j)),
        j == t.len() || !is_digit(t[j]),
    ensures
        leading_digits(t) == t.subrange(0, j),
    decreases j,
{
    if j == 0 {
        assert(t.subrange(0, 0) =~= Seq::<u8>::empty());
    } else {
        assert(is_digit(t[0])) by {
            assert(t.subrange(0, j)[0] == t[0]);
        }
        let rest = t.drop_first();
        assert(all_digits(rest.subrange(0, j - 1))) by {
            assert(forall|m: int|
                0 <= m < j - 1 ==> #[trigger] rest.subrange(0, j - 1)[m] == t.subrange(0, j)[m
                    + 1]);
        }
        assert(j - 1 == rest.len() || !is_digit(rest[j - 1]));
        lemma_leading_digits_prefix(rest, j - 1);
        assert(leading_digits(t) =~= t.subrange(0, j));
    }
}

/// Whole seconds of a host uptime text: the leading digits of its first
/// whitespace field, clamped into the `u64` range. The kernel reports
/// fractional seconds; the fraction is deliberately dropped, a sub-second
/// loss the lifetime-share formula tolerates and exact integers repay.
pub open spec fn spec_uptime_secs(s: Seq<u8>) -> u64 {
    let ts = tokens_of(s);
    if ts.len() > 0 {
        cap64(dec_value(leading_digits(ts[0])))
    } else {
        0
    }
}

/// Reads the whole seconds off an uptime text (first field, digits before
/// the decimal point). Anything unparsable reads as zero.
pub fn parse_uptime_secs(text: &[u8]) -> (r: u64)
    ensures
        r == spec_uptime_secs(text@),
{
    let ts = tokenize(text);
    if ts.len() == 0 {
        return 0;
    }
    proof {
        assert(seq_views(ts@)[0] == ts@[0]@);
    }
    let t = &ts[0];
    let mut j: usize = 0;
    while j < t.len() && t[j] >= 48 && t[j] <= 57
        invariant
            0 <= j <= t@.len(),
            all_digits(t@.subrange(0, j as int)),
        decreases t.len() - j,
    {
        proof {
            assert(forall|m: int|
                0 <= m < j + 1 ==> t@.subrange(0, j as int + 1)[m] == t@.subrange(
                    0,
                    j as int,
                ).push(t@[j as int])[m]);
            assert(t@.subrange(0, j as int + 1) =~= t@.subrange(0, j as int).push(t@[j as int]));
        }
        j = j + 1;
    }
    proof {
        lemma_leading_digits_prefix(t@, j as int);
    }
    let mut pre: Vec<u8> = Vec::new();
    let mut k: usize = 0;
    while k < j
        invariant
            0 <= k <= j <= t@.len(),
            pre@ == t@.subrange(0, k as int),
        decreases j - k,
    {
        pre.push(t[k]);
        proof {
            assert(pre@ =~= t@.subrange(0, k as int + 1));
        }
        k = k + 1;
    }
    if pre.len() == 0 {
        return 0;
    }
    match crate::text::parse_u64(pre.as_slice()) {
        Some(v) => v,
        None => u64::MAX,
    }
}

/// CPU share of a process over its whole lifetime, in hundredths of a
/// percent: its total CPU ticks against the ticks elapsed since it
/// started, zero when the record claims a start in the future (or the
/// tick rate reads as zero).
pub open spec fn spec_process_cpu_centi(t: ProcTicks, uptime_secs: u64, hz: u64) -> u64 {
    let life = uptime_secs * hz - t.start_time;
    if life > 0 {
        cap64(((10000 * ((t.utime + t.stime) as int)) / life) as nat)
    } else {
        0
    }
}

pub fn process_cpu_centi(t: ProcTicks, uptime_secs: u64, hz: u64) -> (r: u64)
    ensures
        r == spec_process_cpu_centi(t, uptime_secs, hz),
{
    proof {
        assert(uptime_secs as int * hz as int <= u64::MAX * u64::MAX) by (nonlinear_arith)
            requires
                uptime_secs <= u64::MAX,
                hz <= u64::MAX,
        {
        }
    }
    let up: u128 = (uptime_secs as u128) * (hz as u128);
    let st: u128 = t.start_time as u128;
    if up <= st {
        return 0;
    }
    let life: u128 = up - st;
    let total: u128 = t.utime as u128 + t.stime as u128;
    proof {
        assert(total * 10000 <= (u64::MAX + u64::MAX) * 10000) by (nonlinear_arith)
            requires
                total <= u64::MAX + u64::MAX,
        {
        }
        assert(total as int * 10000 / (life as int) == 10000 * (total as int) / (life as int));
    }
    let raw: u128 = total * 10000 / life;
    if raw > u64::MAX as u128 {
        u64::MAX
    } else {
        raw as u64
    }
}

/// Relies on `procfs::ticks_per_second`: the kernel's clock-tick rate,
/// read from sysconf. The value is a machine property, so nothing is
/// promised of it; callers handle every outcome.
#[verifier::external_body]
fn ticks_per_second_raw() -> u64 {
    procfs::ticks_per_second()
}

/// CPU share of one process, from its stat text and the host uptime text,
/// at whatever tick rate this machine reports.
pub fn process_cpu_from_texts(stat_text: &[u8], uptime_text: &[u8]) -> (r: u64)
    ensures
        exists|hz: u64|
            r == spec_process_cpu_centi(
                spec_parse_proc_stat(stat_text@),
                spec_uptime_secs(uptime_text@),
                hz,
            ),
{
    let t = parse_proc_stat(stat_text);
    let up = parse_uptime_secs(uptime_text);
    let hz = ticks_per_second_raw();
    let r = process_cpu_centi(t, up, hz);
    proof {
        assert(r == spec_process_cpu_centi(
            spec_parse_proc_stat(stat_text@),
            spec_uptime_secs(uptime_text@),
            hz,
        ));
    }
    r
}

} // verus!
