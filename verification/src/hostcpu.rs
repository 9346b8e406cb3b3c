//! Host CPU sampling: parsing the aggregate CPU line of the host stat
//! interface into idle and total tick counters, and the windowed usage
//! percentage derived from two consecutive readings.

use vstd::prelude::*;

use crate::text::{
    cap64, lines_of, seq_views, split_lines, token_u64, token_value, tokenize, tokens_of,
};

verus! {

/// One raw reading of the aggregate CPU line: the idle tick counter and
/// the sum of all tick counters on the line.
#[derive(Clone, Copy, PartialEq, Eq, Structural, Debug)]
pub struct CpuCounters {
    pub total: u64,
    pub idle: u64,
}

/// Sum of the numeric values of a token sequence.
pub open spec fn tick_sum(ts: Seq<Seq<u8>>) -> nat
    decreases ts.len(),
{
    if ts.len() == 0 {
        0
    } else {
        tick_sum(ts.drop_last()) + token_u64(ts.last())
    }
}

/// Total ticks of a CPU line: the sum of every field after the leading
/// `cpu` label.
pub open spec fn spec_cpu_total(line: Seq<u8>) -> nat {
    let ts = tokens_of(line);
    if ts.len() >= 1 {
        tick_sum(ts.skip(1))
    } else {
        0
    }
}

/// Idle ticks of a CPU line: the fifth whitespace field of the line
/// (the fourth counter after the label).
pub open spec fn spec_cpu_idle(line: Seq<u8>) -> nat {
    let ts = tokens_of(line);
    if ts.len() > 4 {
        token_u64(ts[4])
    } else {
        0
    }
}

/// The counters a host stat text yields: taken from its first line, or
/// nothing when the text has no line at all.
pub open spec fn spec_parse_host_cpu(s: Seq<u8>) -> Option<CpuCounters> {
    let ls = lines_of(s);
    if ls.len() == 0 {
        None
    } else {
        Some(
            CpuCounters {
                total: cap64(spec_cpu_total(ls[0])),
                idle: cap64(spec_cpu_idle(ls[0])),
            },
        )
    }
}

/// Reads the aggregate counters from a host stat text. Fields that do not
/// parse count as zero; only a text without a single line yields `None`.
pub fn parse_host_cpu(text: &[u8]) -> (r: Option<CpuCounters>)
    ensures
        r == spec_parse_host_cpu(text@),
{
    let ls = split_lines(text);
    if ls.len() == 0 {
        return None;
    }
    proof {
        assert(seq_views(ls@)[0] == ls@[0]@);
    }
    let ts = tokenize(ls[0].as_slice());
    let ghost line = ls@[0]@;
    let idle = if ts.len() > 4 {
        proof {
            assert(seq_views(ts@)[4] == ts@[4]@);
        }
        token_value(&ts[4])
    } else {
        0
    };
    let mut total: u64 = 0;
    let mut j: usize = 1;
    if ts.len() <= 1 {
        proof {
            if tokens_of(line).len() == 1 {
                assert(tokens_of(line).skip(1) =~= Seq::<Seq<u8>>::empty());
            }
        }
        return Some(CpuCounters { total: 0, idle });
    }
    while j < ts.len()
        invariant
            1 <= j <= ts@.len(),
            seq_views(ts@) == tokens_of(line),
            total == cap64(tick_sum(tokens_of(line).subrange(1, j as int))),
        decreases ts.len() - j,
    {
        proof {
            assert(seq_views(ts@)[j as int] == ts@[j as int]@);
            let pre = tokens_of(line).subrange(1, j as int);
            let ext = tokens_of(line).subrange(1, j as int + 1);
            assert(ext.drop_last() =~= pre);
            assert(ext.last() == tokens_of(line)[j as int]);
        }
        let v = token_value(&ts[j]);
        if total > u64::MAX - v {
            total = u64::MAX;
        } else {
            total = total + v;
        }
        j = j + 1;
    }
    proof {
        assert(tokens_of(line).subrange(1, tokens_of(line).len() as int) =~= tokens_of(
            line,
        ).skip(1));
    }
    Some(CpuCounters { total, idle })
}

/// Two consecutive readings make a meaningful delta exactly when total
/// ticks grew and the idle ticks advanced by no more than the total did.
pub open spec fn sane_delta(prev: CpuCounters, curr: CpuCounters) -> bool {
    &&& prev.total < curr.total
    &&& prev.idle <= curr.idle
    &&& curr.idle - prev.idle <= curr.total - prev.total
}

/// Usage over a window, in hundredths of a percent: the share of the
/// total tick delta that was not idle.
pub open spec fn spec_usage_centi(prev: CpuCounters, curr: CpuCounters) -> int {
    let dt = curr.total - prev.total;
    let di = curr.idle - prev.idle;
    10000 * (dt - di) / dt
}

/// For every well-formed pair of readings with a growing total and a sane
/// idle delta, the derived usage lies between 0 and 100 percent.
pub proof fn lemma_usage_in_range(prev: CpuCounters, curr: CpuCounters)
    requires
        sane_delta(prev, curr),
    ensures
        0 <= spec_usage_centi(prev, curr) <= 10000,
{
    let dt = curr.total - prev.total;
    let di = curr.idle - prev.idle;
    assert(0 <= 10000 * (dt - di) / dt <= 10000) by (nonlinear_arith)
        requires
            0 < dt,
            0 <= di <= dt,
    {
    }
}

/// Usage in hundredths of a percent for a pair of readings, `None` when
/// the delta is not meaningful.
pub fn cpu_usage_centi(prev: CpuCounters, curr: CpuCounters) -> (r: Option<u32>)
    ensures
        sane_delta(prev, curr) ==> r == Some(spec_usage_centi(prev, curr) as u32),
        !sane_delta(prev, curr) ==> r is None,
{
    if prev.total < curr.total && prev.idle <= curr.idle && curr.idle - prev.idle <= curr.total
        - prev.total {
        let dt = (curr.total - prev.total) as u128;
        let di = (curr.idle - prev.idle) as u128;
        proof {
            lemma_usage_in_range(prev, curr);
            assert((dt - di) * 10000 <= u64::MAX * 10000) by (nonlinear_arith)
                requires
                    di <= dt <= u64::MAX,
            {
            }
            assert((dt - di) * 10000 / (dt as int) == 10000 * (dt - di) / (dt as int));
        }
        let usage = (dt - di) * 10000 / dt;
        Some(usage as u32)
    } else {
        None
    }
}

/// Carried state of the host CPU sampler: the previous reading, and
/// whether any reading has been taken at all (the warm-up gate).
pub struct CpuTracker {
    pub prev: CpuCounters,
    pub started: bool,
}

impl CpuTracker {
    pub fn new() -> (r: CpuTracker)
        ensures
            r.prev.total == 0,
            r.prev.idle == 0,
            !r.started,
    {
        CpuTracker { prev: CpuCounters { total: 0, idle: 0 }, started: false }
    }

    /// One sampling cycle over a host stat text. A text without a line
    /// leaves the carried state untouched; any other text replaces it.
    /// A percentage is produced only after the warm-up reading and only
    /// for a sane delta, so every value handed out is trustworthy.
    pub fn cycle(&mut self, text: &[u8]) -> (r: Option<u32>)
        ensures
            ({
                let p = spec_parse_host_cpu(text@);
                match p {
                    None => r is None && *final(self) == *old(self),
                    Some(curr) => {
                        &&& final(self).prev == curr
                        &&& final(self).started
                        &&& (old(self).started && sane_delta(old(self).prev, curr)) ==> r
                            == Some(spec_usage_centi(old(self).prev, curr) as u32)
                        &&& !(old(self).started && sane_delta(old(self).prev, curr)) ==> r
                            is None
                    },
                }
            }),
    {
        match parse_host_cpu(text) {
            None => None,
            Some(curr) => {
                let r = if self.started {
                    cpu_usage_centi(self.prev, curr)
                } else {
                    None
                };
                self.prev = curr;
                self.started = true;
                r
            },
        }
    }
}

} // verus!
