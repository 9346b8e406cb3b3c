//! Host memory sampling: positional parsing of the kernel memory-info
//! table (total on the first line, available two lines below it) and the
//! derived used figure, all in integer kilobytes.

use vstd::prelude::*;

use crate::text::{
    cap64, lines_of, seq_views, split_lines, token_u64, token_value, tokenize, tokens_of,
};

verus! {

/// One host memory reading, in kilobytes as the kernel reports them.
#[derive(Clone, Copy, PartialEq, Eq, Structural, Debug)]
pub struct MemorySample {
    pub total_kb: u64,
    pub available_kb: u64,
}

/// Numeric value of token `tok` of line `line`, zero when the line or the
/// token is missing or the token is not a decimal number.
pub open spec fn line_field(ls: Seq<Seq<u8>>, line: int, tok: int) -> nat {
    if 0 <= line < ls.len() {
        let ts = tokens_of(ls[line]);
        if 0 <= tok < ts.len() {
            token_u64(ts[tok])
        } else {
            0
        }
    } else {
        0
    }
}

/// Total memory: second token of the first memory-info line.
pub open spec fn spec_mem_total_kb(s: Seq<u8>) -> nat {
    line_field(lines_of(s), 0, 1)
}

/// Available memory: second token of the third memory-info line (the
/// reader skips exactly one line between total and available).
pub open spec fn spec_mem_available_kb(s: Seq<u8>) -> nat {
    line_field(lines_of(s), 2, 1)
}

/// Numeric value of token `tok` of a single line, zero when missing.
fn line_token_value(line: &Vec<u8>, tok: usize) -> (r: u64)
    ensures
        r == ({
            let ts = tokens_of(line@);
            if tok < ts.len() {
                token_u64(ts[tok as int])
            } else {
                0nat
            }
        }),
{
    let ts = tokenize(line.as_slice());
    if tok < ts.len() {
        proof {
            assert(seq_views(ts@)[tok as int] == ts@[tok as int]@);
        }
        token_value(&ts[tok])
    } else {
        0
    }
}

/// Reads a memory-info text into a sample. Missing lines or fields fall
/// back to zero, never to an error.
pub fn parse_meminfo(text: &[u8]) -> (r: MemorySample)
    ensures
        r.total_kb == cap64(spec_mem_total_kb(text@)),
        r.available_kb == cap64(spec_mem_available_kb(text@)),
{
    let ls = split_lines(text);
    let total_kb = if ls.len() > 0 {
        proof {
            assert(seq_views(ls@)[0] == ls@[0]@);
        }
        line_token_value(&ls[0], 1)
    } else {
        0
    };
    let available_kb = if ls.len() > 2 {
        proof {
            assert(seq_views(ls@)[2] == ls@[2]@);
        }
        line_token_value(&ls[2], 1)
    } else {
        0
    };
    MemorySample { total_kb, available_kb }
}

impl MemorySample {
    /// Used memory as the kernel's own figures give it: total minus
    /// available, floored at zero if a malformed reading inverts them.
    pub open spec fn spec_used_kb(self) -> int {
        if self.available_kb <= self.total_kb {
            self.total_kb - self.available_kb
        } else {
            0
        }
    }

    pub fn used_kb(&self) -> (r: u64)
        ensures
            r == self.spec_used_kb(),
    {
        if self.available_kb <= self.total_kb {
            self.total_kb - self.available_kb
        } else {
            0
        }
    }
}

/// Used memory equals total minus available and lies between zero and
/// total whenever the kernel figures are self-consistent (available never
/// exceeds total).
pub proof fn lemma_used_memory_bounds(m: MemorySample)
    requires
        m.available_kb <= m.total_kb,
    ensures
        m.spec_used_kb() == m.total_kb - m.available_kb,
        0 <= m.spec_used_kb() <= m.total_kb,
{
}

/// Kilobytes expressed in thousandths of a gigabyte (a gigabyte being
/// 1048576 kilobytes), rounded toward zero.
pub open spec fn spec_kb_to_gb_milli(kb: u64) -> int {
    (kb * 1000) / 1048576
}

pub fn kb_to_gb_milli(kb: u64) -> (r: u64)
    ensures
        r == spec_kb_to_gb_milli(kb),
{
    let wide: u128 = (kb as u128) * 1000 / 1048576;
    proof {
        assert((kb as int * 1000) / 1048576 <= kb as int) by (nonlinear_arith)
            requires
                kb >= 0,
        {
        }
    }
    wide as u64
}

} // verus!
