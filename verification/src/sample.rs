//! One process's record: the merge of its independently fallible
//! sub-reads, each falling back to a documented default, plus the parsers
//! for the owner listing, the executable-path lookup and the children
//! list. A record is always produced, however many sub-reads failed.

use vstd::prelude::*;

use crate::status::{StatusInfo, StatusView};
use crate::text::{dec_u32_values, keep_dec_u32, lines_of, seq_views, split_lines, tokenize, tokens_of};

verus! {

/// Ghost image of one process's observed state.
pub struct SampleView {
    pub pid: u32,
    pub name: Seq<u8>,
    pub status: Seq<u8>,
    pub owner: Seq<u8>,
    pub cpu_centi_percent: u64,
    pub memory_kb: u32,
    pub executable_path: Seq<u8>,
    pub parent_pid: u32,
    pub children_pids: Seq<u32>,
}

/// One process's observed state at a sampling instant. Memory is carried
/// in kilobytes and CPU in hundredths of a percent, as the samplers
/// produce them.
pub struct ProcessSample {
    pub pid: u32,
    pub name: Vec<u8>,
    pub status: Vec<u8>,
    pub owner: Vec<u8>,
    pub cpu_centi_percent: u64,
    pub memory_kb: u32,
    pub executable_path: Vec<u8>,
    pub parent_pid: u32,
    pub children_pids: Vec<u32>,
}

impl View for ProcessSample {
    type V = SampleView;

    open spec fn view(&self) -> SampleView {
        SampleView {
            pid: self.pid,
            name: self.name@,
            status: self.status@,
            owner: self.owner@,
            cpu_centi_percent: self.cpu_centi_percent,
            memory_kb: self.memory_kb,
            executable_path: self.executable_path@,
            parent_pid: self.parent_pid,
            children_pids: self.children_pids@,
        }
    }
}

impl ProcessSample {
    /// Resident memory in thousandths of a megabyte (a megabyte being
    /// 1024 kilobytes), rounded toward zero — the figure a display shows.
    pub fn memory_mb_milli(&self) -> (r: u64)
        ensures
            r == (self.memory_kb * 1000) / 1024,
    {
        (self.memory_kb as u64) * 1000 / 1024
    }
}

/// The sentinel path `Not found!` of a failed executable lookup.
pub open spec fn not_found_path() -> Seq<u8> {
    seq![78u8, 111u8, 116u8, 32u8, 102u8, 111u8, 117u8, 110u8, 100u8, 33u8]
}

/// The owner sentinel `N/A` of an unreadable listing.
pub open spec fn owner_na() -> Seq<u8> {
    seq![78u8, 47u8, 65u8]
}

/// The owner `root` assumed when the listing itself is denied.
pub open spec fn owner_root() -> Seq<u8> {
    seq![114u8, 111u8, 111u8, 116u8]
}

fn not_found_bytes() -> (r: Vec<u8>)
    ensures
        r@ == not_found_path(),
{
    let mut v: Vec<u8> = Vec::new();
    v.push(78);
    v.push(111);
    v.push(116);
    v.push(32);
    v.push(102);
    v.push(111);
    v.push(117);
    v.push(110);
    v.push(100);
    v.push(33);
    proof {
        assert(v@ =~= not_found_path());
    }
    v
}

fn owner_na_bytes() -> (r: Vec<u8>)
    ensures
        r@ == owner_na(),
{
    let mut v: Vec<u8> = Vec::new();
    v.push(78);
    v.push(47);
    v.push(65);
    proof {
        assert(v@ =~= owner_na());
    }
    v
}

fn owner_root_bytes() -> (r: Vec<u8>)
    ensures
        r@ == owner_root(),
{
    let mut v: Vec<u8> = Vec::new();
    v.push(114);
    v.push(111);
    v.push(111);
    v.push(116);
    proof {
        assert(v@ =~= owner_root());
    }
    v
}

/// The executable path an external lookup yielded: the lookup's own
/// output when it succeeded, the sentinel on any denial or failure.
pub fn exe_path_of_lookup(outcome: Option<Vec<u8>>) -> (r: Vec<u8>)
    ensures
        r@ == match outcome {
            Some(out) => out@,
            None => not_found_path(),
        },
{
    match outcome {
        Some(out) => out,
        None => not_found_bytes(),
    }
}

/// The owner a directory listing yields: the third field of its last
/// line; `N/A` when the output has no such field; `root` when the listing
/// command itself was denied (the denial being evidence of restricted
/// ownership).
pub open spec fn spec_owner_of_listing(outcome: Option<Seq<u8>>) -> Seq<u8> {
    match outcome {
        None => owner_root(),
        Some(out) => {
            let ls = lines_of(out);
            if ls.len() == 0 {
                owner_na()
            } else {
                let ts = tokens_of(ls.last());
                if ts.len() > 2 {
                    ts[2]
                } else {
                    owner_na()
                }
            }
        },
    }
}

pub fn owner_of_listing(outcome: Option<Vec<u8>>) -> (r: Vec<u8>)
    ensures
        r@ == spec_owner_of_listing(match outcome {
            Some(o) => Some(o@),
            None => None,
        }),
{
    match outcome {
        None => owner_root_bytes(),
        Some(out) => {
            let ls = split_lines(out.as_slice());
            if ls.len() == 0 {
                owner_na_bytes()
            } else {
                proof {
                    assert(seq_views(ls@)[ls@.len() - 1] == ls@[ls@.len() - 1]@);
                }
                let mut ts = tokenize(ls[ls.len() - 1].as_slice());
                if ts.len() > 2 {
                    proof {
                        assert(seq_views(ts@)[2] == ts@[2]@);
                    }
                    ts.remove(2)
                } else {
                    owner_na_bytes()
                }
            }
        },
    }
}

/// Child pids of a children-list text: every whitespace token that parses
/// as a pid, in the kernel's order; unparsable tokens are skipped, and an
/// empty text means no children.
pub open spec fn spec_parse_children(s: Seq<u8>) -> Seq<u32> {
    dec_u32_values(tokens_of(s))
}

pub fn parse_children(text: &[u8]) -> (r: Vec<u32>)
    ensures
        r@ == spec_parse_children(text@),
{
    let ts = tokenize(text);
    keep_dec_u32(&ts)
}

/// Builds the record for one pid out of its sub-reads, each independently
/// optional. A failed sub-read leaves its fields at their documented
/// defaults — the owner and path sentinels, empty text, zero — and the
/// record itself is always produced, never dropped.
pub fn assemble_sample(
    pid: u32,
    status: Option<StatusInfo>,
    cpu_centi_percent: Option<u64>,
    owner: Option<Vec<u8>>,
    executable_path: Option<Vec<u8>>,
    children_pids: Option<Vec<u32>>,
) -> (r: ProcessSample)
    ensures
        r.pid == pid,
        r@.name == match status {
            Some(s) => s@.name,
            None => Seq::<u8>::empty(),
        },
        r@.status == match status {
            Some(s) => s@.state,
            None => Seq::<u8>::empty(),
        },
        r.memory_kb == match status {
            Some(s) => s.memory_kb,
            None => 0u32,
        },
        r.parent_pid == match status {
            Some(s) => s.parent_pid,
            None => 0u32,
        },
        r.cpu_centi_percent == match cpu_centi_percent {
            Some(c) => c,
            None => 0u64,
        },
        r@.owner == match owner {
            Some(o) => o@,
            None => owner_na(),
        },
        r@.executable_path == match executable_path {
            Some(p) => p@,
            None => not_found_path(),
        },
        r@.children_pids == match children_pids {
            Some(c) => c@,
            None => Seq::<u32>::empty(),
        },
{
    let (name, state, memory_kb, parent_pid) = match status {
        Some(s) => (s.name, s.state, s.memory_kb, s.parent_pid),
        None => (Vec::new(), Vec::new(), 0, 0),
    };
    ProcessSample {
        pid,
        name,
        status: state,
        owner: match owner {
            Some(o) => o,
            None => owner_na_bytes(),
        },
        cpu_centi_percent: match cpu_centi_percent {
            Some(c) => c,
            None => 0,
        },
        memory_kb,
        executable_path: match executable_path {
            Some(p) => p,
            None => not_found_bytes(),
        },
        parent_pid,
        children_pids: match children_pids {
            Some(c) => c,
            None => Vec::new(),
        },
    }
}

} // verus!
