//! The per-process status reader: a key-value text whose recognized keys
//! carry the process name, run state, resident memory and parent pid.
//! Lines are folded in order; unrecognized keys and malformed values
//! leave the gathered fields untouched.

use vstd::prelude::*;

use crate::text::{dec_value, is_dec_u32, lines_of, seq_views, split_lines, tokenize, tokens_of};

verus! {

/// Ghost image of the fields the status reader extracts.
pub struct StatusView {
    pub name: Seq<u8>,
    pub state: Seq<u8>,
    pub memory_kb: u32,
    pub parent_pid: u32,
}

/// The fields of one process's status file, each at its fail-soft default
/// when the file never named it.
pub struct StatusInfo {
    pub name: Vec<u8>,
    pub state: Vec<u8>,
    pub memory_kb: u32,
    pub parent_pid: u32,
}

impl View for StatusInfo {
    type V = StatusView;

    open spec fn view(&self) -> StatusView {
        StatusView {
            name: self.name@,
            state: self.state@,
            memory_kb: self.memory_kb,
            parent_pid: self.parent_pid,
        }
    }
}

/// The recognized keys of the status interface, and everything else.
pub enum StatusKey {
    Name,
    State,
    VmRss,
    PPid,
    Other,
}

/// The key token `Name:`.
pub open spec fn key_name() -> Seq<u8> {
    seq![78u8, 97u8, 109u8, 101u8, 58u8]
}

/// The key token `State:`.
pub open spec fn key_state() -> Seq<u8> {
    seq![83u8, 116u8, 97u8, 116u8, 101u8, 58u8]
}

/// The key token `VmRSS:`.
pub open spec fn key_vmrss() -> Seq<u8> {
    seq![86u8, 109u8, 82u8, 83u8, 83u8, 58u8]
}

/// The key token `PPid:`.
pub open spec fn key_ppid() -> Seq<u8> {
    seq![80u8, 80u8, 105u8, 100u8, 58u8]
}

pub open spec fn spec_key_of(t: Seq<u8>) -> StatusKey {
    if t == key_name() {
        StatusKey::Name
    } else if t == key_state() {
        StatusKey::State
    } else if t == key_vmrss() {
        StatusKey::VmRss
    } else if t == key_ppid() {
        StatusKey::PPid
    } else {
        StatusKey::Other
    }
}

/// Classifies a token as one of the recognized status keys.
fn key_of(t: &Vec<u8>) -> (k: StatusKey)
    ensures
        k == spec_key_of(t@),
{
    if t.len() == 5 && t[0] == 78 && t[1] == 97 && t[2] == 109 && t[3] == 101 && t[4] == 58 {
        proof {
            assert(t@ =~= key_name());
        }
        StatusKey::Name
    } else if t.len() == 6 && t[0] == 83 && t[1] == 116 && t[2] == 97 && t[3] == 116 && t[4]
        == 101 && t[5] == 58 {
        proof {
            assert(t@ =~= key_state());
        }
        StatusKey::State
    } else if t.len() == 6 && t[0] == 86 && t[1] == 109 && t[2] == 82 && t[3] == 83 && t[4] == 83
        && t[5] == 58 {
        proof {
            assert(t@ =~= key_vmrss());
        }
        StatusKey::VmRss
    } else if t.len() == 5 && t[0] == 80 && t[1] == 80 && t[2] == 105 && t[3] == 100 && t[4]
        == 58 {
        proof {
            assert(t@ =~= key_ppid());
        }
        StatusKey::PPid
    } else {
        proof {
            assert(t@ != key_name());
            assert(t@ != key_state());
            assert(t@ != key_vmrss());
            assert(t@ != key_ppid());
        }
        StatusKey::Other
    }
}

pub open spec fn default_status() -> StatusView {
    StatusView { name: Seq::empty(), state: Seq::empty(), memory_kb: 0, parent_pid: 0 }
}

/// Effect of one status line on the fields gathered so far: a line with a
/// recognized key and a value token sets that key's field, every other
/// line changes nothing. Numeric fields also demand a numeric value.
pub open spec fn apply_status_line(v: StatusView, line: Seq<u8>) -> StatusView {
    let ts = tokens_of(line);
    if ts.len() < 2 {
        v
    } else {
        match spec_key_of(ts[0]) {
            StatusKey::Name => StatusView { name: ts[1], ..v },
            StatusKey::State => StatusView { state: ts[1], ..v },
            StatusKey::VmRss => if is_dec_u32(ts[1]) {
                StatusView { memory_kb: dec_value(ts[1]) as u32, ..v }
            } else {
                v
            },
            StatusKey::PPid => if is_dec_u32(ts[1]) {
                StatusView { parent_pid: dec_value(ts[1]) as u32, ..v }
            } else {
                v
            },
            StatusKey::Other => v,
        }
    }
}

/// The fields a sequence of status lines yields, folded first to last.
pub open spec fn status_of_lines(ls: Seq<Seq<u8>>) -> StatusView
    decreases ls.len(),
{
    if ls.len() == 0 {
        default_status()
    } else {
        apply_status_line(status_of_lines(ls.drop_last()), ls.last())
    }
}

/// The fields a whole status text yields.
pub open spec fn spec_parse_status(s: Seq<u8>) -> StatusView {
    status_of_lines(lines_of(s))
}

/// Reads a status text into its fields. Every field keeps its default
/// until a line sets it; no input is an error.
pub fn parse_status(text: &[u8]) -> (r: StatusInfo)
    ensures
        r@ == spec_parse_status(text@),
{
    let ls = split_lines(text);
    let mut info = StatusInfo {
        name: Vec::new(),
        state: Vec::new(),
        memory_kb: 0,
        parent_pid: 0,
    };
    let mut i: usize = 0;
    while i < ls.len()
        invariant
            0 <= i <= ls@.len(),
            seq_views(ls@) == lines_of(text@),
            info@ == status_of_lines(lines_of(text@).subrange(0, i as int)),
        decreases ls.len() - i,
    {
        proof {
            let all = lines_of(text@);
            let pre = all.subrange(0, i as int);
            let ext = all.subrange(0, i as int + 1);
            assert(ext.drop_last() =~= pre);
            assert(ext.last() == all[i as int]);
            assert(seq_views(ls@)[i as int] == ls@[i as int]@);
        }
        let mut ts = tokenize(ls[i].as_slice());
        if ts.len() >= 2 {
            proof {
                assert(seq_views(ts@)[0] == ts@[0]@);
                assert(seq_views(ts@)[1] == ts@[1]@);
            }
            match key_of(&ts[0]) {
                StatusKey::Name => {
                    info.name = ts.remove(1);
                },
                StatusKey::State => {
                    info.state = ts.remove(1);
                },
                StatusKey::VmRss => {
                    match crate::text::parse_u32(ts[1].as_slice()) {
                        Some(v) => {
                            info.memory_kb = v;
                        },
                        None => {},
                    }
                },
                StatusKey::PPid => {
                    match crate::text::parse_u32(ts[1].as_slice()) {
                        Some(v) => {
                            info.parent_pid = v;
                        },
                        None => {},
                    }
                },
                StatusKey::Other => {},
            }
        }
        i = i + 1;
    }
    proof {
        assert(lines_of(text@).subrange(0, lines_of(text@).len() as int) =~= lines_of(text@));
    }
    info
}

/// Whether a line sets the field that key `k` selects.
pub open spec fn sets_field(line: Seq<u8>, k: StatusKey) -> bool {
    let ts = tokens_of(line);
    &&& ts.len() >= 2
    &&& spec_key_of(ts[0]) == k
    &&& match k {
        StatusKey::VmRss | StatusKey::PPid => is_dec_u32(ts[1]),
        _ => true,
    }
}

/// Order independence of the status reader: when exactly one line sets a
/// recognized key, the extracted field is that line's value token,
/// wherever the line stands among the others.
pub proof fn lemma_status_field_from_unique_line(ls: Seq<Seq<u8>>, i: int, k: StatusKey)
    requires
        0 <= i < ls.len(),
        sets_field(ls[i], k),
        forall|j: int| 0 <= j < ls.len() && j != i ==> !sets_field(#[trigger] ls[j], k),
    ensures
        k is Name ==> status_of_lines(ls).name == tokens_of(ls[i])[1],
        k is State ==> status_of_lines(ls).state == tokens_of(ls[i])[1],
        k is VmRss ==> status_of_lines(ls).memory_kb == dec_value(tokens_of(ls[i])[1]),
        k is PPid ==> status_of_lines(ls).parent_pid == dec_value(tokens_of(ls[i])[1]),
    decreases ls.len(),
{
    if i == ls.len() - 1 {
        assert(ls.last() == ls[i]);
    } else {
        assert(ls.drop_last()[i] == ls[i]);
        lemma_status_field_from_unique_line(ls.drop_last(), i, k);
        assert(!sets_field(ls.last(), k));
    }
}

/// A line that carries no recognized key (or no value token) can be taken
/// out without changing what the reader extracts.
pub proof fn lemma_status_ignores_unrecognized(ls: Seq<Seq<u8>>, i: int)
    requires
        0 <= i < ls.len(),
        tokens_of(ls[i]).len() < 2 || spec_key_of(tokens_of(ls[i])[0]) is Other,
    ensures
        status_of_lines(ls.remove(i)) == status_of_lines(ls),
    decreases ls.len(),
{
    if i == ls.len() - 1 {
        assert(ls.remove(i) =~= ls.drop_last());
        assert(apply_status_line(status_of_lines(ls.drop_last()), ls.last()) == status_of_lines(
            ls.drop_last(),
        ));
    } else {
        assert(ls.drop_last()[i] == ls[i]);
        lemma_status_ignores_unrecognized(ls.drop_last(), i);
        assert(ls.remove(i).drop_last() =~= ls.drop_last().remove(i));
        assert(ls.remove(i).last() == ls.last());
    }
}

} // verus!
