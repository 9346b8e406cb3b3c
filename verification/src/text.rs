//! Byte-level text primitives shared by all parsers: ASCII classification,
//! decimal values, line splitting and whitespace tokenization, each exec
//! function proved against a direct mathematical model of its result.

use vstd::prelude::*;

verus! {

/// ASCII whitespace as the kernel's tabular files use it:
/// space, tab, line feed, carriage return.
pub open spec fn is_ws(b: u8) -> bool {
    b == 32 || b == 9 || b == 10 || b == 13
}

/// ASCII decimal digit.
pub open spec fn is_digit(b: u8) -> bool {
    48 <= b <= 57
}

pub open spec fn all_digits(s: Seq<u8>) -> bool {
    forall|i: int| 0 <= i < s.len() ==> is_digit(#[trigger] s[i])
}

/// Numeric value of a string of decimal digits, most significant first.
pub open spec fn dec_value(s: Seq<u8>) -> nat
    decreases s.len(),
{
    if s.len() == 0 {
        0
    } else {
        dec_value(s.drop_last()) * 10 + if s.last() >= 48 {
            (s.last() - 48) as nat
        } else {
            0
        }
    }
}

/// A token that parses as an unsigned 64-bit decimal number.
pub open spec fn is_dec_u64(s: Seq<u8>) -> bool {
    s.len() > 0 && all_digits(s) && dec_value(s) <= u64::MAX
}

/// A token that parses as an unsigned 32-bit decimal number.
pub open spec fn is_dec_u32(s: Seq<u8>) -> bool {
    s.len() > 0 && all_digits(s) && dec_value(s) <= u32::MAX
}

/// Extending a digit string never decreases its value.
pub proof fn lemma_dec_value_prefix(s: Seq<u8>, j: int, k: int)
    requires
        0 <= j <= k <= s.len(),
    ensures
        dec_value(s.subrange(0, j)) <= dec_value(s.subrange(0, k)),
    decreases k - j,
{
    if j < k {
        lemma_dec_value_prefix(s, j, k - 1);
        assert(s.subrange(0, k).drop_last() =~= s.subrange(0, k - 1));
    }
}

/// Parses a byte string as an unsigned decimal number: succeeds exactly on
/// non-empty all-digit strings whose value fits in a `u64`.
pub fn parse_u64(s: &[u8]) -> (r: Option<u64>)
    ensures
        is_dec_u64(s@) ==> r == Some(dec_value(s@) as u64),
        !is_dec_u64(s@) ==> r is None,
{
    if s.len() == 0 {
        return None;
    }
    let mut acc: u64 = 0;
    let mut i: usize = 0;
    while i < s.len()
        invariant
            0 <= i <= s.len(),
            all_digits(s@.subrange(0, i as int)),
            acc == dec_value(s@.subrange(0, i as int)),
        decreases s.len() - i,
    {
        let b = s[i];
        if b < 48 || b > 57 {
            assert(!all_digits(s@));
            return None;
        }
        let d = (b - 48) as u64;
        if acc > (u64::MAX - d) / 10 {
            proof {
                let pre = s@.subrange(0, i as int);
                let ext = s@.subrange(0, i as int + 1);
                assert(ext.drop_last() =~= pre);
                assert(dec_value(ext) == acc * 10 + d);
                assert(acc * 10 + d > u64::MAX) by (nonlinear_arith)
                    requires
                        acc > (u64::MAX - d) / 10,
                        d <= 9,
                        acc <= u64::MAX,
                {
                }
                lemma_dec_value_prefix(s@, i as int + 1, s@.len() as int);
                assert(s@.subrange(0, s@.len() as int) =~= s@);
            }
            return None;
        }
        proof {
            assert(acc * 10 + d <= u64::MAX) by (nonlinear_arith)
                requires
                    acc <= (u64::MAX - d) / 10,
                    d <= 9,
            {
            }
            let pre = s@.subrange(0, i as int);
            let ext = s@.subrange(0, i as int + 1);
            assert(ext.drop_last() =~= pre);
            assert(ext.last() == s@[i as int]);
        }
        acc = acc * 10 + d;
        i = i + 1;
    }
    proof {
        assert(s@.subrange(0, s@.len() as int) =~= s@);
    }
    Some(acc)
}

/// Parses a byte string as an unsigned 32-bit decimal number.
pub fn parse_u32(s: &[u8]) -> (r: Option<u32>)
    ensures
        is_dec_u32(s@) ==> r == Some(dec_value(s@) as u32),
        !is_dec_u32(s@) ==> r is None,
{
    match parse_u64(s) {
        Some(v) => {
            if v <= u32::MAX as u64 {
                Some(v as u32)
            } else {
                None
            }
        },
        None => None,
    }
}

/// Numeric value of a token: its decimal value when it parses as a `u64`,
/// zero otherwise (the parsers' fail-soft default).
pub open spec fn token_u64(t: Seq<u8>) -> nat {
    if is_dec_u64(t) {
        dec_value(t)
    } else {
        0
    }
}

/// A natural number clamped into the `u64` range.
pub open spec fn cap64(n: nat) -> u64 {
    if n > u64::MAX {
        u64::MAX
    } else {
        n as u64
    }
}

/// Numeric value of a token, zero when it does not parse.
pub fn token_value(t: &Vec<u8>) -> (r: u64)
    ensures
        r == token_u64(t@),
{
    match parse_u64(t.as_slice()) {
        Some(v) => v,
        None => 0,
    }
}

/// The views of a sequence of byte vectors.
pub open spec fn seq_views(v: Seq<Vec<u8>>) -> Seq<Seq<u8>> {
    v.map_values(|x: Vec<u8>| x@)
}

/// The 32-bit values among a sequence of tokens, in order; tokens that do
/// not parse are skipped.
pub open spec fn dec_u32_values(ts: Seq<Seq<u8>>) -> Seq<u32>
    decreases ts.len(),
{
    if ts.len() == 0 {
        Seq::<u32>::empty()
    } else {
        let rest = dec_u32_values(ts.drop_last());
        if is_dec_u32(ts.last()) {
            rest.push(dec_value(ts.last()) as u32)
        } else {
            rest
        }
    }
}

/// Every value the filter keeps is the value of some token that parses.
pub proof fn lemma_dec_u32_values_only_numeric(ts: Seq<Seq<u8>>, k: int)
    requires
        0 <= k < dec_u32_values(ts).len(),
    ensures
        exists|j: int|
            0 <= j < ts.len() && is_dec_u32(#[trigger] ts[j]) && dec_u32_values(ts)[k]
                == dec_value(ts[j]),
    decreases ts.len(),
{
    let rest = dec_u32_values(ts.drop_last());
    if k < rest.len() {
        lemma_dec_u32_values_only_numeric(ts.drop_last(), k);
        let j = choose|j: int|
            0 <= j < ts.drop_last().len() && is_dec_u32(#[trigger] ts.drop_last()[j])
                && rest[k] == dec_value(ts.drop_last()[j]);
        assert(ts[j] == ts.drop_last()[j]);
    } else {
        assert(is_dec_u32(ts[ts.len() - 1]));
    }
}

/// Keeps the tokens that parse as 32-bit numbers, as their values.
pub fn keep_dec_u32(ts: &Vec<Vec<u8>>) -> (r: Vec<u32>)
    ensures
        r@ == dec_u32_values(seq_views(ts@)),
{
    let mut r: Vec<u32> = Vec::new();
    let mut i: usize = 0;
    while i < ts.len()
        invariant
            0 <= i <= ts@.len(),
            r@ == dec_u32_values(seq_views(ts@).subrange(0, i as int)),
        decreases ts.len() - i,
    {
        proof {
            let all = seq_views(ts@);
            let pre = all.subrange(0, i as int);
            let ext = all.subrange(0, i as int + 1);
            assert(ext.drop_last() =~= pre);
            assert(ext.last() == all[i as int]);
            assert(seq_views(ts@)[i as int] == ts@[i as int]@);
        }
        match parse_u32(ts[i].as_slice()) {
            Some(v) => {
                r.push(v);
            },
            None => {},
        }
        i = i + 1;
    }
    proof {
        assert(seq_views(ts@).subrange(0, seq_views(ts@).len() as int) =~= seq_views(ts@));
    }
    r
}

/// Segments of a byte text delimited by line feeds; a text always has one
/// more segment than it has line feeds.
pub open spec fn raw_lines(s: Seq<u8>) -> Seq<Seq<u8>>
    decreases s.len(),
{
    if s.len() == 0 {
        seq![Seq::<u8>::empty()]
    } else if s.last() == 10 {
        raw_lines(s.drop_last()).push(Seq::<u8>::empty())
    } else {
        let r = raw_lines(s.drop_last());
        r.update(r.len() - 1, r.last().push(s.last()))
    }
}

pub proof fn lemma_raw_lines_nonempty(s: Seq<u8>)
    ensures
        raw_lines(s).len() >= 1,
    decreases s.len(),
{
    if s.len() > 0 {
        lemma_raw_lines_nonempty(s.drop_last());
    }
}

/// The lines of a byte text, as `str::lines` yields them: line-feed
/// separated segments, with the empty segment after a final line feed
/// (or of an empty text) dropped.
pub open spec fn lines_of(s: Seq<u8>) -> Seq<Seq<u8>> {
    let r = raw_lines(s);
    if r.last().len() == 0 {
        r.drop_last()
    } else {
        r
    }
}

/// Splits a byte text into its lines.
pub fn split_lines(s: &[u8]) -> (r: Vec<Vec<u8>>)
    ensures
        seq_views(r@) == lines_of(s@),
{
    let mut out: Vec<Vec<u8>> = Vec::new();
    let mut cur: Vec<u8> = Vec::new();
    let mut i: usize = 0;
    while i < s.len()
        invariant
            0 <= i <= s.len(),
            seq_views(out@).push(cur@) == raw_lines(s@.subrange(0, i as int)),
        decreases s.len() - i,
    {
        proof {
            let pre = s@.subrange(0, i as int);
            let ext = s@.subrange(0, i as int + 1);
            assert(ext.drop_last() =~= pre);
            assert(ext.last() == s@[i as int]);
            lemma_raw_lines_nonempty(pre);
        }
        let b = s[i];
        if b == 10 {
            let ghost old_out = out@;
            let ghost old_cur = cur@;
            out.push(cur);
            cur = Vec::new();
            proof {
                assert(seq_views(out@).push(cur@) =~= seq_views(old_out).push(old_cur).push(
                    Seq::<u8>::empty(),
                ));
            }
        } else {
            let ghost old_cur = cur@;
            cur.push(b);
            proof {
                let r = seq_views(out@).push(old_cur);
                assert(r.last() == old_cur);
                assert(seq_views(out@).push(cur@) =~= r.update(r.len() - 1, r.last().push(b)));
            }
        }
        i = i + 1;
    }
    proof {
        assert(s@.subrange(0, s@.len() as int) =~= s@);
        lemma_raw_lines_nonempty(s@);
    }
    if cur.len() == 0 {
        proof {
            assert(seq_views(out@) =~= raw_lines(s@).drop_last());
        }
        out
    } else {
        let ghost old_out = out@;
        out.push(cur);
        proof {
            assert(seq_views(out@) =~= raw_lines(s@));
        }
        out
    }
}

/// The whitespace-separated tokens of a byte text, in order, each token a
/// maximal run of non-whitespace bytes.
pub open spec fn tokens_of(s: Seq<u8>) -> Seq<Seq<u8>>
    decreases s.len(),
{
    if s.len() == 0 {
        Seq::<Seq<u8>>::empty()
    } else {
        let r = tokens_of(s.drop_last());
        let b = s.last();
        if is_ws(b) {
            r
        } else if s.len() >= 2 && !is_ws(s[s.len() - 2]) {
            r.update(r.len() - 1, r.last().push(b))
        } else {
            r.push(seq![b])
        }
    }
}

fn ws_byte(b: u8) -> (r: bool)
    ensures
        r == is_ws(b),
{
    b == 32 || b == 9 || b == 10 || b == 13
}

/// Splits a byte text into its whitespace-separated tokens.
pub fn tokenize(s: &[u8]) -> (r: Vec<Vec<u8>>)
    ensures
        seq_views(r@) == tokens_of(s@),
{
    let mut out: Vec<Vec<u8>> = Vec::new();
    let mut cur: Vec<u8> = Vec::new();
    let mut in_token = false;
    let mut i: usize = 0;
    while i < s.len()
        invariant
            0 <= i <= s.len(),
            in_token == (i > 0 && !is_ws(s@[i as int - 1])),
            in_token ==> seq_views(out@).push(cur@) == tokens_of(s@.subrange(0, i as int))
                && cur@.len() > 0,
            !in_token ==> seq_views(out@) == tokens_of(s@.subrange(0, i as int)) && cur@.len()
                == 0,
        decreases s.len() - i,
    {
        proof {
            let pre = s@.subrange(0, i as int);
            let ext = s@.subrange(0, i as int + 1);
            assert(ext.drop_last() =~= pre);
            assert(ext.last() == s@[i as int]);
        }
        let b = s[i];
        if ws_byte(b) {
            if in_token {
                out.push(cur);
                cur = Vec::new();
                in_token = false;
            }
        } else {
            if in_token {
                let ghost old_cur = cur@;
                cur.push(b);
                proof {
                    let r = seq_views(out@).push(old_cur);
                    assert(r.last() == old_cur);
                    assert(seq_views(out@).push(cur@) =~= r.update(
                        r.len() - 1,
                        r.last().push(b),
                    ));
                }
            } else {
                cur.push(b);
                in_token = true;
                proof {
                    assert(cur@ =~= seq![b]);
                    assert(seq_views(out@).push(cur@) =~= tokens_of(
                        s@.subrange(0, i as int),
                    ).push(seq![b]));
                }
            }
        }
        i = i + 1;
    }
    proof {
        assert(s@.subrange(0, s@.len() as int) =~= s@);
    }
    if in_token {
        let ghost old_out = out@;
        out.push(cur);
        proof {
            assert(seq_views(out@) =~= seq_views(old_out).push(cur@));
        }
    }
    out
}

} // verus!
