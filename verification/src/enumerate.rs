//! The process enumerator: out of a directory listing, exactly the
//! entries whose names are unsigned decimal numbers, as pids.

use vstd::prelude::*;

use crate::text::{dec_u32_values, dec_value, is_dec_u32, keep_dec_u32, lemma_dec_u32_values_only_numeric, seq_views};

verus! {

/// The pids a listing of the process directory yields: every entry whose
/// name parses as an unsigned integer, in discovery order; every other
/// entry (the kernel's pseudo-files) is silently skipped.
pub open spec fn spec_list_pids(names: Seq<Seq<u8>>) -> Seq<u32> {
    dec_u32_values(names)
}

pub fn list_pids(names: &Vec<Vec<u8>>) -> (r: Vec<u32>)
    ensures
        r@ == spec_list_pids(seq_views(names@)),
{
    keep_dec_u32(names)
}

/// Enumeration never includes a non-numeric directory entry: every pid it
/// yields is the value of some all-digit entry name.
pub proof fn lemma_list_pids_numeric_only(names: Seq<Seq<u8>>, k: int)
    requires
        0 <= k < spec_list_pids(names).len(),
    ensures
        exists|j: int|
            0 <= j < names.len() && is_dec_u32(#[trigger] names[j]) && spec_list_pids(names)[k]
                == dec_value(names[j]),
{
    lemma_dec_u32_values_only_numeric(names, k);
}

} // verus!
