//! The tree builder: reconstructs the displayed forest from the flat
//! parent and children references of a fixed snapshot view. Samples with
//! no resolvable parent within the view root the forest; child references
//! that point outside the view are skipped; no sample is rendered twice.

use vstd::prelude::*;

use crate::sample::{ProcessSample, SampleView};
use crate::snapshot::{lemma_visible_sorted, sample_views, visible_of, ProcessSnapshot};

verus! {

/// Whether some sample of the view carries this pid.
pub open spec fn view_has_pid(ss: Seq<SampleView>, pid: u32) -> bool {
    exists|i: int| 0 <= i < ss.len() && ss[i].pid == pid
}

/// A sample roots a tree of the displayed forest when it is its own
/// parent or its parent is not in the displayed view.
pub open spec fn is_root_in(s: SampleView, ss: Seq<SampleView>) -> bool {
    s.parent_pid == s.pid || !view_has_pid(ss, s.parent_pid)
}

/// No two samples of the view share a pid.
pub open spec fn unique_pids(ss: Seq<SampleView>) -> bool {
    forall|i: int, j: int| 0 <= i < j < ss.len() ==> ss[i].pid != ss[j].pid
}

/// Whether some row of the forest carries this pid.
pub open spec fn rows_have_pid(rows: Seq<TreeRow>, pid: u32) -> bool {
    exists|k: int| 0 <= k < rows.len() && rows[k].pid == pid
}

/// One row of the rendered forest: a sample's pid at its tree depth.
#[derive(Clone, Copy, PartialEq, Eq, Structural, Debug)]
pub struct TreeRow {
    pub pid: u32,
    pub depth: usize,
}

/// An internal row: the sample's index in the view, at its depth.
#[derive(Clone, Copy, PartialEq, Eq, Structural)]
struct RowIdx {
    index: usize,
    depth: usize,
}

/// How many entries are still unvisited.
spec fn count_false(s: Seq<bool>) -> nat
    decreases s.len(),
{
    if s.len() == 0 {
        0
    } else {
        count_false(s.drop_last()) + if s.last() {
            0nat
        } else {
            1nat
        }
    }
}

proof fn lemma_count_false_le(a: Seq<bool>, b: Seq<bool>)
    requires
        a.len() == b.len(),
        forall|i: int| 0 <= i < a.len() && a[i] ==> b[i],
    ensures
        count_false(b) <= count_false(a),
    decreases a.len(),
{
    if a.len() > 0 {
        assert(forall|i: int|
            0 <= i < a.len() - 1 && #[trigger] a.drop_last()[i] ==> b.drop_last()[i]);
        lemma_count_false_le(a.drop_last(), b.drop_last());
    }
}

proof fn lemma_count_false_bound(s: Seq<bool>)
    ensures
        count_false(s) <= s.len(),
    decreases s.len(),
{
    if s.len() > 0 {
        lemma_count_false_bound(s.drop_last());
    }
}

proof fn lemma_count_false_update(s: Seq<bool>, i: int)
    requires
        0 <= i < s.len(),
        !s[i],
    ensures
        count_false(s.update(i, true)) == count_false(s) - 1,
    decreases s.len(),
{
    if i == s.len() - 1 {
        assert(s.update(i, true).drop_last() =~= s.drop_last());
    } else {
        lemma_count_false_update(s.drop_last(), i);
        assert(s.update(i, true).drop_last() =~= s.drop_last().update(i, true));
        assert(s.update(i, true).last() == s.last());
    }
}

/// Some sample of the view carries the pid and is marked visited.
spec fn marked_pid(vs: Seq<SampleView>, visited: Seq<bool>, pid: u32) -> bool {
    exists|j: int| 0 <= j < vs.len() && vs[j].pid == pid && visited[j]
}

/// Every child reference of the sample at `i` that resolves within the
/// view points at a marked sample.
spec fn children_marked(vs: Seq<SampleView>, visited: Seq<bool>, i: int) -> bool {
    forall|c: int|
        0 <= c < vs[i].children_pids.len() && view_has_pid(
            vs,
            #[trigger] vs[i].children_pids[c],
        ) ==> marked_pid(vs, visited, vs[i].children_pids[c])
}

/// Marks only grow, so a marked-children fact survives further marking.
proof fn lemma_children_marked_mono(vs: Seq<SampleView>, v1: Seq<bool>, v2: Seq<bool>, i: int)
    requires
        v1.len() == v2.len(),
        vs.len() == v1.len(),
        forall|j: int| 0 <= j < v1.len() && v1[j] ==> v2[j],
        children_marked(vs, v1, i),
    ensures
        children_marked(vs, v2, i),
{
    assert forall|c: int|
        0 <= c < vs[i].children_pids.len() && view_has_pid(
            vs,
            #[trigger] vs[i].children_pids[c],
        ) implies marked_pid(vs, v2, vs[i].children_pids[c]) by {
        let p = vs[i].children_pids[c];
        let j = choose|j: int| 0 <= j < vs.len() && vs[j].pid == p && v1[j];
        assert(v2[j]);
    }
}

/// Finds the index of the sample carrying a pid, if the view has one.
fn find_pid(view: &Vec<ProcessSample>, pid: u32) -> (r: Option<usize>)
    ensures
        match r {
            Some(j) => j < view@.len() && sample_views(view@)[j as int].pid == pid,
            None => !view_has_pid(sample_views(view@), pid),
        },
{
    let ghost vs = sample_views(view@);
    let mut k: usize = 0;
    while k < view.len()
        invariant
            0 <= k <= view@.len(),
            vs == sample_views(view@),
            forall|i: int| 0 <= i < k ==> vs[i].pid != pid,
        decreases view@.len() - k,
    {
        proof {
            assert(vs[k as int] == view@[k as int]@);
        }
        if view[k].pid == pid {
            return Some(k);
        }
        k = k + 1;
    }
    None
}

/// Emits the sample at `idx` and, beneath it, every yet-unvisited child
/// reachable through `children_pids`, skipping references that leave the
/// view. Emitted rows never repeat an index; every present child of an
/// emitted row ends up marked, and every newly marked index is emitted.
fn emit_subtree(
    view: &Vec<ProcessSample>,
    idx: usize,
    depth: usize,
    visited: &mut Vec<bool>,
    out: &mut Vec<RowIdx>,
)
    requires
        old(visited)@.len() == view@.len(),
        idx < view@.len(),
        old(visited)@[idx as int],
        depth + count_false(old(visited)@) <= view@.len(),
        forall|k: int|
            0 <= k < old(out)@.len() ==> (#[trigger] old(out)@[k]).index < view@.len() && old(
                visited,
            )@[old(out)@[k].index as int] && old(out)@[k].index != idx,
        forall|k: int, l: int|
            0 <= k < l < old(out)@.len() ==> old(out)@[k].index != old(out)@[l].index,
    ensures
        final(visited)@.len() == view@.len(),
        forall|i: int| 0 <= i < view@.len() && old(visited)@[i] ==> final(visited)@[i],
        final(out)@.len() > old(out)@.len(),
        final(out)@.subrange(0, old(out)@.len() as int) == old(out)@,
        final(out)@[old(out)@.len() as int] == (RowIdx { index: idx, depth }),
        forall|k: int|
            old(out)@.len() < k < final(out)@.len() ==> !old(visited)@[(
            #[trigger] final(out)@[k]).index as int] && final(out)@[k].depth > depth,
        forall|k: int|
            0 <= k < final(out)@.len() ==> (#[trigger] final(out)@[k]).index < view@.len()
                && final(visited)@[final(out)@[k].index as int],
        forall|k: int, l: int|
            0 <= k < l < final(out)@.len() ==> final(out)@[k].index != final(out)@[l].index,
        forall|k: int|
            old(out)@.len() <= k < final(out)@.len() ==> children_marked(
                sample_views(view@),
                final(visited)@,
                (#[trigger] final(out)@[k]).index as int,
            ),
        forall|j: int|
            0 <= j < view@.len() && !old(visited)@[j] && #[trigger] final(visited)@[j]
                ==> exists|k: int|
                old(out)@.len() <= k < final(out)@.len() && (#[trigger] final(out)@[k]).index
                    == j,
    decreases count_false(old(visited)@),
{
    let ghost entry_visited = visited@;
    let ghost entry_out = out@;
    let ghost vs = sample_views(view@);
    out.push(RowIdx { index: idx, depth });
    let mut c: usize = 0;
    let children = &view[idx].children_pids;
    proof {
        assert(vs[idx as int] == view@[idx as int]@);
    }
    while c < children.len()
        invariant
            0 <= c <= children@.len(),
            entry_visited == old(visited)@,
            entry_visited.len() == view@.len(),
            visited@.len() == view@.len(),
            idx < view@.len(),
            depth + count_false(visited@) <= view@.len(),
            forall|i: int| 0 <= i < view@.len() && entry_visited[i] ==> visited@[i],
            entry_visited[idx as int],
            out@.len() > entry_out.len(),
            out@.subrange(0, entry_out.len() as int) == entry_out,
            out@[entry_out.len() as int] == (RowIdx { index: idx, depth }),
            forall|k: int|
                entry_out.len() < k < out@.len() ==> !entry_visited[(
                #[trigger] out@[k]).index as int] && out@[k].depth > depth,
            forall|k: int|
                0 <= k < out@.len() ==> (#[trigger] out@[k]).index < view@.len()
                    && visited@[out@[k].index as int],
            forall|k: int, l: int| 0 <= k < l < out@.len() ==> out@[k].index != out@[l].index,
            vs == sample_views(view@),
            vs[idx as int].children_pids == children@,
            forall|k: int|
                entry_out.len() < k < out@.len() ==> children_marked(vs, visited@, (
                #[trigger] out@[k]).index as int),
            forall|c2: int|
                0 <= c2 < c && view_has_pid(vs, #[trigger] vs[idx as int].children_pids[c2])
                    ==> marked_pid(vs, visited@, vs[idx as int].children_pids[c2]),
            forall|j: int|
                0 <= j < view@.len() && !entry_visited[j] && #[trigger] visited@[j]
                    ==> exists|k: int|
                    entry_out.len() <= k < out@.len() && (#[trigger] out@[k]).index == j,
        decreases children@.len() - c,
    {
        let child = children[c];
        match find_pid(view, child) {
            Some(j) => {
                if !visited[j] {
                    let ghost pre_visited = visited@;
                    let ghost pre_out = out@;
                    visited.set(j, true);
                    proof {
                        lemma_count_false_le(entry_visited, pre_visited);
                        lemma_count_false_update(pre_visited, j as int);
                        assert(count_false(visited@) < count_false(old(visited)@));
                        assert(depth + 1 + count_false(visited@) <= view@.len());
                    }
                    let ghost at_call = visited@;
                    let bound = view.len();
                    proof {
                        assert(depth + 1 <= bound <= usize::MAX);
                    }
                    emit_subtree(view, j, depth + 1, visited, out);
                    proof {
                        lemma_count_false_le(at_call, visited@);
                        assert(depth + count_false(visited@) <= view@.len());
                        assert(out@.subrange(0, entry_out.len() as int) =~= pre_out.subrange(
                            0,
                            pre_out.len() as int,
                        ).subrange(0, entry_out.len() as int));
                        assert(out@[entry_out.len() as int] == pre_out[entry_out.len() as int]);
                        assert forall|k: int|
                            entry_out.len() < k < out@.len() implies !entry_visited[(
                        #[trigger] out@[k]).index as int] && out@[k].depth > depth by {
                            if k < pre_out.len() {
                                assert(out@[k] == pre_out[k]);
                            } else if k == pre_out.len() {
                                assert(out@[k].index == j);
                                assert(!pre_visited[j as int]);
                            }
                        }
                        assert forall|k: int, l: int|
                            0 <= k < l < out@.len() implies out@[k].index != out@[l].index by {
                            if l < pre_out.len() {
                                assert(out@[k] == pre_out[k]);
                                assert(out@[l] == pre_out[l]);
                            } else if k < pre_out.len() {
                                assert(out@[k] == pre_out[k]);
                                if l == pre_out.len() {
                                    assert(out@[l].index == j);
                                    assert(!pre_visited[j as int]);
                                    assert(pre_visited[out@[k].index as int]);
                                } else {
                                    assert(!pre_visited[out@[l].index as int]);
                                    assert(pre_visited[out@[k].index as int]);
                                }
                            }
                        }
                        assert forall|m: int|
                            0 <= m < pre_visited.len() && pre_visited[m] implies visited@[m] by {
                            assert(at_call[m]);
                        }
                        assert forall|k: int|
                            entry_out.len() < k < out@.len() implies children_marked(
                            vs,
                            visited@,
                            (#[trigger] out@[k]).index as int,
                        ) by {
                            if k < pre_out.len() {
                                assert(out@[k] == pre_out[k]);
                                assert(children_marked(vs, pre_visited, out@[k].index as int));
                                lemma_children_marked_mono(
                                    vs,
                                    pre_visited,
                                    visited@,
                                    out@[k].index as int,
                                );
                            }
                        }
                        assert forall|c2: int|
                            0 <= c2 < c + 1 && view_has_pid(
                                vs,
                                #[trigger] vs[idx as int].children_pids[c2],
                            ) implies marked_pid(
                            vs,
                            visited@,
                            vs[idx as int].children_pids[c2],
                        ) by {
                            let p = vs[idx as int].children_pids[c2];
                            if c2 < c {
                                let jw = choose|jw: int|
                                    0 <= jw < vs.len() && vs[jw].pid == p && pre_visited[jw];
                                assert(visited@[jw]);
                            } else {
                                assert(p == child);
                                assert(vs[j as int].pid == child);
                                assert(at_call[j as int]);
                                assert(visited@[j as int]);
                            }
                        }
                        assert forall|j2: int|
                            0 <= j2 < view@.len() && !entry_visited[j2]
                                && #[trigger] visited@[j2] implies exists|k: int|
                            entry_out.len() <= k < out@.len() && (#[trigger] out@[k]).index
                                == j2 by {
                            if pre_visited[j2] {
                                let k = choose|k: int|
                                    entry_out.len() <= k < pre_out.len() && (
                                    #[trigger] pre_out[k]).index == j2;
                                assert(out@[k] == pre_out[k]);
                            } else if j2 == j {
                                assert(out@[pre_out.len() as int].index == j);
                            } else {
                                assert(!at_call[j2]);
                                let k = choose|k: int|
                                    pre_out.len() <= k < out@.len() && (#[trigger] out@[k]).index
                                        == j2;
                                assert(entry_out.len() <= k);
                            }
                        }
                    }
                } else {
                    proof {
                        assert(0 <= j < vs.len() && vs[j as int].pid == child
                            && visited@[j as int]);
                        assert(marked_pid(vs, visited@, child));
                        assert(vs[idx as int].children_pids[c as int] == child);
                    }
                }
            },
            None => {
                proof {
                    assert(!view_has_pid(vs, child));
                    assert(vs[idx as int].children_pids[c as int] == child);
                }
            },
        }
        c = c + 1;
    }
    proof {
        assert(children_marked(vs, visited@, idx as int));
    }
}

/// Builds the displayed forest of a view, emitting rows depth first. The
/// contract: a sample stands at depth zero exactly when it has no
/// resolvable parent in the view; no sample is rendered twice; every row
/// renders a sample of the view (a child reference that leaves the view
/// is skipped, never rendered and never an error); and every child
/// reference of a rendered sample that resolves within the view is itself
/// rendered.
pub fn build_forest(view: &Vec<ProcessSample>) -> (rows: Vec<TreeRow>)
    requires
        unique_pids(sample_views(view@)),
    ensures
        ({
            let vs = sample_views(view@);
            &&& forall|k: int|
                0 <= k < rows@.len() ==> view_has_pid(vs, (#[trigger] rows@[k]).pid)
            &&& forall|k: int, l: int|
                0 <= k < l < rows@.len() ==> rows@[k].pid != rows@[l].pid
            &&& forall|i: int|
                0 <= i < vs.len() ==> (is_root_in(#[trigger] vs[i], vs) <==> exists|k: int|
                    0 <= k < rows@.len() && (#[trigger] rows@[k]).pid == vs[i].pid
                        && rows@[k].depth == 0)
            &&& forall|k: int|
                0 <= k < rows@.len() && (#[trigger] rows@[k]).depth == 0 ==> exists|i: int|
                    0 <= i < vs.len() && (#[trigger] vs[i]).pid == rows@[k].pid && is_root_in(
                        vs[i],
                        vs,
                    )
            &&& forall|i: int, c: int|
                0 <= i < vs.len() && rows_have_pid(rows@, vs[i].pid) && 0 <= c
                    < vs[i].children_pids.len() && view_has_pid(
                    vs,
                    #[trigger] vs[i].children_pids[c],
                ) ==> rows_have_pid(rows@, vs[i].children_pids[c])
        }),
{
    let ghost vs = sample_views(view@);
    let n = view.len();
    let mut roots: Vec<bool> = Vec::new();
    let mut i: usize = 0;
    while i < n
        invariant
            0 <= i <= n,
            n == view@.len(),
            vs == sample_views(view@),
            roots@.len() == i,
            forall|j: int| 0 <= j < i ==> roots@[j] == is_root_in(vs[j], vs),
        decreases n - i,
    {
        proof {
            assert(vs[i as int] == view@[i as int]@);
        }
        let s = &view[i];
        let r = if s.parent_pid == s.pid {
            true
        } else {
            match find_pid(view, s.parent_pid) {
                Some(_) => false,
                None => true,
            }
        };
        roots.push(r);
        i = i + 1;
    }
    let mut visited: Vec<bool> = Vec::new();
    let mut i: usize = 0;
    while i < n
        invariant
            0 <= i <= n,
            n == view@.len(),
            roots@.len() == n,
            forall|j: int| 0 <= j < n ==> roots@[j] == is_root_in(vs[j], vs),
            visited@.len() == i,
            forall|j: int| 0 <= j < i ==> visited@[j] == roots@[j],
        decreases n - i,
    {
        visited.push(roots[i]);
        i = i + 1;
    }
    let mut outi: Vec<RowIdx> = Vec::new();
    let mut i: usize = 0;
    while i < n
        invariant
            0 <= i <= n,
            n == view@.len(),
            vs == sample_views(view@),
            unique_pids(vs),
            roots@.len() == n,
            forall|j: int| 0 <= j < n ==> roots@[j] == is_root_in(vs[j], vs),
            visited@.len() == n,
            forall|j: int| 0 <= j < n && is_root_in(vs[j], vs) ==> visited@[j],
            forall|k: int|
                0 <= k < outi@.len() ==> (#[trigger] outi@[k]).index < n
                    && visited@[outi@[k].index as int],
            forall|k: int, l: int|
                0 <= k < l < outi@.len() ==> outi@[k].index != outi@[l].index,
            forall|j: int|
                0 <= j < i && is_root_in(vs[j], vs) ==> exists|k: int|
                    0 <= k < outi@.len() && (#[trigger] outi@[k]) == (RowIdx {
                        index: j as usize,
                        depth: 0,
                    }),
            forall|j: int, k: int|
                #![trigger vs[j], outi@[k]]
                i <= j < n && is_root_in(vs[j], vs) && 0 <= k < outi@.len() ==> outi@[k].index
                    != j,
            forall|k: int|
                0 <= k < outi@.len() && (#[trigger] outi@[k]).depth == 0 ==> is_root_in(
                    vs[outi@[k].index as int],
                    vs,
                ),
            forall|k: int|
                0 <= k < outi@.len() ==> children_marked(vs, visited@, (
                #[trigger] outi@[k]).index as int),
            forall|j: int|
                0 <= j < n && #[trigger] visited@[j] ==> is_root_in(vs[j], vs) || exists|k: int|
                    0 <= k < outi@.len() && (#[trigger] outi@[k]).index == j,
        decreases n - i,
    {
        if roots[i] {
            let ghost pre_out = outi@;
            let ghost pre_visited = visited@;
            proof {
                lemma_count_false_bound(visited@);
            }
            emit_subtree(view, i, 0, &mut visited, &mut outi);
            proof {
                assert(outi@[pre_out.len() as int] == (RowIdx { index: i, depth: 0 }));
                assert forall|j: int|
                    0 <= j < i + 1 && is_root_in(vs[j], vs) implies exists|k: int|
                    0 <= k < outi@.len() && (#[trigger] outi@[k]) == (RowIdx {
                        index: j as usize,
                        depth: 0,
                    }) by {
                    if j < i {
                        let k = choose|k: int|
                            0 <= k < pre_out.len() && (#[trigger] pre_out[k]) == (RowIdx {
                                index: j as usize,
                                depth: 0,
                            });
                        assert(outi@[k] == pre_out[k]);
                    } else {
                        assert(outi@[pre_out.len() as int] == (RowIdx {
                            index: j as usize,
                            depth: 0,
                        }));
                    }
                }
                assert forall|j: int, k: int|
                    #![trigger vs[j], outi@[k]]
                    i + 1 <= j < n && is_root_in(vs[j], vs) && 0 <= k
                        < outi@.len() implies outi@[k].index != j by {
                    if k < pre_out.len() {
                        assert(outi@[k] == pre_out[k]);
                    } else if k > pre_out.len() {
                        assert(!pre_visited[outi@[k].index as int]);
                        assert(pre_visited[j]);
                    }
                }
                assert forall|k: int|
                    0 <= k < outi@.len() && (#[trigger] outi@[k]).depth == 0 implies is_root_in(
                    vs[outi@[k].index as int],
                    vs,
                ) by {
                    if k < pre_out.len() {
                        assert(outi@[k] == pre_out[k]);
                    } else if k > pre_out.len() {
                        assert(outi@[k].depth > 0);
                    }
                }
                assert forall|k: int|
                    0 <= k < outi@.len() implies children_marked(vs, visited@, (
                #[trigger] outi@[k]).index as int) by {
                    if k < pre_out.len() {
                        assert(outi@[k] == pre_out[k]);
                        assert(children_marked(vs, pre_visited, outi@[k].index as int));
                        lemma_children_marked_mono(
                            vs,
                            pre_visited,
                            visited@,
                            outi@[k].index as int,
                        );
                    }
                }
                assert forall|j: int|
                    0 <= j < n && #[trigger] visited@[j] implies is_root_in(vs[j], vs) || exists|
                    k: int,
                |
                    0 <= k < outi@.len() && (#[trigger] outi@[k]).index == j by {
                    if pre_visited[j] {
                        if !is_root_in(vs[j], vs) {
                            let k = choose|k: int|
                                0 <= k < pre_out.len() && (#[trigger] pre_out[k]).index == j;
                            assert(outi@[k] == pre_out[k]);
                        }
                    } else {
                        let k = choose|k: int|
                            pre_out.len() <= k < outi@.len() && (#[trigger] outi@[k]).index == j;
                    }
                }
            }
        }
        i = i + 1;
    }
    let mut rows: Vec<TreeRow> = Vec::new();
    let mut k: usize = 0;
    while k < outi.len()
        invariant
            0 <= k <= outi@.len(),
            n == view@.len(),
            vs == sample_views(view@),
            unique_pids(vs),
            visited@.len() == n,
            forall|m: int| 0 <= m < outi@.len() ==> (#[trigger] outi@[m]).index < n,
            rows@.len() == k,
            forall|m: int|
                0 <= m < k ==> (#[trigger] rows@[m]).pid == vs[outi@[m].index as int].pid
                    && rows@[m].depth == outi@[m].depth,
            forall|m: int|
                0 <= m < outi@.len() ==> children_marked(vs, visited@, (
                #[trigger] outi@[m]).index as int),
            forall|j: int|
                0 <= j < n && #[trigger] visited@[j] ==> is_root_in(vs[j], vs) || exists|m: int|
                    0 <= m < outi@.len() && (#[trigger] outi@[m]).index == j,
            forall|j: int|
                0 <= j < n && is_root_in(vs[j], vs) ==> exists|m: int|
                    0 <= m < outi@.len() && (#[trigger] outi@[m]) == (RowIdx {
                        index: j as usize,
                        depth: 0,
                    }),
        decreases outi@.len() - k,
    {
        let r = outi[k];
        proof {
            assert(vs[r.index as int] == view@[r.index as int]@);
        }
        rows.push(TreeRow { pid: view[r.index].pid, depth: r.depth });
        k = k + 1;
    }
    proof {
        assert forall|k: int|
            0 <= k < rows@.len() implies view_has_pid(vs, (#[trigger] rows@[k]).pid) by {
            assert(vs[outi@[k].index as int].pid == rows@[k].pid);
        }
        assert forall|k: int, l: int|
            0 <= k < l < rows@.len() implies rows@[k].pid != rows@[l].pid by {
            let ik = outi@[k].index as int;
            let il = outi@[l].index as int;
            assert(ik != il);
            if ik < il {
                assert(vs[ik].pid != vs[il].pid);
            } else {
                assert(vs[il].pid != vs[ik].pid);
            }
        }
        assert forall|i: int|
            0 <= i < vs.len() && is_root_in(#[trigger] vs[i], vs) implies exists|k: int|
            0 <= k < rows@.len() && (#[trigger] rows@[k]).pid == vs[i].pid && rows@[k].depth
                == 0 by {
            let k = choose|k: int|
                0 <= k < outi@.len() && (#[trigger] outi@[k]) == (RowIdx {
                    index: i as usize,
                    depth: 0,
                });
            assert(rows@[k].pid == vs[i].pid && rows@[k].depth == 0);
        }
        assert forall|i: int|
            0 <= i < vs.len() && !is_root_in(#[trigger] vs[i], vs) implies !(exists|k: int|
            0 <= k < rows@.len() && (#[trigger] rows@[k]).pid == vs[i].pid && rows@[k].depth
                == 0) by {
            if exists|k: int|
                0 <= k < rows@.len() && (#[trigger] rows@[k]).pid == vs[i].pid && rows@[k].depth
                    == 0 {
                let k = choose|k: int|
                    0 <= k < rows@.len() && (#[trigger] rows@[k]).pid == vs[i].pid
                        && rows@[k].depth == 0;
                let j = outi@[k].index as int;
                assert(is_root_in(vs[j], vs));
                assert(vs[j].pid == vs[i].pid);
                if i < j {
                    assert(vs[i].pid != vs[j].pid);
                } else if j < i {
                    assert(vs[j].pid != vs[i].pid);
                }
            }
        }
        assert forall|k: int|
            0 <= k < rows@.len() && (#[trigger] rows@[k]).depth == 0 implies exists|i: int|
            0 <= i < vs.len() && (#[trigger] vs[i]).pid == rows@[k].pid && is_root_in(
                vs[i],
                vs,
            ) by {
            let j = outi@[k].index as int;
            assert(is_root_in(vs[j], vs));
            assert(vs[j].pid == rows@[k].pid);
        }
        assert forall|i: int, c: int|
            0 <= i < vs.len() && rows_have_pid(rows@, vs[i].pid) && 0 <= c
                < vs[i].children_pids.len() && view_has_pid(
                vs,
                #[trigger] vs[i].children_pids[c],
            ) implies rows_have_pid(rows@, vs[i].children_pids[c]) by {
            let p = vs[i].children_pids[c];
            let k = choose|k: int| 0 <= k < rows@.len() && rows@[k].pid == vs[i].pid;
            let ii = outi@[k].index as int;
            assert(vs[ii].pid == vs[i].pid);
            if ii < i {
                assert(vs[ii].pid != vs[i].pid);
            } else if i < ii {
                assert(vs[i].pid != vs[ii].pid);
            }
            assert(children_marked(vs, visited@, i));
            assert(marked_pid(vs, visited@, p));
            let j = choose|j: int| 0 <= j < vs.len() && vs[j].pid == p && visited@[j];
            if is_root_in(vs[j], vs) {
                let m = choose|m: int|
                    0 <= m < outi@.len() && (#[trigger] outi@[m]) == (RowIdx {
                        index: j as usize,
                        depth: 0,
                    });
                assert(rows@[m].pid == vs[j].pid);
            } else {
                let m = choose|m: int| 0 <= m < outi@.len() && (#[trigger] outi@[m]).index == j;
                assert(rows@[m].pid == vs[j].pid);
            }
        }
    }
    rows
}

/// The displayed forest of a whole snapshot: its visible view, rendered
/// as rows with the guarantees of `build_forest`.
pub fn forest_of_snapshot(snap: &ProcessSnapshot, show_all: bool) -> (rows: Vec<TreeRow>)
    requires
        snap.wf(),
    ensures
        ({
            let vs = visible_of(snap@, show_all);
            &&& forall|k: int|
                0 <= k < rows@.len() ==> view_has_pid(vs, (#[trigger] rows@[k]).pid)
            &&& forall|k: int, l: int|
                0 <= k < l < rows@.len() ==> rows@[k].pid != rows@[l].pid
            &&& forall|i: int|
                0 <= i < vs.len() ==> (is_root_in(#[trigger] vs[i], vs) <==> exists|k: int|
                    0 <= k < rows@.len() && (#[trigger] rows@[k]).pid == vs[i].pid
                        && rows@[k].depth == 0)
            &&& forall|i: int, c: int|
                0 <= i < vs.len() && rows_have_pid(rows@, vs[i].pid) && 0 <= c
                    < vs[i].children_pids.len() && view_has_pid(
                    vs,
                    #[trigger] vs[i].children_pids[c],
                ) ==> rows_have_pid(rows@, vs[i].children_pids[c])
        }),
{
    let view = snap.visible_samples(show_all);
    proof {
        lemma_visible_sorted(snap@, show_all);
    }
    build_forest(&view)
}

} // verus!
