//! The causal chain of a tape: the event a parent hash names, the events
//! reachable from an event by following parent hashes, and a search that
//! marks them.

use vstd::prelude::*;

use crate::event::{Event, EventData};
use crate::tape::{event_views, first_with_hash};
use crate::text::text_eq;

verus! {

/// Event `k` is the one that some parent hash of event `j` names: the first
/// event carrying that hash.
pub open spec fn parent_edge(events: Seq<EventData>, j: int, k: int) -> bool {
    &&& 0 <= j < events.len()
    &&& exists|p: int|
        0 <= p < events[j].parents.len() && #[trigger] first_with_hash(
            events,
            events[j].parents[p],
            k,
        )
}

/// `path` starts at an event of the tape and each of its entries is the
/// event that a parent hash of the entry before it names.
pub open spec fn is_lineage(events: Seq<EventData>, path: Seq<int>) -> bool {
    &&& path.len() > 0
    &&& 0 <= path[0] < events.len()
    &&& forall|t: int| 0 <= t < path.len() - 1 ==> #[trigger] parent_edge(events, path[t], path[t + 1])
}

/// Event `k` is event `i` or one of its ancestors along parent hashes.
pub open spec fn ancestor(events: Seq<EventData>, i: int, k: int) -> bool {
    exists|path: Seq<int>| #[trigger] is_lineage(events, path) && path[0] == i && path.last() == k
}

/// One more parent edge extends a lineage.
pub proof fn lemma_lineage_step(events: Seq<EventData>, path: Seq<int>, k: int)
    requires
        is_lineage(events, path),
        parent_edge(events, path.last(), k),
    ensures
        is_lineage(events, path.push(k)),
{
    let q = path.push(k);
    assert forall|t: int| 0 <= t < q.len() - 1 implies #[trigger] parent_edge(events, q[t], q[t + 1]) by {
        if t < path.len() - 1 {
            assert(q[t] == path[t] && q[t + 1] == path[t + 1]);
        } else {
            assert(q[t] == path.last() && q[t + 1] == k);
        }
    }
}

/// Ancestors are events of the tape.
pub proof fn lemma_ancestor_in_range(events: Seq<EventData>, i: int, k: int)
    requires
        ancestor(events, i, k),
    ensures
        0 <= k < events.len(),
{
    let path = choose|path: Seq<int>| #[trigger] is_lineage(events, path) && path[0] == i && path.last() == k;
    if path.len() > 1 {
        let t = path.len() - 2;
        assert(parent_edge(events, path[t], path[t + 1]));
        let p = choose|p: int|
            0 <= p < events[path[t]].parents.len() && #[trigger] first_with_hash(
                events,
                events[path[t]].parents[p],
                path[t + 1],
            );
    }
}

/// Every parent edge out of marked event `j` leads to a marked event.
pub open spec fn closed_at(events: Seq<EventData>, marks: Seq<bool>, j: int) -> bool {
    forall|k: int| #[trigger] parent_edge(events, j, k) ==> marks[k]
}

/// A marking that contains the start of a lineage and is closed under
/// parent edges contains its end.
proof fn lemma_closed_marks_reach(events: Seq<EventData>, marks: Seq<bool>, path: Seq<int>)
    requires
        marks.len() == events.len(),
        is_lineage(events, path),
        marks[path[0]],
        forall|j: int| 0 <= j < events.len() && #[trigger] marks[j] ==> closed_at(events, marks, j),
    ensures
        0 <= path.last() < events.len(),
        marks[path.last()],
    decreases path.len(),
{
    if path.len() > 1 {
        let front = path.drop_last();
        assert forall|t: int| 0 <= t < front.len() - 1 implies #[trigger] parent_edge(
            events,
            front[t],
            front[t + 1],
        ) by {
            assert(parent_edge(events, path[t], path[t + 1]));
        }
        lemma_closed_marks_reach(events, marks, front);
        let t = path.len() - 2;
        assert(parent_edge(events, path[t], path[t + 1]));
        assert(closed_at(events, marks, front.last()));
        let p = choose|p: int|
            0 <= p < events[path[t]].parents.len() && #[trigger] first_with_hash(
                events,
                events[path[t]].parents[p],
                path[t + 1],
            );
    }
}

/// The number of unmarked entries.
pub open spec fn unmarked(s: Seq<bool>) -> nat
    decreases s.len(),
{
    if s.len() == 0 {
        0
    } else {
        unmarked(s.drop_last()) + if s.last() {
            0nat
        } else {
            1nat
        }
    }
}

proof fn lemma_unmarked_update(s: Seq<bool>, k: int)
    requires
        0 <= k < s.len(),
        !s[k],
    ensures
        unmarked(s.update(k, true)) + 1 == unmarked(s),
    decreases s.len(),
{
    let t = s.update(k, true);
    if k == s.len() - 1 {
        assert(t.drop_last() =~= s.drop_last());
    } else {
        assert(t.drop_last() =~= s.drop_last().update(k, true));
        lemma_unmarked_update(s.drop_last(), k);
    }
}

/// The index of the first event whose hash is `h`, if any.
pub fn first_index_with_hash(events: &Vec<Event>, h: &str) -> (r: Option<usize>)
    ensures
        r matches Some(k) ==> first_with_hash(event_views(events@), h@, k as int),
        r is None ==> forall|k: int| 0 <= k < events@.len() ==> (#[trigger] events@[k])@.hash != h@,
{
    let mut i: usize = 0;
    while i < events.len()
        invariant
            i <= events@.len(),
            forall|k: int| 0 <= k < i ==> (#[trigger] events@[k])@.hash != h@,
        decreases events@.len() - i,
    {
        if text_eq(events[i].hash.as_str(), h) {
            assert(first_with_hash(event_views(events@), h@, i as int)) by {
                assert forall|j: int| 0 <= j < i implies (#[trigger] event_views(events@)[j]).hash
                    != h@ by {
                    assert(event_views(events@)[j] == events@[j]@);
                }
            }
            return Some(i);
        }
        i = i + 1;
    }
    None
}

/// Marks event `i` and every event it reaches through parent hashes: the
/// result holds `true` at exactly the ancestors of `i`.
pub fn ancestor_marks(events: &Vec<Event>, i: usize) -> (marks: Vec<bool>)
    requires
        i < events@.len(),
    ensures
        marks@.len() == events@.len(),
        forall|k: int|
            0 <= k < events@.len() ==> (#[trigger] marks@[k] <==> ancestor(event_views(events@), i as int, k)),
{
    let ghost ev = event_views(events@);
    let n: usize = events.len();
    let mut marks: Vec<bool> = Vec::new();
    let mut z: usize = 0;
    while z < n
        invariant
            z <= n,
            n == events@.len(),
            marks@.len() == z,
            forall|k: int| 0 <= k < z ==> !#[trigger] marks@[k],
        decreases n - z,
    {
        marks.push(false);
        z = z + 1;
    }
    assert(is_lineage(ev, seq![i as int]));
    let ghost unset = marks@;
    marks.set(i, true);
    let mut stack: Vec<usize> = Vec::new();
    stack.push(i);
    assert(stack@[0] == i);
    assert forall|j: int| 0 <= j < n && #[trigger] marks@[j] implies j == i by {
        if j != i {
            assert(marks@[j] == unset[j]);
        }
    }
    while stack.len() > 0
        invariant
            n == events@.len(),
            ev == event_views(events@),
            ev.len() == n,
            i < n,
            marks@.len() == n,
            marks@[i as int],
            forall|k: int| 0 <= k < n && #[trigger] marks@[k] ==> ancestor(ev, i as int, k),
            forall|s: int|
                0 <= s < stack@.len() ==> #[trigger] stack@[s] < n && marks@[stack@[s] as int],
            forall|j: int|
                0 <= j < n && #[trigger] marks@[j] && !stack@.contains(j as usize) ==> closed_at(
                    ev,
                    marks@,
                    j,
                ),
        decreases 2 * unmarked(marks@) + stack@.len(),
    {
        let ghost m0 = 2 * unmarked(marks@) + stack@.len();
        let ghost old_stack = stack@;
        let j = stack.pop().unwrap();
        assert(old_stack == stack@.push(j));
        assert(marks@[j as int]) by {
            assert(old_stack[old_stack.len() - 1] == j);
        }
        assert forall|s: int| 0 <= s < stack@.len() implies #[trigger] stack@[s] < n
            && marks@[stack@[s] as int] by {
            assert(stack@[s] == old_stack[s]);
        }
        assert forall|jj: int|
            0 <= jj < n && #[trigger] marks@[jj] && jj != j && !stack@.contains(jj as usize)
                implies closed_at(ev, marks@, jj) by {
            if old_stack.contains(jj as usize) {
                let s = choose|s: int| 0 <= s < old_stack.len() && old_stack[s] == jj as usize;
                if s < stack@.len() {
                    assert(stack@[s] == jj as usize);
                }
            }
        }
        let ghost pj = choose|path: Seq<int>|
            #[trigger] is_lineage(ev, path) && path[0] == i as int && path.last() == j as int;
        let parents_len = events[j].parents.len();
        let mut q: usize = 0;
        while q < parents_len
            invariant
                n == events@.len(),
                ev == event_views(events@),
                ev.len() == n,
                i < n,
                j < n,
                parents_len == ev[j as int].parents.len(),
                q <= parents_len,
                is_lineage(ev, pj),
                pj[0] == i as int,
                pj.last() == j as int,
                marks@.len() == n,
                marks@[i as int],
                marks@[j as int],
                forall|k: int| 0 <= k < n && #[trigger] marks@[k] ==> ancestor(ev, i as int, k),
                forall|s: int|
                    0 <= s < stack@.len() ==> #[trigger] stack@[s] < n && marks@[stack@[s] as int],
                forall|jj: int|
                    0 <= jj < n && #[trigger] marks@[jj] && jj != j && !stack@.contains(jj as usize)
                        ==> closed_at(ev, marks@, jj),
                forall|p: int, k: int|
                    0 <= p < q && #[trigger] first_with_hash(ev, ev[j as int].parents[p], k)
                        ==> marks@[k],
                2 * unmarked(marks@) + stack@.len() < m0,
            decreases parents_len - q,
        {
            assert(events@[j as int].parents@[q as int]@ == ev[j as int].parents[q as int]);
            match first_index_with_hash(events, events[j].parents[q].as_str()) {
                Some(k) => {
                    if !marks[k] {
                        proof {
                            assert(parent_edge(ev, j as int, k as int));
                            lemma_lineage_step(ev, pj, k as int);
                            assert(pj.push(k as int)[0] == i as int);
                            lemma_unmarked_update(marks@, k as int);
                        }
                        let ghost before = marks@;
                        let ghost stack_before = stack@;
                        marks.set(k, true);
                        stack.push(k);
                        proof {
                            assert(stack@[stack@.len() - 1] == k);
                            assert(marks@ == before.update(k as int, true));
                            assert forall|jj: int|
                                0 <= jj < n && #[trigger] marks@[jj] && jj != j && !stack@.contains(
                                    jj as usize,
                                ) implies closed_at(ev, marks@, jj) by {
                                assert(jj != k);
                                assert(before[jj]);
                                if stack_before.contains(jj as usize) {
                                    let s = choose|s: int|
                                        0 <= s < stack_before.len() && stack_before[s] == jj as usize;
                                    assert(stack@[s] == jj as usize);
                                }
                                assert(closed_at(ev, before, jj));
                            }
                            assert forall|s: int| 0 <= s < stack@.len() implies #[trigger] stack@[s]
                                < n && marks@[stack@[s] as int] by {
                                if s < stack_before.len() {
                                    assert(stack@[s] == stack_before[s]);
                                }
                            }
                        }
                    }
                    proof {
                        assert forall|p: int, kk: int|
                            0 <= p < q + 1 && #[trigger] first_with_hash(
                                ev,
                                ev[j as int].parents[p],
                                kk,
                            ) implies marks@[kk] by {
                            if p == q {
                                lemma_first_with_hash_unique(ev, ev[j as int].parents[p], k as int, kk);
                            }
                        }
                    }
                },
                None => {
                    proof {
                        assert forall|p: int, kk: int|
                            0 <= p < q + 1 && #[trigger] first_with_hash(
                                ev,
                                ev[j as int].parents[p],
                                kk,
                            ) implies marks@[kk] by {
                            if p == q {
                                assert(events@[kk]@.hash == ev[kk].hash);
                            }
                        }
                    }
                },
            }
            q = q + 1;
        }
        proof {
            assert(closed_at(ev, marks@, j as int)) by {
                assert forall|k: int| #[trigger] parent_edge(ev, j as int, k) implies marks@[k] by {
                    let p = choose|p: int|
                        0 <= p < ev[j as int].parents.len() && #[trigger] first_with_hash(
                            ev,
                            ev[j as int].parents[p],
                            k,
                        );
                }
            }
        }
    }
    proof {
        assert forall|k: int| 0 <= k < n implies (#[trigger] marks@[k] <==> ancestor(ev, i as int, k)) by {
            if ancestor(ev, i as int, k) {
                let path = choose|path: Seq<int>|
                    #[trigger] is_lineage(ev, path) && path[0] == i as int && path.last() == k;
                lemma_closed_marks_reach(ev, marks@, path);
            }
        }
    }
    marks
}

proof fn lemma_first_with_hash_unique(events: Seq<EventData>, h: Seq<char>, i: int, j: int)
    requires
        first_with_hash(events, h, i),
        first_with_hash(events, h, j),
    ensures
        i == j,
{
}

} // verus!
