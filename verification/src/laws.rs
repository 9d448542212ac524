//! Laws of the engine stated on their own: fresh-id allocation and the
//! audit-log cap. Each is proved from the store invariant and the spec
//! functions the operations' contracts use.

use vstd::prelude::*;

use crate::models::Modification;
use crate::schedule::{apply_mods, push_capped};
use crate::search::page_slice;
use crate::store::Store;

verus! {

/// Id allocation is monotone and never reuses: in a well-formed store every
/// append-only table carries strictly increasing ids, all below the
/// allocator counter, so the id of the next created row is distinct from,
/// and larger than, every live id.
pub proof fn lemma_fresh_ids(s: Store)
    requires
        s.wf(),
    ensures
        forall|i: int, j: int|
            0 <= i < j < s.classrooms@.len() ==> (#[trigger] s.classrooms@[i]).id
                < (#[trigger] s.classrooms@[j]).id < s.next_classroom_id,
        forall|i: int, j: int|
            0 <= i < j < s.classes@.len() ==> (#[trigger] s.classes@[i]).id
                < (#[trigger] s.classes@[j]).id < s.next_class_id,
        forall|i: int, j: int|
            0 <= i < j < s.subjects@.len() ==> (#[trigger] s.subjects@[i]).id
                < (#[trigger] s.subjects@[j]).id < s.next_subject_id,
        forall|i: int, j: int|
            0 <= i < j < s.occupancies@.len() ==> (#[trigger] s.occupancies@[i]).id
                < (#[trigger] s.occupancies@[j]).id < s.next_occupancy_id,
        forall|i: int, j: int|
            0 <= i < j < s.users@.len() ==> (#[trigger] s.users@[i]).id
                != (#[trigger] s.users@[j]).id,
        forall|i: int| 0 <= i < s.users@.len() ==> (#[trigger] s.users@[i]).id < s.next_user_id,
{
}

/// The audit log stays capped and newest-first: after any number of capped
/// pushes of a record the log holds at most 25 entries — exactly 25 once
/// enough were pushed — and the most recent pushes stand at the front.
pub proof fn lemma_audit_cap(log: Seq<Modification>, m: Modification, c: nat)
    requires
        log.len() <= 25,
    ensures
        apply_mods(log, m, c).len() == if log.len() + c <= 25 {
            log.len() + c
        } else {
            25nat
        },
        forall|i: int| 0 <= i < c && i < 25 ==> apply_mods(log, m, c)[i] == m,
    decreases c,
{
    if c > 0 {
        lemma_audit_cap(log, m, (c - 1) as nat);
        let prev = apply_mods(log, m, (c - 1) as nat);
        assert(apply_mods(log, m, c) == push_capped(prev, m));
        if prev.len() < 25 {
            assert forall|i: int| 0 <= i < c && i < 25 implies apply_mods(log, m, c)[i] == m by {
                if i > 0 {
                    assert((seq![m] + prev)[i] == prev[i - 1]);
                }
            }
        } else {
            assert forall|i: int| 0 <= i < c && i < 25 implies apply_mods(log, m, c)[i] == m by {
                assert(push_capped(prev, m)[i] == (seq![m] + prev)[i]);
                if i > 0 {
                    assert((seq![m] + prev)[i] == prev[i - 1]);
                }
            }
        }
    }
}

/// The count a creation applies to one user's log is one for the teacher or
/// an enrolled student of the named group, so thirty creations that each
/// touch the same user leave that user's log at the cap.
pub proof fn lemma_audit_cap_after_thirty(log: Seq<Modification>, m: Modification)
    requires
        log.len() <= 25,
    ensures
        apply_mods(log, m, 30).len() == 25,
        forall|i: int| 0 <= i < 25 ==> apply_mods(log, m, 30)[i] == m,
{
    lemma_audit_cap(log, m, 30);
}

/// A whole trace of records pushed to a log, oldest first, each push capped.
pub open spec fn apply_trace(log: Seq<Modification>, ms: Seq<Modification>) -> Seq<Modification>
    decreases ms.len(),
{
    if ms.len() == 0 {
        log
    } else {
        push_capped(apply_trace(log, ms.drop_last()), ms.last())
    }
}

/// The audit log after a trace of records: capped at 25, and reading
/// newest-first — entry `i` is the record pushed `i` steps before the last.
pub proof fn lemma_audit_trace(log: Seq<Modification>, ms: Seq<Modification>)
    requires
        log.len() <= 25,
    ensures
        apply_trace(log, ms).len() == if log.len() + ms.len() <= 25 {
            log.len() + ms.len()
        } else {
            25nat
        },
        forall|i: int|
            0 <= i < ms.len() && i < 25 ==> apply_trace(log, ms)[i] == ms[ms.len() - 1 - i],
    decreases ms.len(),
{
    if ms.len() > 0 {
        lemma_audit_trace(log, ms.drop_last());
        let prev = apply_trace(log, ms.drop_last());
        assert(apply_trace(log, ms) == push_capped(prev, ms.last()));
        assert forall|i: int|
            0 <= i < ms.len() && i < 25 implies apply_trace(log, ms)[i] == ms[ms.len() - 1
            - i] by {
            if prev.len() < 25 {
                if i > 0 {
                    assert((seq![ms.last()] + prev)[i] == prev[i - 1]);
                    assert(prev[i - 1] == ms.drop_last()[ms.drop_last().len() - 1 - (i - 1)]);
                }
            } else {
                assert(push_capped(prev, ms.last())[i] == (seq![ms.last()] + prev)[i]);
                if i > 0 {
                    assert((seq![ms.last()] + prev)[i] == prev[i - 1]);
                    assert(prev[i - 1] == ms.drop_last()[ms.drop_last().len() - 1 - (i - 1)]);
                }
            }
        }
    }
}

/// The total a listing reports counts every match of the full scan and does
/// not depend on the requested page: each page is a ten-row window of the
/// one sequence of matches, every match lies on exactly one page, and the
/// windows together cover all of them.
pub proof fn lemma_pagination_total<A>(s: Seq<A>, pred: spec_fn(A) -> bool, page: int, k: int)
    requires
        page >= 1,
        0 <= k < s.filter(pred).len(),
    ensures
        page_slice(s.filter(pred), page).len() <= 10,
        s.filter(pred)[k] == page_slice(s.filter(pred), k / 10 + 1)[k % 10],
        0 <= k % 10 < page_slice(s.filter(pred), k / 10 + 1).len(),
{
    let f = s.filter(pred);
    let p = k / 10 + 1;
    let skip = (p - 1) * 10;
    assert(skip == (k / 10) * 10);
    assert((k / 10) * 10 <= k < (k / 10) * 10 + 10) by (nonlinear_arith)
        requires
            k >= 0,
    ;
    assert(k == skip + k % 10) by (nonlinear_arith)
        requires
            k >= 0,
            skip == (k / 10) * 10,
    ;
    assert(skip < f.len());
    if skip + 10 <= f.len() {
        assert(page_slice(f, p)[k % 10] == f.subrange(skip, skip + 10)[k - skip]);
    } else {
        assert(page_slice(f, p)[k % 10] == f.subrange(skip, f.len() as int)[k - skip]);
    }
}

} // verus!
