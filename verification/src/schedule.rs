//! Scheduled sessions: listing by time window, all-or-nothing removal,
//! the four availability predicates, creation with its audit trail, and the
//! audit log reads. An availability predicate reports that no existing
//! occupancy lies contained inside the asked window — exactly that test, not
//! general interval overlap.

use vstd::prelude::*;

use crate::models::{Modification, ModificationOccupancy, ModificationType, NewOccupancy,
    Occupancy, OccupancyType, OccupancyUpdate, StudentSubject, Subject, UpdateStatus};
use crate::seqs::{ids_contain, lemma_filter_mem, lemma_filter_push, lemma_filter_sorted};
use crate::store::{has_classroom, has_occupancy, has_subject, log_of, mods_index, has_mods,
    teaches, teacher_user_exists, Store, UserModifications};
use crate::groups::{count_val, lemma_count_push};

verus! {

/// The occupancy lies inside the window `[from, to]`.
pub open spec fn contained(o: Occupancy, from: u64, to: u64) -> bool {
    o.start_datetime >= from && o.end_datetime <= to
}

/// The occupancy passes the optional window bounds of a listing.
pub open spec fn in_window(o: Occupancy, from: Option<u64>, to: Option<u64>) -> bool {
    &&& (from matches Some(f) ==> o.start_datetime >= f)
    &&& (to matches Some(t) ==> o.end_datetime <= t)
}

/// The occupancy belongs to a live subject of the given class.
pub open spec fn occ_of_class(o: Occupancy, subjects: Seq<Subject>, class_id: u32) -> bool {
    exists|j: int|
        0 <= j < subjects.len() && o.subject_id == Some((#[trigger] subjects[j]).id)
            && subjects[j].class_id == class_id
}

/// The occupancy belongs to the given subject of the given class and group.
pub open spec fn occ_of_group(
    o: Occupancy,
    subjects: Seq<Subject>,
    class_id: u32,
    subject_id: u32,
    group_number: u32,
) -> bool {
    &&& o.subject_id == Some(subject_id)
    &&& exists|j: int|
        0 <= j < subjects.len() && (#[trigger] subjects[j]).id == subject_id
            && subjects[j].class_id == class_id
    &&& o.group_number == Some(group_number)
}

impl Store {
    /// The occupancies inside the optional window bounds, in table order.
    pub fn occupancies_list(&self, from: Option<u64>, to: Option<u64>) -> (r: Vec<Occupancy>)
        ensures
            r@ == self.occupancies@.filter(|o: Occupancy| in_window(o, from, to)),
    {
        let ghost pred = |o: Occupancy| in_window(o, from, to);
        let mut out: Vec<Occupancy> = Vec::new();
        let mut k: usize = 0;
        while k < self.occupancies.len()
            invariant
                k <= self.occupancies@.len(),
                out@ == self.occupancies@.subrange(0, k as int).filter(pred),
                pred == (|o: Occupancy| in_window(o, from, to)),
            decreases self.occupancies@.len() - k,
        {
            let o = &self.occupancies[k];
            let mut keep = true;
            if let Some(f) = from {
                if o.start_datetime < f {
                    keep = false;
                }
            }
            if let Some(t) = to {
                if o.end_datetime > t {
                    keep = false;
                }
            }
            proof {
                assert(keep == pred(self.occupancies@[k as int]));
                lemma_filter_push(
                    self.occupancies@.subrange(0, k as int),
                    self.occupancies@[k as int],
                    pred,
                );
                assert(self.occupancies@.subrange(0, (k + 1) as int) =~= self.occupancies@.subrange(
                    0,
                    k as int,
                ).push(self.occupancies@[k as int]));
            }
            if keep {
                let row = self.occupancies[k].clone();
                out.push(row);
            }
            k = k + 1;
        }
        proof {
            assert(self.occupancies@.subrange(0, self.occupancies@.len() as int)
                =~= self.occupancies@);
        }
        out
    }

    /// Removes the named occupancies, all of them or none. Audit records of
    /// earlier creations are kept.
    pub fn occupancies_remove(&mut self, ids: &Vec<u32>) -> (r: bool)
        requires
            old(self).wf(),
        ensures
            final(self).wf(),
            r == (forall|i: int|
                0 <= i < ids@.len() ==> has_occupancy(old(self).occupancies@, #[trigger] ids@[i])),
            !r ==> *final(self) == *old(self),
            r ==> Store::same_but_occupancies(*old(self), *final(self)) && final(self).occupancies@
                == old(self).occupancies@.filter(|o: Occupancy| !ids@.contains(o.id)) && final(self).next_occupancy_id == old(self).next_occupancy_id && final(self).modifications@ == old(self).modifications@ && final(self).dirty,
    {
        let mut i: usize = 0;
        while i < ids.len()
            invariant
                *self == *old(self),
                i <= ids@.len(),
                forall|j: int| 0 <= j < i ==> has_occupancy(self.occupancies@, #[trigger] ids@[j]),
            decreases ids@.len() - i,
        {
            if self.occupancy_pos(ids[i]).is_none() {
                return false;
            }
            i = i + 1;
        }
        let ghost pred = |o: Occupancy| !ids@.contains(o.id);
        let mut out: Vec<Occupancy> = Vec::new();
        let mut k: usize = 0;
        while k < self.occupancies.len()
            invariant
                *self == *old(self),
                k <= self.occupancies@.len(),
                out@ == self.occupancies@.subrange(0, k as int).filter(pred),
                pred == (|o: Occupancy| !ids@.contains(o.id)),
            decreases self.occupancies@.len() - k,
        {
            let keep = !ids_contain(ids, self.occupancies[k].id);
            proof {
                lemma_filter_push(
                    self.occupancies@.subrange(0, k as int),
                    self.occupancies@[k as int],
                    pred,
                );
                assert(self.occupancies@.subrange(0, (k + 1) as int) =~= self.occupancies@.subrange(
                    0,
                    k as int,
                ).push(self.occupancies@[k as int]));
            }
            if keep {
                let row = self.occupancies[k].clone();
                out.push(row);
            }
            k = k + 1;
        }
        proof {
            assert(self.occupancies@.subrange(0, self.occupancies@.len() as int)
                =~= self.occupancies@);
            lemma_filter_mem(self.occupancies@, pred);
            let le = |a: Occupancy, b: Occupancy| a.id < b.id;
            lemma_filter_sorted(self.occupancies@, pred, le);
            let f = self.occupancies@.filter(pred);
            assert forall|a: int, b: int| 0 <= a < b < f.len() implies f[a].id < f[b].id by {
                assert(le(f[a], f[b]));
            }
            assert forall|a: int| 0 <= a < f.len() implies f[a].id < self.next_occupancy_id by {
                let w = choose|w: int|
                    0 <= w < self.occupancies@.len() && self.occupancies@[w] == f[a];
                assert(self.occupancies@[w].id < self.next_occupancy_id);
            }
        }
        self.occupancies = out;
        self.dirty = true;
        true
    }

    /// The position of the occupancy with this id, if any.
    fn occupancy_pos(&self, id: u32) -> (r: Option<usize>)
        ensures
            r matches Some(j) ==> j < self.occupancies@.len() && self.occupancies@[j as int].id
                == id,
            r is None ==> !has_occupancy(self.occupancies@, id),
    {
        let mut i: usize = 0;
        while i < self.occupancies.len()
            invariant
                i <= self.occupancies@.len(),
                forall|j: int| 0 <= j < i ==> self.occupancies@[j].id != id,
            decreases self.occupancies@.len() - i,
        {
            if self.occupancies[i].id == id {
                return Some(i);
            }
            i = i + 1;
        }
        None
    }

    /// The classroom hosts no occupancy contained in the window.
    pub fn classroom_free(&self, classroom_id: u32, from: u64, to: u64) -> (r: bool)
        ensures
            r == !(exists|i: int|
                0 <= i < self.occupancies@.len() && (#[trigger] self.occupancies@[i]).classroom_id
                    == Some(classroom_id) && contained(self.occupancies@[i], from, to)),
    {
        let mut i: usize = 0;
        while i < self.occupancies.len()
            invariant
                i <= self.occupancies@.len(),
                forall|j: int|
                    0 <= j < i ==> !((#[trigger] self.occupancies@[j]).classroom_id == Some(
                        classroom_id,
                    ) && contained(self.occupancies@[j], from, to)),
            decreases self.occupancies@.len() - i,
        {
            let o = &self.occupancies[i];
            let same_room = match o.classroom_id {
                Some(c) => c == classroom_id,
                None => false,
            };
            if same_room && o.start_datetime >= from && o.end_datetime <= to {
                return false;
            }
            i = i + 1;
        }
        true
    }

    /// The teacher holds no occupancy contained in the window.
    pub fn teacher_free(&self, teacher_id: u32, from: u64, to: u64) -> (r: bool)
        ensures
            r == !(exists|i: int|
                0 <= i < self.occupancies@.len() && (#[trigger] self.occupancies@[i]).teacher_id
                    == teacher_id && contained(self.occupancies@[i], from, to)),
    {
        let mut i: usize = 0;
        while i < self.occupancies.len()
            invariant
                i <= self.occupancies@.len(),
                forall|j: int|
                    0 <= j < i ==> !((#[trigger] self.occupancies@[j]).teacher_id == teacher_id
                        && contained(self.occupancies@[j], from, to)),
            decreases self.occupancies@.len() - i,
        {
            let o = &self.occupancies[i];
            if o.teacher_id == teacher_id && o.start_datetime >= from && o.end_datetime <= to {
                return false;
            }
            i = i + 1;
        }
        true
    }

    /// The class has no subject occupancy contained in the window.
    pub fn class_free(&self, class_id: u32, from: u64, to: u64) -> (r: bool)
        requires
            self.wf(),
        ensures
            r == !(exists|i: int|
                0 <= i < self.occupancies@.len() && occ_of_class(
                    #[trigger] self.occupancies@[i],
                    self.subjects@,
                    class_id,
                ) && contained(self.occupancies@[i], from, to)),
    {
        let mut i: usize = 0;
        while i < self.occupancies.len()
            invariant
                i <= self.occupancies@.len(),
                forall|j: int|
                    0 <= j < i ==> !(occ_of_class(
                        #[trigger] self.occupancies@[j],
                        self.subjects@,
                        class_id,
                    ) && contained(self.occupancies@[j], from, to)),
            decreases self.occupancies@.len() - i,
        {
            let sres = match self.occupancies[i].subject_id {
                Some(sid) => self.subject_get(sid),
                None => None,
            };
            let of_class = match sres {
                Some(subject) => subject.class_id == class_id,
                None => false,
            };
            proof {
                let oi = self.occupancies@[i as int];
                assert forall|a: int, b: int|
                    0 <= a < self.subjects@.len() && 0 <= b < self.subjects@.len()
                        && #[trigger] self.subjects@[a].id
                        == #[trigger] self.subjects@[b].id implies a == b by {
                    if a < b {
                        assert(self.subjects@[a].id < self.subjects@[b].id);
                    } else if b < a {
                        assert(self.subjects@[b].id < self.subjects@[a].id);
                    }
                }
                if occ_of_class(oi, self.subjects@, class_id) && !of_class {
                    let w = choose|j: int|
                        0 <= j < self.subjects@.len() && oi.subject_id == Some(
                            (#[trigger] self.subjects@[j]).id,
                        ) && self.subjects@[j].class_id == class_id;
                    match sres {
                        None => {
                            assert(has_subject(self.subjects@, self.subjects@[w].id));
                            assert(false);
                        },
                        Some(subject) => {
                            let v = choose|v: int|
                                0 <= v < self.subjects@.len() && self.subjects@[v] == *subject;
                            assert(self.subjects@[v].id == self.subjects@[w].id);
                            assert(false);
                        },
                    }
                }
            }
            let o = &self.occupancies[i];
            if of_class && o.start_datetime >= from && o.end_datetime <= to {
                return false;
            }
            i = i + 1;
        }
        true
    }

    /// The subject group of the class has no occupancy contained in the
    /// window.
    pub fn group_free(
        &self,
        class_id: u32,
        subject_id: u32,
        group_number: u32,
        from: u64,
        to: u64,
    ) -> (r: bool)
        requires
            self.wf(),
        ensures
            r == !(exists|i: int|
                0 <= i < self.occupancies@.len() && occ_of_group(
                    #[trigger] self.occupancies@[i],
                    self.subjects@,
                    class_id,
                    subject_id,
                    group_number,
                ) && contained(self.occupancies@[i], from, to)),
    {
        let sres = self.subject_get(subject_id);
        let subject_of_class = match sres {
            Some(subject) => subject.class_id == class_id,
            None => false,
        };
        proof {
            if !subject_of_class {
                assert forall|j: int|
                    0 <= j < self.subjects@.len() && (#[trigger] self.subjects@[j]).id
                        == subject_id implies self.subjects@[j].class_id != class_id by {
                    match sres {
                        None => {
                            assert(has_subject(self.subjects@, subject_id));
                            assert(false);
                        },
                        Some(subject) => {
                            let v = choose|v: int|
                                0 <= v < self.subjects@.len() && self.subjects@[v] == *subject;
                            if v != j {
                                if v < j {
                                    assert(self.subjects@[v].id < self.subjects@[j].id);
                                } else {
                                    assert(self.subjects@[j].id < self.subjects@[v].id);
                                }
                            }
                        },
                    }
                }
            }
        }
        if !subject_of_class {
            return true;
        }
        let mut i: usize = 0;
        while i < self.occupancies.len()
            invariant
                i <= self.occupancies@.len(),
                forall|j: int|
                    0 <= j < i ==> !(occ_of_group(
                        #[trigger] self.occupancies@[j],
                        self.subjects@,
                        class_id,
                        subject_id,
                        group_number,
                    ) && contained(self.occupancies@[j], from, to)),
            decreases self.occupancies@.len() - i,
        {
            let o = &self.occupancies[i];
            let same_subject = match o.subject_id {
                Some(s) => s == subject_id,
                None => false,
            };
            let same_group = match o.group_number {
                Some(g) => g == group_number,
                None => false,
            };
            if same_subject && same_group && o.start_datetime >= from && o.end_datetime <= to {
                return false;
            }
            i = i + 1;
        }
        true
    }

    /// The audit log of the user, newest record first, at most the cap.
    pub fn last_occupancies_modifications(&self, user_id: u32) -> (r: Vec<Modification>)
        requires
            self.wf(),
        ensures
            r@ == log_of(self.modifications@, user_id),
    {
        let mut i: usize = 0;
        while i < self.modifications.len()
            invariant
                i <= self.modifications@.len(),
                forall|j: int| 0 <= j < i ==> self.modifications@[j].user_id != user_id,
            decreases self.modifications@.len() - i,
        {
            if self.modifications[i].user_id == user_id {
                let row = self.modifications[i].clone();
                proof {
                    assert(has_mods(self.modifications@, user_id));
                    let w = mods_index(self.modifications@, user_id);
                    if w != i as int {
                        assert(self.modifications@[w].user_id == user_id);
                    }
                }
                return row.entries;
            }
            i = i + 1;
        }
        proof {
            assert(!has_mods(self.modifications@, user_id));
        }
        Vec::new()
    }
}


/// A record pushed to the front of a log, the whole kept to the cap of 25.
pub open spec fn push_capped(log: Seq<Modification>, m: Modification) -> Seq<Modification> {
    if log.len() < 25 {
        seq![m] + log
    } else {
        (seq![m] + log).subrange(0, 25)
    }
}

/// `c` capped pushes of the same record.
pub open spec fn apply_mods(log: Seq<Modification>, m: Modification, c: nat) -> Seq<Modification>
    decreases c,
{
    if c == 0 {
        log
    } else {
        push_capped(apply_mods(log, m, (c - 1) as nat), m)
    }
}

/// The class the subject belongs to, when the subject is live.
pub open spec fn subject_class_of(subjects: Seq<Subject>, sid: u32) -> Option<u32> {
    if has_subject(subjects, sid) {
        let w = choose|i: int| 0 <= i < subjects.len() && subjects[i].id == sid;
        Some(subjects[w].class_id)
    } else {
        Option::None
    }
}

/// The audit record an occupancy creation leaves behind.
pub open spec fn creation_record(o: NewOccupancy, subjects: Seq<Subject>, now: u64) -> Modification {
    Modification {
        modification_type: ModificationType::Create,
        modification_timestamp: now,
        occupancy: ModificationOccupancy {
            subject_id: o.subject_id,
            class_id: match o.subject_id {
                Option::None => Option::None,
                Option::Some(sid) => subject_class_of(subjects, sid),
            },
            occupancy_type: o.occupancy_type,
            occupancy_start: o.start_datetime,
            occupancy_end: o.end_datetime,
            previous_occupancy_start: o.start_datetime,
            previous_occupancy_end: o.end_datetime,
        },
    }
}

/// The users an occupancy creation touches: the teacher, then every student
/// enrolled in the subject, narrowed to the named group when one is given.
pub open spec fn affected_seq(
    ss: Seq<StudentSubject>,
    teacher_id: u32,
    subject_id: Option<u32>,
    group: Option<u32>,
) -> Seq<u32> {
    seq![teacher_id] + (match subject_id {
        Option::None => Seq::<u32>::empty(),
        Option::Some(sid) => ss.filter(
            |row: StudentSubject|
                row.subject_id == sid && (group matches Some(g) ==> row.group_number == g),
        ).map_values(|row: StudentSubject| row.student_id),
    })
}

impl Store {
    /// Pushes one record to the front of the user's audit log, capped at 25.
    fn push_modification(&mut self, uid: u32, m: Modification)
        requires
            old(self).wf(),
        ensures
            final(self).wf(),
            Store::same_but_modifications(*old(self), *final(self)),
            log_of(final(self).modifications@, uid) == push_capped(
                log_of(old(self).modifications@, uid),
                m,
            ),
            forall|x: u32|
                x != uid ==> log_of(final(self).modifications@, x) == log_of(
                    old(self).modifications@,
                    x,
                ),
    {
        let mut j: usize = 0;
        let mut found = false;
        while j < self.modifications.len() && !found
            invariant
                *self == *old(self),
                j <= self.modifications@.len(),
                !found ==> forall|q: int| 0 <= q < j ==> self.modifications@[q].user_id != uid,
                found ==> j < self.modifications@.len() && self.modifications@[j as int].user_id
                    == uid,
            decreases self.modifications@.len() - j + (if found { 0int } else { 1int }),
        {
            if self.modifications[j].user_id == uid {
                found = true;
            } else {
                j = j + 1;
            }
        }
        if found {
            let old_row = self.modifications[j].clone();
            let mut entries: Vec<Modification> = Vec::new();
            entries.push(m);
            let mut i: usize = 0;
            while i < old_row.entries.len() && i < 24
                invariant
                    *self == *old(self),
                    i <= old_row.entries@.len(),
                    i <= 24,
                    entries@ == seq![m] + old_row.entries@.subrange(0, i as int),
                decreases old_row.entries@.len() - i,
            {
                entries.push(old_row.entries[i]);
                proof {
                    assert(entries@ =~= seq![m] + old_row.entries@.subrange(0, (i + 1) as int));
                }
                i = i + 1;
            }
            proof {
                assert(old_row.entries@ == old(self).modifications@[j as int].entries@);
                assert(old(self).modifications@[j as int].entries@.len() <= 25);
                if old_row.entries@.len() < 25 {
                    assert(old_row.entries@.subrange(0, i as int) =~= old_row.entries@);
                    assert(entries@ =~= push_capped(old_row.entries@, m));
                } else {
                    assert(i == 24);
                    assert(entries@ =~= (seq![m] + old_row.entries@).subrange(0, 25));
                    assert(entries@ =~= push_capped(old_row.entries@, m));
                }
            }
            let new_row = UserModifications { user_id: uid, entries };
            self.modifications.set(j, new_row);
            proof {
                let tbl0 = old(self).modifications@;
                let tbl1 = self.modifications@;
                assert forall|q: int|
                    0 <= q < tbl0.len() && #[trigger] tbl0[q].user_id == uid implies q
                    == j as int by {
                    if q != j as int {
                        assert(tbl0[q].user_id != tbl0[j as int].user_id);
                    }
                }
                assert(tbl1[j as int].user_id == uid);
                assert(has_mods(tbl1, uid));
                let w = mods_index(tbl1, uid);
                assert(tbl1[w].user_id == uid);
                if w != j as int {
                    assert(tbl1[w] == tbl0[w]);
                }
                assert(log_of(tbl1, uid) == push_capped(log_of(tbl0, uid), m));
                assert forall|x: u32| x != uid implies log_of(tbl1, x) == log_of(tbl0, x) by {
                    assert(forall|q: int|
                        0 <= q < tbl1.len() ==> #[trigger] tbl1[q].user_id == tbl0[q].user_id);
                    if has_mods(tbl1, x) {
                        let w1 = mods_index(tbl1, x);
                        assert(tbl1[w1].user_id == x);
                        assert(tbl0[w1].user_id == x);
                        assert(has_mods(tbl0, x));
                        let w0 = mods_index(tbl0, x);
                        assert(tbl0[w0].user_id == x);
                        if w0 != w1 {
                            assert(tbl0[w0].user_id != tbl0[w1].user_id);
                        }
                        assert(tbl1[w1] == tbl0[w1]);
                    } else {
                        if has_mods(tbl0, x) {
                            let w0 = mods_index(tbl0, x);
                            assert(tbl0[w0].user_id == x);
                            assert(tbl1[w0].user_id == x);
                            assert(has_mods(tbl1, x));
                        }
                    }
                }
            }
        } else {
            let mut entries: Vec<Modification> = Vec::new();
            entries.push(m);
            let new_row = UserModifications { user_id: uid, entries };
            self.modifications.push(new_row);
            proof {
                let tbl0 = old(self).modifications@;
                let tbl1 = self.modifications@;
                assert(!has_mods(tbl0, uid));
                assert(tbl1[tbl0.len() as int].user_id == uid);
                assert(has_mods(tbl1, uid));
                let w = mods_index(tbl1, uid);
                assert(tbl1[w].user_id == uid);
                if w != tbl0.len() as int {
                    assert(tbl0[w].user_id == uid);
                }
                assert(log_of(tbl1, uid) =~= push_capped(log_of(tbl0, uid), m));
                assert forall|x: u32| x != uid implies log_of(tbl1, x) == log_of(tbl0, x) by {
                    if has_mods(tbl1, x) {
                        let w1 = mods_index(tbl1, x);
                        assert(tbl1[w1].user_id == x);
                        assert(w1 != tbl0.len() as int);
                        assert(tbl0[w1].user_id == x);
                        assert(has_mods(tbl0, x));
                        let w0 = mods_index(tbl0, x);
                        assert(tbl0[w0].user_id == x);
                        if w0 != w1 {
                            assert(tbl0[w0].user_id != tbl0[w1].user_id);
                        }
                        assert(tbl1[w1] == tbl0[w1]);
                    } else {
                        if has_mods(tbl0, x) {
                            let w0 = mods_index(tbl0, x);
                            assert(tbl0[w0].user_id == x);
                            assert(tbl1[w0].user_id == x);
                            assert(has_mods(tbl1, x));
                        }
                    }
                }
            }
        }
    }

    /// Schedules a session under a fresh id, recording the creation, stamped
    /// with the caller's clock reading `now`, in the audit log of the
    /// teacher and of every enrolled student of the named group.
    pub fn occupancies_add(&mut self, occupancy: NewOccupancy, now: u64)
        requires
            old(self).wf(),
            old(self).next_occupancy_id < u32::MAX,
            occupancy.subject_id matches Some(sid) ==> has_subject(old(self).subjects@, sid),
        ensures
            final(self).wf(),
            Store::same_but_occupancies(*old(self), *final(self)),
            final(self).occupancies@ == old(self).occupancies@.push(
                (Occupancy {
                    id: old(self).next_occupancy_id,
                    classroom_id: occupancy.classroom_id,
                    group_number: occupancy.group_number,
                    subject_id: occupancy.subject_id,
                    teacher_id: occupancy.teacher_id,
                    start_datetime: occupancy.start_datetime,
                    end_datetime: occupancy.end_datetime,
                    occupancy_type: occupancy.occupancy_type,
                    name: occupancy.name,
                }),
            ),
            final(self).next_occupancy_id == old(self).next_occupancy_id + 1,
            final(self).dirty,
            forall|uid: u32|
                log_of(final(self).modifications@, uid) == apply_mods(
                    log_of(old(self).modifications@, uid),
                    creation_record(occupancy, old(self).subjects@, now),
                    count_val(
                        affected_seq(
                            old(self).subjects_students@,
                            occupancy.teacher_id,
                            occupancy.subject_id,
                            occupancy.group_number,
                        ),
                        uid,
                    ),
                ),
    {
        let ghost full_affected = affected_seq(
            self.subjects_students@,
            occupancy.teacher_id,
            occupancy.subject_id,
            occupancy.group_number,
        );
        let mut affected: Vec<u32> = Vec::new();
        affected.push(occupancy.teacher_id);
        let mut record_class_id: Option<u32> = None;
        if let Some(sid) = occupancy.subject_id {
            match self.subject_get(sid) {
                Some(s) => {
                    record_class_id = Some(s.class_id);
                    proof {
                        let v = choose|v: int|
                            0 <= v < self.subjects@.len() && self.subjects@[v] == *s;
                        let w = choose|i: int|
                            0 <= i < self.subjects@.len() && self.subjects@[i].id == sid;
                        if v != w {
                            if v < w {
                                assert(self.subjects@[v].id < self.subjects@[w].id);
                            } else {
                                assert(self.subjects@[w].id < self.subjects@[v].id);
                            }
                        }
                        assert(record_class_id == subject_class_of(self.subjects@, sid));
                    }
                },
                None => {
                    proof {
                        assert(false);
                    }
                },
            }
            let ghost pred = |row: StudentSubject|
                row.subject_id == sid && (occupancy.group_number matches Some(g) ==> row.group_number == g);
            let ghost to_id = |row: StudentSubject| row.student_id;
            let mut k: usize = 0;
            while k < self.subjects_students.len()
                invariant
                    k <= self.subjects_students@.len(),
                    pred == (|row: StudentSubject|
                        row.subject_id == sid && (occupancy.group_number matches Some(g)
                            ==> row.group_number == g)),
                    to_id == (|row: StudentSubject| row.student_id),
                    affected@ == seq![occupancy.teacher_id] + self.subjects_students@.subrange(
                        0,
                        k as int,
                    ).filter(pred).map_values(to_id),
                decreases self.subjects_students@.len() - k,
            {
                let row = self.subjects_students[k];
                let group_ok = match occupancy.group_number {
                    Some(g) => row.group_number == g,
                    None => true,
                };
                proof {
                    let prefix = self.subjects_students@.subrange(0, k as int);
                    lemma_filter_push(prefix, self.subjects_students@[k as int], pred);
                    assert(self.subjects_students@.subrange(0, (k + 1) as int) =~= prefix.push(
                        self.subjects_students@[k as int],
                    ));
                    if pred(self.subjects_students@[k as int]) {
                        assert(prefix.push(self.subjects_students@[k as int]).filter(
                            pred,
                        ).map_values(to_id) =~= prefix.filter(pred).map_values(to_id).push(
                            to_id(self.subjects_students@[k as int]),
                        ));
                    }
                }
                if row.subject_id == sid && group_ok {
                    affected.push(row.student_id);
                    proof {
                        assert(affected@ =~= seq![occupancy.teacher_id]
                            + self.subjects_students@.subrange(0, (k + 1) as int).filter(
                            pred,
                        ).map_values(to_id));
                    }
                }
                k = k + 1;
            }
            proof {
                assert(self.subjects_students@.subrange(0, self.subjects_students@.len() as int)
                    =~= self.subjects_students@);
                assert(affected@ == full_affected);
            }
        } else {
            proof {
                assert(affected@ =~= full_affected);
            }
        }
        let record = Modification {
            modification_type: ModificationType::Create,
            modification_timestamp: now,
            occupancy: ModificationOccupancy {
                subject_id: occupancy.subject_id,
                class_id: record_class_id,
                occupancy_type: occupancy.occupancy_type,
                occupancy_start: occupancy.start_datetime,
                occupancy_end: occupancy.end_datetime,
                previous_occupancy_start: occupancy.start_datetime,
                previous_occupancy_end: occupancy.end_datetime,
            },
        };
        proof {
            assert(record == creation_record(occupancy, old(self).subjects@, now));
        }
        let mut t: usize = 0;
        while t < affected.len()
            invariant
                Store::same_but_modifications(*old(self), *self),
                self.wf(),
                t <= affected@.len(),
                affected@ == full_affected,
                record == creation_record(occupancy, old(self).subjects@, now),
                forall|x: u32|
                    log_of(self.modifications@, x) == apply_mods(
                        log_of(old(self).modifications@, x),
                        record,
                        count_val(affected@.subrange(0, t as int), x),
                    ),
            decreases affected@.len() - t,
        {
            let uid = affected[t];
            let ghost before = self.modifications@;
            self.push_modification(uid, record);
            proof {
                let pre = affected@.subrange(0, t as int);
                let pre1 = affected@.subrange(0, (t + 1) as int);
                assert(pre1 =~= pre.push(uid));
                assert forall|x: u32|
                    log_of(self.modifications@, x) == apply_mods(
                        log_of(old(self).modifications@, x),
                        record,
                        count_val(pre1, x),
                    ) by {
                    lemma_count_push(pre, uid, x);
                    if x == uid {
                        assert(count_val(pre1, x) == count_val(pre, x) + 1);
                    } else {
                        assert(count_val(pre1, x) == count_val(pre, x));
                        assert(log_of(self.modifications@, x) == log_of(before, x));
                    }
                }
            }
            t = t + 1;
        }
        proof {
            assert(affected@.subrange(0, affected@.len() as int) =~= affected@);
        }
        let row = Occupancy {
            id: self.next_occupancy_id,
            classroom_id: occupancy.classroom_id,
            group_number: occupancy.group_number,
            subject_id: occupancy.subject_id,
            teacher_id: occupancy.teacher_id,
            start_datetime: occupancy.start_datetime,
            end_datetime: occupancy.end_datetime,
            occupancy_type: occupancy.occupancy_type,
            name: occupancy.name,
        };
        self.occupancies.push(row);
        self.next_occupancy_id = self.next_occupancy_id + 1;
        self.dirty = true;
    }
}


/// Why a new subject occupancy is rejected, in the order the checks run.
#[derive(Clone, Copy, PartialEq, Eq, Structural, Debug)]
pub enum OccupancyError {
    UnknownSubject,
    UnknownTeacher,
    TeacherDoesNotTeach,
    UnknownClassroom,
    ClassroomOccupied,
    EndBeforeStart,
    TeacherBusy,
    IllegalOccupancyType,
    ClassroomRequired,
    BadGroupNumber,
}

/// No occupancy of the classroom lies contained in the window.
pub open spec fn classroom_free_spec(occ: Seq<Occupancy>, classroom_id: u32, from: u64, to: u64) -> bool {
    !(exists|i: int|
        0 <= i < occ.len() && (#[trigger] occ[i]).classroom_id == Some(classroom_id) && contained(
            occ[i],
            from,
            to,
        ))
}

/// No occupancy of the teacher lies contained in the window.
pub open spec fn teacher_free_spec(occ: Seq<Occupancy>, teacher_id: u32, from: u64, to: u64) -> bool {
    !(exists|i: int|
        0 <= i < occ.len() && (#[trigger] occ[i]).teacher_id == teacher_id && contained(
            occ[i],
            from,
            to,
        ))
}

/// The classroom constraint of a new occupancy: present and unoccupied, or
/// absent.
pub open spec fn classroom_ok(
    s: Store,
    classroom_id: Option<u32>,
    start: u64,
    end: u64,
) -> bool {
    match classroom_id {
        Option::None => true,
        Option::Some(c) => has_classroom(s.classrooms@, c) && classroom_free_spec(
            s.occupancies@,
            c,
            start,
            end,
        ),
    }
}

impl Store {

    /// Updates the named occupancy's classroom, window and name where given;
    /// reports whether the row exists and whether it changed. The original
    /// engine declared this operation without implementing it; the fields
    /// follow the update request's shape.
    pub fn occupancies_update(&mut self, id: u32, update: OccupancyUpdate) -> (r: UpdateStatus)
        requires
            old(self).wf(),
        ensures
            final(self).wf(),
            r.found == has_occupancy(old(self).occupancies@, id),
            !r.found ==> *final(self) == *old(self) && !r.updated,
            r.found ==> r.updated == (update.classroom_id is Some || update.start is Some
                || update.end is Some || update.name is Some),
            r.found && !r.updated ==> *final(self) == *old(self),
            r.found && r.updated ==> Store::same_but_occupancies(*old(self), *final(self)) && final(self).next_occupancy_id == old(self).next_occupancy_id && final(self).modifications@ == old(self).modifications@ && final(self).dirty && final(self).occupancies@.len() == old(self).occupancies@.len() && (forall|i: int|
                0 <= i < old(self).occupancies@.len() && old(self).occupancies@[i].id != id
                    ==> final(self).occupancies@[i] == old(self).occupancies@[i]) && (forall|i: int|
                0 <= i < old(self).occupancies@.len() && old(self).occupancies@[i].id == id
                    ==> final(self).occupancies@[i] == (Occupancy {
                    classroom_id: if update.classroom_id is Some {
                        update.classroom_id
                    } else {
                        old(self).occupancies@[i].classroom_id
                    },
                    start_datetime: if update.start is Some {
                        update.start.unwrap()
                    } else {
                        old(self).occupancies@[i].start_datetime
                    },
                    end_datetime: if update.end is Some {
                        update.end.unwrap()
                    } else {
                        old(self).occupancies@[i].end_datetime
                    },
                    name: if update.name is Some {
                        update.name.unwrap()
                    } else {
                        old(self).occupancies@[i].name
                    },
                    ..old(self).occupancies@[i]
                })),
    {
        let j = match self.occupancy_pos(id) {
            None => {
                return UpdateStatus { found: false, updated: false };
            },
            Some(j) => j,
        };
        if update.classroom_id.is_none() && update.start.is_none() && update.end.is_none()
            && update.name.is_none() {
            return UpdateStatus { found: true, updated: false };
        }
        proof {
            assert forall|i: int|
                0 <= i < old(self).occupancies@.len() && old(self).occupancies@[i].id
                    == id implies i == j as int by {
                if i != j as int {
                    assert(old(self).occupancies@[i].id != old(self).occupancies@[j as int].id);
                }
            }
        }
        let classroom_id = match update.classroom_id {
            Some(c) => Some(c),
            None => self.occupancies[j].classroom_id,
        };
        let start_datetime = match update.start {
            Some(v) => v,
            None => self.occupancies[j].start_datetime,
        };
        let end_datetime = match update.end {
            Some(v) => v,
            None => self.occupancies[j].end_datetime,
        };
        let name = match update.name {
            Some(n) => n,
            None => self.occupancies[j].name.clone(),
        };
        let row = Occupancy {
            id: self.occupancies[j].id,
            classroom_id,
            group_number: self.occupancies[j].group_number,
            subject_id: self.occupancies[j].subject_id,
            teacher_id: self.occupancies[j].teacher_id,
            start_datetime,
            end_datetime,
            occupancy_type: self.occupancies[j].occupancy_type,
            name,
        };
        self.occupancies.set(j, row);
        self.dirty = true;
        UpdateStatus { found: true, updated: true }
    }

    /// The base validation of a new subject occupancy: the subject is live,
    /// the teacher exists and teaches it, a named classroom is live and not
    /// occupied inside the window, the window is ordered, and the teacher is
    /// not booked inside it. The result names the first failing check.
    pub fn validate_new_occupancy(
        &self,
        subject_id: u32,
        classroom_id: Option<u32>,
        teacher_id: u32,
        start: u64,
        end: u64,
    ) -> (r: Result<(), OccupancyError>)
        requires
            self.wf(),
        ensures
            r is Ok <==> (has_subject(self.subjects@, subject_id) && teacher_user_exists(
                self.users@,
                teacher_id,
            ) && teaches(self.subjects_teachers@, teacher_id, subject_id) && classroom_ok(
                *self,
                classroom_id,
                start,
                end,
            ) && start <= end && teacher_free_spec(self.occupancies@, teacher_id, start, end)),
            r == Result::<(), OccupancyError>::Err(OccupancyError::UnknownSubject) <==> !has_subject(
                self.subjects@,
                subject_id,
            ),
            r == Result::<(), OccupancyError>::Err(OccupancyError::UnknownTeacher) <==> (
            has_subject(self.subjects@, subject_id) && !teacher_user_exists(
                self.users@,
                teacher_id,
            )),
            r == Result::<(), OccupancyError>::Err(OccupancyError::TeacherDoesNotTeach) <==> (
            has_subject(self.subjects@, subject_id) && teacher_user_exists(self.users@, teacher_id)
                && !teaches(self.subjects_teachers@, teacher_id, subject_id)),
            r == Result::<(), OccupancyError>::Err(OccupancyError::UnknownClassroom) <==> (
            has_subject(self.subjects@, subject_id) && teacher_user_exists(self.users@, teacher_id)
                && teaches(self.subjects_teachers@, teacher_id, subject_id) && (
            classroom_id matches Some(c) && !has_classroom(self.classrooms@, c))),
            r == Result::<(), OccupancyError>::Err(OccupancyError::ClassroomOccupied) <==> (
            has_subject(self.subjects@, subject_id) && teacher_user_exists(self.users@, teacher_id)
                && teaches(self.subjects_teachers@, teacher_id, subject_id) && (
            classroom_id matches Some(c) && has_classroom(self.classrooms@, c)
                && !classroom_free_spec(self.occupancies@, c, start, end))),
            r == Result::<(), OccupancyError>::Err(OccupancyError::EndBeforeStart) <==> (
            has_subject(self.subjects@, subject_id) && teacher_user_exists(self.users@, teacher_id)
                && teaches(self.subjects_teachers@, teacher_id, subject_id) && classroom_ok(
                *self,
                classroom_id,
                start,
                end,
            ) && end < start),
            r == Result::<(), OccupancyError>::Err(OccupancyError::TeacherBusy) <==> (has_subject(
                self.subjects@,
                subject_id,
            ) && teacher_user_exists(self.users@, teacher_id) && teaches(
                self.subjects_teachers@,
                teacher_id,
                subject_id,
            ) && classroom_ok(*self, classroom_id, start, end) && start <= end
                && !teacher_free_spec(self.occupancies@, teacher_id, start, end)),
    {
        if self.subject_get(subject_id).is_none() {
            return Err(OccupancyError::UnknownSubject);
        }
        match self.user_get_teacher_by_id(teacher_id) {
            Some(u) => {
                proof {
                    let w = choose|i: int|
                        0 <= i < self.users@.len() && self.users@[i] == *u;
                    assert(teacher_user_exists(self.users@, teacher_id));
                }
            },
            None => {
                return Err(OccupancyError::UnknownTeacher);
            },
        }
        if !self.teacher_teaches(teacher_id, subject_id) {
            return Err(OccupancyError::TeacherDoesNotTeach);
        }
        if let Some(c) = classroom_id {
            if self.classroom_get(c).is_none() {
                return Err(OccupancyError::UnknownClassroom);
            }
            if !self.classroom_free(c, start, end) {
                return Err(OccupancyError::ClassroomOccupied);
            }
        }
        if end < start {
            return Err(OccupancyError::EndBeforeStart);
        }
        if !self.teacher_free(teacher_id, start, end) {
            return Err(OccupancyError::TeacherBusy);
        }
        Ok(())
    }

    /// The session-kind constraints of a new subject occupancy: a grouped
    /// session must be a tutorial or lab and name a classroom; an ungrouped
    /// one must not be a tutorial or lab, and a lecture or project must name
    /// a classroom.
    pub fn occupancy_type_allows(
        kind: OccupancyType,
        group_given: bool,
        classroom_given: bool,
    ) -> (r: Result<(), OccupancyError>)
        ensures
            group_given ==> (r is Ok <==> ((kind is TD || kind is TP) && classroom_given)),
            group_given ==> (r == Result::<(), OccupancyError>::Err(
                OccupancyError::IllegalOccupancyType,
            ) <==> !(kind is TD || kind is TP)),
            group_given ==> (r == Result::<(), OccupancyError>::Err(
                OccupancyError::ClassroomRequired,
            ) <==> ((kind is TD || kind is TP) && !classroom_given)),
            !group_given ==> (r is Ok <==> (kind is Administration || kind is External || ((
            kind is CM || kind is Projet) && classroom_given))),
            !group_given ==> (r == Result::<(), OccupancyError>::Err(
                OccupancyError::IllegalOccupancyType,
            ) <==> (kind is TD || kind is TP)),
            !group_given ==> (r == Result::<(), OccupancyError>::Err(
                OccupancyError::ClassroomRequired,
            ) <==> ((kind is CM || kind is Projet) && !classroom_given)),
    {
        let is_grouped_kind = match kind {
            OccupancyType::TD | OccupancyType::TP => true,
            _ => false,
        };
        if group_given {
            if !is_grouped_kind {
                Err(OccupancyError::IllegalOccupancyType)
            } else if !classroom_given {
                Err(OccupancyError::ClassroomRequired)
            } else {
                Ok(())
            }
        } else {
            if is_grouped_kind {
                Err(OccupancyError::IllegalOccupancyType)
            } else {
                let needs_room = match kind {
                    OccupancyType::CM | OccupancyType::Projet => true,
                    _ => false,
                };
                if needs_room && !classroom_given {
                    Err(OccupancyError::ClassroomRequired)
                } else {
                    Ok(())
                }
            }
        }
    }
}

} // verus!
