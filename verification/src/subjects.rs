//! Subjects and their two join tables: which teacher teaches (and is in
//! charge of) a subject, and which student is enrolled in a subject within
//! which group. Join rows are unique per key pair, and `set`-style writes
//! overwrite rather than duplicate.

use vstd::prelude::*;

use crate::models::{NewSubject, StudentSubject, Subject, SubjectTeacher, SubjectUpdate,
    UpdateStatus, User, UserKind};
use crate::seqs::{ids_contain, lemma_filter_mem, lemma_filter_push, lemma_filter_sorted};
use crate::store::{enrolled, has_subject, has_user_id, in_charge, one_in_charge, subject_matches,
    teaches, teacher_user_exists, user_matches, Store};
use crate::distribute::subject_group_count;

verus! {

/// How one `set`-style write changes the teacher join table: when a row for
/// the pair exists its flag is overwritten (or kept, when no flag is given);
/// otherwise a fresh row is appended, its flag defaulting to false.
pub open spec fn set_teaches_rel(
    st0: Seq<SubjectTeacher>,
    n0: u32,
    st1: Seq<SubjectTeacher>,
    n1: u32,
    subject_id: u32,
    teacher_id: u32,
    flag: Option<bool>,
) -> bool {
    if teaches(st0, teacher_id, subject_id) {
        &&& st1.len() == st0.len()
        &&& n1 == n0
        &&& forall|i: int|
            0 <= i < st0.len() && !(st0[i].subject_id == subject_id && st0[i].teacher_id
                == teacher_id) ==> st1[i] == st0[i]
        &&& forall|i: int|
            0 <= i < st0.len() && st0[i].subject_id == subject_id && st0[i].teacher_id
                == teacher_id ==> st1[i] == (SubjectTeacher {
                in_charge: if flag is Some {
                    flag.unwrap()
                } else {
                    st0[i].in_charge
                },
                ..st0[i]
            })
    } else {
        &&& st1 == st0.push(
            (SubjectTeacher {
                id: n0,
                teacher_id,
                subject_id,
                in_charge: flag is Some && flag.unwrap(),
            }),
        )
        &&& n1 == n0 + 1
    }
}

/// Two chained `set`-style writes: the old in-charge teacher loses the flag,
/// the new one gains it (getting a fresh row when needed).
pub open spec fn in_charge_handover(
    st0: Seq<SubjectTeacher>,
    n0: u32,
    st2: Seq<SubjectTeacher>,
    n2: u32,
    subject_id: u32,
    old_teacher: u32,
    new_teacher: u32,
) -> bool {
    exists|st1: Seq<SubjectTeacher>, n1: u32|
        #[trigger] set_teaches_rel(st0, n0, st1, n1, subject_id, old_teacher, Some(false))
            && set_teaches_rel(st1, n1, st2, n2, subject_id, new_teacher, Some(true))
}

impl Store {
    /// The position of the subject with this id, if any.
    fn subject_pos(&self, id: u32) -> (r: Option<usize>)
        ensures
            r matches Some(j) ==> j < self.subjects@.len() && self.subjects@[j as int].id == id,
            r is None ==> !has_subject(self.subjects@, id),
    {
        let mut i: usize = 0;
        while i < self.subjects.len()
            invariant
                i <= self.subjects@.len(),
                forall|j: int| 0 <= j < i ==> self.subjects@[j].id != id,
            decreases self.subjects@.len() - i,
        {
            if self.subjects[i].id == id {
                return Some(i);
            }
            i = i + 1;
        }
        None
    }

    /// The position of the teacher join row for this pair, if any.
    fn teach_pos(&self, teacher_id: u32, subject_id: u32) -> (r: Option<usize>)
        ensures
            r matches Some(j) ==> j < self.subjects_teachers@.len()
                && self.subjects_teachers@[j as int].teacher_id == teacher_id
                && self.subjects_teachers@[j as int].subject_id == subject_id,
            r is None ==> !teaches(self.subjects_teachers@, teacher_id, subject_id),
    {
        let mut i: usize = 0;
        while i < self.subjects_teachers.len()
            invariant
                i <= self.subjects_teachers@.len(),
                forall|j: int|
                    0 <= j < i ==> !(self.subjects_teachers@[j].teacher_id == teacher_id
                        && self.subjects_teachers@[j].subject_id == subject_id),
            decreases self.subjects_teachers@.len() - i,
        {
            if self.subjects_teachers[i].teacher_id == teacher_id && self.subjects_teachers[i].subject_id
                == subject_id {
                return Some(i);
            }
            i = i + 1;
        }
        None
    }

    /// Adds a subject under a fresh id, with one group and the named teacher
    /// in charge.
    pub fn subject_add(&mut self, subject: NewSubject)
        requires
            old(self).wf(),
            old(self).next_subject_id < u32::MAX,
            old(self).next_subject_teacher_id < u32::MAX,
        ensures
            final(self).wf(),
            Store::same_but_subjects_and_teacher_rows(*old(self), *final(self)),
            final(self).subjects@ == old(self).subjects@.push(
                (Subject {
                    id: old(self).next_subject_id,
                    class_id: subject.class_id,
                    name: subject.name,
                    group_count: 1,
                }),
            ),
            final(self).subjects_teachers@ == old(self).subjects_teachers@.push(
                (SubjectTeacher {
                    id: old(self).next_subject_teacher_id,
                    teacher_id: subject.teacher_in_charge_id,
                    subject_id: old(self).next_subject_id,
                    in_charge: true,
                }),
            ),
            final(self).next_subject_id == old(self).next_subject_id + 1,
            final(self).next_subject_teacher_id == old(self).next_subject_teacher_id + 1,
            final(self).dirty,
            one_in_charge(final(self).subjects_teachers@, old(self).next_subject_id),
    {
        let row = Subject {
            id: self.next_subject_id,
            class_id: subject.class_id,
            name: subject.name,
            group_count: 1,
        };
        let link = SubjectTeacher {
            id: self.next_subject_teacher_id,
            teacher_id: subject.teacher_in_charge_id,
            subject_id: self.next_subject_id,
            in_charge: true,
        };
        self.subjects.push(row);
        self.subjects_teachers.push(link);
        self.next_subject_id = self.next_subject_id + 1;
        self.next_subject_teacher_id = self.next_subject_teacher_id + 1;
        self.dirty = true;
        proof {
            let st = self.subjects_teachers@;
            let w = st.len() - 1;
            assert(st[w].subject_id == old(self).next_subject_id && st[w].in_charge);
            assert forall|i: int|
                0 <= i < st.len() && (#[trigger] st[i]).subject_id == old(self).next_subject_id
                    && st[i].in_charge implies i == w by {
                if i < w {
                    assert(old(self).subjects_teachers@[i].subject_id < old(
                        self,
                    ).next_subject_id);
                }
            }
        }
    }

    /// The subject with this id, if any.
    pub fn subject_get(&self, id: u32) -> (r: Option<&Subject>)
        ensures
            r matches Some(c) ==> c.id == id && exists|i: int|
                0 <= i < self.subjects@.len() && self.subjects@[i] == *c,
            r is None ==> !has_subject(self.subjects@, id),
    {
        match self.subject_pos(id) {
            Some(j) => Some(&self.subjects[j]),
            None => None,
        }
    }

    /// Removes the named subjects, all of them or none. Join rows referring
    /// to a removed subject stay behind, as dangling rows do not take part in
    /// any query by a live id.
    pub fn subject_remove(&mut self, ids: &Vec<u32>) -> (r: bool)
        requires
            old(self).wf(),
        ensures
            final(self).wf(),
            r == (forall|i: int|
                0 <= i < ids@.len() ==> has_subject(old(self).subjects@, #[trigger] ids@[i])),
            !r ==> *final(self) == *old(self),
            r ==> Store::same_but_subjects(*old(self), *final(self)) && final(self).next_subject_id
                == old(self).next_subject_id && final(self).subjects@ == old(self).subjects@.filter(|c: Subject| !ids@.contains(c.id)) && final(self).dirty,
    {
        let mut i: usize = 0;
        while i < ids.len()
            invariant
                *self == *old(self),
                i <= ids@.len(),
                forall|j: int| 0 <= j < i ==> has_subject(self.subjects@, #[trigger] ids@[j]),
            decreases ids@.len() - i,
        {
            if self.subject_pos(ids[i]).is_none() {
                return false;
            }
            i = i + 1;
        }
        let ghost pred = |c: Subject| !ids@.contains(c.id);
        let mut out: Vec<Subject> = Vec::new();
        let mut k: usize = 0;
        while k < self.subjects.len()
            invariant
                *self == *old(self),
                k <= self.subjects@.len(),
                out@ == self.subjects@.subrange(0, k as int).filter(pred),
                pred == (|c: Subject| !ids@.contains(c.id)),
            decreases self.subjects@.len() - k,
        {
            let keep = !ids_contain(ids, self.subjects[k].id);
            proof {
                lemma_filter_push(self.subjects@.subrange(0, k as int), self.subjects@[k as int], pred);
                assert(self.subjects@.subrange(0, (k + 1) as int) =~= self.subjects@.subrange(
                    0,
                    k as int,
                ).push(self.subjects@[k as int]));
            }
            if keep {
                let row = self.subjects[k].clone();
                out.push(row);
            }
            k = k + 1;
        }
        proof {
            assert(self.subjects@.subrange(0, self.subjects@.len() as int) =~= self.subjects@);
            lemma_filter_mem(self.subjects@, pred);
            let le = |a: Subject, b: Subject| a.id < b.id;
            lemma_filter_sorted(self.subjects@, pred, le);
            let f = self.subjects@.filter(pred);
            assert forall|a: int, b: int| 0 <= a < b < f.len() implies f[a].id < f[b].id by {
                assert(le(f[a], f[b]));
            }
            assert forall|a: int| 0 <= a < f.len() implies f[a].id < self.next_subject_id by {
                let w = choose|w: int| 0 <= w < self.subjects@.len() && self.subjects@[w] == f[a];
                assert(self.subjects@[w].id < self.next_subject_id);
            }
        }
        self.subjects = out;
        self.dirty = true;
        true
    }

    /// Whether the teacher has a join row for the subject.
    pub fn teacher_teaches(&self, teacher_id: u32, subject_id: u32) -> (r: bool)
        ensures
            r == teaches(self.subjects_teachers@, teacher_id, subject_id),
    {
        self.teach_pos(teacher_id, subject_id).is_some()
    }

    /// Whether the teacher is in charge of the subject.
    pub fn teacher_in_charge(&self, teacher_id: u32, subject_id: u32) -> (r: bool)
        ensures
            r == in_charge(self.subjects_teachers@, teacher_id, subject_id),
    {
        let mut i: usize = 0;
        while i < self.subjects_teachers.len()
            invariant
                i <= self.subjects_teachers@.len(),
                forall|j: int|
                    0 <= j < i ==> !(self.subjects_teachers@[j].teacher_id == teacher_id
                        && self.subjects_teachers@[j].subject_id == subject_id
                        && self.subjects_teachers@[j].in_charge),
            decreases self.subjects_teachers@.len() - i,
        {
            if self.subjects_teachers[i].teacher_id == teacher_id && self.subjects_teachers[i].subject_id
                == subject_id && self.subjects_teachers[i].in_charge {
                return true;
            }
            i = i + 1;
        }
        false
    }

    /// One `set`-style write on the teacher join table.
    fn set_teaches_row(&mut self, subject_id: u32, teacher_id: u32, flag: Option<bool>)
        requires
            old(self).wf(),
            has_subject(old(self).subjects@, subject_id),
            old(self).next_subject_teacher_id < u32::MAX,
        ensures
            final(self).wf(),
            Store::same_but_teacher_rows(*old(self), *final(self)),
            final(self).dirty == old(self).dirty,
            set_teaches_rel(
                old(self).subjects_teachers@,
                old(self).next_subject_teacher_id,
                final(self).subjects_teachers@,
                final(self).next_subject_teacher_id,
                subject_id,
                teacher_id,
                flag,
            ),
    {
        let ghost sid_bound_witness = choose|i: int|
            0 <= i < self.subjects@.len() && self.subjects@[i].id == subject_id;
        match self.teach_pos(teacher_id, subject_id) {
            Some(j) => {
                let row = self.subjects_teachers[j];
                let new_flag = match flag {
                    Some(f) => f,
                    None => row.in_charge,
                };
                let new_row = SubjectTeacher { in_charge: new_flag, ..row };
                self.subjects_teachers.set(j, new_row);
                proof {
                    assert forall|i: int|
                        0 <= i < old(self).subjects_teachers@.len() && old(self).subjects_teachers@[i].subject_id == subject_id && old(self).subjects_teachers@[i].teacher_id == teacher_id implies i == j as int by {
                        if i != j as int {
                            assert(false);
                        }
                    }
                }
            },
            None => {
                proof {
                    assert(self.subjects@[sid_bound_witness].id < self.next_subject_id);
                }
                let row = SubjectTeacher {
                    id: self.next_subject_teacher_id,
                    teacher_id,
                    subject_id,
                    in_charge: match flag {
                        Some(f) => f,
                        None => false,
                    },
                };
                self.subjects_teachers.push(row);
                self.next_subject_teacher_id = self.next_subject_teacher_id + 1;
            },
        }
    }

    /// Adds the teacher to the subject's roster; an existing row is kept as
    /// it is, flag included.
    pub fn teacher_set_teaches(&mut self, teacher_id: u32, subject_id: u32)
        requires
            old(self).wf(),
            has_subject(old(self).subjects@, subject_id),
            old(self).next_subject_teacher_id < u32::MAX,
        ensures
            final(self).wf(),
            Store::same_but_teacher_rows(*old(self), *final(self)),
            final(self).dirty,
            set_teaches_rel(
                old(self).subjects_teachers@,
                old(self).next_subject_teacher_id,
                final(self).subjects_teachers@,
                final(self).next_subject_teacher_id,
                subject_id,
                teacher_id,
                None,
            ),
            teaches(final(self).subjects_teachers@, teacher_id, subject_id),
    {
        self.set_teaches_row(subject_id, teacher_id, None);
        self.dirty = true;
        proof {
            if teaches(old(self).subjects_teachers@, teacher_id, subject_id) {
                let w = choose|i: int|
                    0 <= i < old(self).subjects_teachers@.len() && old(self).subjects_teachers@[i].teacher_id == teacher_id && old(self).subjects_teachers@[i].subject_id == subject_id;
                assert(self.subjects_teachers@[w].teacher_id == teacher_id);
            } else {
                let w = old(self).subjects_teachers@.len() as int;
                assert(self.subjects_teachers@[w].teacher_id == teacher_id);
            }
        }
    }

    /// Drops the teacher's join row for the subject, reporting whether one
    /// was there.
    pub fn teacher_unset_teaches(&mut self, teacher_id: u32, subject_id: u32) -> (r: bool)
        requires
            old(self).wf(),
        ensures
            final(self).wf(),
            r == teaches(old(self).subjects_teachers@, teacher_id, subject_id),
            Store::same_but_teacher_rows(*old(self), *final(self)),
            final(self).next_subject_teacher_id == old(self).next_subject_teacher_id,
            final(self).dirty,
            !r ==> final(self).subjects_teachers@ == old(self).subjects_teachers@,
            r ==> exists|i: int|
                0 <= i < old(self).subjects_teachers@.len() && old(self).subjects_teachers@[i].teacher_id == teacher_id && old(self).subjects_teachers@[i].subject_id == subject_id && final(self).subjects_teachers@
                    == old(self).subjects_teachers@.remove(i),
            !teaches(final(self).subjects_teachers@, teacher_id, subject_id),
    {
        let r = match self.teach_pos(teacher_id, subject_id) {
            Some(j) => {
                self.subjects_teachers.remove(j);
                proof {
                    let stf = self.subjects_teachers@;
                    let st0 = old(self).subjects_teachers@;
                    assert forall|a: int, b: int| 0 <= a < b < stf.len() implies stf[a].id
                        < stf[b].id by {
                        if b < j as int {
                        } else if a < j as int {
                            assert(stf[b] == st0[b + 1]);
                        } else {
                            assert(stf[a] == st0[a + 1] && stf[b] == st0[b + 1]);
                        }
                    }
                    assert forall|a: int| 0 <= a < stf.len() implies stf[a].id < self.next_subject_teacher_id
                        && stf[a].subject_id < self.next_subject_id by {
                        if a < j as int {
                        } else {
                            assert(stf[a] == st0[a + 1]);
                        }
                    }
                    assert forall|a: int, b: int| 0 <= a < b < stf.len() implies !(stf[a].subject_id
                        == stf[b].subject_id && stf[a].teacher_id == stf[b].teacher_id) by {
                        if b < j as int {
                        } else if a < j as int {
                            assert(stf[b] == st0[b + 1]);
                        } else {
                            assert(stf[a] == st0[a + 1] && stf[b] == st0[b + 1]);
                        }
                    }
                    assert forall|a: int| 0 <= a < stf.len() implies !(stf[a].teacher_id
                        == teacher_id && stf[a].subject_id == subject_id) by {
                        if a < j as int {
                            assert(!(st0[a].subject_id == st0[j as int].subject_id
                                && st0[a].teacher_id == st0[j as int].teacher_id));
                        } else {
                            assert(stf[a] == st0[a + 1]);
                            assert(!(st0[a + 1].subject_id == st0[j as int].subject_id && st0[a
                                + 1].teacher_id == st0[j as int].teacher_id));
                        }
                    }
                }
                true
            },
            None => false,
        };
        self.dirty = true;
        r
    }

    /// Updates a subject's class, name, and teacher in charge where given.
    /// Handing charge over falsifies the flag of the first in-charge row and
    /// raises it on the new teacher's row, creating that row when needed.
    pub fn subject_update(&mut self, id: u32, update: SubjectUpdate) -> (r: UpdateStatus)
        requires
            old(self).wf(),
            old(self).next_subject_teacher_id < u32::MAX,
            update.teacher_in_charge_id is Some && has_subject(old(self).subjects@, id)
                ==> exists|i: int|
                0 <= i < old(self).subjects_teachers@.len() && #[trigger] old(self).subjects_teachers@[i].subject_id == id && old(self).subjects_teachers@[i].in_charge,
        ensures
            final(self).wf(),
            r.found == has_subject(old(self).subjects@, id),
            !r.found ==> *final(self) == *old(self) && !r.updated,
            r.found ==> r.updated == (update.class_id is Some || update.name is Some
                || update.teacher_in_charge_id is Some),
            r.found && !r.updated ==> *final(self) == *old(self),
            r.found && r.updated ==> Store::same_but_subjects_and_teacher_rows(
                *old(self),
                *final(self),
            ) && final(self).next_subject_id == old(self).next_subject_id && final(self).dirty,
            r.found && r.updated ==> final(self).subjects@.len() == old(self).subjects@.len() && (
            forall|i: int|
                0 <= i < old(self).subjects@.len() && old(self).subjects@[i].id != id ==> final(self).subjects@[i] == old(self).subjects@[i]) && (forall|i: int|
                0 <= i < old(self).subjects@.len() && old(self).subjects@[i].id == id ==> final(self).subjects@[i] == (Subject {
                    class_id: if update.class_id is Some {
                        update.class_id.unwrap()
                    } else {
                        old(self).subjects@[i].class_id
                    },
                    name: if update.name is Some {
                        update.name.unwrap()
                    } else {
                        old(self).subjects@[i].name
                    },
                    ..old(self).subjects@[i]
                })),
            r.found && update.teacher_in_charge_id is None ==> final(self).subjects_teachers@
                == old(self).subjects_teachers@ && final(self).next_subject_teacher_id == old(self).next_subject_teacher_id,
            update.teacher_in_charge_id matches Some(t) ==> (r.found ==> (exists|w: int|
                0 <= w < old(self).subjects_teachers@.len() && #[trigger] old(self).subjects_teachers@[w].subject_id == id && old(self).subjects_teachers@[w].in_charge && (forall|j: int|
                    0 <= j < w ==> !(old(self).subjects_teachers@[j].subject_id == id && old(self).subjects_teachers@[j].in_charge)) && in_charge_handover(
                    old(self).subjects_teachers@,
                    old(self).next_subject_teacher_id,
                    final(self).subjects_teachers@,
                    final(self).next_subject_teacher_id,
                    id,
                    old(self).subjects_teachers@[w].teacher_id,
                    t,
                )) && in_charge(final(self).subjects_teachers@, t, id)),
            update.teacher_in_charge_id matches Some(t) ==> ((r.found && one_in_charge(
                old(self).subjects_teachers@,
                id,
            )) ==> one_in_charge(final(self).subjects_teachers@, id)),
    {
        let j = match self.subject_pos(id) {
            None => {
                return UpdateStatus { found: false, updated: false };
            },
            Some(j) => j,
        };
        let mut updated = false;
        proof {
            assert forall|i: int|
                0 <= i < old(self).subjects@.len() && old(self).subjects@[i].id == id implies i
                == j as int by {
                if i != j as int {
                    assert(old(self).subjects@[i].id != old(self).subjects@[j as int].id);
                }
            }
        }
        if update.class_id.is_some() || update.name.is_some() {
            let mut class_id = self.subjects[j].class_id;
            let mut name = self.subjects[j].name.clone();
            if let Some(new_class_id) = update.class_id {
                class_id = new_class_id;
            }
            if let Some(new_name) = update.name {
                name = new_name;
            }
            let row = Subject {
                id: self.subjects[j].id,
                class_id,
                name,
                group_count: self.subjects[j].group_count,
            };
            self.subjects.set(j, row);
            updated = true;
        } else if update.teacher_in_charge_id.is_none() {
            return UpdateStatus { found: true, updated: false };
        }
        if let Some(new_teacher) = update.teacher_in_charge_id {
            let mut w: usize = 0;
            let mut old_teacher: u32 = 0;
            let mut found_in_charge = false;
            while w < self.subjects_teachers.len()
                invariant
                    w <= self.subjects_teachers@.len(),
                    !found_in_charge,
                    self.subjects_teachers@ == old(self).subjects_teachers@,
                    forall|q: int|
                        0 <= q < w ==> !(self.subjects_teachers@[q].subject_id == id
                            && self.subjects_teachers@[q].in_charge),
                decreases self.subjects_teachers@.len() - w,
            {
                if self.subjects_teachers[w].subject_id == id && self.subjects_teachers[w].in_charge {
                    old_teacher = self.subjects_teachers[w].teacher_id;
                    found_in_charge = true;
                    break;
                }
                w = w + 1;
            }
            proof {
                assert(found_in_charge);
            }
            proof {
                assert(self.subjects@[j as int].id == id);
                assert(has_subject(self.subjects@, id));
            }
            self.set_teaches_row(id, old_teacher, Some(false));
            let ghost st_mid = self.subjects_teachers@;
            let ghost n_mid = self.next_subject_teacher_id;
            self.set_teaches_row(id, new_teacher, Some(true));
            updated = true;
            proof {
                assert(set_teaches_rel(
                    old(self).subjects_teachers@,
                    old(self).next_subject_teacher_id,
                    st_mid,
                    n_mid,
                    id,
                    old_teacher,
                    Some(false),
                ));
                assert(set_teaches_rel(
                    st_mid,
                    n_mid,
                    self.subjects_teachers@,
                    self.next_subject_teacher_id,
                    id,
                    new_teacher,
                    Some(true),
                ));
                if teaches(st_mid, new_teacher, id) {
                    let p = choose|i: int|
                        0 <= i < st_mid.len() && st_mid[i].teacher_id == new_teacher
                            && st_mid[i].subject_id == id;
                    assert(self.subjects_teachers@[p].in_charge);
                    assert(in_charge(self.subjects_teachers@, new_teacher, id));
                } else {
                    let p = st_mid.len() as int;
                    assert(self.subjects_teachers@[p].in_charge);
                    assert(in_charge(self.subjects_teachers@, new_teacher, id));
                }
                if one_in_charge(old(self).subjects_teachers@, id) {
                    let st0 = old(self).subjects_teachers@;
                    let st2 = self.subjects_teachers@;
                    assert forall|i: int|
                        0 <= i < st2.len() && (#[trigger] st2[i]).subject_id == id
                            && st2[i].in_charge implies st2[i].teacher_id == new_teacher by {
                        if !(i < st_mid.len() && st_mid[i].subject_id == id
                            && st_mid[i].teacher_id == new_teacher) && !(i == st_mid.len()
                            && !teaches(st_mid, new_teacher, id)) {
                            assert(i < st_mid.len());
                            assert(st2[i] == st_mid[i]);
                            if i < st0.len() && st0[i].subject_id == id && st0[i].teacher_id
                                == old_teacher {
                                assert(!st_mid[i].in_charge);
                                assert(false);
                            } else {
                                assert(st_mid[i] == st0[i]);
                                assert(st0[i].subject_id == id && st0[i].in_charge);
                                assert(st0[w as int].subject_id == id && st0[w as int].in_charge);
                                assert(i == w as int);
                                assert(false);
                            }
                        }
                    }
                    assert forall|i: int, jq: int|
                        0 <= i < st2.len() && 0 <= jq < st2.len() && (#[trigger] st2[i]).subject_id
                            == id && st2[i].in_charge && (#[trigger] st2[jq]).subject_id == id
                            && st2[jq].in_charge implies i == jq by {
                        if i != jq {
                            assert(st2[i].teacher_id == new_teacher);
                            assert(st2[jq].teacher_id == new_teacher);
                            if i < jq {
                                assert(!(st2[i].subject_id == st2[jq].subject_id
                                    && st2[i].teacher_id == st2[jq].teacher_id));
                            } else {
                                assert(!(st2[jq].subject_id == st2[i].subject_id
                                    && st2[jq].teacher_id == st2[i].teacher_id));
                            }
                        }
                    }
                    assert(one_in_charge(st2, id));
                }
            }
        }
        if updated {
            self.dirty = true;
        }
        UpdateStatus { found: true, updated }
    }

    /// Raises the subject's group count by one.
    pub fn subject_add_group(&mut self, subject_id: u32)
        requires
            old(self).wf(),
            has_subject(old(self).subjects@, subject_id),
            forall|i: int|
                0 <= i < old(self).subjects@.len() && #[trigger] old(self).subjects@[i].id
                    == subject_id ==> old(self).subjects@[i].group_count < u32::MAX,
        ensures
            final(self).wf(),
            Store::same_but_subjects(*old(self), *final(self)),
            final(self).next_subject_id == old(self).next_subject_id,
            final(self).dirty,
            final(self).subjects@.len() == old(self).subjects@.len(),
            forall|i: int|
                0 <= i < old(self).subjects@.len() && old(self).subjects@[i].id != subject_id
                    ==> final(self).subjects@[i] == old(self).subjects@[i],
            forall|i: int|
                0 <= i < old(self).subjects@.len() && old(self).subjects@[i].id == subject_id
                    ==> final(self).subjects@[i] == (Subject {
                    group_count: (old(self).subjects@[i].group_count + 1) as u32,
                    ..old(self).subjects@[i]
                }),
    {
        let j = match self.subject_pos(subject_id) {
            Some(j) => j,
            None => {
                proof {
                    assert(false);
                }
                0
            },
        };
        let row = Subject {
            id: self.subjects[j].id,
            class_id: self.subjects[j].class_id,
            name: self.subjects[j].name.clone(),
            group_count: self.subjects[j].group_count + 1,
        };
        self.subjects.set(j, row);
        self.dirty = true;
        proof {
            assert forall|i: int|
                0 <= i < old(self).subjects@.len() && old(self).subjects@[i].id
                    == subject_id implies i == j as int by {
                if i != j as int {
                    assert(old(self).subjects@[i].id != old(self).subjects@[j as int].id);
                }
            }
        }
    }

    /// Lowers the subject's group count by one, unless only one group is
    /// left: removing the last group is rejected and nothing changes.
    pub fn subject_remove_group(&mut self, subject_id: u32) -> (r: bool)
        requires
            old(self).wf(),
            has_subject(old(self).subjects@, subject_id),
        ensures
            final(self).wf(),
            forall|i: int|
                0 <= i < old(self).subjects@.len() && #[trigger] old(self).subjects@[i].id
                    == subject_id ==> r == (old(self).subjects@[i].group_count >= 2),
            !r ==> *final(self) == *old(self),
            r ==> Store::same_but_subjects(*old(self), *final(self)) && final(self).next_subject_id
                == old(self).next_subject_id && final(self).dirty && final(self).subjects@.len()
                == old(self).subjects@.len() && (forall|i: int|
                0 <= i < old(self).subjects@.len() && old(self).subjects@[i].id != subject_id
                    ==> final(self).subjects@[i] == old(self).subjects@[i]) && (forall|i: int|
                0 <= i < old(self).subjects@.len() && old(self).subjects@[i].id == subject_id
                    ==> final(self).subjects@[i] == (Subject {
                    group_count: (old(self).subjects@[i].group_count - 1) as u32,
                    ..old(self).subjects@[i]
                })),
    {
        let j = match self.subject_pos(subject_id) {
            Some(j) => j,
            None => {
                proof {
                    assert(false);
                }
                0
            },
        };
        proof {
            assert forall|i: int|
                0 <= i < old(self).subjects@.len() && old(self).subjects@[i].id
                    == subject_id implies i == j as int by {
                if i != j as int {
                    assert(old(self).subjects@[i].id != old(self).subjects@[j as int].id);
                }
            }
        }
        if self.subjects[j].group_count >= 2 {
            let row = Subject {
                id: self.subjects[j].id,
                class_id: self.subjects[j].class_id,
                name: self.subjects[j].name.clone(),
                group_count: self.subjects[j].group_count - 1,
            };
            self.subjects.set(j, row);
            self.dirty = true;
            true
        } else {
            false
        }
    }

    /// Enrolls the student in the subject, in group zero; an existing
    /// enrollment is left untouched.
    pub fn subject_add_student(&mut self, subject_id: u32, student_id: u32)
        requires
            old(self).wf(),
            old(self).next_subject_students_id < u32::MAX,
        ensures
            final(self).wf(),
            enrolled(old(self).subjects_students@, subject_id, student_id) ==> *final(self) == *old(self),
            !enrolled(old(self).subjects_students@, subject_id, student_id) ==> (
            Store::same_but_student_rows(*old(self), *final(self)) && final(self).subjects_students@ == old(self).subjects_students@.push(
                (StudentSubject {
                    id: old(self).next_subject_students_id,
                    subject_id,
                    student_id,
                    group_number: 0,
                }),
            ) && final(self).next_subject_students_id == old(self).next_subject_students_id + 1
                && final(self).dirty),
            enrolled(final(self).subjects_students@, subject_id, student_id),
    {
        let mut i: usize = 0;
        while i < self.subjects_students.len()
            invariant
                *self == *old(self),
                i <= self.subjects_students@.len(),
                forall|j: int|
                    0 <= j < i ==> !(self.subjects_students@[j].subject_id == subject_id
                        && self.subjects_students@[j].student_id == student_id),
            decreases self.subjects_students@.len() - i,
        {
            if self.subjects_students[i].subject_id == subject_id && self.subjects_students[i].student_id
                == student_id {
                return ;
            }
            i = i + 1;
        }
        let row = StudentSubject {
            id: self.next_subject_students_id,
            subject_id,
            student_id,
            group_number: 0,
        };
        self.subjects_students.push(row);
        self.next_subject_students_id = self.next_subject_students_id + 1;
        self.dirty = true;
        proof {
            let p = old(self).subjects_students@.len() as int;
            assert(self.subjects_students@[p].subject_id == subject_id);
        }
    }

    /// The group the student was assigned within the subject.
    pub fn student_group(&self, student_id: u32, subject_id: u32) -> (r: u32)
        requires
            self.wf(),
            enrolled(self.subjects_students@, subject_id, student_id),
        ensures
            forall|i: int|
                0 <= i < self.subjects_students@.len()
                    && #[trigger] self.subjects_students@[i].subject_id == subject_id
                    && self.subjects_students@[i].student_id == student_id ==> r
                    == self.subjects_students@[i].group_number,
    {
        let mut i: usize = 0;
        while i < self.subjects_students.len()
            invariant
                i <= self.subjects_students@.len(),
                forall|j: int|
                    0 <= j < i ==> !(self.subjects_students@[j].subject_id == subject_id
                        && self.subjects_students@[j].student_id == student_id),
            decreases self.subjects_students@.len() - i,
        {
            if self.subjects_students[i].subject_id == subject_id && self.subjects_students[i].student_id
                == student_id {
                proof {
                    assert forall|q: int|
                        0 <= q < self.subjects_students@.len()
                            && #[trigger] self.subjects_students@[q].subject_id == subject_id
                            && self.subjects_students@[q].student_id == student_id implies q
                        == i as int by {
                        if q != i as int {
                            assert(false);
                        }
                    }
                }
                return self.subjects_students[i].group_number;
            }
            i = i + 1;
        }
        proof {
            assert(false);
        }
        0
    }


    /// Whether the named teachers can all be withdrawn from the subject:
    /// each must be a live teacher account that teaches the subject without
    /// being in charge of it, and at least one teaching teacher must remain
    /// afterwards.
    pub fn teachers_removable(&self, subject_id: u32, ids: &Vec<u32>) -> (r: bool)
        requires
            self.wf(),
        ensures
            r == ((forall|k: int|
                0 <= k < ids@.len() ==> teacher_user_exists(self.users@, #[trigger] ids@[k])
                    && teaches(self.subjects_teachers@, ids@[k], subject_id) && !in_charge(
                    self.subjects_teachers@,
                    ids@[k],
                    subject_id,
                )) && (exists|i: int|
                0 <= i < self.users@.len() && (#[trigger] self.users@[i]).kind is Teacher
                    && teaches(self.subjects_teachers@, self.users@[i].id, subject_id)
                    && !ids@.contains(self.users@[i].id))),
    {
        let mut k: usize = 0;
        while k < ids.len()
            invariant
                k <= ids@.len(),
                forall|q: int|
                    0 <= q < k ==> teacher_user_exists(self.users@, #[trigger] ids@[q]) && teaches(
                        self.subjects_teachers@,
                        ids@[q],
                        subject_id,
                    ) && !in_charge(self.subjects_teachers@, ids@[q], subject_id),
            decreases ids@.len() - k,
        {
            let id = ids[k];
            let is_teacher = match self.user_get_teacher_by_id(id) {
                Some(u) => {
                    proof {
                        let w = choose|i: int|
                            0 <= i < self.users@.len() && self.users@[i] == *u;
                        assert(teacher_user_exists(self.users@, id));
                    }
                    true
                },
                None => false,
            };
            if !is_teacher || !self.teacher_teaches(id, subject_id) || self.teacher_in_charge(
                id,
                subject_id,
            ) {
                return false;
            }
            k = k + 1;
        }
        let mut i: usize = 0;
        while i < self.users.len()
            invariant
                i <= self.users@.len(),
                forall|q: int|
                    0 <= q < i ==> !((#[trigger] self.users@[q]).kind is Teacher && teaches(
                        self.subjects_teachers@,
                        self.users@[q].id,
                        subject_id,
                    ) && !ids@.contains(self.users@[q].id)),
            decreases self.users@.len() - i,
        {
            let is_teacher = match &self.users[i].kind {
                UserKind::Teacher(_) => true,
                _ => false,
            };
            if is_teacher && self.teacher_teaches(self.users[i].id, subject_id) && !ids_contain(
                ids,
                self.users[i].id,
            ) {
                return true;
            }
            i = i + 1;
        }
        false
    }

    /// The group number names one of the subject's groups.
    pub fn group_in_range(&self, subject_id: u32, group_number: u32) -> (r: bool)
        requires
            self.wf(),
            has_subject(self.subjects@, subject_id),
        ensures
            r == (group_number < subject_group_count(self.subjects@, subject_id)),
    {
        let s = match self.subject_get(subject_id) {
            Some(s) => s,
            None => {
                proof {
                    assert(false);
                }
                return false;
            },
        };
        proof {
            let v = choose|v: int| 0 <= v < self.subjects@.len() && self.subjects@[v] == *s;
            let w = choose|i: int|
                0 <= i < self.subjects@.len() && self.subjects@[i].id == subject_id;
            if v != w {
                if v < w {
                    assert(self.subjects@[v].id < self.subjects@[w].id);
                } else {
                    assert(self.subjects@[w].id < self.subjects@[v].id);
                }
            }
            assert(s.group_count == subject_group_count(self.subjects@, subject_id));
        }
        group_number < s.group_count
    }

    /// The users enrolled in the subject, in enrollment order.
    pub fn subject_students(&self, subject_id: u32) -> (r: Vec<User>)
        requires
            self.wf(),
            forall|i: int|
                0 <= i < self.subjects_students@.len()
                    && (#[trigger] self.subjects_students@[i]).subject_id == subject_id
                    ==> has_user_id(self.users@, self.subjects_students@[i].student_id),
        ensures
            r@.len() == self.subjects_students@.filter(
                |x: StudentSubject| x.subject_id == subject_id,
            ).len(),
            forall|i: int|
                0 <= i < r@.len() ==> user_matches(
                    self.users@,
                    self.subjects_students@.filter(
                        |x: StudentSubject| x.subject_id == subject_id,
                    )[i].student_id,
                    #[trigger] r@[i],
                ),
    {
        let ghost pred = |x: StudentSubject| x.subject_id == subject_id;
        let mut out: Vec<User> = Vec::new();
        let mut k: usize = 0;
        while k < self.subjects_students.len()
            invariant
                k <= self.subjects_students@.len(),
                pred == (|x: StudentSubject| x.subject_id == subject_id),
                out@.len() == self.subjects_students@.subrange(0, k as int).filter(pred).len(),
                forall|i: int|
                    0 <= i < out@.len() ==> user_matches(
                        self.users@,
                        self.subjects_students@.subrange(0, k as int).filter(
                            pred,
                        )[i].student_id,
                        #[trigger] out@[i],
                    ),
            decreases self.subjects_students@.len() - k,
        {
            let row = self.subjects_students[k];
            proof {
                let prefix = self.subjects_students@.subrange(0, k as int);
                lemma_filter_push(prefix, self.subjects_students@[k as int], pred);
                assert(self.subjects_students@.subrange(0, (k + 1) as int) =~= prefix.push(
                    self.subjects_students@[k as int],
                ));
            }
            if row.subject_id == subject_id {
                let j = match self.user_pos(row.student_id) {
                    Some(j) => j,
                    None => {
                        proof {
                            assert(false);
                        }
                        0
                    },
                };
                let u = self.users[j].clone();
                out.push(u);
            }
            k = k + 1;
        }
        proof {
            assert(self.subjects_students@.subrange(0, self.subjects_students@.len() as int)
                =~= self.subjects_students@);
        }
        out
    }

    /// The subjects a teacher has a join row for, in row order.
    pub fn teacher_subjects(&self, teacher_id: u32) -> (r: Vec<Subject>)
        requires
            self.wf(),
            forall|i: int|
                0 <= i < self.subjects_teachers@.len()
                    && (#[trigger] self.subjects_teachers@[i]).teacher_id == teacher_id
                    ==> has_subject(self.subjects@, self.subjects_teachers@[i].subject_id),
        ensures
            r@.len() == self.subjects_teachers@.filter(
                |x: SubjectTeacher| x.teacher_id == teacher_id,
            ).len(),
            forall|i: int|
                0 <= i < r@.len() ==> subject_matches(
                    self.subjects@,
                    self.subjects_teachers@.filter(
                        |x: SubjectTeacher| x.teacher_id == teacher_id,
                    )[i].subject_id,
                    #[trigger] r@[i],
                ),
    {
        let ghost pred = |x: SubjectTeacher| x.teacher_id == teacher_id;
        let mut out: Vec<Subject> = Vec::new();
        let mut k: usize = 0;
        while k < self.subjects_teachers.len()
            invariant
                k <= self.subjects_teachers@.len(),
                pred == (|x: SubjectTeacher| x.teacher_id == teacher_id),
                out@.len() == self.subjects_teachers@.subrange(0, k as int).filter(pred).len(),
                forall|i: int|
                    0 <= i < out@.len() ==> subject_matches(
                        self.subjects@,
                        self.subjects_teachers@.subrange(0, k as int).filter(
                            pred,
                        )[i].subject_id,
                        #[trigger] out@[i],
                    ),
            decreases self.subjects_teachers@.len() - k,
        {
            let row = self.subjects_teachers[k];
            proof {
                let prefix = self.subjects_teachers@.subrange(0, k as int);
                lemma_filter_push(prefix, self.subjects_teachers@[k as int], pred);
                assert(self.subjects_teachers@.subrange(0, (k + 1) as int) =~= prefix.push(
                    self.subjects_teachers@[k as int],
                ));
            }
            if row.teacher_id == teacher_id {
                let s = match self.subject_get(row.subject_id) {
                    Some(s) => s.clone(),
                    None => {
                        proof {
                            assert(false);
                        }
                        Subject { id: 0, class_id: 0, name: String::new(), group_count: 1 }
                    },
                };
                out.push(s);
            }
            k = k + 1;
        }
        proof {
            assert(self.subjects_teachers@.subrange(0, self.subjects_teachers@.len() as int)
                =~= self.subjects_teachers@);
        }
        out
    }

    /// The subjects a student is enrolled in, in row order.
    pub fn student_subjects(&self, student_id: u32) -> (r: Vec<Subject>)
        requires
            self.wf(),
            forall|i: int|
                0 <= i < self.subjects_students@.len()
                    && (#[trigger] self.subjects_students@[i]).student_id == student_id
                    ==> has_subject(self.subjects@, self.subjects_students@[i].subject_id),
        ensures
            r@.len() == self.subjects_students@.filter(
                |x: StudentSubject| x.student_id == student_id,
            ).len(),
            forall|i: int|
                0 <= i < r@.len() ==> subject_matches(
                    self.subjects@,
                    self.subjects_students@.filter(
                        |x: StudentSubject| x.student_id == student_id,
                    )[i].subject_id,
                    #[trigger] r@[i],
                ),
    {
        let ghost pred = |x: StudentSubject| x.student_id == student_id;
        let mut out: Vec<Subject> = Vec::new();
        let mut k: usize = 0;
        while k < self.subjects_students.len()
            invariant
                k <= self.subjects_students@.len(),
                pred == (|x: StudentSubject| x.student_id == student_id),
                out@.len() == self.subjects_students@.subrange(0, k as int).filter(pred).len(),
                forall|i: int|
                    0 <= i < out@.len() ==> subject_matches(
                        self.subjects@,
                        self.subjects_students@.subrange(0, k as int).filter(
                            pred,
                        )[i].subject_id,
                        #[trigger] out@[i],
                    ),
            decreases self.subjects_students@.len() - k,
        {
            let row = self.subjects_students[k];
            proof {
                let prefix = self.subjects_students@.subrange(0, k as int);
                lemma_filter_push(prefix, self.subjects_students@[k as int], pred);
                assert(self.subjects_students@.subrange(0, (k + 1) as int) =~= prefix.push(
                    self.subjects_students@[k as int],
                ));
            }
            if row.student_id == student_id {
                let s = match self.subject_get(row.subject_id) {
                    Some(s) => s.clone(),
                    None => {
                        proof {
                            assert(false);
                        }
                        Subject { id: 0, class_id: 0, name: String::new(), group_count: 1 }
                    },
                };
                out.push(s);
            }
            k = k + 1;
        }
        proof {
            assert(self.subjects_students@.subrange(0, self.subjects_students@.len() as int)
                =~= self.subjects_students@);
        }
        out
    }
}

} // verus!
