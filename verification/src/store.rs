//! The entity store: one table per entity kind, an id allocator per table,
//! the token registry, the per-user audit logs, and the dirty flag that the
//! persistence layer watches. The well-formedness invariant `wf` is
//! established by `Store::empty` and preserved by every operation.

use vstd::prelude::*;

use crate::models::{
    Class, Classroom, Modification, Occupancy, StudentSubject, Subject, SubjectTeacher, User,
};
use crate::tokens::{empty_pairs, token_map_entries, token_map_new, token_pairs,
    token_pairs_injective};

verus! {

/// The audit log of one user, newest record first.
pub struct UserModifications {
    pub user_id: u32,
    pub entries: Vec<Modification>,
}

impl Clone for UserModifications {
    fn clone(&self) -> (r: Self)
        ensures
            r.user_id == self.user_id,
            r.entries@ == self.entries@,
    {
        let mut entries: Vec<Modification> = Vec::new();
        let mut i: usize = 0;
        while i < self.entries.len()
            invariant
                i <= self.entries@.len(),
                entries@ == self.entries@.subrange(0, i as int),
            decreases self.entries@.len() - i,
        {
            entries.push(self.entries[i]);
            proof {
                assert(entries@ =~= self.entries@.subrange(0, (i + 1) as int));
            }
            i = i + 1;
        }
        proof {
            assert(self.entries@.subrange(0, self.entries@.len() as int) =~= self.entries@);
        }
        UserModifications { user_id: self.user_id, entries }
    }
}

/// Audit logs keep at most this many records per user.
pub const MODIFICATION_CAP: usize = 25;

/// The whole engine state.
pub struct Store {
    pub dirty: bool,
    pub delay_millis: u64,
    pub users: Vec<User>,
    pub tokens: bimap::BiMap<String, String>,
    pub classrooms: Vec<Classroom>,
    pub classes: Vec<Class>,
    pub subjects: Vec<Subject>,
    pub subjects_teachers: Vec<SubjectTeacher>,
    pub subjects_students: Vec<StudentSubject>,
    pub occupancies: Vec<Occupancy>,
    pub modifications: Vec<UserModifications>,
    pub next_user_id: u32,
    pub next_classroom_id: u32,
    pub next_class_id: u32,
    pub next_subject_id: u32,
    pub next_subject_teacher_id: u32,
    pub next_subject_students_id: u32,
    pub next_occupancy_id: u32,
}

/// A classroom with this id is in the table.
pub open spec fn has_classroom(s: Seq<Classroom>, id: u32) -> bool {
    exists|i: int| 0 <= i < s.len() && s[i].id == id
}

/// A class with this id is in the table.
pub open spec fn has_class(s: Seq<Class>, id: u32) -> bool {
    exists|i: int| 0 <= i < s.len() && s[i].id == id
}

/// A subject with this id is in the table.
pub open spec fn has_subject(s: Seq<Subject>, id: u32) -> bool {
    exists|i: int| 0 <= i < s.len() && s[i].id == id
}

/// An occupancy with this id is in the table.
pub open spec fn has_occupancy(s: Seq<Occupancy>, id: u32) -> bool {
    exists|i: int| 0 <= i < s.len() && s[i].id == id
}

/// A user with this id is in the table.
pub open spec fn has_user_id(s: Seq<User>, id: u32) -> bool {
    exists|i: int| 0 <= i < s.len() && s[i].id == id
}

/// A user with this username is in the table.
pub open spec fn has_username(s: Seq<User>, username: Seq<char>) -> bool {
    exists|i: int| 0 <= i < s.len() && s[i].username@ == username
}

/// `u` is the user of the table carrying this id.
pub open spec fn user_matches(s: Seq<User>, id: u32, u: User) -> bool {
    u.id == id && exists|i: int| 0 <= i < s.len() && s[i] == u
}

/// `c` is the subject of the table carrying this id.
pub open spec fn subject_matches(s: Seq<Subject>, id: u32, c: Subject) -> bool {
    c.id == id && exists|i: int| 0 <= i < s.len() && s[i] == c
}

/// A teacher account with this id is in the table.
pub open spec fn teacher_user_exists(users: Seq<User>, id: u32) -> bool {
    exists|i: int| 0 <= i < users.len() && (#[trigger] users[i]).id == id && users[i].kind is Teacher
}

/// The teacher has a row for this subject.
pub open spec fn teaches(st: Seq<SubjectTeacher>, teacher_id: u32, subject_id: u32) -> bool {
    exists|i: int|
        0 <= i < st.len() && st[i].teacher_id == teacher_id && st[i].subject_id == subject_id
}

/// The teacher has a row for this subject with the in-charge flag set.
pub open spec fn in_charge(st: Seq<SubjectTeacher>, teacher_id: u32, subject_id: u32) -> bool {
    exists|i: int|
        0 <= i < st.len() && st[i].teacher_id == teacher_id && st[i].subject_id == subject_id
            && st[i].in_charge
}

/// Exactly one in-charge row for the subject. This is the invariant the
/// roster promises of live subjects; it is not part of `wf` because the
/// engine's own operations may break it transiently at a caller's demand —
/// withdrawing an in-charge teacher, as the original engine also allows —
/// and the transport layer guards against that. `subject_add` establishes
/// it for the new subject and the in-charge handover of `subject_update`
/// preserves it.
pub open spec fn one_in_charge(st: Seq<SubjectTeacher>, subject_id: u32) -> bool {
    &&& exists|i: int|
        0 <= i < st.len() && (#[trigger] st[i]).subject_id == subject_id && st[i].in_charge
    &&& forall|i: int, j: int|
        0 <= i < st.len() && 0 <= j < st.len() && (#[trigger] st[i]).subject_id == subject_id
            && st[i].in_charge && (#[trigger] st[j]).subject_id == subject_id && st[j].in_charge
            ==> i == j
}

/// Every enrollment row of a live subject names one of its groups. This is
/// the group-number range invariant of the roster; it is not part of `wf`
/// because removing a group leaves the enrollment to the redistribution
/// that follows, as in the original engine. `distribute_subject_groups`
/// establishes it for the subject it reassigns, and `group_in_range` is the
/// guard callers use before assigning a group.
pub open spec fn groups_in_range(ss: Seq<StudentSubject>, subjects: Seq<Subject>) -> bool {
    forall|i: int, j: int|
        0 <= i < ss.len() && 0 <= j < subjects.len() && (#[trigger] ss[i]).subject_id == (
        #[trigger] subjects[j]).id ==> ss[i].group_number < subjects[j].group_count
}

/// The student has an enrollment row for this subject.
pub open spec fn enrolled(ss: Seq<StudentSubject>, subject_id: u32, student_id: u32) -> bool {
    exists|i: int|
        0 <= i < ss.len() && ss[i].subject_id == subject_id && ss[i].student_id == student_id
}

/// The index of the user's audit-log row.
pub open spec fn mods_index(tbl: Seq<UserModifications>, user_id: u32) -> int {
    choose|i: int| 0 <= i < tbl.len() && tbl[i].user_id == user_id
}

/// Whether a user has an audit log row.
pub open spec fn has_mods(tbl: Seq<UserModifications>, user_id: u32) -> bool {
    exists|i: int| 0 <= i < tbl.len() && tbl[i].user_id == user_id
}

/// The audit log of a user, newest record first; empty when the user has
/// no row.
pub open spec fn log_of(tbl: Seq<UserModifications>, user_id: u32) -> Seq<Modification> {
    if has_mods(tbl, user_id) {
        tbl[mods_index(tbl, user_id)].entries@
    } else {
        Seq::empty()
    }
}

impl Store {
    pub open spec fn classrooms_wf(&self) -> bool {
        &&& forall|i: int, j: int|
            0 <= i < j < self.classrooms@.len() ==> self.classrooms@[i].id < self.classrooms@[j].id
        &&& forall|i: int|
            0 <= i < self.classrooms@.len() ==> self.classrooms@[i].id < self.next_classroom_id
    }

    pub open spec fn classes_wf(&self) -> bool {
        &&& forall|i: int, j: int|
            0 <= i < j < self.classes@.len() ==> self.classes@[i].id < self.classes@[j].id
        &&& forall|i: int|
            0 <= i < self.classes@.len() ==> self.classes@[i].id < self.next_class_id
    }

    pub open spec fn subjects_wf(&self) -> bool {
        &&& forall|i: int, j: int|
            0 <= i < j < self.subjects@.len() ==> self.subjects@[i].id < self.subjects@[j].id
        &&& forall|i: int|
            0 <= i < self.subjects@.len() ==> self.subjects@[i].id < self.next_subject_id
        &&& forall|i: int| 0 <= i < self.subjects@.len() ==> self.subjects@[i].group_count >= 1
    }

    pub open spec fn occupancies_wf(&self) -> bool {
        &&& forall|i: int, j: int|
            0 <= i < j < self.occupancies@.len() ==> self.occupancies@[i].id
                < self.occupancies@[j].id
        &&& forall|i: int|
            0 <= i < self.occupancies@.len() ==> self.occupancies@[i].id < self.next_occupancy_id
    }

    pub open spec fn users_wf(&self) -> bool {
        &&& forall|i: int, j: int|
            0 <= i < j < self.users@.len() ==> self.users@[i].id != self.users@[j].id
        &&& forall|i: int, j: int|
            0 <= i < j < self.users@.len() ==> self.users@[i].username@
                != self.users@[j].username@
        &&& forall|i: int| 0 <= i < self.users@.len() ==> self.users@[i].id < self.next_user_id
    }

    pub open spec fn teacher_rows_wf(&self) -> bool {
        &&& forall|i: int, j: int|
            0 <= i < j < self.subjects_teachers@.len() ==> self.subjects_teachers@[i].id
                < self.subjects_teachers@[j].id
        &&& forall|i: int|
            0 <= i < self.subjects_teachers@.len() ==> self.subjects_teachers@[i].id
                < self.next_subject_teacher_id
        &&& forall|i: int|
            0 <= i < self.subjects_teachers@.len() ==> self.subjects_teachers@[i].subject_id
                < self.next_subject_id
        &&& forall|i: int, j: int|
            0 <= i < j < self.subjects_teachers@.len() ==> !(self.subjects_teachers@[i].subject_id
                == self.subjects_teachers@[j].subject_id && self.subjects_teachers@[i].teacher_id
                == self.subjects_teachers@[j].teacher_id)
    }

    pub open spec fn student_rows_wf(&self) -> bool {
        &&& forall|i: int, j: int|
            0 <= i < j < self.subjects_students@.len() ==> self.subjects_students@[i].id
                < self.subjects_students@[j].id
        &&& forall|i: int|
            0 <= i < self.subjects_students@.len() ==> self.subjects_students@[i].id
                < self.next_subject_students_id
        &&& forall|i: int, j: int|
            0 <= i < j < self.subjects_students@.len() ==> !(self.subjects_students@[i].subject_id
                == self.subjects_students@[j].subject_id && self.subjects_students@[i].student_id
                == self.subjects_students@[j].student_id)
    }

    pub open spec fn mods_wf(&self) -> bool {
        &&& forall|i: int, j: int|
            0 <= i < j < self.modifications@.len() ==> self.modifications@[i].user_id
                != self.modifications@[j].user_id
        &&& forall|i: int|
            0 <= i < self.modifications@.len() ==> self.modifications@[i].entries@.len() <= 25
    }

    pub open spec fn tokens_wf(&self) -> bool {
        token_pairs_injective(token_pairs(self.tokens))
    }

    /// Every operation of the engine keeps this invariant: ids within a
    /// table are unique (strictly increasing where rows are only appended)
    /// and below the table's allocator counter, join tables hold at most one
    /// row per key pair, audit logs are capped and keyed uniquely, and the
    /// token registry is one-to-one.
    pub open spec fn wf(&self) -> bool {
        &&& self.classrooms_wf()
        &&& self.classes_wf()
        &&& self.subjects_wf()
        &&& self.occupancies_wf()
        &&& self.users_wf()
        &&& self.teacher_rows_wf()
        &&& self.student_rows_wf()
        &&& self.mods_wf()
        &&& self.tokens_wf()
    }

    /// Everything of `a` is kept in `b` except the classrooms table, its
    /// allocator and the dirty flag.
    pub open spec fn same_but_classrooms(a: Store, b: Store) -> bool {
        b == (Store {
            classrooms: b.classrooms,
            next_classroom_id: b.next_classroom_id,
            dirty: b.dirty,
            ..a
        })
    }

    pub open spec fn same_but_classes(a: Store, b: Store) -> bool {
        b == (Store { classes: b.classes, next_class_id: b.next_class_id, dirty: b.dirty, ..a })
    }

    pub open spec fn same_but_subjects(a: Store, b: Store) -> bool {
        b == (Store { subjects: b.subjects, next_subject_id: b.next_subject_id, dirty: b.dirty, ..a })
    }

    pub open spec fn same_but_subjects_and_teacher_rows(a: Store, b: Store) -> bool {
        b == (Store {
            subjects: b.subjects,
            subjects_teachers: b.subjects_teachers,
            next_subject_id: b.next_subject_id,
            next_subject_teacher_id: b.next_subject_teacher_id,
            dirty: b.dirty,
            ..a
        })
    }

    pub open spec fn same_but_teacher_rows(a: Store, b: Store) -> bool {
        b == (Store {
            subjects_teachers: b.subjects_teachers,
            next_subject_teacher_id: b.next_subject_teacher_id,
            dirty: b.dirty,
            ..a
        })
    }

    pub open spec fn same_but_student_rows(a: Store, b: Store) -> bool {
        b == (Store {
            subjects_students: b.subjects_students,
            next_subject_students_id: b.next_subject_students_id,
            dirty: b.dirty,
            ..a
        })
    }

    pub open spec fn same_but_users(a: Store, b: Store) -> bool {
        b == (Store { users: b.users, next_user_id: b.next_user_id, dirty: b.dirty, ..a })
    }

    pub open spec fn same_but_users_and_tokens(a: Store, b: Store) -> bool {
        b == (Store { users: b.users, tokens: b.tokens, dirty: b.dirty, ..a })
    }

    pub open spec fn same_but_tokens(a: Store, b: Store) -> bool {
        b == (Store { tokens: b.tokens, dirty: b.dirty, ..a })
    }

    pub open spec fn same_but_modifications(a: Store, b: Store) -> bool {
        b == (Store { modifications: b.modifications, ..a })
    }

    pub open spec fn same_but_occupancies(a: Store, b: Store) -> bool {
        b == (Store {
            occupancies: b.occupancies,
            modifications: b.modifications,
            next_occupancy_id: b.next_occupancy_id,
            dirty: b.dirty,
            ..a
        })
    }

    /// A fresh store: empty tables, counters at zero, no delay, dirty so the
    /// first flush persists it.
    pub fn empty() -> (r: Store)
        ensures
            r.wf(),
            r.dirty,
            r.delay_millis == 0,
            r.users@ == Seq::<User>::empty(),
            r.classrooms@ == Seq::<Classroom>::empty(),
            r.classes@ == Seq::<Class>::empty(),
            r.subjects@ == Seq::<Subject>::empty(),
            r.subjects_teachers@ == Seq::<SubjectTeacher>::empty(),
            r.subjects_students@ == Seq::<StudentSubject>::empty(),
            r.occupancies@ == Seq::<Occupancy>::empty(),
            r.modifications@ == Seq::<UserModifications>::empty(),
            token_pairs(r.tokens) == empty_pairs(),
            r.next_user_id == 0 && r.next_classroom_id == 0 && r.next_class_id == 0
                && r.next_subject_id == 0 && r.next_subject_teacher_id == 0
                && r.next_subject_students_id == 0 && r.next_occupancy_id == 0,
    {
        Store {
            dirty: true,
            delay_millis: 0,
            users: Vec::new(),
            tokens: token_map_new(),
            classrooms: Vec::new(),
            classes: Vec::new(),
            subjects: Vec::new(),
            subjects_teachers: Vec::new(),
            subjects_students: Vec::new(),
            occupancies: Vec::new(),
            modifications: Vec::new(),
            next_user_id: 0,
            next_classroom_id: 0,
            next_class_id: 0,
            next_subject_id: 0,
            next_subject_teacher_id: 0,
            next_subject_students_id: 0,
            next_occupancy_id: 0,
        }
    }

    /// Marks the in-memory state as diverged from the last snapshot.
    pub fn set_dirty(&mut self)
        ensures
            *final(self) == (Store { dirty: true, ..*old(self) }),
    {
        self.dirty = true;
    }

    pub fn is_dirty(&self) -> (r: bool)
        ensures
            r == self.dirty,
    {
        self.dirty
    }

    /// Clears the dirty flag; the persistence layer calls it after writing
    /// a snapshot.
    pub fn mark_clean(&mut self)
        ensures
            *final(self) == (Store { dirty: false, ..*old(self) }),
    {
        self.dirty = false;
    }

    /// Sets the artificial response delay, in milliseconds.
    pub fn delay_set(&mut self, millis: u64)
        ensures
            *final(self) == (Store { delay_millis: millis, dirty: true, ..*old(self) }),
    {
        self.delay_millis = millis;
        self.dirty = true;
    }

    pub fn delay_get(&self) -> (r: u64)
        ensures
            r == self.delay_millis,
    {
        self.delay_millis
    }

    /// The session pairs of the registry, token first, each once, in no
    /// stated order: what a snapshot of the sessions persists.
    pub fn token_entries(&self) -> (r: Vec<(String, String)>)
        ensures
            forall|i: int|
                0 <= i < r@.len() ==> token_pairs(self.tokens).dom().contains(
                    (#[trigger] r@[i]).0@,
                ) && token_pairs(self.tokens)[r@[i].0@] == r@[i].1@,
            forall|i: int, j: int|
                0 <= i < j < r@.len() ==> (#[trigger] r@[i]).0@ != (#[trigger] r@[j]).0@,
            forall|k: Seq<char>|
                token_pairs(self.tokens).dom().contains(k) ==> exists|i: int|
                    0 <= i < r@.len() && (#[trigger] r@[i]).0@ == k,
    {
        token_map_entries(&self.tokens)
    }
}

} // verus!
