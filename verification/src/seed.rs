//! Initial population of the store from the external read-only feeds: base
//! accounts, classrooms, classes, subjects, the cross enrollment of every
//! student into every subject, and the seed calendar's occupancies. A seed
//! event whose classroom, subject or teacher name does not resolve is
//! skipped.

use vstd::prelude::*;

use crate::models::{Class, Classroom, NewClass, NewClassroom, NewOccupancy, NewOccupancySeed,
    NewSubject, NewUser, Occupancy, Subject, SubjectTeacher, User, UserKind};
use crate::store::{enrolled, has_subject, Store};
use crate::tokens::{empty_pairs, token_pairs};
use crate::users::{user_add_rel, users_seeded, lemma_users_seeded_snoc};

verus! {

/// The occupancy carries this seed event's fields, with the classroom,
/// subject and teacher names resolved to live rows carrying the occupancy's
/// ids.
pub open spec fn occupancy_from_event(
    o: Occupancy,
    ev: NewOccupancySeed,
    users: Seq<User>,
    classrooms: Seq<Classroom>,
    subjects: Seq<Subject>,
) -> bool {
    &&& o.start_datetime == ev.start_datetime
    &&& o.end_datetime == ev.end_datetime
    &&& o.occupancy_type == ev.occupancy_type
    &&& o.name@ == ev.name@
    &&& o.group_number == ev.group_number
    &&& exists|i: int|
        0 <= i < classrooms.len() && o.classroom_id == Some((#[trigger] classrooms[i]).id)
            && classrooms[i].name@ == ev.classroom_name@
    &&& exists|i: int|
        0 <= i < subjects.len() && o.subject_id == Some((#[trigger] subjects[i]).id)
            && subjects[i].name@ == ev.subject_name@
    &&& exists|i: int|
        0 <= i < users.len() && o.teacher_id == (#[trigger] users[i]).id && users[i].kind
            is Teacher && users[i].first_name@ == ev.teacher_first_name@ && users[i].last_name@
            == ev.teacher_last_name@
}

/// The occupancy stems from some seed event of the feed.
pub open spec fn seeded_occupancy(
    o: Occupancy,
    feed: Seq<NewOccupancySeed>,
    users: Seq<User>,
    classrooms: Seq<Classroom>,
    subjects: Seq<Subject>,
) -> bool {
    exists|e: int|
        #![trigger feed[e]]
        0 <= e < feed.len() && occupancy_from_event(o, feed[e], users, classrooms, subjects)
}

/// The seed event's classroom, subject and teacher names all resolve against
/// the tables, so seeding schedules it.
pub open spec fn event_resolves(
    ev: NewOccupancySeed,
    users: Seq<User>,
    classrooms: Seq<Classroom>,
    subjects: Seq<Subject>,
) -> bool {
    &&& exists|i: int|
        0 <= i < classrooms.len() && (#[trigger] classrooms[i]).name@ == ev.classroom_name@
    &&& exists|i: int|
        0 <= i < subjects.len() && (#[trigger] subjects[i]).name@ == ev.subject_name@
    &&& exists|i: int|
        0 <= i < users.len() && (#[trigger] users[i]).kind is Teacher && users[i].first_name@
            == ev.teacher_first_name@ && users[i].last_name@ == ev.teacher_last_name@
}

/// How many events of the feed resolve against the tables: exactly the
/// number of occupancies seeding schedules.
pub open spec fn resolving_count(
    feed: Seq<NewOccupancySeed>,
    users: Seq<User>,
    classrooms: Seq<Classroom>,
    subjects: Seq<Subject>,
) -> nat
    decreases feed.len(),
{
    if feed.len() == 0 {
        0
    } else {
        resolving_count(feed.drop_last(), users, classrooms, subjects) + if event_resolves(
            feed.last(),
            users,
            classrooms,
            subjects,
        ) {
            1nat
        } else {
            0nat
        }
    }
}

proof fn lemma_resolving_count_le(
    feed: Seq<NewOccupancySeed>,
    users: Seq<User>,
    classrooms: Seq<Classroom>,
    subjects: Seq<Subject>,
)
    ensures
        resolving_count(feed, users, classrooms, subjects) <= feed.len(),
    decreases feed.len(),
{
    if feed.len() > 0 {
        lemma_resolving_count_le(feed.drop_last(), users, classrooms, subjects);
    }
}

impl Store {
    /// The id of the classroom with this name, if any.
    fn classroom_id_by_name(&self, name: &String) -> (r: Option<u32>)
        ensures
            r matches Some(id) ==> exists|i: int|
                0 <= i < self.classrooms@.len() && (#[trigger] self.classrooms@[i]).id == id
                    && self.classrooms@[i].name@ == name@,
            r is None ==> forall|i: int|
                0 <= i < self.classrooms@.len() ==> (#[trigger] self.classrooms@[i]).name@
                    != name@,
    {
        let mut i: usize = 0;
        while i < self.classrooms.len()
            invariant
                i <= self.classrooms@.len(),
                forall|j: int| 0 <= j < i ==> (#[trigger] self.classrooms@[j]).name@ != name@,
            decreases self.classrooms@.len() - i,
        {
            if self.classrooms[i].name == *name {
                return Some(self.classrooms[i].id);
            }
            i = i + 1;
        }
        None
    }

    /// The id of the subject with this name, if any.
    fn subject_id_by_name(&self, name: &String) -> (r: Option<u32>)
        ensures
            r matches Some(id) ==> exists|i: int|
                0 <= i < self.subjects@.len() && (#[trigger] self.subjects@[i]).id == id
                    && self.subjects@[i].name@ == name@,
            r matches Some(id) ==> has_subject(self.subjects@, id),
            r is None ==> forall|i: int|
                0 <= i < self.subjects@.len() ==> (#[trigger] self.subjects@[i]).name@ != name@,
    {
        let mut i: usize = 0;
        while i < self.subjects.len()
            invariant
                i <= self.subjects@.len(),
                forall|j: int| 0 <= j < i ==> (#[trigger] self.subjects@[j]).name@ != name@,
            decreases self.subjects@.len() - i,
        {
            if self.subjects[i].name == *name {
                return Some(self.subjects[i].id);
            }
            i = i + 1;
        }
        None
    }

    /// The id of the teacher account with this first and last name, if any.
    fn teacher_id_by_name(&self, first_name: &String, last_name: &String) -> (r: Option<u32>)
        ensures
            r matches Some(id) ==> exists|i: int|
                0 <= i < self.users@.len() && (#[trigger] self.users@[i]).id == id
                    && self.users@[i].kind is Teacher && self.users@[i].first_name@ == first_name@
                    && self.users@[i].last_name@ == last_name@,
            r is None ==> forall|i: int|
                0 <= i < self.users@.len() ==> !((#[trigger] self.users@[i]).kind is Teacher
                    && self.users@[i].first_name@ == first_name@ && self.users@[i].last_name@
                    == last_name@),
    {
        let mut i: usize = 0;
        while i < self.users.len()
            invariant
                i <= self.users@.len(),
                forall|j: int|
                    0 <= j < i ==> !((#[trigger] self.users@[j]).kind is Teacher
                        && self.users@[j].first_name@ == first_name@ && self.users@[j].last_name@
                        == last_name@),
            decreases self.users@.len() - i,
        {
            let is_teacher = match &self.users[i].kind {
                UserKind::Teacher(_) => true,
                _ => false,
            };
            if is_teacher && self.users[i].first_name == *first_name && self.users[i].last_name
                == *last_name {
                return Some(self.users[i].id);
            }
            i = i + 1;
        }
        None
    }

    /// Populates the store from the seed feeds: classrooms and accounts
    /// first, then classes and subjects, then every student enrolled in
    /// every subject, then the calendar's occupancies, each stamped `now`.
    pub fn seed(
        &mut self,
        users: Vec<NewUser>,
        classrooms: Vec<NewClassroom>,
        classes: Vec<NewClass>,
        subjects: Vec<NewSubject>,
        occupancies: Vec<NewOccupancySeed>,
        now: u64,
    )
        requires
            old(self).wf(),
            old(self).next_classroom_id + classrooms@.len() <= u32::MAX,
            old(self).next_user_id + users@.len() <= u32::MAX,
            old(self).next_class_id + classes@.len() <= u32::MAX,
            old(self).next_subject_id + subjects@.len() <= u32::MAX,
            old(self).next_subject_teacher_id + subjects@.len() <= u32::MAX,
            old(self).next_subject_students_id + (old(self).users@.len() + users@.len()) * (old(self).subjects@.len() + subjects@.len()) <= u32::MAX,
            old(self).next_occupancy_id + occupancies@.len() <= u32::MAX,
        ensures
            final(self).wf(),
            final(self).dirty,
            final(self).delay_millis == old(self).delay_millis,
            token_pairs(final(self).tokens) == token_pairs(old(self).tokens),
            final(self).classrooms@.len() == old(self).classrooms@.len() + classrooms@.len(),
            forall|j: int|
                0 <= j < old(self).classrooms@.len() ==> final(self).classrooms@[j] == old(self).classrooms@[j],
            forall|j: int|
                0 <= j < classrooms@.len() ==> final(self).classrooms@[old(self).classrooms@.len() + j] == (Classroom {
                    id: (old(self).next_classroom_id + j) as u32,
                    name: classrooms@[j].name,
                    capacity: classrooms@[j].capacity,
                }),
            final(self).next_classroom_id == old(self).next_classroom_id + classrooms@.len(),
            users_seeded(
                old(self).users@,
                old(self).next_user_id,
                final(self).users@,
                final(self).next_user_id,
                users@,
            ),
            final(self).next_user_id == old(self).next_user_id + users@.len(),
            final(self).classes@.len() == old(self).classes@.len() + classes@.len(),
            forall|j: int|
                0 <= j < old(self).classes@.len() ==> final(self).classes@[j] == old(self).classes@[j],
            forall|j: int|
                0 <= j < classes@.len() ==> final(self).classes@[old(self).classes@.len() + j]
                    == (Class {
                    id: (old(self).next_class_id + j) as u32,
                    name: classes@[j].name,
                    level: classes@[j].level,
                }),
            final(self).next_class_id == old(self).next_class_id + classes@.len(),
            final(self).subjects@.len() == old(self).subjects@.len() + subjects@.len(),
            forall|j: int|
                0 <= j < old(self).subjects@.len() ==> final(self).subjects@[j] == old(self).subjects@[j],
            forall|j: int|
                0 <= j < subjects@.len() ==> final(self).subjects@[old(self).subjects@.len() + j]
                    == (Subject {
                    id: (old(self).next_subject_id + j) as u32,
                    class_id: subjects@[j].class_id,
                    name: subjects@[j].name,
                    group_count: 1,
                }),
            final(self).next_subject_id == old(self).next_subject_id + subjects@.len(),
            final(self).subjects_teachers@.len() == old(self).subjects_teachers@.len()
                + subjects@.len(),
            forall|j: int|
                0 <= j < old(self).subjects_teachers@.len() ==> final(self).subjects_teachers@[j]
                    == old(self).subjects_teachers@[j],
            forall|j: int|
                0 <= j < subjects@.len() ==> final(self).subjects_teachers@[old(self).subjects_teachers@.len() + j] == (SubjectTeacher {
                    id: (old(self).next_subject_teacher_id + j) as u32,
                    teacher_id: subjects@[j].teacher_in_charge_id,
                    subject_id: (old(self).next_subject_id + j) as u32,
                    in_charge: true,
                }),
            final(self).next_subject_teacher_id == old(self).next_subject_teacher_id
                + subjects@.len(),
            forall|i: int|
                0 <= i < old(self).subjects_students@.len() ==> final(self).subjects_students@[i]
                    == old(self).subjects_students@[i],
            forall|x: int, y: int|
                0 <= x < final(self).users@.len() && (#[trigger] final(self).users@[x]).kind
                    is Student && 0 <= y < final(self).subjects@.len() ==> enrolled(
                    final(self).subjects_students@,
                    (#[trigger] final(self).subjects@[y]).id,
                    final(self).users@[x].id,
                ),
            forall|i: int|
                old(self).subjects_students@.len() <= i < final(self).subjects_students@.len()
                    ==> (#[trigger] final(self).subjects_students@[i]).group_number == 0,
            forall|i: int|
                0 <= i < old(self).occupancies@.len() ==> final(self).occupancies@[i] == old(self).occupancies@[i],
            forall|i: int|
                old(self).occupancies@.len() <= i < final(self).occupancies@.len()
                    ==> seeded_occupancy(
                    #[trigger] final(self).occupancies@[i],
                    occupancies@,
                    final(self).users@,
                    final(self).classrooms@,
                    final(self).subjects@,
                ),
            final(self).occupancies@.len() == old(self).occupancies@.len() + resolving_count(
                occupancies@,
                final(self).users@,
                final(self).classrooms@,
                final(self).subjects@,
            ),
            final(self).next_occupancy_id == old(self).next_occupancy_id + resolving_count(
                occupancies@,
                final(self).users@,
                final(self).classrooms@,
                final(self).subjects@,
            ),
            forall|e: int|
                0 <= e < occupancies@.len() && #[trigger] event_resolves(
                    occupancies@[e],
                    final(self).users@,
                    final(self).classrooms@,
                    final(self).subjects@,
                ) ==> exists|i: int|
                    old(self).occupancies@.len() <= i < final(self).occupancies@.len()
                        && occupancy_from_event(
                        #[trigger] final(self).occupancies@[i],
                        occupancies@[e],
                        final(self).users@,
                        final(self).classrooms@,
                        final(self).subjects@,
                    ),
    {
        let ghost g0 = *old(self);
        let mut classrooms = classrooms;
        let ghost room_feed = classrooms@;
        while classrooms.len() > 0
            invariant
                self.wf(),
                Store::same_but_classrooms(g0, *self),
                classrooms@.len() <= room_feed.len(),
                classrooms@ =~= room_feed.subrange(
                    room_feed.len() - classrooms@.len(),
                    room_feed.len() as int,
                ),
                g0.next_classroom_id + room_feed.len() <= u32::MAX,
                self.classrooms@.len() == g0.classrooms@.len() + room_feed.len()
                    - classrooms@.len(),
                self.next_classroom_id == g0.next_classroom_id + room_feed.len()
                    - classrooms@.len(),
                forall|j: int|
                    0 <= j < g0.classrooms@.len() ==> self.classrooms@[j] == g0.classrooms@[j],
                forall|j: int|
                    0 <= j < room_feed.len() - classrooms@.len() ==> self.classrooms@[g0.classrooms@.len()
                        + j] == (Classroom {
                        id: (g0.next_classroom_id + j) as u32,
                        name: room_feed[j].name,
                        capacity: room_feed[j].capacity,
                    }),
            decreases classrooms@.len(),
        {
            let ghost p = room_feed.len() - classrooms@.len();
            let c = classrooms.remove(0);
            proof {
                assert(c == room_feed[p]);
                assert(classrooms@ =~= room_feed.subrange(p + 1, room_feed.len() as int));
            }
            self.classroom_add(c);
        }
        let ghost g1 = *self;
        let mut users = users;
        let ghost user_feed = users@;
        proof {
            assert(users_seeded(
                g1.users@,
                g1.next_user_id,
                self.users@,
                self.next_user_id,
                user_feed.take(0),
            ));
        }
        while users.len() > 0
            invariant
                self.wf(),
                Store::same_but_users(g1, *self),
                users@.len() <= user_feed.len(),
                users@ =~= user_feed.subrange(
                    user_feed.len() - users@.len(),
                    user_feed.len() as int,
                ),
                g1.next_user_id + user_feed.len() <= u32::MAX,
                self.next_user_id == g1.next_user_id + user_feed.len() - users@.len(),
                self.users@.len() <= g1.users@.len() + user_feed.len() - users@.len(),
                users_seeded(
                    g1.users@,
                    g1.next_user_id,
                    self.users@,
                    self.next_user_id,
                    user_feed.take(user_feed.len() - users@.len()),
                ),
            decreases users@.len(),
        {
            let ghost p = user_feed.len() - users@.len();
            let u = users.remove(0);
            let ghost gu = u;
            proof {
                assert(gu == user_feed[p]);
                assert(users@ =~= user_feed.subrange(p + 1, user_feed.len() as int));
            }
            let ghost pre_users = self.users@;
            let ghost pre_next = self.next_user_id;
            self.user_add(u);
            proof {
                assert(user_add_rel(pre_users, pre_next, self.users@, self.next_user_id, gu));
                lemma_users_seeded_snoc(
                    g1.users@,
                    g1.next_user_id,
                    pre_users,
                    pre_next,
                    self.users@,
                    self.next_user_id,
                    user_feed.take(p),
                    gu,
                );
                assert(user_feed.take(p + 1) =~= user_feed.take(p).push(gu));
            }
        }
        proof {
            assert(user_feed.take(user_feed.len() as int) =~= user_feed);
        }
        let ghost g2 = *self;
        let mut classes = classes;
        let ghost class_feed = classes@;
        while classes.len() > 0
            invariant
                self.wf(),
                Store::same_but_classes(g2, *self),
                classes@.len() <= class_feed.len(),
                classes@ =~= class_feed.subrange(
                    class_feed.len() - classes@.len(),
                    class_feed.len() as int,
                ),
                g2.next_class_id + class_feed.len() <= u32::MAX,
                self.classes@.len() == g2.classes@.len() + class_feed.len() - classes@.len(),
                self.next_class_id == g2.next_class_id + class_feed.len() - classes@.len(),
                forall|j: int| 0 <= j < g2.classes@.len() ==> self.classes@[j] == g2.classes@[j],
                forall|j: int|
                    0 <= j < class_feed.len() - classes@.len() ==> self.classes@[g2.classes@.len()
                        + j] == (Class {
                        id: (g2.next_class_id + j) as u32,
                        name: class_feed[j].name,
                        level: class_feed[j].level,
                    }),
            decreases classes@.len(),
        {
            let ghost p = class_feed.len() - classes@.len();
            let c = classes.remove(0);
            proof {
                assert(c == class_feed[p]);
                assert(classes@ =~= class_feed.subrange(p + 1, class_feed.len() as int));
            }
            self.class_add(c);
        }
        let ghost g3 = *self;
        let mut subjects = subjects;
        let ghost subject_feed = subjects@;
        while subjects.len() > 0
            invariant
                self.wf(),
                Store::same_but_subjects_and_teacher_rows(g3, *self),
                subjects@.len() <= subject_feed.len(),
                subjects@ =~= subject_feed.subrange(
                    subject_feed.len() - subjects@.len(),
                    subject_feed.len() as int,
                ),
                g3.next_subject_id + subject_feed.len() <= u32::MAX,
                g3.next_subject_teacher_id + subject_feed.len() <= u32::MAX,
                self.subjects@.len() == g3.subjects@.len() + subject_feed.len() - subjects@.len(),
                self.next_subject_id == g3.next_subject_id + subject_feed.len() - subjects@.len(),
                self.subjects_teachers@.len() == g3.subjects_teachers@.len() + subject_feed.len()
                    - subjects@.len(),
                self.next_subject_teacher_id == g3.next_subject_teacher_id + subject_feed.len()
                    - subjects@.len(),
                forall|j: int|
                    0 <= j < g3.subjects@.len() ==> self.subjects@[j] == g3.subjects@[j],
                forall|j: int|
                    0 <= j < subject_feed.len() - subjects@.len() ==> self.subjects@[g3.subjects@.len()
                        + j] == (Subject {
                        id: (g3.next_subject_id + j) as u32,
                        class_id: subject_feed[j].class_id,
                        name: subject_feed[j].name,
                        group_count: 1,
                    }),
                forall|j: int|
                    0 <= j < g3.subjects_teachers@.len() ==> self.subjects_teachers@[j]
                        == g3.subjects_teachers@[j],
                forall|j: int|
                    0 <= j < subject_feed.len() - subjects@.len()
                        ==> self.subjects_teachers@[g3.subjects_teachers@.len() + j]
                        == (SubjectTeacher {
                        id: (g3.next_subject_teacher_id + j) as u32,
                        teacher_id: subject_feed[j].teacher_in_charge_id,
                        subject_id: (g3.next_subject_id + j) as u32,
                        in_charge: true,
                    }),
            decreases subjects@.len(),
        {
            let ghost p = subject_feed.len() - subjects@.len();
            let sdef = subjects.remove(0);
            proof {
                assert(sdef == subject_feed[p]);
                assert(subjects@ =~= subject_feed.subrange(p + 1, subject_feed.len() as int));
            }
            self.subject_add(sdef);
        }
        let ghost g4 = *self;
        let mut student_ids: Vec<u32> = Vec::new();
        let mut i: usize = 0;
        while i < self.users.len()
            invariant
                *self == g4,
                i <= self.users@.len(),
                student_ids@.len() <= i,
                forall|q: int|
                    0 <= q < i && (#[trigger] self.users@[q]).kind is Student
                        ==> student_ids@.contains(self.users@[q].id),
            decreases self.users@.len() - i,
        {
            let is_student = match &self.users[i].kind {
                UserKind::Student(_) => true,
                _ => false,
            };
            let ghost pre_ids = student_ids@;
            if is_student {
                student_ids.push(self.users[i].id);
            }
            proof {
                assert forall|q: int|
                    0 <= q < i + 1 && (#[trigger] self.users@[q]).kind
                        is Student implies student_ids@.contains(self.users@[q].id) by {
                    if q == i as int {
                        assert(student_ids@[student_ids@.len() - 1] == self.users@[q].id);
                    } else {
                        let w = choose|w: int|
                            0 <= w < pre_ids.len() && pre_ids[w] == self.users@[q].id;
                        assert(student_ids@[w] == self.users@[q].id);
                    }
                }
            }
            i = i + 1;
        }
        let mut subject_ids: Vec<u32> = Vec::new();
        let mut i: usize = 0;
        while i < self.subjects.len()
            invariant
                *self == g4,
                i <= self.subjects@.len(),
                subject_ids@.len() == i,
                forall|q: int|
                    0 <= q < i ==> subject_ids@.contains((#[trigger] self.subjects@[q]).id),
            decreases self.subjects@.len() - i,
        {
            let ghost pre_ids = subject_ids@;
            subject_ids.push(self.subjects[i].id);
            proof {
                assert forall|q: int|
                    0 <= q < i + 1 implies subject_ids@.contains(
                    (#[trigger] self.subjects@[q]).id,
                ) by {
                    if q == i as int {
                        assert(subject_ids@[subject_ids@.len() - 1] == self.subjects@[q].id);
                    } else {
                        let w = choose|w: int|
                            0 <= w < pre_ids.len() && pre_ids[w] == self.subjects@[q].id;
                        assert(subject_ids@[w] == self.subjects@[q].id);
                    }
                }
            }
            i = i + 1;
        }
        proof {
            assert(self.next_subject_students_id == g0.next_subject_students_id);
            assert(self.users@.len() <= g0.users@.len() + user_feed.len());
            assert(self.subjects@.len() == g0.subjects@.len() + subject_feed.len());
            assert(student_ids@.len() <= self.users@.len());
            assert(subject_ids@.len() == self.subjects@.len());
            assert(student_ids@.len() * subject_ids@.len() <= (g0.users@.len()
                + user_feed.len()) * (g0.subjects@.len() + subject_feed.len()))
                by (nonlinear_arith)
                requires
                    0 <= student_ids@.len() <= g0.users@.len() + user_feed.len(),
                    0 <= subject_ids@.len() <= g0.subjects@.len() + subject_feed.len(),
            ;
        }
        let ghost ss_base = self.next_subject_students_id;
        let mut a: usize = 0;
        while a < student_ids.len()
            invariant
                self.wf(),
                Store::same_but_student_rows(g4, *self),
                a <= student_ids@.len(),
                g4.subjects_students@.len() <= self.subjects_students@.len(),
                ss_base + student_ids@.len() * subject_ids@.len() <= u32::MAX,
                self.next_subject_students_id <= ss_base + a * subject_ids@.len(),
                forall|i: int|
                    0 <= i < g4.subjects_students@.len() ==> self.subjects_students@[i]
                        == g4.subjects_students@[i],
                forall|i: int|
                    g4.subjects_students@.len() <= i < self.subjects_students@.len() ==> (
                    #[trigger] self.subjects_students@[i]).group_number == 0,
                forall|x: int, y: int|
                    0 <= x < a && 0 <= y < subject_ids@.len() ==> enrolled(
                        self.subjects_students@,
                        #[trigger] subject_ids@[y],
                        #[trigger] student_ids@[x],
                    ),
            decreases student_ids@.len() - a,
        {
            let mut b: usize = 0;
            while b < subject_ids.len()
                invariant
                    self.wf(),
                    Store::same_but_student_rows(g4, *self),
                    a < student_ids@.len(),
                    b <= subject_ids@.len(),
                    g4.subjects_students@.len() <= self.subjects_students@.len(),
                    ss_base + student_ids@.len() * subject_ids@.len() <= u32::MAX,
                    self.next_subject_students_id <= ss_base + a * subject_ids@.len() + b,
                    forall|i: int|
                        0 <= i < g4.subjects_students@.len() ==> self.subjects_students@[i]
                            == g4.subjects_students@[i],
                    forall|i: int|
                        g4.subjects_students@.len() <= i < self.subjects_students@.len() ==> (
                        #[trigger] self.subjects_students@[i]).group_number == 0,
                    forall|x: int, y: int|
                        0 <= x < a && 0 <= y < subject_ids@.len() ==> enrolled(
                            self.subjects_students@,
                            #[trigger] subject_ids@[y],
                            #[trigger] student_ids@[x],
                        ),
                    forall|y: int|
                        0 <= y < b ==> enrolled(
                            self.subjects_students@,
                            #[trigger] subject_ids@[y],
                            student_ids@[a as int],
                        ),
                decreases subject_ids@.len() - b,
            {
                proof {
                    assert(a * subject_ids@.len() + b < student_ids@.len() * subject_ids@.len())
                        by (nonlinear_arith)
                        requires
                            0 <= a < student_ids@.len(),
                            0 <= b < subject_ids@.len(),
                    ;
                }
                let ghost pre = *self;
                self.subject_add_student(subject_ids[b], student_ids[a]);
                proof {
                    assert forall|i2: int|
                        0 <= i2 < pre.subjects_students@.len() implies self.subjects_students@[i2]
                        == pre.subjects_students@[i2] by {}
                    assert forall|x: int, y: int|
                        0 <= x < a && 0 <= y < subject_ids@.len() implies enrolled(
                        self.subjects_students@,
                        #[trigger] subject_ids@[y],
                        #[trigger] student_ids@[x],
                    ) by {
                        let w = choose|w: int|
                            0 <= w < pre.subjects_students@.len()
                                && pre.subjects_students@[w].subject_id == subject_ids@[y]
                                && pre.subjects_students@[w].student_id == student_ids@[x];
                        assert(self.subjects_students@[w] == pre.subjects_students@[w]);
                    }
                    assert forall|y: int| 0 <= y < b + 1 implies enrolled(
                        self.subjects_students@,
                        #[trigger] subject_ids@[y],
                        student_ids@[a as int],
                    ) by {
                        if y < b {
                            let w = choose|w: int|
                                0 <= w < pre.subjects_students@.len()
                                    && pre.subjects_students@[w].subject_id == subject_ids@[y]
                                    && pre.subjects_students@[w].student_id
                                    == student_ids@[a as int];
                            assert(self.subjects_students@[w] == pre.subjects_students@[w]);
                        }
                    }
                }
                b = b + 1;
            }
            proof {
                assert(a * subject_ids@.len() + subject_ids@.len() == (a + 1)
                    * subject_ids@.len()) by (nonlinear_arith);
            }
            a = a + 1;
        }
        proof {
            assert forall|x: int, y: int|
                0 <= x < self.users@.len() && (#[trigger] self.users@[x]).kind is Student && 0 <= y
                    < self.subjects@.len() implies enrolled(
                self.subjects_students@,
                (#[trigger] self.subjects@[y]).id,
                self.users@[x].id,
            ) by {
                assert(student_ids@.contains(self.users@[x].id));
                let sx = choose|sx: int|
                    0 <= sx < student_ids@.len() && student_ids@[sx] == self.users@[x].id;
                assert(subject_ids@.contains(self.subjects@[y].id));
                let sy = choose|sy: int|
                    0 <= sy < subject_ids@.len() && subject_ids@[sy] == self.subjects@[y].id;
                assert(enrolled(self.subjects_students@, subject_ids@[sy], student_ids@[sx]));
            }
        }
        let ghost g5 = *self;
        let mut occupancies = occupancies;
        let ghost occ_feed = occupancies@;
        proof {
            assert(self.next_occupancy_id == g0.next_occupancy_id);
            assert(resolving_count(
                occ_feed.take(0),
                self.users@,
                self.classrooms@,
                self.subjects@,
            ) == 0);
        }
        while occupancies.len() > 0
            invariant
                self.wf(),
                Store::same_but_occupancies(g5, *self),
                occupancies@.len() <= occ_feed.len(),
                occupancies@ =~= occ_feed.subrange(
                    occ_feed.len() - occupancies@.len(),
                    occ_feed.len() as int,
                ),
                g5.next_occupancy_id + occ_feed.len() <= u32::MAX,
                g5.occupancies@.len() <= self.occupancies@.len(),
                self.occupancies@.len() == g5.occupancies@.len() + resolving_count(
                    occ_feed.take(occ_feed.len() - occupancies@.len()),
                    self.users@,
                    self.classrooms@,
                    self.subjects@,
                ),
                self.next_occupancy_id == g5.next_occupancy_id + self.occupancies@.len()
                    - g5.occupancies@.len(),
                forall|i: int|
                    0 <= i < g5.occupancies@.len() ==> self.occupancies@[i] == g5.occupancies@[i],
                forall|i: int|
                    g5.occupancies@.len() <= i < self.occupancies@.len() ==> seeded_occupancy(
                        #[trigger] self.occupancies@[i],
                        occ_feed,
                        self.users@,
                        self.classrooms@,
                        self.subjects@,
                    ),
                forall|e: int|
                    0 <= e < occ_feed.len() - occupancies@.len() && #[trigger] event_resolves(
                        occ_feed[e],
                        self.users@,
                        self.classrooms@,
                        self.subjects@,
                    ) ==> exists|i: int|
                        g5.occupancies@.len() <= i < self.occupancies@.len()
                            && occupancy_from_event(
                            #[trigger] self.occupancies@[i],
                            occ_feed[e],
                            self.users@,
                            self.classrooms@,
                            self.subjects@,
                        ),
            decreases occupancies@.len(),
        {
            let ghost p = occ_feed.len() - occupancies@.len();
            let ev = occupancies.remove(0);
            let ghost gev = ev;
            proof {
                assert(gev == occ_feed[p]);
                assert(occupancies@ =~= occ_feed.subrange(p + 1, occ_feed.len() as int));
                assert(occ_feed.take(p + 1) =~= occ_feed.take(p).push(occ_feed[p]));
                assert(occ_feed.take(p + 1).drop_last() =~= occ_feed.take(p));
                lemma_resolving_count_le(
                    occ_feed.take(p),
                    self.users@,
                    self.classrooms@,
                    self.subjects@,
                );
            }
            let classroom_id = self.classroom_id_by_name(&ev.classroom_name);
            let subject_id = self.subject_id_by_name(&ev.subject_name);
            let teacher_id = self.teacher_id_by_name(&ev.teacher_first_name, &ev.teacher_last_name);
            match (classroom_id, subject_id, teacher_id) {
                (Some(room), Some(sid), Some(teacher)) => {
                    proof {
                        assert(event_resolves(
                            gev,
                            self.users@,
                            self.classrooms@,
                            self.subjects@,
                        ));
                    }
                    let o = NewOccupancy {
                        classroom_id: Some(room),
                        group_number: ev.group_number,
                        subject_id: Some(sid),
                        teacher_id: teacher,
                        start_datetime: ev.start_datetime,
                        end_datetime: ev.end_datetime,
                        occupancy_type: ev.occupancy_type,
                        name: ev.name,
                    };
                    let ghost pre = *self;
                    self.occupancies_add(o, now);
                    proof {
                        let pushed = self.occupancies@[self.occupancies@.len() - 1];
                        assert(pushed.name@ == gev.name@);
                        assert(occupancy_from_event(
                            pushed,
                            gev,
                            self.users@,
                            self.classrooms@,
                            self.subjects@,
                        ));
                        assert(seeded_occupancy(
                            pushed,
                            occ_feed,
                            self.users@,
                            self.classrooms@,
                            self.subjects@,
                        ));
                        assert(forall|i2: int|
                            0 <= i2 < pre.occupancies@.len() ==> self.occupancies@[i2]
                                == pre.occupancies@[i2]);
                        assert forall|i2: int|
                            g5.occupancies@.len() <= i2 < self.occupancies@.len()
                                implies seeded_occupancy(
                            #[trigger] self.occupancies@[i2],
                            occ_feed,
                            self.users@,
                            self.classrooms@,
                            self.subjects@,
                        ) by {
                            if i2 < pre.occupancies@.len() {
                                assert(self.occupancies@[i2] == pre.occupancies@[i2]);
                            }
                        }
                        assert forall|e: int|
                            0 <= e < p + 1 && #[trigger] event_resolves(
                                occ_feed[e],
                                self.users@,
                                self.classrooms@,
                                self.subjects@,
                            ) implies exists|i: int|
                            g5.occupancies@.len() <= i < self.occupancies@.len()
                                && occupancy_from_event(
                                #[trigger] self.occupancies@[i],
                                occ_feed[e],
                                self.users@,
                                self.classrooms@,
                                self.subjects@,
                            ) by {
                            if e == p {
                                assert(occupancy_from_event(
                                    self.occupancies@[self.occupancies@.len() - 1],
                                    occ_feed[e],
                                    self.users@,
                                    self.classrooms@,
                                    self.subjects@,
                                ));
                            } else {
                                let w = choose|w: int|
                                    g5.occupancies@.len() <= w < pre.occupancies@.len()
                                        && occupancy_from_event(
                                        pre.occupancies@[w],
                                        occ_feed[e],
                                        self.users@,
                                        self.classrooms@,
                                        self.subjects@,
                                    );
                                assert(self.occupancies@[w] == pre.occupancies@[w]);
                            }
                        }
                    }
                },
                _ => {
                    proof {
                        assert(!event_resolves(
                            gev,
                            self.users@,
                            self.classrooms@,
                            self.subjects@,
                        ));
                    }
                },
            }
        }
        proof {
            assert(occ_feed.take(occ_feed.len() as int) =~= occ_feed);
        }
        self.dirty = true;
    }

    /// Clears every table, counter and token, then reseeds from the feeds:
    /// the seeded rows carry ids restarting from zero.
    pub fn reset(
        &mut self,
        users: Vec<NewUser>,
        classrooms: Vec<NewClassroom>,
        classes: Vec<NewClass>,
        subjects: Vec<NewSubject>,
        occupancies: Vec<NewOccupancySeed>,
        now: u64,
    )
        requires
            classrooms@.len() <= u32::MAX,
            users@.len() <= u32::MAX,
            classes@.len() <= u32::MAX,
            subjects@.len() <= u32::MAX,
            users@.len() * subjects@.len() <= u32::MAX,
            occupancies@.len() <= u32::MAX,
        ensures
            final(self).wf(),
            final(self).dirty,
            final(self).delay_millis == 0,
            token_pairs(final(self).tokens) == empty_pairs(),
            final(self).classrooms@.len() == classrooms@.len(),
            forall|j: int|
                0 <= j < classrooms@.len() ==> final(self).classrooms@[j] == (Classroom {
                    id: j as u32,
                    name: classrooms@[j].name,
                    capacity: classrooms@[j].capacity,
                }),
            final(self).next_classroom_id == classrooms@.len(),
            users_seeded(
                Seq::<User>::empty(),
                0,
                final(self).users@,
                final(self).next_user_id,
                users@,
            ),
            final(self).next_user_id == users@.len(),
            final(self).classes@.len() == classes@.len(),
            forall|j: int|
                0 <= j < classes@.len() ==> final(self).classes@[j] == (Class {
                    id: j as u32,
                    name: classes@[j].name,
                    level: classes@[j].level,
                }),
            final(self).next_class_id == classes@.len(),
            final(self).subjects@.len() == subjects@.len(),
            forall|j: int|
                0 <= j < subjects@.len() ==> final(self).subjects@[j] == (Subject {
                    id: j as u32,
                    class_id: subjects@[j].class_id,
                    name: subjects@[j].name,
                    group_count: 1,
                }),
            final(self).next_subject_id == subjects@.len(),
            final(self).subjects_teachers@.len() == subjects@.len(),
            forall|j: int|
                0 <= j < subjects@.len() ==> final(self).subjects_teachers@[j] == (SubjectTeacher {
                    id: j as u32,
                    teacher_id: subjects@[j].teacher_in_charge_id,
                    subject_id: j as u32,
                    in_charge: true,
                }),
            final(self).next_subject_teacher_id == subjects@.len(),
            forall|x: int, y: int|
                0 <= x < final(self).users@.len() && (#[trigger] final(self).users@[x]).kind
                    is Student && 0 <= y < final(self).subjects@.len() ==> enrolled(
                    final(self).subjects_students@,
                    (#[trigger] final(self).subjects@[y]).id,
                    final(self).users@[x].id,
                ),
            forall|i: int|
                0 <= i < final(self).subjects_students@.len() ==> (#[trigger] final(self).subjects_students@[i]).group_number == 0,
            forall|i: int|
                0 <= i < final(self).occupancies@.len() ==> seeded_occupancy(
                    #[trigger] final(self).occupancies@[i],
                    occupancies@,
                    final(self).users@,
                    final(self).classrooms@,
                    final(self).subjects@,
                ),
            final(self).occupancies@.len() == resolving_count(
                occupancies@,
                final(self).users@,
                final(self).classrooms@,
                final(self).subjects@,
            ),
            final(self).next_occupancy_id == resolving_count(
                occupancies@,
                final(self).users@,
                final(self).classrooms@,
                final(self).subjects@,
            ),
            forall|e: int|
                0 <= e < occupancies@.len() && #[trigger] event_resolves(
                    occupancies@[e],
                    final(self).users@,
                    final(self).classrooms@,
                    final(self).subjects@,
                ) ==> exists|i: int|
                    0 <= i < final(self).occupancies@.len() && occupancy_from_event(
                        #[trigger] final(self).occupancies@[i],
                        occupancies@[e],
                        final(self).users@,
                        final(self).classrooms@,
                        final(self).subjects@,
                    ),
    {
        *self = Store::empty();
        self.seed(users, classrooms, classes, subjects, occupancies, now);
    }
}

} // verus!
