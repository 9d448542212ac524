//! Entity types of the roster: people, rooms, cohorts, subjects, join rows,
//! scheduled sessions and audit records, plus the plain-data request shapes
//! that the engine's operations take.

use vstd::prelude::*;
use vstd::string::StringExecFns;

verus! {

/// A physical room with a seating capacity.
pub struct Classroom {
    pub id: u32,
    pub name: String,
    pub capacity: u16,
}

impl Clone for Classroom {
    fn clone(&self) -> (r: Self)
        ensures
            r == *self,
    {
        Classroom { id: self.id, name: self.name.clone(), capacity: self.capacity }
    }
}

/// An account: administrator, teacher or student, with role-specific data.
pub struct User {
    pub id: u32,
    pub first_name: String,
    pub last_name: String,
    pub username: String,
    pub password: String,
    pub kind: UserKind,
}

impl User {
    /// The display name, also the sort key of group distribution.
    pub open spec fn full_name_view(&self) -> Seq<char> {
        self.first_name@ + " "@ + self.last_name@
    }

    pub fn full_name(&self) -> (r: String)
        ensures
            r@ == self.full_name_view(),
    {
        let mut s = self.first_name.clone();
        s.append(" ");
        s.append(self.last_name.as_str());
        s
    }
}

impl Clone for User {
    fn clone(&self) -> (r: Self)
        ensures
            r == *self,
    {
        User {
            id: self.id,
            first_name: self.first_name.clone(),
            last_name: self.last_name.clone(),
            username: self.username.clone(),
            password: self.password.clone(),
            kind: self.kind.clone(),
        }
    }
}

/// The closed sum of account roles.
pub enum UserKind {
    Administrator,
    Teacher(TeacherInformations),
    Student(StudentInformations),
}

impl UserKind {
    pub fn is_administrator(&self) -> (r: bool)
        ensures
            r == (self is Administrator),
    {
        match self {
            UserKind::Administrator => true,
            _ => false,
        }
    }
}

impl Clone for UserKind {
    fn clone(&self) -> (r: Self)
        ensures
            r == *self,
    {
        match self {
            UserKind::Administrator => UserKind::Administrator,
            UserKind::Teacher(t) => UserKind::Teacher(t.clone()),
            UserKind::Student(s) => UserKind::Student(*s),
        }
    }
}

/// Contact details and rank of a teacher account.
pub struct TeacherInformations {
    pub phone_number: Option<String>,
    pub email: Option<String>,
    pub rank: Rank,
}

impl Clone for TeacherInformations {
    fn clone(&self) -> (r: Self)
        ensures
            r == *self,
    {
        TeacherInformations {
            phone_number: match &self.phone_number {
                Some(p) => Some(p.clone()),
                None => None,
            },
            email: match &self.email {
                Some(e) => Some(e.clone()),
                None => None,
            },
            rank: self.rank,
        }
    }
}

/// Academic rank of a teacher.
#[derive(Clone, Copy, PartialEq, Eq, Structural, Debug)]
pub enum Rank {
    Lecturer,
    Professor,
    PRAG,
    ATER,
    PAST,
    Monitor,
}

/// The cohort a student account belongs to.
#[derive(Clone, Copy, PartialEq, Eq, Structural, Debug)]
pub struct StudentInformations {
    pub class_id: u32,
}

/// A cohort of students following the same curriculum year.
pub struct Class {
    pub id: u32,
    pub name: String,
    pub level: ClassLevel,
}

impl Clone for Class {
    fn clone(&self) -> (r: Self)
        ensures
            r == *self,
    {
        Class { id: self.id, name: self.name.clone(), level: self.level }
    }
}

/// Curriculum year of a cohort.
#[derive(Clone, Copy, PartialEq, Eq, Structural, Debug)]
pub enum ClassLevel {
    L1,
    L2,
    L3,
    M1,
    M2,
}

/// A taught subject, owned by exactly one class, split into `group_count` groups.
pub struct Subject {
    pub id: u32,
    pub class_id: u32,
    pub name: String,
    pub group_count: u32,
}

impl Clone for Subject {
    fn clone(&self) -> (r: Self)
        ensures
            r == *self,
    {
        Subject {
            id: self.id,
            class_id: self.class_id,
            name: self.name.clone(),
            group_count: self.group_count,
        }
    }
}

/// Join row: a teacher teaches a subject, possibly as the one in charge.
#[derive(Clone, Copy, PartialEq, Eq, Structural, Debug)]
pub struct SubjectTeacher {
    pub id: u32,
    pub teacher_id: u32,
    pub subject_id: u32,
    pub in_charge: bool,
}

/// Join row: a student is enrolled in a subject within one group.
#[derive(Clone, Copy, PartialEq, Eq, Structural, Debug)]
pub struct StudentSubject {
    pub id: u32,
    pub subject_id: u32,
    pub student_id: u32,
    pub group_number: u32,
}

/// A scheduled session over a time window, in epoch seconds.
pub struct Occupancy {
    pub id: u32,
    pub classroom_id: Option<u32>,
    pub group_number: Option<u32>,
    pub subject_id: Option<u32>,
    pub teacher_id: u32,
    pub start_datetime: u64,
    pub end_datetime: u64,
    pub occupancy_type: OccupancyType,
    pub name: String,
}

impl Clone for Occupancy {
    fn clone(&self) -> (r: Self)
        ensures
            r == *self,
    {
        Occupancy {
            id: self.id,
            classroom_id: self.classroom_id,
            group_number: self.group_number,
            subject_id: self.subject_id,
            teacher_id: self.teacher_id,
            start_datetime: self.start_datetime,
            end_datetime: self.end_datetime,
            occupancy_type: self.occupancy_type,
            name: self.name.clone(),
        }
    }
}

/// The kind of session: lecture, tutorial, lab, project, administrative, external.
#[derive(Clone, Copy, PartialEq, Eq, Structural, Debug)]
pub enum OccupancyType {
    CM,
    TD,
    TP,
    Projet,
    Administration,
    External,
}

/// One audit record: what happened to an occupancy, and when.
#[derive(Clone, Copy)]
pub struct Modification {
    pub modification_type: ModificationType,
    pub modification_timestamp: u64,
    pub occupancy: ModificationOccupancy,
}

/// Snapshot of the occupancy fields an audit record captures.
#[derive(Clone, Copy)]
pub struct ModificationOccupancy {
    pub subject_id: Option<u32>,
    pub class_id: Option<u32>,
    pub occupancy_type: OccupancyType,
    pub occupancy_start: u64,
    pub occupancy_end: u64,
    pub previous_occupancy_start: u64,
    pub previous_occupancy_end: u64,
}

/// What an audit record says was done.
#[derive(Clone, Copy, PartialEq, Eq, Structural, Debug)]
pub enum ModificationType {
    Create,
    Edit,
    Delete,
}

/// Role filter used by guards and by the user listing.
#[derive(Clone, Copy, PartialEq, Eq, Structural, Debug)]
pub enum PossibleUserKind {
    Administrator,
    Teacher,
    Student,
}

/// The kind of a seed calendar event.
#[derive(Clone, Copy, PartialEq, Eq, Structural, Debug)]
pub enum EventType {
    CM,
    TD,
    TP,
    Projet,
}

/// A name from the seed student-name feed.
pub struct StudentName {
    pub first_name: String,
    pub last_name: String,
}

/// Request to create a user account.
pub struct NewUser {
    pub first_name: String,
    pub last_name: String,
    pub password: String,
    pub kind: UserKind,
}

/// Request to create a classroom.
pub struct NewClassroom {
    pub name: String,
    pub capacity: u16,
}

/// Partial update of a classroom.
pub struct ClassroomUpdate {
    pub name: Option<String>,
}

/// Outcome of a targeted update: whether the row exists, and whether it changed.
#[derive(Clone, Copy, PartialEq, Eq, Structural, Debug)]
pub struct UpdateStatus {
    pub found: bool,
    pub updated: bool,
}

/// Request to create a class.
pub struct NewClass {
    pub name: String,
    pub level: ClassLevel,
}

/// Partial update of a class.
pub struct ClassUpdate {
    pub name: Option<String>,
    pub level: Option<ClassLevel>,
}

/// Request to create a subject; the named teacher starts in charge.
pub struct NewSubject {
    pub class_id: u32,
    pub name: String,
    pub teacher_in_charge_id: u32,
}

/// Partial update of a subject.
pub struct SubjectUpdate {
    pub class_id: Option<u32>,
    pub name: Option<String>,
    pub teacher_in_charge_id: Option<u32>,
}

/// Request to schedule a session, with resolved ids.
pub struct NewOccupancy {
    pub classroom_id: Option<u32>,
    pub group_number: Option<u32>,
    pub subject_id: Option<u32>,
    pub teacher_id: u32,
    pub start_datetime: u64,
    pub end_datetime: u64,
    pub occupancy_type: OccupancyType,
    pub name: String,
}

/// Request to schedule a session from the seed feed, with names not yet resolved.
pub struct NewOccupancySeed {
    pub classroom_name: String,
    pub group_number: Option<u32>,
    pub subject_name: String,
    pub teacher_first_name: String,
    pub teacher_last_name: String,
    pub start_datetime: u64,
    pub end_datetime: u64,
    pub occupancy_type: OccupancyType,
    pub name: String,
}

/// Partial update of an occupancy.
pub struct OccupancyUpdate {
    pub classroom_id: Option<u32>,
    pub start: Option<u64>,
    pub end: Option<u64>,
    pub name: Option<String>,
}

} // verus!
