//! Plain response and request shapes of the operation set, and the guard
//! helpers the transport layer leans on: error codes, success envelopes,
//! page-number normalization, and bearer-header parsing.

use vstd::prelude::*;

use crate::models::{Modification, ModificationType, Occupancy, OccupancyType, PossibleUserKind,
    UserKind};
use crate::store::{has_class, has_classroom, has_subject, has_user_id, log_of, Store};
use crate::text::ascii_bytes_to_string;

verus! {

/// Marker for a request whose body could not be understood.
#[derive(Clone, Copy, Debug)]
pub struct Malformed;

/// Marker for a request without a valid session.
#[derive(Clone, Copy, Debug)]
pub struct Forbidden;

/// Marker for a session whose role does not allow the request.
#[derive(Clone, Copy, Debug)]
pub struct Unauthorized;

/// Every failure the operation set can report.
#[derive(Clone, Copy, PartialEq, Eq, Structural, Debug)]
pub enum ErrorCode {
    InvalidCredentials,
    InsufficientAuthorization,
    MalformedData,
    InvalidOldPassword,
    PasswordTooSimple,
    InvalidEmail,
    InvalidPhoneNumber,
    InvalidRank,
    InvalidID,
    InvalidCapacity,
    TeacherInCharge,
    ClassroomUsed,
    InvalidLevel,
    ClassUsed,
    StudentInClass,
    SubjectUsed,
    TeacherNotInCharge,
    LastTeacherInSubject,
    LastGroupInSubject,
    ClassroomAlreadyOccupied,
    ClassOrGroupAlreadyOccupied,
    InvalidOccupancyType,
    EndBeforeStart,
    TeacherDoesNotTeach,
    IllegalOccupancyType,
    Unknown,
    NotFound,
    IllegalRequest,
}

/// A failure envelope.
pub struct FailureResponse {
    pub status: &'static str,
    pub code: ErrorCode,
}

impl FailureResponse {
    pub fn new(code: ErrorCode) -> (r: Self)
        ensures
            r.code == code,
            r.status@ == "error"@,
    {
        FailureResponse { status: "error", code }
    }
}

/// A bare success envelope.
pub struct SimpleSuccessResponse {
    pub status: &'static str,
}

impl SimpleSuccessResponse {
    pub fn new() -> (r: Self)
        ensures
            r.status@ == "success"@,
    {
        SimpleSuccessResponse { status: "success" }
    }
}

/// A list request: an optional substring query and an optional page number.
pub struct PaginatedQueryableListRequest {
    pub query: Option<String>,
    pub page: Option<usize>,
}

impl PaginatedQueryableListRequest {
    /// The page to serve: the requested one, or one when the request names
    /// none or an out-of-range number.
    pub fn normalized_page_number(&self) -> (r: usize)
        ensures
            r == (match self.page {
                Option::Some(v) => if v >= 1 {
                    v
                } else {
                    1
                },
                Option::None => 1,
            }),
            r >= 1,
    {
        match self.page {
            Some(v) => if v >= 1 {
                v
            } else {
                1
            },
            None => 1,
        }
    }
}

/// The envelope returned after creating an account, echoing the generated
/// credentials once.
pub struct AccountCreatedResponse {
    pub status: &'static str,
    pub username: String,
    pub password: String,
}

/// A window plus page-size cap for occupancy listings.
pub struct OccupanciesRequest {
    pub start: Option<u64>,
    pub end: Option<u64>,
    pub occupancies_per_day: Option<u32>,
}

/// One occupancy of a listing, with its names resolved.
pub struct OccupanciesListElement {
    pub id: u32,
    pub classroom_name: Option<String>,
    pub group_name: Option<String>,
    pub subject_name: Option<String>,
    pub teacher_name: String,
    pub start: u64,
    pub end: u64,
    pub occupancy_type: OccupancyType,
    pub class_name: Option<String>,
    pub name: String,
}

/// One day of an occupancy listing.
pub struct OccupanciesListItemResponse {
    pub date: String,
    pub occupancies: Vec<OccupanciesListElement>,
}

/// An occupancy listing grouped by day.
pub struct OccupanciesListResponse {
    pub status: &'static str,
    pub days: Vec<OccupanciesListItemResponse>,
}

/// One audit record of a profile's history, with its names resolved.
pub struct ModificationResponse {
    pub modification_type: ModificationType,
    pub modification_timestamp: u64,
    pub occupancy: ModificationOccupancyResponse,
}

/// The occupancy snapshot of an audit record, with its names resolved.
pub struct ModificationOccupancyResponse {
    pub subject_name: Option<String>,
    pub class_name: Option<String>,
    pub occupancy_type: OccupancyType,
    pub occupancy_start: u64,
    pub occupancy_end: u64,
    pub previous_occupancy_start: u64,
    pub previous_occupancy_end: u64,
}


/// The resolved subject name of an audit record: the live subject's name
/// when the record names one, nothing otherwise.
pub open spec fn resolved_subject_name(subjects: Seq<crate::models::Subject>, sid: Option<u32>) -> Option<
    Seq<char>,
> {
    match sid {
        Option::None => Option::None,
        Option::Some(id) => if has_subject(subjects, id) {
            let w = choose|i: int| 0 <= i < subjects.len() && subjects[i].id == id;
            Option::Some(subjects[w].name@)
        } else {
            Option::None
        },
    }
}

/// The resolved class name of an audit record.
pub open spec fn resolved_class_name(classes: Seq<crate::models::Class>, cid: Option<u32>) -> Option<
    Seq<char>,
> {
    match cid {
        Option::None => Option::None,
        Option::Some(id) => if has_class(classes, id) {
            let w = choose|i: int| 0 <= i < classes.len() && classes[i].id == id;
            Option::Some(classes[w].name@)
        } else {
            Option::None
        },
    }
}

/// The response view of one audit record against the given tables.
pub open spec fn modification_resolved(
    r: ModificationResponse,
    m: Modification,
    subjects: Seq<crate::models::Subject>,
    classes: Seq<crate::models::Class>,
) -> bool {
    &&& r.modification_type == m.modification_type
    &&& r.modification_timestamp == m.modification_timestamp
    &&& r.occupancy.occupancy_type == m.occupancy.occupancy_type
    &&& r.occupancy.occupancy_start == m.occupancy.occupancy_start
    &&& r.occupancy.occupancy_end == m.occupancy.occupancy_end
    &&& r.occupancy.previous_occupancy_start == m.occupancy.previous_occupancy_start
    &&& r.occupancy.previous_occupancy_end == m.occupancy.previous_occupancy_end
    &&& (match r.occupancy.subject_name {
        Option::None => resolved_subject_name(subjects, m.occupancy.subject_id) is None,
        Option::Some(n) => resolved_subject_name(subjects, m.occupancy.subject_id) == Option::Some(
            n@,
        ),
    })
    &&& (match r.occupancy.class_name {
        Option::None => resolved_class_name(classes, m.occupancy.class_id) is None,
        Option::Some(n) => resolved_class_name(classes, m.occupancy.class_id) == Option::Some(n@),
    })
}

impl Store {
    /// The user's audit log with subject and class names resolved against
    /// the live tables, newest record first.
    pub fn modifications_response(&self, user_id: u32) -> (r: Vec<ModificationResponse>)
        requires
            self.wf(),
        ensures
            r@.len() == log_of(self.modifications@, user_id).len(),
            forall|i: int|
                0 <= i < r@.len() ==> modification_resolved(
                    #[trigger] r@[i],
                    log_of(self.modifications@, user_id)[i],
                    self.subjects@,
                    self.classes@,
                ),
    {
        let records = self.last_occupancies_modifications(user_id);
        let mut out: Vec<ModificationResponse> = Vec::new();
        let mut i: usize = 0;
        while i < records.len()
            invariant
                self.wf(),
                records@ == log_of(self.modifications@, user_id),
                i <= records@.len(),
                out@.len() == i,
                forall|q: int|
                    0 <= q < i ==> modification_resolved(
                        #[trigger] out@[q],
                        records@[q],
                        self.subjects@,
                        self.classes@,
                    ),
            decreases records@.len() - i,
        {
            let m = records[i];
            let subject_name = match m.occupancy.subject_id {
                Some(id) => match self.subject_get(id) {
                    Some(sub) => {
                        proof {
                            let v = choose|v: int|
                                0 <= v < self.subjects@.len() && self.subjects@[v] == *sub;
                            let w = choose|w: int|
                                0 <= w < self.subjects@.len() && self.subjects@[w].id == id;
                            if v != w {
                                if v < w {
                                    assert(self.subjects@[v].id < self.subjects@[w].id);
                                } else {
                                    assert(self.subjects@[w].id < self.subjects@[v].id);
                                }
                            }
                        }
                        Some(sub.name.clone())
                    },
                    None => None,
                },
                None => None,
            };
            let class_name = match m.occupancy.class_id {
                Some(id) => match self.class_get(id) {
                    Some(c) => {
                        proof {
                            let v = choose|v: int|
                                0 <= v < self.classes@.len() && self.classes@[v] == *c;
                            let w = choose|w: int|
                                0 <= w < self.classes@.len() && self.classes@[w].id == id;
                            if v != w {
                                if v < w {
                                    assert(self.classes@[v].id < self.classes@[w].id);
                                } else {
                                    assert(self.classes@[w].id < self.classes@[v].id);
                                }
                            }
                        }
                        Some(c.name.clone())
                    },
                    None => None,
                },
                None => None,
            };
            out.push(ModificationResponse {
                modification_type: m.modification_type,
                modification_timestamp: m.modification_timestamp,
                occupancy: ModificationOccupancyResponse {
                    subject_name,
                    class_name,
                    occupancy_type: m.occupancy.occupancy_type,
                    occupancy_start: m.occupancy.occupancy_start,
                    occupancy_end: m.occupancy.occupancy_end,
                    previous_occupancy_start: m.occupancy.previous_occupancy_start,
                    previous_occupancy_end: m.occupancy.previous_occupancy_end,
                },
            });
            i = i + 1;
        }
        out
    }
}


/// The decimal numeral of a nonnegative number.
pub open spec fn dec_digits(n: int) -> Seq<char>
    decreases n,
{
    if n <= 9 {
        seq![((48 + n) as u8) as char]
    } else {
        dec_digits(n / 10).push(((48 + n % 10) as u8) as char)
    }
}

/// The decimal numeral of a number, as a string.
pub fn u32_dec(n: u32) -> (r: String)
    ensures
        r@ == dec_digits(n as int),
    decreases n,
{
    let digit = 48 + (n % 10) as u8;
    let mut v: Vec<u8> = Vec::new();
    v.push(digit);
    let d = ascii_bytes_to_string(v);
    proof {
        assert(d@ =~= seq![digit as char]);
    }
    if n <= 9 {
        d
    } else {
        let mut s = u32_dec(n / 10);
        s.append(d.as_str());
        proof {
            assert(s@ =~= dec_digits(n as int));
        }
        s
    }
}

/// The display name of a group: the word Groupe and its one-based number.
pub open spec fn group_label(g: u32) -> Seq<char> {
    "Groupe "@ + dec_digits(g + 1)
}

/// What a calendar day of the epoch reads as a date label.
pub uninterp spec fn day_label_of(day: u64) -> Seq<char>;

/// Relies on chrono's UTC date formatting: the printed calendar date is a
/// function of the epoch day alone. The bound keeps the timestamp well
/// inside chrono's supported calendar, where the original would panic past
/// it.
#[verifier::external_body]
fn day_label(ts: u64) -> (r: String)
    requires
        ts <= 4000000000000,
    ensures
        r@ == day_label_of(ts / 86400),
{
    match chrono::DateTime::<chrono::Utc>::from_timestamp(ts as i64, 0) {
        Some(dt) => dt.format("%d-%m-%Y").to_string(),
        None => String::new(),
    }
}

/// The resolved classroom name of an occupancy.
pub open spec fn resolved_classroom_name(
    classrooms: Seq<crate::models::Classroom>,
    cid: Option<u32>,
) -> Option<Seq<char>> {
    match cid {
        Option::None => Option::None,
        Option::Some(id) => if has_classroom(classrooms, id) {
            let w = choose|i: int| 0 <= i < classrooms.len() && classrooms[i].id == id;
            Option::Some(classrooms[w].name@)
        } else {
            Option::None
        },
    }
}

/// The class the occupancy's subject belongs to, when both are live.
pub open spec fn resolved_subject_class(
    subjects: Seq<crate::models::Subject>,
    classes: Seq<crate::models::Class>,
    sid: Option<u32>,
) -> Option<Seq<char>> {
    match sid {
        Option::None => Option::None,
        Option::Some(id) => if has_subject(subjects, id) {
            let w = choose|i: int| 0 <= i < subjects.len() && subjects[i].id == id;
            resolved_class_name(classes, Some(subjects[w].class_id))
        } else {
            Option::None
        },
    }
}

/// The full name of the user carrying this id.
pub open spec fn user_full_name(users: Seq<crate::models::User>, id: u32) -> Seq<char> {
    if has_user_id(users, id) {
        let w = choose|i: int| 0 <= i < users.len() && users[i].id == id;
        users[w].full_name_view()
    } else {
        Seq::empty()
    }
}

/// The response view of one occupancy against the store's tables.
pub open spec fn element_of_row(e: OccupanciesListElement, o: Occupancy, s: Store) -> bool {
    &&& e.id == o.id
    &&& e.start == o.start_datetime
    &&& e.end == o.end_datetime
    &&& e.occupancy_type == o.occupancy_type
    &&& e.name@ == o.name@
    &&& (match e.classroom_name {
        Option::None => resolved_classroom_name(s.classrooms@, o.classroom_id) is None,
        Option::Some(n) => resolved_classroom_name(s.classrooms@, o.classroom_id) == Option::Some(
            n@,
        ),
    })
    &&& (match e.subject_name {
        Option::None => resolved_subject_name(s.subjects@, o.subject_id) is None,
        Option::Some(n) => resolved_subject_name(s.subjects@, o.subject_id) == Option::Some(n@),
    })
    &&& (match e.class_name {
        Option::None => resolved_subject_class(s.subjects@, s.classes@, o.subject_id) is None,
        Option::Some(n) => resolved_subject_class(s.subjects@, s.classes@, o.subject_id)
            == Option::Some(n@),
    })
    &&& (match e.group_name {
        Option::None => o.group_number is None,
        Option::Some(n) => o.group_number matches Some(g) && n@ == group_label(g),
    })
    &&& e.teacher_name@ == user_full_name(s.users@, o.teacher_id)
}

impl Store {
    /// One listing element for an occupancy, names resolved.
    fn build_element(&self, o: &Occupancy) -> (e: OccupanciesListElement)
        requires
            self.wf(),
            has_user_id(self.users@, o.teacher_id),
            o.group_number matches Some(g) ==> g < u32::MAX,
        ensures
            element_of_row(e, *o, *self),
    {
        let classroom_name = match o.classroom_id {
            Some(id) => match self.classroom_get(id) {
                Some(c) => {
                    proof {
                        let v = choose|v: int|
                            0 <= v < self.classrooms@.len() && self.classrooms@[v] == *c;
                        let w = choose|w: int|
                            0 <= w < self.classrooms@.len() && self.classrooms@[w].id == id;
                        if v != w {
                            if v < w {
                                assert(self.classrooms@[v].id < self.classrooms@[w].id);
                            } else {
                                assert(self.classrooms@[w].id < self.classrooms@[v].id);
                            }
                        }
                    }
                    Some(c.name.clone())
                },
                None => None,
            },
            None => None,
        };
        let (subject_name, class_name) = match o.subject_id {
            Some(id) => match self.subject_get(id) {
                Some(sub) => {
                    proof {
                        let v = choose|v: int|
                            0 <= v < self.subjects@.len() && self.subjects@[v] == *sub;
                        let w = choose|w: int|
                            0 <= w < self.subjects@.len() && self.subjects@[w].id == id;
                        if v != w {
                            if v < w {
                                assert(self.subjects@[v].id < self.subjects@[w].id);
                            } else {
                                assert(self.subjects@[w].id < self.subjects@[v].id);
                            }
                        }
                    }
                    let class_name = match self.class_get(sub.class_id) {
                        Some(c) => {
                            proof {
                                let v = choose|v: int|
                                    0 <= v < self.classes@.len() && self.classes@[v] == *c;
                                let w = choose|w: int|
                                    0 <= w < self.classes@.len() && self.classes@[w].id
                                        == sub.class_id;
                                if v != w {
                                    if v < w {
                                        assert(self.classes@[v].id < self.classes@[w].id);
                                    } else {
                                        assert(self.classes@[w].id < self.classes@[v].id);
                                    }
                                }
                            }
                            Some(c.name.clone())
                        },
                        None => None,
                    };
                    (Some(sub.name.clone()), class_name)
                },
                None => (None, None),
            },
            None => (None, None),
        };
        let group_name = match o.group_number {
            Some(g) => {
                let mut label = String::new();
                label.append("Groupe ");
                let num = u32_dec(g + 1);
                label.append(num.as_str());
                proof {
                    assert(label@ =~= group_label(g));
                }
                Some(label)
            },
            None => None,
        };
        let teacher = match self.user_get_by_id(o.teacher_id) {
            Some(u) => u,
            None => {
                proof {
                    assert(false);
                }
                &self.users[0]
            },
        };
        proof {
            let v = choose|v: int| 0 <= v < self.users@.len() && self.users@[v] == *teacher;
            let w = choose|w: int|
                0 <= w < self.users@.len() && self.users@[w].id == o.teacher_id;
            if v != w {
                assert(self.users@[v].id != self.users@[w].id);
            }
        }
        let teacher_name = teacher.full_name();
        OccupanciesListElement {
            id: o.id,
            classroom_name,
            group_name,
            subject_name,
            teacher_name,
            start: o.start_datetime,
            end: o.end_datetime,
            occupancy_type: o.occupancy_type,
            class_name,
            name: o.name.clone(),
        }
    }
}


/// The calendar day of a listing element.
pub open spec fn element_day(e: OccupanciesListElement) -> int {
    e.start as int / 86400
}

/// How many of the rows fall on the given day.
pub open spec fn day_count(rows: Seq<Occupancy>, day: int) -> int {
    rows.filter(|o: Occupancy| o.start_datetime as int / 86400 == day).len() as int
}

/// The length of one served day: the day's row count, capped when a positive
/// cap was asked for.
pub open spec fn served_len(rows: Seq<Occupancy>, day: int, per_day: Option<u32>) -> int {
    match per_day {
        Option::Some(c) => if c > 0 && day_count(rows, day) > c {
            c as int
        } else {
            day_count(rows, day)
        },
        Option::None => day_count(rows, day),
    }
}

impl Store {
    /// One day of the listing: the rows of that day, resolved, sorted by
    /// start, capped.
    #[verifier::rlimit(100)]
    fn day_bucket(&self, rows: &Vec<Occupancy>, rep: u64, per_day: Option<u32>) -> (b: Vec<
        OccupanciesListElement,
    >)
        requires
            self.wf(),
            forall|i: int|
                0 <= i < rows@.len() ==> has_user_id(
                    self.users@,
                    (#[trigger] rows@[i]).teacher_id,
                ),
            forall|i: int|
                0 <= i < rows@.len() ==> ((#[trigger] rows@[i]).group_number is Some
                    ==> rows@[i].group_number.unwrap() < u32::MAX),
            exists|q: int| 0 <= q < rows@.len() && (#[trigger] rows@[q]).start_datetime == rep,
        ensures
            b@.len() >= 1,
            b@.len() == served_len(rows@, rep as int / 86400, per_day),
            forall|j: int|
                0 <= j < b@.len() ==> element_day(#[trigger] b@[j]) == rep as int / 86400,
            forall|j: int, k: int|
                0 <= j < k < b@.len() ==> (#[trigger] b@[j]).start <= (#[trigger] b@[k]).start,
            forall|j: int|
                0 <= j < b@.len() ==> exists|q: int|
                    0 <= q < rows@.len() && element_of_row(#[trigger] b@[j], rows@[q], *self),
    {
        let ghost dayv = rep as int / 86400;
        let ghost pred = |o: Occupancy| o.start_datetime as int / 86400 == dayv;
        let mut bucket: Vec<OccupanciesListElement> = Vec::new();
        let mut i: usize = 0;
        while i < rows.len()
            invariant
                i <= rows@.len(),
                dayv == rep as int / 86400,
                pred == (|o: Occupancy| o.start_datetime as int / 86400 == dayv),
                bucket@.len() == rows@.subrange(0, i as int).filter(pred).len(),
                forall|j: int|
                    0 <= j < bucket@.len() ==> element_day(#[trigger] bucket@[j]) == dayv,
                forall|j: int, k: int|
                    0 <= j < k < bucket@.len() ==> (#[trigger] bucket@[j]).start <= (
                    #[trigger] bucket@[k]).start,
                forall|j: int|
                    0 <= j < bucket@.len() ==> exists|q: int|
                        0 <= q < rows@.len() && element_of_row(
                            #[trigger] bucket@[j],
                            rows@[q],
                            *self,
                        ),
            decreases rows@.len() - i,
        {
            proof {
                crate::seqs::lemma_filter_push(rows@.subrange(0, i as int), rows@[i as int], pred);
                assert(rows@.subrange(0, (i + 1) as int) =~= rows@.subrange(0, i as int).push(
                    rows@[i as int],
                ));
            }
            if rows[i].start_datetime / 86400 == rep / 86400 {
                let e = self.build_element(&rows[i]);
                let mut pos: usize = 0;
                while pos < bucket.len()
                    invariant
                        pos <= bucket@.len(),
                        forall|j: int| 0 <= j < pos ==> (#[trigger] bucket@[j]).start <= e.start,
                    decreases bucket@.len() - pos,
                {
                    if bucket[pos].start > e.start {
                        break;
                    }
                    pos = pos + 1;
                }
                let ghost pre = bucket@;
                let ghost gpos = pos as int;
                bucket.insert(pos, e);
                proof {
                    assert(gpos == pre.len() || pre[gpos].start > e.start);
                    assert forall|j: int, k: int|
                        0 <= j < k < bucket@.len() implies (#[trigger] bucket@[j]).start <= (
                        #[trigger] bucket@[k]).start by {
                        if k < gpos {
                            assert(bucket@[j] == pre[j] && bucket@[k] == pre[k]);
                        } else if j < gpos && k == gpos {
                            assert(bucket@[j] == pre[j]);
                        } else if j < gpos && k > gpos {
                            assert(bucket@[j] == pre[j] && bucket@[k] == pre[k - 1]);
                        } else if j == gpos {
                            assert(bucket@[k] == pre[k - 1]);
                            assert(k - 1 >= gpos);
                            if k - 1 > gpos - 1 && gpos < pre.len() {
                                assert(pre[gpos].start <= pre[k - 1].start || gpos == k - 1);
                            }
                        } else {
                            assert(bucket@[j] == pre[j - 1] && bucket@[k] == pre[k - 1]);
                        }
                    }
                }
            }
            i = i + 1;
        }
        proof {
            assert(rows@.subrange(0, rows@.len() as int) =~= rows@);
            let q0 = choose|q: int|
                0 <= q < rows@.len() && (#[trigger] rows@[q]).start_datetime == rep;
            assert(pred(rows@[q0]));
            rows@.lemma_filter_contains(pred, q0);
            assert(bucket@.len() >= 1);
        }
        if let Some(c) = per_day {
            if c > 0 && bucket.len() > c as usize {
                bucket.truncate(c as usize);
            }
        }
        bucket
    }

    /// The occupancy listing the transport layer serves: rows grouped by
    /// calendar day, each day labeled and sorted by start, capped to the
    /// requested number per day. Days appear in first-appearance order of
    /// the rows; a cap of zero, like no cap, keeps every row.
    #[verifier::rlimit(100)]
    pub fn occupancies_response(&self, rows: &Vec<Occupancy>, per_day: Option<u32>) -> (r:
        OccupanciesListResponse)
        requires
            self.wf(),
            forall|i: int|
                0 <= i < rows@.len() ==> has_user_id(
                    self.users@,
                    (#[trigger] rows@[i]).teacher_id,
                ),
            forall|i: int|
                0 <= i < rows@.len() ==> ((#[trigger] rows@[i]).group_number is Some
                    ==> rows@[i].group_number.unwrap() < u32::MAX),
            forall|i: int|
                0 <= i < rows@.len() ==> (#[trigger] rows@[i]).start_datetime <= 4000000000000,
        ensures
            r.status@ == "success"@,
            forall|d: int|
                0 <= d < r.days@.len() ==> (#[trigger] r.days@[d]).occupancies@.len() >= 1,
            forall|d: int, j: int|
                0 <= d < r.days@.len() && 0 <= j < r.days@[d].occupancies@.len() ==> element_day(
                    #[trigger] r.days@[d].occupancies@[j],
                ) == element_day(r.days@[d].occupancies@[0]),
            forall|d: int|
                0 <= d < r.days@.len() ==> (#[trigger] r.days@[d]).date@ == day_label_of(
                    (r.days@[d].occupancies@[0].start / 86400) as u64,
                ),
            forall|d: int, j: int, k: int|
                0 <= d < r.days@.len() && 0 <= j < k < r.days@[d].occupancies@.len() ==> (
                #[trigger] r.days@[d].occupancies@[j]).start <= (
                #[trigger] r.days@[d].occupancies@[k]).start,
            forall|d: int, j: int|
                0 <= d < r.days@.len() && 0 <= j < r.days@[d].occupancies@.len() ==> exists|i: int|
                    0 <= i < rows@.len() && element_of_row(
                        #[trigger] r.days@[d].occupancies@[j],
                        rows@[i],
                        *self,
                    ),
            forall|d1: int, d2: int|
                0 <= d1 < d2 < r.days@.len() ==> element_day(
                    (#[trigger] r.days@[d1]).occupancies@[0],
                ) != element_day((#[trigger] r.days@[d2]).occupancies@[0]),
            forall|i: int|
                0 <= i < rows@.len() ==> exists|d: int|
                    0 <= d < r.days@.len() && element_day(r.days@[d].occupancies@[0]) == (
                    #[trigger] rows@[i]).start_datetime as int / 86400,
            forall|d: int|
                0 <= d < r.days@.len() ==> (#[trigger] r.days@[d]).occupancies@.len() == served_len(
                    rows@,
                    element_day(r.days@[d].occupancies@[0]),
                    per_day,
                ),
    {
        let mut reps: Vec<u64> = Vec::new();
        let mut i: usize = 0;
        while i < rows.len()
            invariant
                i <= rows@.len(),
                forall|a: int, b: int|
                    0 <= a < b < reps@.len() ==> (#[trigger] reps@[a]) as int / 86400 != (
                    #[trigger] reps@[b]) as int / 86400,
                forall|q: int|
                    0 <= q < i ==> exists|a: int|
                        0 <= a < reps@.len() && (#[trigger] rows@[q]).start_datetime as int / 86400
                            == reps@[a] as int / 86400,
                forall|a: int|
                    0 <= a < reps@.len() ==> exists|q: int|
                        0 <= q < rows@.len() && (#[trigger] reps@[a]) == rows@[q].start_datetime,
            decreases rows@.len() - i,
        {
            let day = rows[i].start_datetime / 86400;
            let mut found = false;
            let mut a: usize = 0;
            while a < reps.len()
                invariant
                    a <= reps@.len(),
                    day == rows@[i as int].start_datetime / 86400,
                    i < rows@.len(),
                    found ==> exists|w: int|
                        0 <= w < reps@.len() && (#[trigger] reps@[w]) / 86400 == day,
                    !found ==> forall|q: int| 0 <= q < a ==> (#[trigger] reps@[q]) / 86400 != day,
                decreases reps@.len() - a,
            {
                if reps[a] / 86400 == day {
                    found = true;
                }
                a = a + 1;
            }
            let ghost pre_reps = reps@;
            if !found {
                reps.push(rows[i].start_datetime);
                proof {
                    assert(reps@[reps@.len() - 1] == rows@[i as int].start_datetime);
                }
            }
            proof {
                assert forall|q: int| 0 <= q < i + 1 implies exists|w: int|
                    0 <= w < reps@.len() && (#[trigger] rows@[q]).start_datetime as int / 86400
                        == reps@[w] as int / 86400 by {
                    if q == i as int {
                        if found {
                            let w = choose|w: int|
                                0 <= w < pre_reps.len() && (#[trigger] pre_reps[w]) / 86400 == day;
                            assert(reps@[w] == pre_reps[w]);
                        }
                    } else {
                        let w = choose|w: int|
                            0 <= w < pre_reps.len() && rows@[q].start_datetime as int / 86400
                                == pre_reps[w] as int / 86400;
                        assert(reps@[w] == pre_reps[w]);
                    }
                }
            }
            i = i + 1;
        }
        let mut days: Vec<OccupanciesListItemResponse> = Vec::new();
        let mut d: usize = 0;
        while d < reps.len()
            invariant
                d <= reps@.len(),
                days@.len() == d,
                forall|e: int|
                    0 <= e < d ==> (#[trigger] days@[e]).occupancies@.len() >= 1,
                forall|e: int|
                    0 <= e < d ==> element_day((#[trigger] days@[e]).occupancies@[0])
                        == reps@[e] as int / 86400,
                forall|e: int, j: int|
                    0 <= e < d && 0 <= j < days@[e].occupancies@.len() ==> element_day(
                        #[trigger] days@[e].occupancies@[j],
                    ) == element_day(days@[e].occupancies@[0]),
                forall|e: int|
                    0 <= e < d ==> (#[trigger] days@[e]).date@ == day_label_of(
                        (days@[e].occupancies@[0].start / 86400) as u64,
                    ),
                forall|e: int, j: int, k: int|
                    0 <= e < d && 0 <= j < k < days@[e].occupancies@.len() ==> (
                    #[trigger] days@[e].occupancies@[j]).start <= (
                    #[trigger] days@[e].occupancies@[k]).start,
                forall|e: int, j: int|
                    0 <= e < d && 0 <= j < days@[e].occupancies@.len() ==> exists|q: int|
                        0 <= q < rows@.len() && element_of_row(
                            #[trigger] days@[e].occupancies@[j],
                            rows@[q],
                            *self,
                        ),
                forall|e: int|
                    0 <= e < d ==> (#[trigger] days@[e]).occupancies@.len() == served_len(
                        rows@,
                        element_day(days@[e].occupancies@[0]),
                        per_day,
                    ),
            decreases reps@.len() - d,
        {
            let rep = reps[d];
            let bucket = self.day_bucket(rows, rep, per_day);
            proof {
                let q0 = choose|q: int|
                    0 <= q < rows@.len() && (#[trigger] reps@[d as int]) == rows@[q].start_datetime;
                assert(rows@[q0].start_datetime <= 4000000000000);
            }
            let date = day_label(rep);
            days.push(OccupanciesListItemResponse { date, occupancies: bucket });
            d = d + 1;
        }
        proof {
            assert forall|i2: int| 0 <= i2 < rows@.len() implies exists|e: int|
                0 <= e < days@.len() && element_day(days@[e].occupancies@[0]) == (
                #[trigger] rows@[i2]).start_datetime as int / 86400 by {
                let a = choose|a: int|
                    0 <= a < reps@.len() && (#[trigger] rows@[i2]).start_datetime as int / 86400
                        == reps@[a] as int / 86400;
                assert(element_day(days@[a].occupancies@[0]) == reps@[a] as int / 86400);
            }
        }
        OccupanciesListResponse { status: "success", days }
    }
}

/// Whether an account of the given kind passes a role guard.
pub fn kind_allowed(kind: &UserKind, wanted: &Vec<PossibleUserKind>) -> (r: bool)
    ensures
        r == exists|i: int|
            0 <= i < wanted@.len() && #[trigger] wanted@[i] == (match kind {
                UserKind::Administrator => PossibleUserKind::Administrator,
                UserKind::Teacher(_) => PossibleUserKind::Teacher,
                UserKind::Student(_) => PossibleUserKind::Student,
            }),
{
    let own = match kind {
        UserKind::Administrator => PossibleUserKind::Administrator,
        UserKind::Teacher(_) => PossibleUserKind::Teacher,
        UserKind::Student(_) => PossibleUserKind::Student,
    };
    let mut i: usize = 0;
    while i < wanted.len()
        invariant
            i <= wanted@.len(),
            own == (match kind {
                UserKind::Administrator => PossibleUserKind::Administrator,
                UserKind::Teacher(_) => PossibleUserKind::Teacher,
                UserKind::Student(_) => PossibleUserKind::Student,
            }),
            forall|j: int| 0 <= j < i ==> wanted@[j] != own,
        decreases wanted@.len() - i,
    {
        if wanted[i] == own {
            return true;
        }
        i = i + 1;
    }
    false
}

} // verus!
