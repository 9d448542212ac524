use rosterdb::api::PaginatedQueryableListRequest;
use rosterdb::groups::{group_numbers, groups, old_group_numbers};
use rosterdb::schedule::OccupancyError;
use rosterdb::models::{ClassLevel, NewClass, NewClassroom, NewOccupancy, NewOccupancySeed,
    NewSubject, NewUser, OccupancyType, Rank, StudentInformations, TeacherInformations, UserKind};
use rosterdb::service::{count_hours, Service};
use rosterdb::store::Store;
use rosterdb::text::{truncate, username_from_name};

fn classroom(name: &str) -> NewClassroom {
    NewClassroom { name: name.to_string(), capacity: 50 }
}

fn student(first: &str, last: &str) -> NewUser {
    NewUser {
        first_name: first.to_string(),
        last_name: last.to_string(),
        password: "pw".to_string(),
        kind: UserKind::Student(StudentInformations { class_id: 0 }),
    }
}

fn teacher(first: &str, last: &str) -> NewUser {
    NewUser {
        first_name: first.to_string(),
        last_name: last.to_string(),
        password: "pw".to_string(),
        kind: UserKind::Teacher(TeacherInformations {
            phone_number: None,
            email: None,
            rank: Rank::Professor,
        }),
    }
}

fn admin_occupancy(teacher_id: u32, room: Option<u32>, start: u64, end: u64) -> NewOccupancy {
    NewOccupancy {
        classroom_id: room,
        group_number: None,
        subject_id: None,
        teacher_id,
        start_datetime: start,
        end_datetime: end,
        occupancy_type: OccupancyType::Administration,
        name: "session".to_string(),
    }
}

#[test]
fn ids_are_distinct_and_increasing() {
    let mut st = Store::empty();
    st.classroom_add(classroom("A"));
    st.classroom_add(classroom("B"));
    st.classroom_add(classroom("C"));
    let ids: Vec<u32> = st.classrooms.iter().map(|c| c.id).collect();
    assert_eq!(ids, vec![0, 1, 2]);
    assert!(st.classroom_remove(&vec![1]));
    st.classroom_add(classroom("D"));
    let ids: Vec<u32> = st.classrooms.iter().map(|c| c.id).collect();
    assert_eq!(ids, vec![0, 2, 3]);
}

#[test]
fn remove_many_is_all_or_nothing() {
    let mut st = Store::empty();
    st.classroom_add(classroom("A"));
    st.classroom_add(classroom("B"));
    assert!(!st.classroom_remove(&vec![0, 99]));
    assert_eq!(st.classrooms.len(), 2);
    assert!(st.classroom_remove(&vec![0, 1]));
    assert_eq!(st.classrooms.len(), 0);
}

#[test]
fn group_sizes_are_balanced() {
    for n in 0..40usize {
        for g in 1..7u32 {
            let sizes = group_numbers(n, g);
            assert_eq!(sizes.len(), g as usize);
            let total: u32 = sizes.iter().sum();
            assert_eq!(total as usize, n);
            let max = *sizes.iter().max().unwrap();
            let min = *sizes.iter().min().unwrap();
            assert!(max - min <= 1);
        }
    }
}

#[test]
fn group_numbers_exact_values() {
    assert_eq!(group_numbers(10, 3), vec![4, 3, 3]);
    assert_eq!(group_numbers(9, 3), vec![3, 3, 3]);
    assert_eq!(groups(9, 3), vec![0, 0, 0, 1, 1, 1, 2, 2, 2]);
    assert_eq!(groups(5, 2), vec![0, 0, 0, 1, 1]);
    assert_eq!(old_group_numbers(10, 3), vec![3, 3, 4]);
}

#[test]
fn pagination_total_counts_all_matches() {
    let mut st = Store::empty();
    for i in 0..23 {
        st.classroom_add(classroom(&format!("Room {}", i)));
    }
    let (total1, page1) = st.classroom_list(1, None);
    let (total2, page2) = st.classroom_list(2, None);
    let (total3, page3) = st.classroom_list(3, None);
    assert_eq!(total1, 23);
    assert_eq!(total2, 23);
    assert_eq!(total3, 23);
    assert_eq!(page1.len(), 10);
    assert_eq!(page2.len(), 10);
    assert_eq!(page3.len(), 3);
    // "room 1" matches Room 1 and Room 10 through Room 19
    let (total_q, page_q) = st.classroom_list(1, Some("room 1"));
    assert_eq!(total_q, 11);
    assert_eq!(page_q.len(), 10);
    let (total_q2, page_q2) = st.classroom_list(2, Some("room 1"));
    assert_eq!(total_q2, 11);
    assert_eq!(page_q2.len(), 1);
    let (total_q3, page_q3) = st.classroom_list(4, Some("room 1"));
    assert_eq!(total_q3, 11);
    assert_eq!(page_q3.len(), 0);
}

#[test]
fn search_normalizes_accents_case_and_spaces() {
    let mut st = Store::empty();
    st.classroom_add(classroom("Salle d'Étude"));
    let (total, _) = st.classroom_list(1, Some("  éTuDe "));
    assert_eq!(total, 1);
    let (none, _) = st.classroom_list(1, Some("atrium"));
    assert_eq!(none, 0);
}

#[test]
fn audit_log_caps_at_twenty_five_newest_first() {
    let mut st = Store::empty();
    let t = st.user_add(teacher("T", "Teach"));
    for k in 0..30u64 {
        st.occupancies_add(admin_occupancy(t.id, None, k, k + 1), 1000 + k);
    }
    let log = st.last_occupancies_modifications(t.id);
    assert_eq!(log.len(), 25);
    for k in 0..25usize {
        assert_eq!(log[k].modification_timestamp, 1000 + 29 - k as u64);
    }
}

#[test]
fn distribution_follows_sorted_round_robin() {
    let mut st = Store::empty();
    st.classroom_add(classroom("A101"));
    let t = st.user_add(teacher("T", "Teach"));
    st.class_add(NewClass { name: "L3".to_string(), level: ClassLevel::L3 });
    st.subject_add(NewSubject {
        class_id: 0,
        name: "Math".to_string(),
        teacher_in_charge_id: t.id,
    });
    let a = st.user_add(student("Alice", "Azura"));
    let b = st.user_add(student("Bruno", "Berg"));
    let c = st.user_add(student("Carla", "Cruz"));
    st.subject_add_student(0, a.id);
    st.subject_add_student(0, b.id);
    st.subject_add_student(0, c.id);
    st.distribute_subject_groups(0);
    assert_eq!(st.student_group(a.id, 0), 0);
    assert_eq!(st.student_group(b.id, 0), 0);
    assert_eq!(st.student_group(c.id, 0), 0);
    st.subject_add_group(0);
    st.distribute_subject_groups(0);
    // block sizes [2, 1]: the first two sorted names share group zero
    assert_eq!(st.student_group(a.id, 0), 0);
    assert_eq!(st.student_group(b.id, 0), 0);
    assert_eq!(st.student_group(c.id, 0), 1);
    // rerunning reproduces the same grouping
    st.distribute_subject_groups(0);
    assert_eq!(st.student_group(a.id, 0), 0);
    assert_eq!(st.student_group(b.id, 0), 0);
    assert_eq!(st.student_group(c.id, 0), 1);
}

#[test]
fn subject_occupancy_audits_only_the_named_group() {
    let mut st = Store::empty();
    st.classroom_add(classroom("A101"));
    let t = st.user_add(teacher("T", "Teach"));
    st.subject_add(NewSubject {
        class_id: 0,
        name: "Math".to_string(),
        teacher_in_charge_id: t.id,
    });
    let a = st.user_add(student("Alice", "Azura"));
    let b = st.user_add(student("Bruno", "Berg"));
    let c = st.user_add(student("Carla", "Cruz"));
    st.subject_add_student(0, a.id);
    st.subject_add_student(0, b.id);
    st.subject_add_student(0, c.id);
    st.subject_add_group(0);
    st.distribute_subject_groups(0);
    // groups are now [a, b] in 0 and [c] in 1; book a session for group 1
    let o = NewOccupancy {
        classroom_id: Some(0),
        group_number: Some(1),
        subject_id: Some(0),
        teacher_id: t.id,
        start_datetime: 100,
        end_datetime: 200,
        occupancy_type: OccupancyType::TD,
        name: "lab".to_string(),
    };
    st.occupancies_add(o, 7);
    assert_eq!(st.last_occupancies_modifications(t.id).len(), 1);
    assert_eq!(st.last_occupancies_modifications(c.id).len(), 1);
    assert!(st.last_occupancies_modifications(a.id).is_empty());
    assert!(st.last_occupancies_modifications(b.id).is_empty());
}

#[test]
fn removing_the_last_group_is_rejected() {
    let mut st = Store::empty();
    let t = st.user_add(teacher("T", "Teach"));
    st.subject_add(NewSubject {
        class_id: 0,
        name: "Math".to_string(),
        teacher_in_charge_id: t.id,
    });
    assert!(!st.subject_remove_group(0));
    st.subject_add_group(0);
    assert!(st.subject_remove_group(0));
    assert!(!st.subject_remove_group(0));
}

#[test]
fn classroom_free_rejects_contained_booking() {
    let mut st = Store::empty();
    st.classroom_add(classroom("A101"));
    let t = st.user_add(teacher("T", "Teach"));
    assert!(st.classroom_free(0, 36000, 43200));
    st.occupancies_add(admin_occupancy(t.id, Some(0), 36000, 39600), 1);
    assert!(!st.classroom_free(0, 36000, 43200));
    // an occupancy merely overlapping, not contained, does not block
    assert!(st.classroom_free(0, 37000, 38000));
    assert!(st.teacher_free(99, 0, u64::MAX));
    assert!(!st.teacher_free(t.id, 0, u64::MAX));
}

#[test]
fn failed_login_leaves_the_registry_unchanged() {
    let mut st = Store::empty();
    let u = st.user_add(teacher("T", "Teach"));
    assert!(st.auth_login(&u.username, "wrong").is_none());
    assert!(!st.auth_logout("never-issued-token"));
    let (logged, token) = st.auth_login(&u.username, "pw").expect("valid login");
    assert_eq!(logged.id, u.id);
    assert_eq!(token.len(), 25);
    assert!(token.chars().all(|c| c.is_ascii_alphanumeric()));
    assert_eq!(st.auth_get_user(&token).expect("live token").id, u.id);
    assert!(st.auth_logout(&token));
    assert!(st.auth_get_user(&token).is_none());
}

#[test]
fn relogin_replaces_the_previous_token() {
    let mut st = Store::empty();
    let u = st.user_add(teacher("T", "Teach"));
    let (_, tok1) = st.auth_login(&u.username, "pw").unwrap();
    let (_, tok2) = st.auth_login(&u.username, "pw").unwrap();
    assert!(st.auth_get_user(&tok1).is_none());
    assert!(st.auth_get_user(&tok2).is_some());
}

#[test]
fn removing_a_user_revokes_its_tokens() {
    let mut st = Store::empty();
    let u = st.user_add(teacher("T", "Teach"));
    let (_, token) = st.auth_login(&u.username, "pw").unwrap();
    assert!(st.user_remove(&vec![u.id]));
    assert!(st.auth_get_user(&token).is_none());
}

#[test]
fn usernames_are_transliterated_and_dotted() {
    assert_eq!(username_from_name("Jean", "Dûpont"), "dupont.jean");
    assert_eq!(username_from_name("Ana Maria", "De La Cruz"), "de.la.cruz.ana.maria");
    let mut st = Store::empty();
    let u = st.user_add(student("Émile", "Noël"));
    assert_eq!(u.username, "noel.emile");
}

#[test]
fn truncate_cuts_at_character_count() {
    assert_eq!(truncate("abcdef", 3), "abc");
    assert_eq!(truncate("ab", 3), "ab");
    assert_eq!(truncate("ééééé", 2), "éé");
}

#[test]
fn updates_report_found_and_changed() {
    let mut st = Store::empty();
    st.classroom_add(classroom("Old"));
    let miss = st.classroom_update(9, rosterdb::models::ClassroomUpdate { name: None });
    assert!(!miss.found);
    let noop = st.classroom_update(0, rosterdb::models::ClassroomUpdate { name: None });
    assert!(noop.found && !noop.updated);
    let hit = st.classroom_update(
        0,
        rosterdb::models::ClassroomUpdate { name: Some("New".to_string()) },
    );
    assert!(hit.found && hit.updated);
    assert_eq!(st.classroom_get(0).unwrap().name, "New");
}

#[test]
fn in_charge_handover_keeps_one_in_charge() {
    let mut st = Store::empty();
    let t1 = st.user_add(teacher("T1", "Alpha"));
    let t2 = st.user_add(teacher("T2", "Beta"));
    st.subject_add(NewSubject {
        class_id: 0,
        name: "Math".to_string(),
        teacher_in_charge_id: t1.id,
    });
    st.teacher_set_teaches(t2.id, 0);
    assert!(st.teacher_in_charge(t1.id, 0));
    assert!(!st.teacher_in_charge(t2.id, 0));
    let status = st.subject_update(
        0,
        rosterdb::models::SubjectUpdate {
            class_id: None,
            name: None,
            teacher_in_charge_id: Some(t2.id),
        },
    );
    assert!(status.found && status.updated);
    assert!(!st.teacher_in_charge(t1.id, 0));
    assert!(st.teacher_in_charge(t2.id, 0));
    assert!(st.teacher_teaches(t1.id, 0));
    assert!(st.teacher_unset_teaches(t1.id, 0));
    assert!(!st.teacher_teaches(t1.id, 0));
}

#[test]
fn seeding_populates_every_table() {
    let mut st = Store::empty();
    let users = vec![teacher("Teacher", "User"), student("Student", "User")];
    let classrooms = vec![classroom("A101")];
    let classes = vec![NewClass { name: "L3 Informatique".to_string(), level: ClassLevel::L3 }];
    let subjects = vec![NewSubject {
        class_id: 0,
        name: "Math".to_string(),
        teacher_in_charge_id: 0,
    }];
    let occupancies = vec![NewOccupancySeed {
        classroom_name: "A101".to_string(),
        group_number: None,
        subject_name: "Math".to_string(),
        teacher_first_name: "Teacher".to_string(),
        teacher_last_name: "User".to_string(),
        start_datetime: 100,
        end_datetime: 200,
        occupancy_type: OccupancyType::CM,
        name: "Lecture".to_string(),
    }];
    st.reset(users, classrooms, classes, subjects, occupancies, 42);
    assert_eq!(st.classrooms.len(), 1);
    assert_eq!(st.classes.len(), 1);
    assert_eq!(st.subjects.len(), 1);
    assert_eq!(st.users.len(), 2);
    assert_eq!(st.occupancies.len(), 1);
    assert_eq!(st.occupancies[0].teacher_id, 0);
    assert_eq!(st.occupancies[0].classroom_id, Some(0));
    // the lone student was enrolled in the lone subject
    assert_eq!(st.subjects_students.len(), 1);
    assert!(st.dirty);
}

#[test]
fn occupancy_listing_filters_by_window() {
    let mut st = Store::empty();
    let t = st.user_add(teacher("T", "Teach"));
    st.occupancies_add(admin_occupancy(t.id, None, 100, 200), 1);
    st.occupancies_add(admin_occupancy(t.id, None, 300, 400), 2);
    assert_eq!(st.occupancies_list(None, None).len(), 2);
    assert_eq!(st.occupancies_list(Some(250), None).len(), 1);
    assert_eq!(st.occupancies_list(None, Some(250)).len(), 1);
    assert_eq!(st.occupancies_list(Some(150), Some(250)).len(), 0);
    assert!(st.occupancies_remove(&vec![0, 1]));
    assert_eq!(st.occupancies_list(None, None).len(), 0);
}

#[test]
fn user_lists_filter_by_role() {
    let mut st = Store::empty();
    st.user_add(teacher("T", "Teach"));
    st.user_add(student("S", "Learn"));
    st.user_add(student("S2", "Learn"));
    let (teachers, _) = st.user_list(
        Some(1),
        None,
        Some(rosterdb::models::PossibleUserKind::Teacher),
    );
    let (students, _) = st.user_list(
        Some(1),
        None,
        Some(rosterdb::models::PossibleUserKind::Student),
    );
    let (all, rows) = st.user_list(None, None, None);
    assert_eq!(teachers, 1);
    assert_eq!(students, 2);
    assert_eq!(all, 3);
    assert_eq!(rows.len(), 3);
}

#[test]
fn service_hours_are_tallied_per_kind() {
    let mk = |t: OccupancyType, hours: u64| NewOccupancy {
        classroom_id: None,
        group_number: None,
        subject_id: None,
        teacher_id: 0,
        start_datetime: 0,
        end_datetime: hours * 3600,
        occupancy_type: t,
        name: "x".to_string(),
    };
    let mut st = Store::empty();
    st.occupancies_add(mk(OccupancyType::CM, 2), 1);
    st.occupancies_add(mk(OccupancyType::TD, 3), 2);
    st.occupancies_add(mk(OccupancyType::TD, 1), 3);
    let all = st.occupancies_list(None, None);
    let service = count_hours(&all);
    assert_eq!(service.cm, 2);
    assert_eq!(service.td, 4);
    assert_eq!(service.tp, 0);
    assert_eq!(service.total(), 6);
    assert_eq!(Service::default().total(), 0);
}

#[test]
fn page_numbers_normalize_to_one() {
    let req = PaginatedQueryableListRequest { query: None, page: None };
    assert_eq!(req.normalized_page_number(), 1);
    let req = PaginatedQueryableListRequest { query: None, page: Some(0) };
    assert_eq!(req.normalized_page_number(), 1);
    let req = PaginatedQueryableListRequest { query: None, page: Some(7) };
    assert_eq!(req.normalized_page_number(), 7);
}

#[test]
fn occupancy_validation_names_the_first_failure() {
    let mut st = Store::empty();
    st.classroom_add(classroom("A101"));
    let t = st.user_add(teacher("T", "Teach"));
    let outsider = st.user_add(student("S", "Learn"));
    st.subject_add(NewSubject {
        class_id: 0,
        name: "Math".to_string(),
        teacher_in_charge_id: t.id,
    });
    assert_eq!(
        st.validate_new_occupancy(9, None, t.id, 10, 20),
        Err(OccupancyError::UnknownSubject)
    );
    assert_eq!(
        st.validate_new_occupancy(0, None, 99, 10, 20),
        Err(OccupancyError::UnknownTeacher)
    );
    assert_eq!(
        st.validate_new_occupancy(0, None, outsider.id, 10, 20),
        Err(OccupancyError::UnknownTeacher)
    );
    assert_eq!(
        st.validate_new_occupancy(0, Some(9), t.id, 10, 20),
        Err(OccupancyError::UnknownClassroom)
    );
    assert_eq!(
        st.validate_new_occupancy(0, Some(0), t.id, 20, 10),
        Err(OccupancyError::EndBeforeStart)
    );
    assert_eq!(st.validate_new_occupancy(0, Some(0), t.id, 10, 20), Ok(()));
    // book the room and the teacher, then both kinds of conflict surface
    st.occupancies_add(
        NewOccupancy {
            classroom_id: Some(0),
            group_number: None,
            subject_id: Some(0),
            teacher_id: t.id,
            start_datetime: 12,
            end_datetime: 18,
            occupancy_type: OccupancyType::CM,
            name: "x".to_string(),
        },
        1,
    );
    assert_eq!(
        st.validate_new_occupancy(0, Some(0), t.id, 10, 20),
        Err(OccupancyError::ClassroomOccupied)
    );
    assert_eq!(
        st.validate_new_occupancy(0, None, t.id, 10, 20),
        Err(OccupancyError::TeacherBusy)
    );
}

#[test]
fn occupancy_type_rules_follow_grouping() {
    assert_eq!(Store::occupancy_type_allows(OccupancyType::TD, true, true), Ok(()));
    assert_eq!(
        Store::occupancy_type_allows(OccupancyType::TD, false, true),
        Err(OccupancyError::IllegalOccupancyType)
    );
    assert_eq!(
        Store::occupancy_type_allows(OccupancyType::CM, true, true),
        Err(OccupancyError::IllegalOccupancyType)
    );
    assert_eq!(
        Store::occupancy_type_allows(OccupancyType::CM, false, false),
        Err(OccupancyError::ClassroomRequired)
    );
    assert_eq!(Store::occupancy_type_allows(OccupancyType::CM, false, true), Ok(()));
    assert_eq!(Store::occupancy_type_allows(OccupancyType::Administration, false, false), Ok(()));
    assert_eq!(
        Store::occupancy_type_allows(OccupancyType::TP, true, false),
        Err(OccupancyError::ClassroomRequired)
    );
}

#[test]
fn teacher_removal_keeps_charge_and_coverage() {
    let mut st = Store::empty();
    let t1 = st.user_add(teacher("T1", "Alpha"));
    let t2 = st.user_add(teacher("T2", "Beta"));
    st.subject_add(NewSubject {
        class_id: 0,
        name: "Math".to_string(),
        teacher_in_charge_id: t1.id,
    });
    st.teacher_set_teaches(t2.id, 0);
    // the in-charge teacher cannot be withdrawn
    assert!(!st.teachers_removable(0, &vec![t1.id]));
    // withdrawing the only other teacher leaves the in-charge one: fine
    assert!(st.teachers_removable(0, &vec![t2.id]));
    // withdrawing everyone leaves nobody
    assert!(!st.teachers_removable(0, &vec![t1.id, t2.id]));
    // unknown ids are rejected
    assert!(!st.teachers_removable(0, &vec![99]));
}

#[test]
fn group_numbers_are_range_checked() {
    let mut st = Store::empty();
    let t = st.user_add(teacher("T", "Teach"));
    st.subject_add(NewSubject {
        class_id: 0,
        name: "Math".to_string(),
        teacher_in_charge_id: t.id,
    });
    assert!(st.group_in_range(0, 0));
    assert!(!st.group_in_range(0, 1));
    st.subject_add_group(0);
    assert!(st.group_in_range(0, 1));
    assert!(!st.group_in_range(0, 2));
}

#[test]
fn occupancy_updates_report_found_and_changed() {
    let mut st = Store::empty();
    let t = st.user_add(teacher("T", "Teach"));
    st.occupancies_add(admin_occupancy(t.id, None, 100, 200), 1);
    let miss = st.occupancies_update(
        9,
        rosterdb::models::OccupancyUpdate { classroom_id: None, start: None, end: None, name: None },
    );
    assert!(!miss.found);
    let noop = st.occupancies_update(
        0,
        rosterdb::models::OccupancyUpdate { classroom_id: None, start: None, end: None, name: None },
    );
    assert!(noop.found && !noop.updated);
    let hit = st.occupancies_update(
        0,
        rosterdb::models::OccupancyUpdate {
            classroom_id: Some(3),
            start: Some(150),
            end: Some(250),
            name: Some("moved".to_string()),
        },
    );
    assert!(hit.found && hit.updated);
    let rows = st.occupancies_list(None, None);
    assert_eq!(rows[0].classroom_id, Some(3));
    assert_eq!(rows[0].start_datetime, 150);
    assert_eq!(rows[0].end_datetime, 250);
    assert_eq!(rows[0].name, "moved");
}

#[test]
fn distribution_breaks_name_ties_by_enrollment_order() {
    let mut st = Store::empty();
    let t = st.user_add(teacher("T", "Teach"));
    st.subject_add(NewSubject {
        class_id: 0,
        name: "Math".to_string(),
        teacher_in_charge_id: t.id,
    });
    // two distinct students whose full names read the same; a third after them
    let a = st.user_add(student("Ann S", "ame"));
    let b = st.user_add(student("Ann", "S ame"));
    let c = st.user_add(student("Zoe", "Zz"));
    assert_ne!(a.username, b.username);
    assert_eq!(a.first_name.clone() + " " + &a.last_name, b.first_name.clone() + " " + &b.last_name);
    st.subject_add_student(0, a.id);
    st.subject_add_student(0, b.id);
    st.subject_add_student(0, c.id);
    st.subject_add_group(0);
    st.distribute_subject_groups(0);
    let first = (st.student_group(a.id, 0), st.student_group(b.id, 0), st.student_group(c.id, 0));
    // sizes [2, 1]: the two tied names fill group zero in enrollment order
    assert_eq!(first, (0, 0, 1));
    st.distribute_subject_groups(0);
    let second = (st.student_group(a.id, 0), st.student_group(b.id, 0), st.student_group(c.id, 0));
    assert_eq!(first, second);
}

#[test]
fn seeding_schedules_every_resolvable_event() {
    let mut st = Store::empty();
    let users = vec![teacher("Teacher", "User"), student("Student", "User")];
    let classrooms = vec![classroom("A101")];
    let classes = vec![NewClass { name: "L3".to_string(), level: ClassLevel::L3 }];
    let subjects = vec![NewSubject {
        class_id: 0,
        name: "Math".to_string(),
        teacher_in_charge_id: 0,
    }];
    let event = |room: &str, subject: &str, name: &str| NewOccupancySeed {
        classroom_name: room.to_string(),
        group_number: None,
        subject_name: subject.to_string(),
        teacher_first_name: "Teacher".to_string(),
        teacher_last_name: "User".to_string(),
        start_datetime: 100,
        end_datetime: 200,
        occupancy_type: OccupancyType::CM,
        name: name.to_string(),
    };
    let occupancies = vec![
        event("A101", "Math", "kept one"),
        event("B202", "Math", "unknown room"),
        event("A101", "Chemistry", "unknown subject"),
        event("A101", "Math", "kept two"),
    ];
    st.reset(users, classrooms, classes, subjects, occupancies, 42);
    // exactly the two resolvable events were scheduled
    assert_eq!(st.occupancies.len(), 2);
    assert_eq!(st.next_occupancy_id, 2);
    let names: Vec<&str> = st.occupancies.iter().map(|o| o.name.as_str()).collect();
    assert!(names.contains(&"kept one"));
    assert!(names.contains(&"kept two"));
    // the cross enrollment put the one student in the one subject, group zero
    assert_eq!(st.subjects_students.len(), 1);
    assert_eq!(st.subjects_students[0].group_number, 0);
}

#[test]
fn modification_responses_resolve_names() {
    let mut st = Store::empty();
    st.classroom_add(classroom("A101"));
    let t = st.user_add(teacher("T", "Teach"));
    st.class_add(NewClass { name: "L3".to_string(), level: ClassLevel::L3 });
    st.subject_add(NewSubject {
        class_id: 0,
        name: "Math".to_string(),
        teacher_in_charge_id: t.id,
    });
    let o = NewOccupancy {
        classroom_id: Some(0),
        group_number: None,
        subject_id: Some(0),
        teacher_id: t.id,
        start_datetime: 100,
        end_datetime: 200,
        occupancy_type: OccupancyType::CM,
        name: "Lecture".to_string(),
    };
    st.occupancies_add(o, 9);
    let responses = st.modifications_response(t.id);
    assert_eq!(responses.len(), 1);
    assert_eq!(responses[0].modification_timestamp, 9);
    assert_eq!(responses[0].occupancy.subject_name.as_deref(), Some("Math"));
    assert_eq!(responses[0].occupancy.class_name.as_deref(), Some("L3"));
    // an administrative record without a subject resolves to no names
    st.occupancies_add(admin_occupancy(t.id, None, 300, 400), 10);
    let responses = st.modifications_response(t.id);
    assert_eq!(responses.len(), 2);
    assert!(responses[0].occupancy.subject_name.is_none());
    assert!(responses[0].occupancy.class_name.is_none());
}

#[test]
fn occupancy_responses_group_sort_and_cap_by_day() {
    let mut st = Store::empty();
    st.classroom_add(classroom("A101"));
    let t = st.user_add(teacher("T", "Teach"));
    let day = 86400u64;
    // three sessions on day one (out of order), one on day two
    st.occupancies_add(admin_occupancy(t.id, Some(0), day + 900, day + 950), 1);
    st.occupancies_add(admin_occupancy(t.id, None, day + 100, day + 150), 2);
    st.occupancies_add(admin_occupancy(t.id, None, day + 500, day + 550), 3);
    st.occupancies_add(admin_occupancy(t.id, None, 3 * day + 7, 3 * day + 8), 4);
    let rows = st.occupancies_list(None, None);
    let r = st.occupancies_response(&rows, None);
    assert_eq!(r.status, "success");
    assert_eq!(r.days.len(), 2);
    assert_eq!(r.days[0].occupancies.len(), 3);
    assert_eq!(r.days[1].occupancies.len(), 1);
    let starts: Vec<u64> = r.days[0].occupancies.iter().map(|e| e.start).collect();
    assert_eq!(starts, vec![day + 100, day + 500, day + 900]);
    // the element with a classroom resolved its name; dates differ per day
    assert_eq!(r.days[0].occupancies[2].classroom_name.as_deref(), Some("A101"));
    assert_eq!(r.days[0].occupancies[2].teacher_name, "T Teach");
    assert_eq!(r.days[0].date, "02-01-1970");
    assert_eq!(r.days[1].date, "04-01-1970");
    // a positive cap keeps the earliest sessions
    let capped = st.occupancies_response(&rows, Some(2));
    assert_eq!(capped.days[0].occupancies.len(), 2);
    let starts: Vec<u64> = capped.days[0].occupancies.iter().map(|e| e.start).collect();
    assert_eq!(starts, vec![day + 100, day + 500]);
    // a zero cap keeps everything, as the original did
    let zero = st.occupancies_response(&rows, Some(0));
    assert_eq!(zero.days[0].occupancies.len(), 3);
}

#[test]
fn group_labels_render_one_based() {
    assert_eq!(rosterdb::api::u32_dec(0), "0");
    assert_eq!(rosterdb::api::u32_dec(7), "7");
    assert_eq!(rosterdb::api::u32_dec(40501), "40501");
    let mut st = Store::empty();
    let t = st.user_add(teacher("T", "Teach"));
    st.subject_add(NewSubject {
        class_id: 0,
        name: "Math".to_string(),
        teacher_in_charge_id: t.id,
    });
    let o = NewOccupancy {
        classroom_id: None,
        group_number: Some(1),
        subject_id: Some(0),
        teacher_id: t.id,
        start_datetime: 50,
        end_datetime: 60,
        occupancy_type: OccupancyType::TD,
        name: "lab".to_string(),
    };
    st.occupancies_add(o, 1);
    let rows = st.occupancies_list(None, None);
    let r = st.occupancies_response(&rows, None);
    assert_eq!(r.days[0].occupancies[0].group_name.as_deref(), Some("Groupe 2"));
    assert_eq!(r.days[0].occupancies[0].subject_name.as_deref(), Some("Math"));
}
