use class_schedule::models::Course;
use class_schedule::models::CreateCourseRequest;
use class_schedule::models::UpdateCourseRequest;
use class_schedule::store::create_storage;
use class_schedule::store::StoreError;

fn math_request() -> CreateCourseRequest {
    CreateCourseRequest {
        name: String::from("Math"),
        teacher: Some(String::from("Gauss")),
        location: Some(String::from("A-101")),
        weekday: 2,
        start_time: String::from("08:00:00"),
        end_time: String::from("09:40:00"),
        weeks: vec![1, 3, 5],
        color: None,
    }
}

fn physics_request() -> CreateCourseRequest {
    CreateCourseRequest {
        name: String::from("Physics"),
        teacher: None,
        location: None,
        weekday: 4,
        start_time: String::from("10:00:00"),
        end_time: String::from("11:40:00"),
        weeks: vec![2, 4],
        color: Some(String::from("#00ff00")),
    }
}

#[test]
fn create_returns_row_as_persisted() {
    let mut table = create_storage();
    let created = table.insert_course(&math_request()).unwrap();
    assert_eq!(created.id.len(), 36);
    assert_eq!(created.name, "Math");
    assert_eq!(created.teacher.as_deref(), Some("Gauss"));
    assert_eq!(created.location.as_deref(), Some("A-101"));
    assert_eq!(created.weekday, 2);
    assert_eq!(created.start_time, "08:00:00");
    assert_eq!(created.end_time, "09:40:00");
    assert_eq!(created.weeks, vec![1, 3, 5]);
    assert_eq!(created.color, None);
    let row = &table.rows()[0];
    assert_eq!(row.created_at, row.updated_at);
    assert_eq!(row.weeks, "[1,3,5]");
}

#[test]
fn create_then_get_by_id_round_trips() {
    let mut table = create_storage();
    table.insert_course(&physics_request()).unwrap();
    let created = table.insert_course(&math_request()).unwrap();
    let fetched = table.get_course_by_id(&created.id).unwrap();
    assert_eq!(fetched.id, created.id);
    assert_eq!(fetched.name, "Math");
    assert_eq!(fetched.teacher.as_deref(), Some("Gauss"));
    assert_eq!(fetched.location.as_deref(), Some("A-101"));
    assert_eq!(fetched.weekday, 2);
    assert_eq!(fetched.start_time, "08:00:00");
    assert_eq!(fetched.end_time, "09:40:00");
    assert_eq!(fetched.weeks, vec![1, 3, 5]);
    assert_eq!(fetched.color, None);
}

#[test]
fn get_by_id_unknown_is_absent() {
    let mut table = create_storage();
    table.insert_course(&math_request()).unwrap();
    assert!(table.get_course_by_id("no-such-id").is_none());
}

#[test]
fn get_all_returns_rows_in_insertion_order() {
    let mut table = create_storage();
    table.insert_course(&math_request()).unwrap();
    table.insert_course(&physics_request()).unwrap();
    let all = table.get_all_courses();
    assert_eq!(all.len(), 2);
    assert_eq!(all[0].name, "Math");
    assert_eq!(all[1].name, "Physics");
}

#[test]
fn insert_with_duplicate_id_is_refused() {
    let mut table = create_storage();
    table
        .insert_course_with(&math_request(), String::from("fixed-id"), 1000)
        .unwrap();
    let second = table.insert_course_with(&physics_request(), String::from("fixed-id"), 2000);
    assert_eq!(second.unwrap_err(), StoreError::DuplicateId);
    assert_eq!(table.rows().len(), 1);
    assert_eq!(table.rows()[0].name, "Math");
}

#[test]
fn empty_update_changes_only_updated_at() {
    let mut table = create_storage();
    let created = table
        .insert_course_with(&math_request(), String::from("the-id"), 500)
        .unwrap();
    let empty = UpdateCourseRequest {
        name: None,
        teacher: None,
        location: None,
        weekday: None,
        start_time: None,
        end_time: None,
        weeks: None,
        color: None,
    };
    let after = table
        .update_course_with(&created.id, &empty, 900)
        .unwrap();
    assert_eq!(after.name, "Math");
    assert_eq!(after.teacher.as_deref(), Some("Gauss"));
    assert_eq!(after.location.as_deref(), Some("A-101"));
    assert_eq!(after.weekday, 2);
    assert_eq!(after.start_time, "08:00:00");
    assert_eq!(after.end_time, "09:40:00");
    assert_eq!(after.weeks, vec![1, 3, 5]);
    assert_eq!(after.color, None);
    let row = &table.rows()[0];
    assert_eq!(row.created_at, 500);
    assert_eq!(row.updated_at, 900);
}

#[test]
fn partial_update_applies_only_present_fields() {
    let mut table = create_storage();
    let created = table
        .insert_course_with(&math_request(), String::from("the-id"), 500)
        .unwrap();
    let partial = UpdateCourseRequest {
        name: Some(String::from("Advanced Math")),
        teacher: None,
        location: None,
        weekday: None,
        start_time: None,
        end_time: None,
        weeks: Some(vec![2, 4, 6]),
        color: Some(String::from("#ff0000")),
    };
    let after = table
        .update_course_with(&created.id, &partial, 900)
        .unwrap();
    assert_eq!(after.id, "the-id");
    assert_eq!(after.name, "Advanced Math");
    assert_eq!(after.teacher.as_deref(), Some("Gauss"));
    assert_eq!(after.weeks, vec![2, 4, 6]);
    assert_eq!(after.color.as_deref(), Some("#ff0000"));
    assert_eq!(table.rows()[0].weeks, "[2,4,6]");
}

#[test]
fn update_unknown_id_is_absent_and_mutates_nothing() {
    let mut table = create_storage();
    table
        .insert_course_with(&math_request(), String::from("the-id"), 500)
        .unwrap();
    let partial = UpdateCourseRequest {
        name: Some(String::from("Renamed")),
        teacher: None,
        location: None,
        weekday: None,
        start_time: None,
        end_time: None,
        weeks: None,
        color: None,
    };
    assert!(table.update_course("other-id", &partial).is_none());
    assert_eq!(table.rows().len(), 1);
    assert_eq!(table.rows()[0].name, "Math");
    assert_eq!(table.rows()[0].updated_at, 500);
}

#[test]
fn delete_removes_exactly_the_named_row() {
    let mut table = create_storage();
    let a = table.insert_course(&math_request()).unwrap();
    let b = table.insert_course(&physics_request()).unwrap();
    assert!(table.delete_course(&a.id));
    assert_eq!(table.rows().len(), 1);
    assert_eq!(table.rows()[0].id, b.id);
}

#[test]
fn delete_unknown_id_is_false_and_leaves_count() {
    let mut table = create_storage();
    table.insert_course(&math_request()).unwrap();
    assert!(!table.delete_course("no-such-id"));
    assert_eq!(table.rows().len(), 1);
}

#[test]
fn delete_all_reports_count_and_empties() {
    let mut table = create_storage();
    table.insert_course(&math_request()).unwrap();
    table.insert_course(&physics_request()).unwrap();
    assert_eq!(table.delete_all_courses(), 2);
    assert!(table.rows().is_empty());
    assert_eq!(table.delete_all_courses(), 0);
}

#[test]
fn clear_all_empties_the_table() {
    let mut table = create_storage();
    table.insert_course(&math_request()).unwrap();
    table.clear_all_courses();
    assert!(table.rows().is_empty());
}

#[test]
fn bulk_insert_appends_in_request_order() {
    let mut table = create_storage();
    let created = table
        .insert_multiple_courses(&vec![math_request(), physics_request()])
        .unwrap();
    assert_eq!(created.len(), 2);
    assert_eq!(created[0].name, "Math");
    assert_eq!(created[1].name, "Physics");
    assert_ne!(created[0].id, created[1].id);
    assert_eq!(table.rows().len(), 2);
    assert_eq!(table.rows()[0].name, "Math");
    assert_eq!(table.rows()[1].name, "Physics");
}

#[test]
fn bulk_insert_with_duplicate_in_batch_rolls_back_whole_batch() {
    let mut table = create_storage();
    table.insert_course(&math_request()).unwrap();
    let reqs = vec![physics_request(), math_request(), physics_request()];
    let ids = vec![
        String::from("id-a"),
        String::from("id-b"),
        String::from("id-a"),
    ];
    let r = table.insert_multiple_courses_with(&reqs, &ids, 1000);
    assert_eq!(r.unwrap_err(), StoreError::DuplicateId);
    assert_eq!(table.rows().len(), 1);
    assert_eq!(table.rows()[0].name, "Math");
}

#[test]
fn bulk_insert_conflicting_with_stored_row_rolls_back_whole_batch() {
    let mut table = create_storage();
    table
        .insert_course_with(&math_request(), String::from("taken"), 100)
        .unwrap();
    let reqs = vec![physics_request(), physics_request()];
    let ids = vec![String::from("fresh"), String::from("taken")];
    let r = table.insert_multiple_courses_with(&reqs, &ids, 1000);
    assert_eq!(r.unwrap_err(), StoreError::DuplicateId);
    assert_eq!(table.rows().len(), 1);
    assert_eq!(table.rows()[0].id, "taken");
    assert_eq!(table.rows()[0].name, "Math");
}

#[test]
fn malformed_week_text_reads_as_empty_list() {
    let row = Course {
        id: String::from("r1"),
        name: String::from("Math"),
        teacher: None,
        location: None,
        weekday: 1,
        start_time: String::from("08:00:00"),
        end_time: String::from("09:40:00"),
        weeks: String::from("not json"),
        color: None,
        created_at: 0,
        updated_at: 0,
    };
    let resp = row.to_response();
    assert_eq!(resp.weeks, Vec::<i32>::new());
    assert_eq!(resp.name, "Math");
}

#[test]
fn bulk_insert_of_empty_batch_succeeds() {
    let mut table = create_storage();
    table.insert_course(&math_request()).unwrap();
    let created = table.insert_multiple_courses(&vec![]).unwrap();
    assert!(created.is_empty());
    assert_eq!(table.rows().len(), 1);
}

#[test]
fn insert_row_restores_and_refuses_duplicates() {
    let mut table = create_storage();
    let row = Course {
        id: String::from("persisted-id"),
        name: String::from("History"),
        teacher: Some(String::from("Herodotus")),
        location: None,
        weekday: 3,
        start_time: String::from("13:00:00"),
        end_time: String::from("14:40:00"),
        weeks: String::from("[2,4]"),
        color: None,
        created_at: 100,
        updated_at: 200,
    };
    table.insert_row(row.clone()).unwrap();
    let fetched = table.get_course_by_id("persisted-id").unwrap();
    assert_eq!(fetched.name, "History");
    assert_eq!(fetched.weeks, vec![2, 4]);
    assert_eq!(table.rows()[0].created_at, 100);
    assert_eq!(table.rows()[0].updated_at, 200);
    assert_eq!(
        table.insert_row(row).unwrap_err(),
        StoreError::DuplicateId
    );
    assert_eq!(table.rows().len(), 1);
}

#[test]
fn fresh_ids_differ_between_creations() {
    let mut table = create_storage();
    let a = table.insert_course(&math_request()).unwrap();
    let b = table.insert_course(&math_request()).unwrap();
    assert_ne!(a.id, b.id);
    assert_eq!(a.id.len(), 36);
    assert_eq!(b.id.len(), 36);
}

#[test]
fn stored_week_text_survives_round_trip_through_responses() {
    let mut table = create_storage();
    let mut req = math_request();
    req.weeks = vec![i32::MIN, -1, 0, 1, i32::MAX];
    let created = table.insert_course(&req).unwrap();
    assert_eq!(created.weeks, vec![i32::MIN, -1, 0, 1, i32::MAX]);
    let fetched = table.get_course_by_id(&created.id).unwrap();
    assert_eq!(fetched.weeks, vec![i32::MIN, -1, 0, 1, i32::MAX]);
}
