use class_schedule::handlers::create_course;
use class_schedule::handlers::delete_course;
use class_schedule::handlers::get_schedule;
use class_schedule::handlers::push_schedule;
use class_schedule::handlers::update_course;
use class_schedule::handlers::ApiResponse;
use class_schedule::models::CreateCourseRequest;
use class_schedule::models::PushScheduleRequest;
use class_schedule::models::UpdateCourseRequest;
use class_schedule::store::create_storage;

fn course(name: &str, weekday: i32) -> CreateCourseRequest {
    CreateCourseRequest {
        name: String::from(name),
        teacher: None,
        location: None,
        weekday,
        start_time: String::from("08:00:00"),
        end_time: String::from("09:40:00"),
        weeks: vec![1, 2, 3],
        color: None,
    }
}

fn no_change() -> UpdateCourseRequest {
    UpdateCourseRequest {
        name: None,
        teacher: None,
        location: None,
        weekday: None,
        start_time: None,
        end_time: None,
        weeks: None,
        color: None,
    }
}

#[test]
fn schedule_of_empty_table_is_empty() {
    let table = create_storage();
    match get_schedule(&table) {
        ApiResponse::OkSchedule(s) => assert!(s.courses.is_empty()),
        _ => panic!("listing must return the schedule envelope"),
    }
}

#[test]
fn created_course_appears_in_schedule() {
    let mut table = create_storage();
    let created = match create_course(&mut table, &course("Math", 2)) {
        ApiResponse::Created(c) => c,
        _ => panic!("creation must return the created course"),
    };
    match get_schedule(&table) {
        ApiResponse::OkSchedule(s) => {
            assert_eq!(s.courses.len(), 1);
            assert_eq!(s.courses[0].id, created.id);
            assert_eq!(s.courses[0].name, "Math");
        }
        _ => panic!("listing must return the schedule envelope"),
    }
}

#[test]
fn update_of_unknown_id_is_not_found() {
    let mut table = create_storage();
    create_course(&mut table, &course("Math", 2));
    assert!(matches!(
        update_course(&mut table, "missing", &no_change()),
        ApiResponse::NotFound
    ));
}

#[test]
fn update_returns_updated_course() {
    let mut table = create_storage();
    let created = match create_course(&mut table, &course("Math", 2)) {
        ApiResponse::Created(c) => c,
        _ => panic!("creation must return the created course"),
    };
    let mut req = no_change();
    req.weekday = Some(5);
    match update_course(&mut table, &created.id, &req) {
        ApiResponse::OkCourse(c) => {
            assert_eq!(c.id, created.id);
            assert_eq!(c.weekday, 5);
            assert_eq!(c.name, "Math");
        }
        _ => panic!("updating a stored course must return it"),
    }
}

#[test]
fn delete_acknowledges_and_reports_unknown() {
    let mut table = create_storage();
    let created = match create_course(&mut table, &course("Math", 2)) {
        ApiResponse::Created(c) => c,
        _ => panic!("creation must return the created course"),
    };
    assert!(matches!(
        delete_course(&mut table, "missing"),
        ApiResponse::NotFound
    ));
    assert!(matches!(
        delete_course(&mut table, &created.id),
        ApiResponse::Deleted
    ));
    assert!(matches!(
        delete_course(&mut table, &created.id),
        ApiResponse::NotFound
    ));
}

#[test]
fn push_with_replace_leaves_exactly_the_new_batch() {
    let mut table = create_storage();
    create_course(&mut table, &course("Old 1", 1));
    create_course(&mut table, &course("Old 2", 2));
    let push = PushScheduleRequest {
        courses: vec![course("A", 3), course("B", 4)],
        replace: true,
    };
    let s = match push_schedule(&mut table, &push) {
        ApiResponse::OkSchedule(s) => s,
        _ => panic!("a push must return the schedule envelope"),
    };
    assert_eq!(s.courses.len(), 2);
    assert_eq!(s.courses[0].name, "A");
    assert_eq!(s.courses[1].name, "B");
    assert!(!s.courses[0].id.is_empty());
    let rows = table.rows();
    assert_eq!(rows.len(), 2);
    assert_eq!(rows[0].name, "A");
    assert_eq!(rows[1].name, "B");
    assert_eq!(rows[0].created_at, rows[0].updated_at);
}

#[test]
fn push_without_replace_extends_the_table() {
    let mut table = create_storage();
    create_course(&mut table, &course("Kept", 1));
    let push = PushScheduleRequest {
        courses: vec![course("New", 3)],
        replace: false,
    };
    match push_schedule(&mut table, &push) {
        ApiResponse::OkSchedule(s) => assert_eq!(s.courses.len(), 1),
        _ => panic!("a push must return the schedule envelope"),
    }
    let rows = table.rows();
    assert_eq!(rows.len(), 2);
    assert_eq!(rows[0].name, "Kept");
    assert_eq!(rows[1].name, "New");
}

#[test]
fn push_of_empty_batch_with_replace_clears_the_table() {
    let mut table = create_storage();
    create_course(&mut table, &course("Old", 1));
    let push = PushScheduleRequest {
        courses: vec![],
        replace: true,
    };
    match push_schedule(&mut table, &push) {
        ApiResponse::OkSchedule(s) => assert!(s.courses.is_empty()),
        _ => panic!("a push must return the schedule envelope"),
    }
    assert!(table.rows().is_empty());
}
