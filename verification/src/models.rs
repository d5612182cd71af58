//! The course entity and the request, response and envelope shapes
//! that the store and the handlers exchange.
//!
//! A stored `Course` keeps its week list in the encoded text form; the
//! client-facing `CourseResponse` carries it as a flat integer list.
//! Timestamps are held as plain microsecond counts.

use vstd::prelude::*;
use crate::weeks::spec_decode_weeks;
use crate::weeks::decode_weeks;

verus! {

/// Clones an optional text field.
pub fn clone_opt(o: &Option<String>) -> (r: Option<String>)
    ensures
        r.deep_view() == o.deep_view(),
{
    match o {
        Some(s) => Some(s.clone()),
        None => None,
    }
}

/// A stored course row: the normalized storage representation.
#[derive(Debug, Clone)]
pub struct Course {
    pub id: String,
    pub name: String,
    pub teacher: Option<String>,
    pub location: Option<String>,
    /// 1 = Monday through 7 = Sunday; the store itself enforces no range.
    pub weekday: i32,
    /// "HH:MM:SS" text; the store does not validate the form.
    pub start_time: String,
    pub end_time: String,
    /// The week list in its encoded text form.
    pub weeks: String,
    pub color: Option<String>,
    /// Microseconds since the epoch, set once at insert.
    pub created_at: i64,
    /// Microseconds since the epoch, refreshed on every update.
    pub updated_at: i64,
}

/// The mathematical model of a stored course row.
#[verifier::ext_equal]
pub ghost struct CourseV {
    pub id: Seq<char>,
    pub name: Seq<char>,
    pub teacher: Option<Seq<char>>,
    pub location: Option<Seq<char>>,
    pub weekday: i32,
    pub start_time: Seq<char>,
    pub end_time: Seq<char>,
    pub weeks: Seq<char>,
    pub color: Option<Seq<char>>,
    pub created_at: i64,
    pub updated_at: i64,
}

impl View for Course {
    type V = CourseV;

    open spec fn view(&self) -> CourseV {
        CourseV {
            id: self.id@,
            name: self.name@,
            teacher: self.teacher.deep_view(),
            location: self.location.deep_view(),
            weekday: self.weekday,
            start_time: self.start_time@,
            end_time: self.end_time@,
            weeks: self.weeks@,
            color: self.color.deep_view(),
            created_at: self.created_at,
            updated_at: self.updated_at,
        }
    }
}

impl DeepView for Course {
    type V = CourseV;

    open spec fn deep_view(&self) -> CourseV {
        self.view()
    }
}

/// A row to insert: a course without its stamped timestamps.
#[derive(Debug)]
pub struct NewCourse {
    pub id: String,
    pub name: String,
    pub teacher: Option<String>,
    pub location: Option<String>,
    pub weekday: i32,
    pub start_time: String,
    pub end_time: String,
    pub weeks: String,
    pub color: Option<String>,
}

/// The mathematical model of a row to insert.
#[verifier::ext_equal]
pub ghost struct NewCourseV {
    pub id: Seq<char>,
    pub name: Seq<char>,
    pub teacher: Option<Seq<char>>,
    pub location: Option<Seq<char>>,
    pub weekday: i32,
    pub start_time: Seq<char>,
    pub end_time: Seq<char>,
    pub weeks: Seq<char>,
    pub color: Option<Seq<char>>,
}

impl View for NewCourse {
    type V = NewCourseV;

    open spec fn view(&self) -> NewCourseV {
        NewCourseV {
            id: self.id@,
            name: self.name@,
            teacher: self.teacher.deep_view(),
            location: self.location.deep_view(),
            weekday: self.weekday,
            start_time: self.start_time@,
            end_time: self.end_time@,
            weeks: self.weeks@,
            color: self.color.deep_view(),
        }
    }
}

/// A change set for one row: only the present fields are applied,
/// and `updated_at` is always restamped.
#[derive(Debug)]
pub struct UpdateCourse {
    pub name: Option<String>,
    pub teacher: Option<String>,
    pub location: Option<String>,
    pub weekday: Option<i32>,
    pub start_time: Option<String>,
    pub end_time: Option<String>,
    /// The replacement week list, already in encoded text form.
    pub weeks: Option<String>,
    pub color: Option<String>,
    pub updated_at: i64,
}

/// The mathematical model of a change set.
#[verifier::ext_equal]
pub ghost struct UpdateCourseV {
    pub name: Option<Seq<char>>,
    pub teacher: Option<Seq<char>>,
    pub location: Option<Seq<char>>,
    pub weekday: Option<i32>,
    pub start_time: Option<Seq<char>>,
    pub end_time: Option<Seq<char>>,
    pub weeks: Option<Seq<char>>,
    pub color: Option<Seq<char>>,
    pub updated_at: i64,
}

impl View for UpdateCourse {
    type V = UpdateCourseV;

    open spec fn view(&self) -> UpdateCourseV {
        UpdateCourseV {
            name: self.name.deep_view(),
            teacher: self.teacher.deep_view(),
            location: self.location.deep_view(),
            weekday: self.weekday,
            start_time: self.start_time.deep_view(),
            end_time: self.end_time.deep_view(),
            weeks: self.weeks.deep_view(),
            color: self.color.deep_view(),
            updated_at: self.updated_at,
        }
    }
}

/// The client-facing shape of a course: the week list as integers.
#[derive(Debug, Clone)]
pub struct CourseResponse {
    pub id: String,
    pub name: String,
    pub teacher: Option<String>,
    pub location: Option<String>,
    pub weekday: i32,
    pub start_time: String,
    pub end_time: String,
    pub weeks: Vec<i32>,
    pub color: Option<String>,
}

/// The mathematical model of a client-facing course.
#[verifier::ext_equal]
pub ghost struct CourseResponseV {
    pub id: Seq<char>,
    pub name: Seq<char>,
    pub teacher: Option<Seq<char>>,
    pub location: Option<Seq<char>>,
    pub weekday: i32,
    pub start_time: Seq<char>,
    pub end_time: Seq<char>,
    pub weeks: Seq<i32>,
    pub color: Option<Seq<char>>,
}

impl View for CourseResponse {
    type V = CourseResponseV;

    open spec fn view(&self) -> CourseResponseV {
        CourseResponseV {
            id: self.id@,
            name: self.name@,
            teacher: self.teacher.deep_view(),
            location: self.location.deep_view(),
            weekday: self.weekday,
            start_time: self.start_time@,
            end_time: self.end_time@,
            weeks: self.weeks@,
            color: self.color.deep_view(),
        }
    }
}

impl DeepView for CourseResponse {
    type V = CourseResponseV;

    open spec fn deep_view(&self) -> CourseResponseV {
        self.view()
    }
}

/// The client-facing shape of a stored row: every plain field carried
/// over, the week list decoded leniently from its text form.
pub open spec fn response_of(c: CourseV) -> CourseResponseV {
    CourseResponseV {
        id: c.id,
        name: c.name,
        teacher: c.teacher,
        location: c.location,
        weekday: c.weekday,
        start_time: c.start_time,
        end_time: c.end_time,
        weeks: spec_decode_weeks(c.weeks),
        color: c.color,
    }
}

impl Course {
    /// The client-facing shape of this row: every plain field carried
    /// over, the week list decoded leniently from its text form.
    pub fn to_response(&self) -> (r: CourseResponse)
        ensures
            r@ == response_of(self@),
    {
        let r = CourseResponse {
            id: self.id.clone(),
            name: self.name.clone(),
            teacher: clone_opt(&self.teacher),
            location: clone_opt(&self.location),
            weekday: self.weekday,
            start_time: self.start_time.clone(),
            end_time: self.end_time.clone(),
            weeks: decode_weeks(self.weeks.as_str()),
            color: clone_opt(&self.color),
        };
        proof {
            assert(r@ =~= response_of(self@));
        }
        r
    }
}

/// A request to create one course; the store assigns id and timestamps.
#[derive(Debug)]
pub struct CreateCourseRequest {
    pub name: String,
    pub teacher: Option<String>,
    pub location: Option<String>,
    pub weekday: i32,
    pub start_time: String,
    pub end_time: String,
    pub weeks: Vec<i32>,
    pub color: Option<String>,
}

/// The mathematical model of a create request.
#[verifier::ext_equal]
pub ghost struct CreateCourseRequestV {
    pub name: Seq<char>,
    pub teacher: Option<Seq<char>>,
    pub location: Option<Seq<char>>,
    pub weekday: i32,
    pub start_time: Seq<char>,
    pub end_time: Seq<char>,
    pub weeks: Seq<i32>,
    pub color: Option<Seq<char>>,
}

impl View for CreateCourseRequest {
    type V = CreateCourseRequestV;

    open spec fn view(&self) -> CreateCourseRequestV {
        CreateCourseRequestV {
            name: self.name@,
            teacher: self.teacher.deep_view(),
            location: self.location.deep_view(),
            weekday: self.weekday,
            start_time: self.start_time@,
            end_time: self.end_time@,
            weeks: self.weeks@,
            color: self.color.deep_view(),
        }
    }
}

impl DeepView for CreateCourseRequest {
    type V = CreateCourseRequestV;

    open spec fn deep_view(&self) -> CreateCourseRequestV {
        self.view()
    }
}

/// A partial update: absent fields preserve the prior values.
#[derive(Debug)]
pub struct UpdateCourseRequest {
    pub name: Option<String>,
    pub teacher: Option<String>,
    pub location: Option<String>,
    pub weekday: Option<i32>,
    pub start_time: Option<String>,
    pub end_time: Option<String>,
    pub weeks: Option<Vec<i32>>,
    pub color: Option<String>,
}

/// The mathematical model of a partial update request.
#[verifier::ext_equal]
pub ghost struct UpdateCourseRequestV {
    pub name: Option<Seq<char>>,
    pub teacher: Option<Seq<char>>,
    pub location: Option<Seq<char>>,
    pub weekday: Option<i32>,
    pub start_time: Option<Seq<char>>,
    pub end_time: Option<Seq<char>>,
    pub weeks: Option<Seq<i32>>,
    pub color: Option<Seq<char>>,
}

impl View for UpdateCourseRequest {
    type V = UpdateCourseRequestV;

    open spec fn view(&self) -> UpdateCourseRequestV {
        UpdateCourseRequestV {
            name: self.name.deep_view(),
            teacher: self.teacher.deep_view(),
            location: self.location.deep_view(),
            weekday: self.weekday,
            start_time: self.start_time.deep_view(),
            end_time: self.end_time.deep_view(),
            weeks: self.weeks.deep_view(),
            color: self.color.deep_view(),
        }
    }
}

/// The schedule envelope: every course, client-facing.
#[derive(Debug)]
pub struct Schedule {
    pub courses: Vec<CourseResponse>,
}

impl View for Schedule {
    type V = Seq<CourseResponseV>;

    open spec fn view(&self) -> Seq<CourseResponseV> {
        self.courses.deep_view()
    }
}

/// A bulk-replace request: a batch of courses to insert, and whether
/// the existing table is cleared first.
#[derive(Debug)]
pub struct PushScheduleRequest {
    pub courses: Vec<CreateCourseRequest>,
    pub replace: bool,
}

impl View for PushScheduleRequest {
    type V = Seq<CreateCourseRequestV>;

    open spec fn view(&self) -> Seq<CreateCourseRequestV> {
        self.courses.deep_view()
    }
}

} // verus!
