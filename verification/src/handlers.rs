//! The handler layer: translates requests into store calls and maps
//! every store outcome to a response outcome. An unknown id is a
//! distinct not-found outcome, never conflated with a failure; a
//! refused write is a generic server-error outcome.

use vstd::prelude::*;
use crate::models::CourseResponse;
use crate::models::CreateCourseRequest;
use crate::models::UpdateCourseRequest;
use crate::models::PushScheduleRequest;
use crate::models::Schedule;
use crate::models::response_of;
use crate::models::CourseV;
use crate::store::CourseTable;
use crate::store::apply_change;
use crate::store::change_of;
use crate::store::has_id;
use crate::store::lookup;
use crate::store::new_row;
use crate::store::remove_id;
use crate::store::replace_id;
use crate::store::responses_of;

verus! {

/// The outcome a handler hands back, one variant per response the
/// service can give.
pub enum ApiResponse {
    /// The schedule envelope, returned by listing and by a push.
    OkSchedule(Schedule),
    /// An updated course.
    OkCourse(CourseResponse),
    /// A created course.
    Created(CourseResponse),
    /// The acknowledgment of a removal.
    Deleted,
    /// The request named an id no row bears.
    NotFound,
    /// The store refused the write.
    ServerError,
}

/// Lists the whole schedule: always the full table, client-facing, in
/// table order, wrapped in the schedule envelope.
pub fn get_schedule(table: &CourseTable) -> (r: ApiResponse)
    ensures
        r matches ApiResponse::OkSchedule(s) && s@ == responses_of(table@),
{
    ApiResponse::OkSchedule(Schedule { courses: table.get_all_courses() })
}

/// Creates one course: on success the created course, as it will be
/// read back; on a refused insert a server-error outcome with the
/// table unchanged. Into an empty table a create always succeeds.
pub fn create_course(table: &mut CourseTable, req: &CreateCourseRequest) -> (r: ApiResponse)
    requires
        old(table).wf(),
    ensures
        final(table).wf(),
        old(table)@.len() == 0 ==> r is Created,
        match r {
            ApiResponse::Created(resp) => resp.id@.len() == 36 && !has_id(old(table)@, resp.id@)
                && final(table)@.len() == old(table)@.len() + 1
                && final(table)@ == old(table)@.push(
                new_row(req@, resp.id@, final(table)@.last().created_at),
            ) && resp@ == response_of(final(table)@.last()),
            ApiResponse::ServerError => final(table)@ == old(table)@,
            _ => false,
        },
{
    match table.insert_course(req) {
        Ok(resp) => ApiResponse::Created(resp),
        Err(_) => ApiResponse::ServerError,
    }
}

/// Applies a partial update to the course bearing `id`: the updated
/// course on success, a distinct not-found outcome on an unknown id,
/// and then the table is unchanged.
pub fn update_course(table: &mut CourseTable, id: &str, req: &UpdateCourseRequest) -> (r:
    ApiResponse)
    requires
        old(table).wf(),
    ensures
        final(table).wf(),
        match lookup(old(table)@, id@) {
            Some(c) => r matches ApiResponse::OkCourse(resp) && (lookup(final(table)@, id@)
                matches Some(m) && m == apply_change(c, change_of(req@, m.updated_at)) && resp@
                == response_of(m) && final(table)@ == replace_id(old(table)@, id@, m)),
            None => r matches ApiResponse::NotFound && final(table)@ == old(table)@,
        },
{
    match table.update_course(id, req) {
        Some(resp) => ApiResponse::OkCourse(resp),
        None => ApiResponse::NotFound,
    }
}

/// Removes the course bearing `id`: an acknowledgment on success, a
/// distinct not-found outcome on an unknown id, and then the table is
/// unchanged.
pub fn delete_course(table: &mut CourseTable, id: &str) -> (r: ApiResponse)
    requires
        old(table).wf(),
    ensures
        final(table).wf(),
        if has_id(old(table)@, id@) {
            r matches ApiResponse::Deleted && final(table)@ == remove_id(old(table)@, id@)
        } else {
            r matches ApiResponse::NotFound && final(table)@ == old(table)@
        },
{
    if table.delete_course(id) {
        ApiResponse::Deleted
    } else {
        ApiResponse::NotFound
    }
}

/// Replaces or extends the schedule in two phases: when the request
/// asks to replace, the table is cleared first; then the whole batch
/// is inserted as one atomic unit. On success the final table holds
/// the kept rows followed by exactly the new batch in request order,
/// each new row under a drawn 36-character id with equal timestamps.
/// An empty batch always succeeds, and so does a replacing push of at
/// most one course. On a refused batch the clearing is not undone:
/// the table is left cleared when replacing, unchanged otherwise.
pub fn push_schedule(table: &mut CourseTable, req: &PushScheduleRequest) -> (r: ApiResponse)
    requires
        old(table).wf(),
    ensures
        final(table).wf(),
        req.courses@.len() == 0 ==> r is OkSchedule,
        req.replace && req.courses@.len() <= 1 ==> r is OkSchedule,
        match r {
            ApiResponse::OkSchedule(s) => ({
                let base: Seq<CourseV> = if req.replace {
                    Seq::empty()
                } else {
                    old(table)@
                };
                s@.len() == req.courses@.len() && final(table)@.len() == base.len()
                    + req.courses@.len() && final(table)@.subrange(0, base.len() as int) == base
                    && (forall|i: int|
                    #![trigger s@[i]]
                    #![trigger req.courses.deep_view()[i]]
                    0 <= i < req.courses@.len() ==> {
                        let row = final(table)@[base.len() + i];
                        row == new_row(req.courses.deep_view()[i], row.id, row.created_at)
                            && row.updated_at == row.created_at && row.id.len() == 36 && s@[i]
                            == response_of(row)
                    })
            }),
            ApiResponse::ServerError => final(table)@ == (if req.replace {
                Seq::<CourseV>::empty()
            } else {
                old(table)@
            }),
            _ => false,
        },
{
    if req.replace {
        table.delete_all_courses();
    }
    match table.insert_multiple_courses(&req.courses) {
        Ok(resps) => ApiResponse::OkSchedule(Schedule { courses: resps }),
        Err(_) => ApiResponse::ServerError,
    }
}

} // verus!
