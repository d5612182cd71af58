//! The course table: durable CRUD plus atomic bulk insert over the
//! course entity. The table owns identity assignment and timestamp
//! stamping; rows are keyed by a unique id, and every operation is
//! specified against the table's row sequence.

use vstd::prelude::*;
use crate::models::clone_opt;
use crate::models::Course;
use crate::models::CourseV;
use crate::models::NewCourse;
use crate::models::UpdateCourse;
use crate::models::CourseResponse;
use crate::models::CourseResponseV;
use crate::models::CreateCourseRequest;
use crate::models::CreateCourseRequestV;
use crate::models::UpdateCourseRequestV;
use crate::models::UpdateCourseRequest;
use crate::models::UpdateCourseV;
use crate::models::response_of;
use crate::weeks::spec_encode_weeks;
use crate::weeks::encode_weeks;

verus! {

/// Why a write was refused: the only constraint the table enforces is
/// id uniqueness, so the only violation is a duplicate id.
#[derive(Clone, Copy, Debug, PartialEq, Eq, Structural)]
pub enum StoreError {
    DuplicateId,
}

/// The first row bearing `id`, searched front to back.
pub open spec fn lookup(rows: Seq<CourseV>, id: Seq<char>) -> Option<CourseV>
    decreases rows.len(),
{
    if rows.len() == 0 {
        None
    } else if rows[0].id == id {
        Some(rows[0])
    } else {
        lookup(rows.drop_first(), id)
    }
}

/// Whether some row bears `id`.
pub open spec fn has_id(rows: Seq<CourseV>, id: Seq<char>) -> bool {
    lookup(rows, id) is Some
}

/// The rows with the first row bearing `id` removed.
pub open spec fn remove_id(rows: Seq<CourseV>, id: Seq<char>) -> Seq<CourseV>
    decreases rows.len(),
{
    if rows.len() == 0 {
        rows
    } else if rows[0].id == id {
        rows.drop_first()
    } else {
        seq![rows[0]] + remove_id(rows.drop_first(), id)
    }
}

/// The rows with the first row bearing `id` replaced by `c`.
pub open spec fn replace_id(rows: Seq<CourseV>, id: Seq<char>, c: CourseV) -> Seq<CourseV>
    decreases rows.len(),
{
    if rows.len() == 0 {
        rows
    } else if rows[0].id == id {
        seq![c] + rows.drop_first()
    } else {
        seq![rows[0]] + replace_id(rows.drop_first(), id, c)
    }
}

/// The stored row built from a create request: fields carried over,
/// the week list encoded, both timestamps stamped with `now`.
pub open spec fn new_row(req: CreateCourseRequestV, id: Seq<char>, now: i64) -> CourseV {
    CourseV {
        id: id,
        name: req.name,
        teacher: req.teacher,
        location: req.location,
        weekday: req.weekday,
        start_time: req.start_time,
        end_time: req.end_time,
        weeks: spec_encode_weeks(req.weeks),
        color: req.color,
        created_at: now,
        updated_at: now,
    }
}

/// The change set built from a partial update request: present fields
/// carried over, a present week list encoded, `updated_at` restamped.
pub open spec fn change_of(req: UpdateCourseRequestV, now: i64) -> UpdateCourseV {
    UpdateCourseV {
        name: req.name,
        teacher: req.teacher,
        location: req.location,
        weekday: req.weekday,
        start_time: req.start_time,
        end_time: req.end_time,
        weeks: match req.weeks {
            Some(w) => Some(spec_encode_weeks(w)),
            None => None,
        },
        color: req.color,
        updated_at: now,
    }
}

/// One row after a change set: each present field replaces the prior
/// value, each absent field preserves it, `id` and `created_at` never
/// change, and `updated_at` is always restamped.
pub open spec fn apply_change(c: CourseV, u: UpdateCourseV) -> CourseV {
    CourseV {
        id: c.id,
        name: match u.name {
            Some(x) => x,
            None => c.name,
        },
        teacher: match u.teacher {
            Some(x) => Some(x),
            None => c.teacher,
        },
        location: match u.location {
            Some(x) => Some(x),
            None => c.location,
        },
        weekday: match u.weekday {
            Some(x) => x,
            None => c.weekday,
        },
        start_time: match u.start_time {
            Some(x) => x,
            None => c.start_time,
        },
        end_time: match u.end_time {
            Some(x) => x,
            None => c.end_time,
        },
        weeks: match u.weeks {
            Some(x) => x,
            None => c.weeks,
        },
        color: match u.color {
            Some(x) => Some(x),
            None => c.color,
        },
        created_at: c.created_at,
        updated_at: u.updated_at,
    }
}

/// The client-facing shape of every row, in table order.
pub open spec fn responses_of(rows: Seq<CourseV>) -> Seq<CourseResponseV> {
    rows.map_values(|c: CourseV| response_of(c))
}

/// The rows a batch of create requests makes, one id per request, all
/// stamped with the same time.
pub open spec fn new_rows(reqs: Seq<CreateCourseRequestV>, ids: Seq<Seq<char>>, now: i64) -> Seq<
    CourseV,
> {
    Seq::new(reqs.len(), |i: int| new_row(reqs[i], ids[i], now))
}

/// Whether a batch under these ids can go into a table holding `rows`:
/// no batch id is stored yet, and no two batch ids coincide.
pub open spec fn batch_insertable(rows: Seq<CourseV>, ids: Seq<Seq<char>>) -> bool {
    (forall|i: int| 0 <= i < ids.len() ==> !has_id(rows, #[trigger] ids[i])) && (forall|
        i: int,
        j: int,
    |
        0 <= i < j < ids.len() ==> ids[i] != ids[j])
}

pub proof fn lemma_lookup_none(rows: Seq<CourseV>, id: Seq<char>)
    ensures
        (lookup(rows, id) is None) <==> (forall|j: int|
            0 <= j < rows.len() ==> rows[j].id != id),
    decreases rows.len(),
{
    if rows.len() > 0 {
        let rest = rows.drop_first();
        lemma_lookup_none(rest, id);
        assert(forall|j: int| 1 <= j < rows.len() ==> rows[j] == #[trigger] rest[j - 1]);
        if lookup(rows, id) is None {
            assert forall|j: int| 0 <= j < rows.len() implies rows[j].id != id by {
                if j >= 1 {
                    assert(rest[j - 1].id != id);
                }
            }
        }
        if forall|j: int| 0 <= j < rows.len() ==> rows[j].id != id {
            assert forall|j: int| 0 <= j < rest.len() implies rest[j].id != id by {
                assert(rest[j] == rows[j + 1]);
            }
            assert(lookup(rest, id) is None);
        }
    }
}

/// Scanning front to back: when the first match sits at `idx`, lookup
/// yields that row, removal deletes exactly it, and replacement swaps
/// exactly it.
pub proof fn lemma_scan_found(rows: Seq<CourseV>, id: Seq<char>, idx: int, c: CourseV)
    requires
        0 <= idx < rows.len(),
        rows[idx].id == id,
        forall|j: int| 0 <= j < idx ==> rows[j].id != id,
    ensures
        lookup(rows, id) == Some(rows[idx]),
        remove_id(rows, id) == rows.subrange(0, idx) + rows.subrange(
            idx + 1,
            rows.len() as int,
        ),
        replace_id(rows, id, c) == rows.update(idx, c),
    decreases idx,
{
    if idx == 0 {
        assert(remove_id(rows, id) == rows.drop_first());
        assert(rows.drop_first() =~= rows.subrange(0, 0) + rows.subrange(1, rows.len() as int));
        assert(seq![c] + rows.drop_first() =~= rows.update(0, c));
    } else {
        let rest = rows.drop_first();
        assert(forall|j: int| 1 <= j < rows.len() ==> rows[j] == #[trigger] rest[j - 1]);
        lemma_scan_found(rest, id, idx - 1, c);
        assert(seq![rows[0]] + remove_id(rest, id) =~= rows.subrange(0, idx) + rows.subrange(
            idx + 1,
            rows.len() as int,
        ));
        assert(seq![rows[0]] + replace_id(rest, id, c) =~= rows.update(idx, c));
    }
}

pub proof fn lemma_scan_not_found(rows: Seq<CourseV>, id: Seq<char>)
    requires
        forall|j: int| 0 <= j < rows.len() ==> rows[j].id != id,
    ensures
        lookup(rows, id) is None,
        remove_id(rows, id) == rows,
        forall|c: CourseV| #[trigger] replace_id(rows, id, c) == rows,
    decreases rows.len(),
{
    if rows.len() > 0 {
        let rest = rows.drop_first();
        assert(forall|j: int| 1 <= j < rows.len() ==> rows[j] == #[trigger] rest[j - 1]);
        lemma_scan_not_found(rest, id);
        assert forall|c: CourseV| #[trigger] replace_id(rows, id, c) == rows by {
            assert(seq![rows[0]] + replace_id(rest, id, c) =~= rows);
        }
        assert(seq![rows[0]] + remove_id(rest, id) =~= rows);
    }
}

/// Relies on str's PartialEq: equality of the two character sequences.
#[verifier::external_body]
fn str_eq(a: &str, b: &str) -> (r: bool)
    ensures
        r == (a@ == b@),
{
    a == b
}

/// Relies on uuid's new_v4 and its hyphenated Display form: a freshly
/// drawn random identifier, always 36 characters of text. Nothing more
/// is promised of the value; in particular not that it is unused.
#[verifier::external_body]
fn fresh_course_id() -> (r: String)
    ensures
        r@.len() == 36,
{
    uuid::Uuid::new_v4().to_string()
}

/// Relies on chrono's Utc::now and timestamp_micros: the clock's
/// current reading in microseconds since the epoch. Nothing is promised
/// of the value.
#[verifier::external_body]
fn now_micros() -> i64 {
    chrono::Utc::now().timestamp_micros()
}

/// The stored row for a create request: the insert model filled from
/// the request with the week list encoded, then the row with both
/// timestamps stamped.
fn build_row(req: &CreateCourseRequest, id: String, now: i64) -> (c: Course)
    ensures
        c@ == new_row(req@, id@, now),
{
    let nc = NewCourse {
        id,
        name: req.name.clone(),
        teacher: clone_opt(&req.teacher),
        location: clone_opt(&req.location),
        weekday: req.weekday,
        start_time: req.start_time.clone(),
        end_time: req.end_time.clone(),
        weeks: encode_weeks(&req.weeks),
        color: clone_opt(&req.color),
    };
    let ghost id_v = nc.id@;
    let c = Course {
        id: nc.id,
        name: nc.name,
        teacher: nc.teacher,
        location: nc.location,
        weekday: nc.weekday,
        start_time: nc.start_time,
        end_time: nc.end_time,
        weeks: nc.weeks,
        color: nc.color,
        created_at: now,
        updated_at: now,
    };
    proof {
        assert(c@ =~= new_row(req@, id_v, now));
    }
    c
}

/// A row after a partial update request: the change set filled from
/// the request's present fields, then applied over the prior row.
fn build_updated_row(c: &Course, req: &UpdateCourseRequest, now: i64) -> (r: Course)
    ensures
        r@ == apply_change(c@, change_of(req@, now)),
{
    let uc = UpdateCourse {
        name: clone_opt(&req.name),
        teacher: clone_opt(&req.teacher),
        location: clone_opt(&req.location),
        weekday: req.weekday,
        start_time: clone_opt(&req.start_time),
        end_time: clone_opt(&req.end_time),
        weeks: match &req.weeks {
            Some(w) => {
                proof {
                    assert(w.deep_view() =~= w@);
                }
                Some(encode_weeks(w))
            },
            None => None,
        },
        color: clone_opt(&req.color),
        updated_at: now,
    };
    let r = Course {
        id: c.id.clone(),
        name: match uc.name {
            Some(x) => x,
            None => c.name.clone(),
        },
        teacher: match uc.teacher {
            Some(x) => Some(x),
            None => clone_opt(&c.teacher),
        },
        location: match uc.location {
            Some(x) => Some(x),
            None => clone_opt(&c.location),
        },
        weekday: match uc.weekday {
            Some(x) => x,
            None => c.weekday,
        },
        start_time: match uc.start_time {
            Some(x) => x,
            None => c.start_time.clone(),
        },
        end_time: match uc.end_time {
            Some(x) => x,
            None => c.end_time.clone(),
        },
        weeks: match uc.weeks {
            Some(x) => x,
            None => c.weeks.clone(),
        },
        color: match uc.color {
            Some(x) => Some(x),
            None => clone_opt(&c.color),
        },
        created_at: c.created_at,
        updated_at: uc.updated_at,
    };
    proof {
        assert(r@ =~= apply_change(c@, change_of(req@, now)));
    }
    r
}

/// The course table. Rows are kept in insertion order, and no two rows
/// share an id.
pub struct CourseTable {
    rows: Vec<Course>,
}

impl View for CourseTable {
    type V = Seq<CourseV>;

    closed spec fn view(&self) -> Seq<CourseV> {
        self.rows.deep_view()
    }
}

/// A fresh, empty course table.
pub fn create_storage() -> (t: CourseTable)
    ensures
        t@ == Seq::<CourseV>::empty(),
        t.wf(),
{
    let t = CourseTable { rows: Vec::new() };
    proof {
        assert(t@ =~= Seq::<CourseV>::empty());
    }
    t
}

impl CourseTable {
    /// Well-formed: no two rows share an id.
    pub open spec fn wf(self) -> bool {
        forall|i: int, j: int| 0 <= i < j < self@.len() ==> self@[i].id != self@[j].id
    }

    /// The index of the first row bearing `id`, if any.
    fn find_index(&self, id: &str) -> (r: Option<usize>)
        ensures
            match r {
                Some(k) => k < self@.len() && self@[k as int].id == id@ && lookup(self@, id@)
                    == Some(self@[k as int]) && (forall|j: int|
                    0 <= j < k ==> self@[j].id != id@),
                None => lookup(self@, id@) is None,
            },
    {
        let n = self.rows.len();
        let mut k: usize = 0;
        while k < n
            invariant
                k <= n,
                n == self.rows.len(),
                self@.len() == n,
                forall|j: int| 0 <= j < k ==> self@[j].id != id@,
            decreases n - k,
        {
            if str_eq(self.rows[k].id.as_str(), id) {
                proof {
                    lemma_scan_found(self@, id@, k as int, self@[k as int]);
                }
                return Some(k);
            }
            k += 1;
        }
        proof {
            lemma_lookup_none(self@, id@);
        }
        None
    }

    /// Every stored course, client-facing, in table order. A row whose
    /// stored week text does not decode yields an empty week list; it
    /// never aborts the listing.
    pub fn get_all_courses(&self) -> (r: Vec<CourseResponse>)
        ensures
            r.deep_view() == responses_of(self@),
    {
        let n = self.rows.len();
        let mut out: Vec<CourseResponse> = Vec::new();
        let mut k: usize = 0;
        while k < n
            invariant
                k <= n,
                n == self.rows.len(),
                self@.len() == n,
                out@.len() == k,
                out.deep_view() =~= responses_of(self@.take(k as int)),
            decreases n - k,
        {
            let resp = self.rows[k].to_response();
            let ghost pre = self@.take(k as int);
            let ghost dv_pre = out.deep_view();
            out.push(resp);
            proof {
                let post = self@.take(k as int + 1);
                assert(post.len() == k + 1);
                assert(post =~= pre.push(self@[k as int]));
                assert(out@.len() == k + 1);
                assert(out.deep_view().len() == k + 1);
                assert(responses_of(post).len() == k + 1);
                assert forall|j: int| 0 <= j < k + 1 implies out.deep_view()[j] == responses_of(
                    post,
                )[j] by {
                    assert(out.deep_view()[j] == out@[j].deep_view());
                    assert(responses_of(post)[j] == response_of(post[j]));
                    if j < k as int {
                        assert(dv_pre[j] == responses_of(pre)[j]);
                        assert(responses_of(pre)[j] == response_of(pre[j]));
                        assert(pre[j] == post[j]);
                        assert(dv_pre.len() == k);
                        assert(dv_pre[j] == out@[j].deep_view());
                    } else {
                        assert(out@[j] == resp);
                        assert(post[j] == self@[k as int]);
                    }
                }
                assert(out.deep_view() =~= responses_of(post));
            }
            k += 1;
        }
        proof {
            assert(self@.take(n as int) =~= self@);
        }
        out
    }

    /// The course bearing `id`, or `None` when no row bears it: an
    /// explicit absent signal, never an error.
    pub fn get_course_by_id(&self, id: &str) -> (r: Option<CourseResponse>)
        ensures
            match lookup(self@, id@) {
                Some(c) => r matches Some(resp) && resp@ == response_of(c),
                None => r is None,
            },
    {
        match self.find_index(id) {
            Some(k) => Some(self.rows[k].to_response()),
            None => None,
        }
    }

    /// Inserts one course under the given id with the given stamp.
    /// Succeeds exactly when no row bears the id yet; then the new row
    /// is appended and returned as the caller will read it back. On a
    /// duplicate id nothing changes.
    pub fn insert_course_with(
        &mut self,
        req: &CreateCourseRequest,
        id: String,
        now: i64,
    ) -> (r: Result<CourseResponse, StoreError>)
        requires
            old(self).wf(),
        ensures
            final(self).wf(),
            match r {
                Ok(resp) => !has_id(old(self)@, id@) && final(self)@ == old(self)@.push(
                    new_row(req@, id@, now),
                ) && resp@ == response_of(new_row(req@, id@, now)),
                Err(e) => has_id(old(self)@, id@) && final(self)@ == old(self)@ && e
                    == StoreError::DuplicateId,
            },
    {
        match self.find_index(id.as_str()) {
            Some(_) => Err(StoreError::DuplicateId),
            None => {
                proof {
                    lemma_lookup_none(self@, id@);
                }
                let ghost id_v = id@;
                let ghost rows0 = self@;
                let row = build_row(req, id, now);
                let resp = row.to_response();
                self.rows.push(row);
                proof {
                    assert(self@ =~= rows0.push(new_row(req@, id_v, now)));
                    assert forall|i: int, j: int|
                        0 <= i < j < self@.len() implies self@[i].id != self@[j].id by {
                        if j == rows0.len() as int {
                            assert(self@[i] == rows0[i]);
                            assert(rows0[i].id != id_v);
                        } else {
                            assert(self@[i] == rows0[i]);
                            assert(self@[j] == rows0[j]);
                        }
                    }
                }
                Ok(resp)
            },
        }
    }

    /// Inserts one already-formed row, as when reloading a persisted
    /// table: succeeds exactly when no row bears its id yet, and then
    /// the row is appended as given, timestamps and week text included;
    /// on a duplicate id nothing changes.
    pub fn insert_row(&mut self, row: Course) -> (r: Result<(), StoreError>)
        requires
            old(self).wf(),
        ensures
            final(self).wf(),
            match r {
                Ok(_) => !has_id(old(self)@, row@.id) && final(self)@ == old(self)@.push(row@),
                Err(e) => has_id(old(self)@, row@.id) && final(self)@ == old(self)@ && e
                    == StoreError::DuplicateId,
            },
    {
        match self.find_index(row.id.as_str()) {
            Some(_) => Err(StoreError::DuplicateId),
            None => {
                proof {
                    lemma_lookup_none(self@, row@.id);
                }
                let ghost rows0 = self@;
                let ghost rv = row@;
                self.rows.push(row);
                proof {
                    assert(self@ =~= rows0.push(rv));
                    assert forall|i: int, j: int|
                        0 <= i < j < self@.len() implies self@[i].id != self@[j].id by {
                        if j == rows0.len() as int {
                            assert(self@[i] == rows0[i]);
                            assert(rows0[i].id != rv.id);
                        } else {
                            assert(self@[i] == rows0[i]);
                            assert(self@[j] == rows0[j]);
                        }
                    }
                }
                Ok(())
            },
        }
    }

    /// Inserts one course, drawing a fresh id and stamping the current
    /// time: on success the appended row carries the returned id, its
    /// two timestamps are equal, and the response is the row as read
    /// back. Fails only when the drawn id collides with a stored row;
    /// then nothing changes — so into an empty table an insert always
    /// succeeds.
    pub fn insert_course(&mut self, req: &CreateCourseRequest) -> (r: Result<
        CourseResponse,
        StoreError,
    >)
        requires
            old(self).wf(),
        ensures
            final(self).wf(),
            r is Err ==> old(self)@.len() > 0,
            match r {
                Ok(resp) => resp.id@.len() == 36 && !has_id(old(self)@, resp.id@)
                    && final(self)@.len() == old(self)@.len() + 1
                    && final(self)@ == old(self)@.push(
                    new_row(req@, resp.id@, final(self)@.last().created_at),
                ) && resp@ == response_of(final(self)@.last()),
                Err(_) => final(self)@ == old(self)@,
            },
    {
        let id = fresh_course_id();
        let now = now_micros();
        let ghost id_v = id@;
        let r = self.insert_course_with(req, id, now);
        proof {
            if r is Ok {
                assert(final(self)@.last() == new_row(req@, id_v, now));
            } else {
                assert(has_id(old(self)@, id_v));
                assert(lookup(old(self)@, id_v) is Some);
                if old(self)@.len() == 0 {
                    assert(lookup(old(self)@, id_v) is None);
                }
            }
        }
        r
    }

    /// Applies a partial update to the row bearing `id` with the given
    /// stamp: present fields replace prior values, absent fields
    /// preserve them, `updated_at` is restamped, and the updated row is
    /// returned as read back. On an unknown id nothing changes and the
    /// explicit absent signal is returned.
    pub fn update_course_with(&mut self, id: &str, req: &UpdateCourseRequest, now: i64) -> (r:
        Option<CourseResponse>)
        requires
            old(self).wf(),
        ensures
            final(self).wf(),
            match lookup(old(self)@, id@) {
                Some(c) => {
                    let merged = apply_change(c, change_of(req@, now));
                    r matches Some(resp) && resp@ == response_of(merged) && final(self)@
                        == replace_id(old(self)@, id@, merged) && lookup(final(self)@, id@)
                        == Some(merged)
                },
                None => r is None && final(self)@ == old(self)@,
            },
    {
        match self.find_index(id) {
            Some(k) => {
                let ghost rows0 = self@;
                let ghost merged = apply_change(rows0[k as int], change_of(req@, now));
                let updated = build_updated_row(&self.rows[k], req, now);
                let resp = updated.to_response();
                let _ = self.rows.remove(k);
                self.rows.insert(k, updated);
                proof {
                    lemma_scan_found(rows0, id@, k as int, merged);
                    assert(self@ =~= rows0.update(k as int, merged));
                    assert forall|i: int, j: int|
                        0 <= i < j < self@.len() implies self@[i].id != self@[j].id by {
                        assert(self@[i].id == rows0[i].id);
                        assert(self@[j].id == rows0[j].id);
                    }
                    assert forall|j: int| 0 <= j < k implies self@[j].id != id@ by {
                        assert(self@[j] == rows0[j]);
                    }
                    lemma_scan_found(self@, id@, k as int, merged);
                }
                Some(resp)
            },
            None => None,
        }
    }

    /// Applies a partial update to the row bearing `id`, stamping the
    /// current time. The row keeps every absent field and its creation
    /// stamp; only `updated_at` and the present fields move. On an
    /// unknown id nothing changes and the absent signal is returned.
    pub fn update_course(&mut self, id: &str, req: &UpdateCourseRequest) -> (r: Option<
        CourseResponse,
    >)
        requires
            old(self).wf(),
        ensures
            final(self).wf(),
            match lookup(old(self)@, id@) {
                Some(c) => r matches Some(resp) && (lookup(final(self)@, id@) matches Some(m) && m
                    == apply_change(c, change_of(req@, m.updated_at)) && resp@ == response_of(m)
                    && final(self)@ == replace_id(old(self)@, id@, m)),
                None => r is None && final(self)@ == old(self)@,
            },
    {
        let now = now_micros();
        self.update_course_with(id, req, now)
    }

    /// Removes the row bearing `id` and says whether one was removed:
    /// false on an unknown id, never an error, and then nothing
    /// changes.
    pub fn delete_course(&mut self, id: &str) -> (r: bool)
        requires
            old(self).wf(),
        ensures
            final(self).wf(),
            r == has_id(old(self)@, id@),
            final(self)@ == remove_id(old(self)@, id@),
            !r ==> final(self)@ == old(self)@,
    {
        match self.find_index(id) {
            Some(k) => {
                let ghost rows0 = self@;
                let _ = self.rows.remove(k);
                proof {
                    lemma_scan_found(rows0, id@, k as int, rows0[k as int]);
                    assert(self@ =~= rows0.subrange(0, k as int) + rows0.subrange(
                        k as int + 1,
                        rows0.len() as int,
                    ));
                    assert forall|i: int, j: int|
                        0 <= i < j < self@.len() implies self@[i].id != self@[j].id by {
                        let ii = if i < k as int {
                            i
                        } else {
                            i + 1
                        };
                        let jj = if j < k as int {
                            j
                        } else {
                            j + 1
                        };
                        assert(self@[i] == rows0[ii]);
                        assert(self@[j] == rows0[jj]);
                    }
                }
                true
            },
            None => {
                proof {
                    lemma_lookup_none(self@, id@);
                    lemma_scan_not_found(self@, id@);
                }
                false
            },
        }
    }

    /// Inserts a whole batch under the given ids with one stamp, as a
    /// single atomic unit: it succeeds exactly when the batch is
    /// insertable (no id stored yet, no two batch ids equal), and then
    /// every row is appended in request order; on any conflict nothing
    /// at all changes.
    pub fn insert_multiple_courses_with(
        &mut self,
        reqs: &Vec<CreateCourseRequest>,
        ids: &Vec<String>,
        now: i64,
    ) -> (r: Result<Vec<CourseResponse>, StoreError>)
        requires
            old(self).wf(),
            ids@.len() == reqs@.len(),
        ensures
            final(self).wf(),
            match r {
                Ok(resps) => batch_insertable(old(self)@, ids.deep_view()) && final(self)@ == old(
                    self,
                )@ + new_rows(reqs.deep_view(), ids.deep_view(), now) && resps.deep_view()
                    == responses_of(new_rows(reqs.deep_view(), ids.deep_view(), now)),
                Err(e) => !batch_insertable(old(self)@, ids.deep_view()) && final(self)@ == old(
                    self,
                )@ && e == StoreError::DuplicateId,
            },
    {
        let m = reqs.len();
        let ghost rdv = reqs.deep_view();
        let ghost idv = ids.deep_view();
        let mut i: usize = 0;
        while i < m
            invariant
                i <= m,
                m == reqs.len(),
                ids@.len() == m,
                idv == ids.deep_view(),
                self@ == old(self)@,
                self.wf(),
                forall|t: int| 0 <= t < i ==> !has_id(self@, #[trigger] idv[t]),
                forall|t: int, u: int| 0 <= t < u < i ==> idv[t] != idv[u],
            decreases m - i,
        {
            if self.find_index(ids[i].as_str()).is_some() {
                proof {
                    assert(has_id(self@, idv[i as int]));
                    assert(!batch_insertable(self@, idv));
                }
                return Err(StoreError::DuplicateId);
            }
            let mut j: usize = 0;
            while j < i
                invariant
                    j <= i,
                    i < m,
                    m == reqs.len(),
                    ids@.len() == m,
                    idv == ids.deep_view(),
                    self@ == old(self)@,
                    self.wf(),
                    forall|u: int| 0 <= u < j ==> idv[u] != idv[i as int],
                decreases i - j,
            {
                if str_eq(ids[j].as_str(), ids[i].as_str()) {
                    proof {
                        assert(idv[j as int] == idv[i as int]);
                        assert(!batch_insertable(self@, idv));
                    }
                    return Err(StoreError::DuplicateId);
                }
                j += 1;
            }
            i += 1;
        }
        let ghost rows0 = self@;
        proof {
            assert(batch_insertable(rows0, idv));
        }
        let mut out: Vec<CourseResponse> = Vec::new();
        let mut i: usize = 0;
        while i < m
            invariant
                i <= m,
                m == reqs.len(),
                ids@.len() == m,
                rdv == reqs.deep_view(),
                idv == ids.deep_view(),
                rows0.len() + i == self@.len(),
                batch_insertable(rows0, idv),
                self@ == rows0 + new_rows(rdv.take(i as int), idv.take(i as int), now),
                self.wf(),
                out@.len() == i,
                out.deep_view() == responses_of(
                    new_rows(rdv.take(i as int), idv.take(i as int), now),
                ),
            decreases m - i,
        {
            let row = build_row(&reqs[i], ids[i].clone(), now);
            let resp = row.to_response();
            let ghost pre = self@;
            let ghost dv_pre = out.deep_view();
            self.rows.push(row);
            out.push(resp);
            proof {
                let fresh = new_row(rdv[i as int], idv[i as int], now);
                let take0 = new_rows(rdv.take(i as int), idv.take(i as int), now);
                let take1 = new_rows(rdv.take(i as int + 1), idv.take(i as int + 1), now);
                assert(reqs@[i as int]@ == rdv[i as int]);
                assert(ids@[i as int]@ == idv[i as int]);
                assert(row@ == fresh);
                assert(take1 =~= take0.push(fresh));
                assert(self@ =~= pre.push(fresh));
                assert(self@ =~= rows0 + take1);
                lemma_lookup_none(rows0, idv[i as int]);
                assert forall|a: int, b: int|
                    0 <= a < b < self@.len() implies self@[a].id != self@[b].id by {
                    if b == pre.len() as int {
                        assert(self@[a] == pre[a]);
                        assert(self@[b] == fresh);
                        if a < rows0.len() {
                            assert(pre[a] == rows0[a]);
                            assert(rows0[a].id != idv[i as int]);
                        } else {
                            let u = a - rows0.len();
                            assert(pre[a] == take0[u]);
                            assert(take0[u] == new_row(rdv[u], idv[u], now));
                            assert(idv[u] != idv[i as int]);
                        }
                    } else {
                        assert(self@[a] == pre[a]);
                        assert(self@[b] == pre[b]);
                    }
                }
                assert(out@.len() == i + 1);
                assert forall|t: int|
                    0 <= t < i + 1 implies out.deep_view()[t] == responses_of(take1)[t] by {
                    assert(out.deep_view()[t] == out@[t].deep_view());
                    assert(responses_of(take1)[t] == response_of(take1[t]));
                    if t < i as int {
                        assert(dv_pre[t] == responses_of(take0)[t]);
                        assert(responses_of(take0)[t] == response_of(take0[t]));
                        assert(take0[t] == take1[t]);
                        assert(dv_pre[t] == out@[t].deep_view());
                    } else {
                        assert(out@[t] == resp);
                        assert(take1[t] == fresh);
                    }
                }
                assert(out.deep_view() =~= responses_of(take1));
            }
            i += 1;
        }
        proof {
            assert(rdv.take(m as int) =~= rdv);
            assert(idv.take(m as int) =~= idv);
        }
        Ok(out)
    }

    /// Inserts a whole batch, drawing one fresh id per request and one
    /// stamp for all of them, as a single atomic unit: on success every
    /// row is appended in request order, each carrying its drawn
    /// 36-character id and equal timestamps; on any failure nothing at
    /// all changes. An empty batch always succeeds, and so does a batch
    /// of at most one course into an empty table: a failure needs a
    /// stored or repeated id for a drawn id to collide with.
    pub fn insert_multiple_courses(&mut self, reqs: &Vec<CreateCourseRequest>) -> (r: Result<
        Vec<CourseResponse>,
        StoreError,
    >)
        requires
            old(self).wf(),
        ensures
            final(self).wf(),
            reqs@.len() == 0 ==> r is Ok,
            old(self)@.len() == 0 && reqs@.len() <= 1 ==> r is Ok,
            match r {
                Ok(resps) => resps@.len() == reqs@.len() && final(self)@.len() == old(self)@.len()
                    + reqs@.len() && final(self)@.subrange(0, old(self)@.len() as int) == old(
                    self,
                )@ && (forall|i: int|
                    0 <= i < reqs@.len() ==> {
                        let row = #[trigger] final(self)@[old(self)@.len() + i];
                        row == new_row(reqs.deep_view()[i], row.id, row.created_at)
                            && row.updated_at == row.created_at && row.id.len() == 36
                            && resps.deep_view()[i] == response_of(row)
                    }),
                Err(_) => final(self)@ == old(self)@,
            },
    {
        let m = reqs.len();
        let mut ids: Vec<String> = Vec::new();
        let mut i: usize = 0;
        while i < m
            invariant
                i <= m,
                ids@.len() == i,
                forall|t: int| 0 <= t < i ==> (#[trigger] ids@[t])@.len() == 36,
                self@ == old(self)@,
                self.wf(),
            decreases m - i,
        {
            ids.push(fresh_course_id());
            i += 1;
        }
        let now = now_micros();
        let r = self.insert_multiple_courses_with(reqs, &ids, now);
        proof {
            let rdv = reqs.deep_view();
            let idv = ids.deep_view();
            assert(idv.len() == reqs@.len());
            if r is Ok {
                let resps = r->Ok_0;
                let nr = new_rows(rdv, idv, now);
                assert(resps.deep_view() == responses_of(nr));
                assert(resps.deep_view().len() == resps@.len());
                assert(responses_of(nr).len() == nr.len());
                assert(nr.len() == rdv.len());
                assert(rdv.len() == reqs@.len());
                assert((old(self)@ + nr).subrange(0, old(self)@.len() as int) =~= old(self)@);
                assert forall|i: int|
                    0 <= i < reqs@.len() implies self@[old(self)@.len() + i] == nr[i]
                        && resps.deep_view()[i] == response_of(nr[i]) && nr[i].id.len() == 36 by {
                    assert((old(self)@ + nr)[old(self)@.len() + i] == nr[i]);
                    assert(responses_of(nr)[i] == response_of(nr[i]));
                    assert(idv[i] == ids@[i]@);
                    assert(ids@[i]@.len() == 36);
                }
            } else {
                assert(!batch_insertable(old(self)@, idv));
                if reqs@.len() == 0 {
                    assert(batch_insertable(old(self)@, idv));
                }
                if old(self)@.len() == 0 && reqs@.len() <= 1 {
                    assert forall|t: int| 0 <= t < idv.len() implies !has_id(
                        old(self)@,
                        #[trigger] idv[t],
                    ) by {
                        assert(lookup(old(self)@, idv[t]) is None);
                    }
                    assert(batch_insertable(old(self)@, idv));
                }
            }
        }
        r
    }

    /// Removes every row and returns how many were removed.
    pub fn delete_all_courses(&mut self) -> (r: usize)
        ensures
            final(self).wf(),
            final(self)@ == Seq::<CourseV>::empty(),
            r == old(self)@.len(),
    {
        let n = self.rows.len();
        self.rows.clear();
        proof {
            assert(self@ =~= Seq::<CourseV>::empty());
        }
        n
    }

    /// Removes every row.
    pub fn clear_all_courses(&mut self)
        ensures
            final(self).wf(),
            final(self)@ == Seq::<CourseV>::empty(),
    {
        self.delete_all_courses();
    }

    /// The stored rows, in table order.
    pub fn rows(&self) -> (r: &Vec<Course>)
        ensures
            r.deep_view() == self@,
    {
        &self.rows
    }
}

/// Creating a course and then reading it back under the returned id
/// yields exactly the inserted row: every request field carried over,
/// and the week list equal to the request's, in its original order.
pub proof fn lemma_create_then_get(
    rows: Seq<CourseV>,
    req: CreateCourseRequestV,
    id: Seq<char>,
    now: i64,
)
    requires
        !has_id(rows, id),
    ensures
        ({
            let row = new_row(req, id, now);
            let resp = response_of(row);
            lookup(rows.push(row), id) == Some(row) && resp.id == id && resp.name == req.name
                && resp.teacher == req.teacher && resp.location == req.location && resp.weekday
                == req.weekday && resp.start_time == req.start_time && resp.end_time
                == req.end_time && resp.weeks == req.weeks && resp.color == req.color
        }),
{
    let row = new_row(req, id, now);
    let pushed = rows.push(row);
    lemma_lookup_none(rows, id);
    assert forall|j: int| 0 <= j < rows.len() implies pushed[j].id != id by {
        assert(pushed[j] == rows[j]);
    }
    assert(pushed[rows.len() as int] == row);
    lemma_scan_found(pushed, id, rows.len() as int, row);
    crate::weeks::lemma_weeks_round_trip(req.weeks);
}

/// An empty partial update leaves every field except `updated_at`
/// unchanged.
pub proof fn lemma_empty_update(c: CourseV, req: UpdateCourseRequestV, now: i64)
    requires
        req.name is None,
        req.teacher is None,
        req.location is None,
        req.weekday is None,
        req.start_time is None,
        req.end_time is None,
        req.weeks is None,
        req.color is None,
    ensures
        apply_change(c, change_of(req, now)) == (CourseV { updated_at: now, ..c }),
{
}

} // verus!
