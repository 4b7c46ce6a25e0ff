//! Request handlers: orchestration of the store and the authentication
//! module, and the mapping of outcomes to response statuses.

use vstd::prelude::*;

use crate::db::store::StoreError;

pub mod entry;
pub mod journey;
pub mod user;

verus! {

/// Response statuses a handler can fail with.
#[derive(Clone, Copy, Debug, PartialEq, Eq, Structural)]
pub enum ErrStatus {
    BadRequest,
    Unauthorized,
    NotFound,
    InternalServerError,
}

/// Returns an `InternalServerError` status for an unclassified failure.
pub fn log_err<T>(e: T) -> (r: ErrStatus)
    ensures
        r == ErrStatus::InternalServerError,
{
    let _ = e;
    ErrStatus::InternalServerError
}

/// Maps a persistence error to a response status: a missing row stays
/// `NotFound`, everything else is an internal error.
pub fn log_db_err(e: StoreError) -> (r: ErrStatus)
    ensures
        r == (if e is NotFound {
            ErrStatus::NotFound
        } else {
            ErrStatus::InternalServerError
        }),
{
    match e {
        StoreError::NotFound => ErrStatus::NotFound,
        e => log_err(e),
    }
}

/// Rows per listing page.
pub const PAGE_SIZE: i64 = 10;

/// One page of a listing: at most `PAGE_SIZE` rows starting at the page's
/// offset.
pub open spec fn page_of<T>(s: Seq<T>, page: int) -> Seq<T>
    recommends
        0 <= page,
{
    let off = page * (PAGE_SIZE as int);
    if off >= s.len() {
        Seq::empty()
    } else if off + (PAGE_SIZE as int) <= s.len() {
        s.subrange(off, off + (PAGE_SIZE as int))
    } else {
        s.subrange(off, s.len() as int)
    }
}

/// A validated, non-negative page number.
#[derive(Clone, Copy, Debug, PartialEq, Eq, Structural)]
pub struct Page(pub i64);

impl Page {
    /// True of validated page numbers.
    pub open spec fn wf(self) -> bool {
        0 <= self.0
    }

    /// Parses a page number from a query value. A page number smaller
    /// than zero is rejected, not clamped.
    pub fn from_form_value(form_value: i64) -> (r: Result<Page, ()>)
        ensures
            match r {
                Ok(p) => form_value >= 0 && p.0 == form_value && p.wf(),
                Err(_) => form_value < 0,
            },
    {
        if form_value >= 0 {
            Ok(Page(form_value))
        } else {
            Err(())
        }
    }
}

/// The query string of a paginated listing.
#[derive(Clone, Copy, Debug)]
pub struct PageQuery {
    pub page: Page,
}

} // verus!
