//! Pagination parameters and the paged-response envelope: clamping of page
//! and limit, offset computation, and page-count arithmetic.
use vstd::prelude::*;

verus! {

/// The page number used when a request names none.
pub fn default_page() -> (r: u32)
    ensures
        r == 1u32,
{
    1
}

/// The page size used when a request names none.
pub fn default_limit() -> (r: u32)
    ensures
        r == 20u32,
{
    20
}

/// Pagination query parameters.
pub struct PaginationParams {
    pub page: u32,
    pub limit: u32,
}

/// The number of full pages needed to hold `total` items, `limit` per page,
/// capped at the largest page count a u32 can hold.
pub open spec fn spec_total_pages(total: int, limit: int) -> int
    recommends
        limit >= 1,
{
    let pages = total / limit + (if total % limit != 0 {
        1int
    } else {
        0int
    });
    if pages > u32::MAX {
        u32::MAX as int
    } else {
        pages
    }
}

impl PaginationParams {
    /// Clamps the parameters into range: page at least 1, limit in 1..=100.
    pub fn validate(&mut self)
        ensures
            final(self).page == if old(self).page < 1 {
                1u32
            } else {
                old(self).page
            },
            final(self).limit == if old(self).limit < 1 {
                1u32
            } else if old(self).limit > 100 {
                100u32
            } else {
                old(self).limit
            },
    {
        if self.page < 1 {
            self.page = 1;
        }
        if self.limit < 1 {
            self.limit = 1;
        }
        if self.limit > 100 {
            self.limit = 100;
        }
    }

    /// The number of items to skip before the requested page.
    pub fn skip(&self) -> (r: u64)
        requires
            self.page >= 1,
        ensures
            r == (self.page - 1) * self.limit,
    {
        proof {
            assert((self.page - 1) * self.limit <= 0xffff_ffff * 0xffff_ffff) by (nonlinear_arith)
                requires
                    1 <= self.page <= 0xffff_ffffu32,
                    self.limit <= 0xffff_ffffu32,
            ;
        }
        (self.page as u64 - 1) * self.limit as u64
    }

    /// The page size, in the width the store expects.
    pub fn limit(&self) -> (r: i64)
        ensures
            r == self.limit,
    {
        self.limit as i64
    }
}

/// Summary of where a page stands within the full result set.
pub struct PaginationInfo {
    pub page: u32,
    pub limit: u32,
    pub total_items: u64,
    pub total_pages: u32,
    pub has_next: bool,
    pub has_prev: bool,
}

impl PaginationInfo {
    /// Describes the page `page` of `total_items` items, `limit` per page.
    pub fn new(page: u32, limit: u32, total_items: u64) -> (r: PaginationInfo)
        requires
            limit >= 1,
        ensures
            r.page == page,
            r.limit == limit,
            r.total_items == total_items,
            r.total_pages == spec_total_pages(total_items as int, limit as int),
            r.has_next == (page < r.total_pages),
            r.has_prev == (page > 1),
    {
        let lim64: u64 = limit as u64;
        let q: u64 = total_items / lim64;
        let rem: u64 = total_items % lim64;
        proof {
            vstd::arithmetic::div_mod::lemma_fundamental_div_mod(total_items as int, lim64 as int);
            assert(rem != 0 ==> q < u64::MAX) by (nonlinear_arith)
                requires
                    lim64 >= 1,
                    total_items == lim64 * q + rem,
                    total_items <= u64::MAX,
                    rem >= 0,
            ;
        }
        let pages64: u64 = if rem != 0 {
            q + 1
        } else {
            q
        };
        let total_pages: u32 = if pages64 > u32::MAX as u64 {
            u32::MAX
        } else {
            pages64 as u32
        };
        PaginationInfo {
            page,
            limit,
            total_items,
            total_pages,
            has_next: page < total_pages,
            has_prev: page > 1,
        }
    }
}

/// A page of data together with its pagination summary.
pub struct PaginatedResponse<T> {
    pub data: Vec<T>,
    pub pagination: PaginationInfo,
}

impl<T> PaginatedResponse<T> {
    /// Wraps one page of items with the summary for the whole result set.
    pub fn new(data: Vec<T>, page: u32, limit: u32, total_items: u64) -> (r: PaginatedResponse<T>)
        requires
            limit >= 1,
        ensures
            r.data == data,
            r.pagination.page == page,
            r.pagination.limit == limit,
            r.pagination.total_items == total_items,
            r.pagination.total_pages == spec_total_pages(total_items as int, limit as int),
            r.pagination.has_next == (page < r.pagination.total_pages),
            r.pagination.has_prev == (page > 1),
    {
        PaginatedResponse { data, pagination: PaginationInfo::new(page, limit, total_items) }
    }
}

/// The raw pagination query of a listing endpoint, before clamping.
pub struct PaginationQuery {
    pub page: Option<i64>,
    pub limit: Option<i64>,
}


} // verus!
