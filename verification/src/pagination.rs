use vstd::prelude::*;
use vstd::arithmetic::div_mod::{
    lemma_div_nonincreasing, lemma_div_plus_one, lemma_fundamental_div_mod,
};

verus! {

/// The limit actually used by the pagination calculator: a non-positive limit
/// is treated as 1, so no division by zero and no negative page size occurs.
pub open spec fn spec_effective_limit(limit: int) -> int {
    if limit <= 0 {
        1
    } else {
        limit
    }
}

/// Number of pages reported for a total record count: the ceiling of
/// total / limit, except that an empty result set is still reported as one
/// page, so an empty listing reads "page 1 of 1".
pub open spec fn spec_page_count(total: int, limit: int) -> int {
    if total <= 0 {
        1
    } else {
        (total - 1) / spec_effective_limit(limit) + 1
    }
}

/// Whether the given page is at or past the final page.
pub open spec fn spec_is_last_page(page: int, total: int, limit: int) -> bool {
    page >= spec_page_count(total, limit)
}

/// Row offset of a page in the underlying query. Page values below 1 denote
/// the first page (0 and 1 are equivalent at every call site), so the offset
/// is never negative.
pub open spec fn spec_page_offset(page: int, limit: int) -> int {
    (if page <= 1 {
        0
    } else {
        page - 1
    }) * spec_effective_limit(limit)
}

/// The clamped page size, as every query uses it.
pub fn effective_limit(limit: i64) -> (r: i64)
    ensures
        r == spec_effective_limit(limit as int),
{
    if limit <= 0 {
        1
    } else {
        limit
    }
}

/// The row offset of a page, saturating instead of overflowing, so no page
/// ever yields a negative or wrapped offset.
pub fn page_offset(page: i64, limit: i64) -> (r: i64)
    ensures
        r >= 0,
        r == (if spec_page_offset(page as int, limit as int) > i64::MAX {
            i64::MAX as int
        } else {
            spec_page_offset(page as int, limit as int)
        }),
{
    let eff = effective_limit(limit);
    let page_m1: i64 = if page <= 1 {
        0
    } else {
        page - 1
    };
    match page_m1.checked_mul(eff) {
        Some(v) => v,
        None => i64::MAX,
    }
}

/// For every total of at least one record and every positive limit, the page
/// count is exactly the ceiling of total divided by limit: it is the unique
/// number of limit-sized pages that covers all records, the page equal to it
/// (or any greater page) is the last one, and every smaller positive page is
/// not the last.
pub proof fn lemma_page_count_is_ceiling(total: int, limit: int, page: int)
    requires
        total >= 1,
        limit >= 1,
    ensures
        spec_page_count(total, limit) == (total + limit - 1) / limit,
        limit * spec_page_count(total, limit) >= total,
        limit * (spec_page_count(total, limit) - 1) < total,
        page >= spec_page_count(total, limit) ==> spec_is_last_page(page, total, limit),
        1 <= page < spec_page_count(total, limit) ==> !spec_is_last_page(page, total, limit),
{
    let q = (total - 1) / limit;
    let r = (total - 1) % limit;
    lemma_fundamental_div_mod(total - 1, limit);
    assert(total - 1 == limit * q + r);
    assert(0 <= r < limit);
    assert(limit * (q + 1) == limit * q + limit) by (nonlinear_arith);
    lemma_div_plus_one(total - 1, limit);
    assert((total + limit - 1) / limit == q + 1);
}

/// Pagination with a non-positive limit behaves exactly as with limit 1:
/// the page count, the last-page flag and the query offset are the same,
/// no division by zero happens, and the offset is never negative.
pub proof fn lemma_nonpositive_limit_behaves_as_one(total: int, limit: int, page: int)
    requires
        limit <= 0,
    ensures
        spec_page_count(total, limit) == spec_page_count(total, 1),
        spec_is_last_page(page, total, limit) == spec_is_last_page(page, total, 1),
        spec_page_offset(page, limit) == spec_page_offset(page, 1),
        spec_page_offset(page, limit) >= 0,
{
}

/// The page count never exceeds the total it was computed from, whenever at
/// least one record exists; used to keep the executable arithmetic in bounds.
pub proof fn lemma_page_count_le_total(total: int, limit: int)
    requires
        total >= 1,
    ensures
        1 <= spec_page_count(total, limit) <= total,
{
    lemma_div_nonincreasing(total - 1, spec_effective_limit(limit));
}

} // verus!
