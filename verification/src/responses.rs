use vstd::prelude::*;

use crate::pagination::{lemma_page_count_le_total, spec_is_last_page, spec_page_count};

verus! {

/// One page of items of any kind together with the pagination descriptor
/// computed for it.
pub struct PaginatedResponse<T> {
    pub data: Vec<T>,
    pub page: u64,
    pub size: u64,
    pub page_count: u64,
    pub last: bool,
}

impl<T> PaginatedResponse<T> {
    /// Computes the pagination descriptor for one page of data, with the same
    /// policy as every other pagination surface: a limit of zero is treated
    /// as 1 and a total of zero records is reported as one (empty) page.
    pub fn new(data: Vec<T>, page: u64, total_records: u64, limit: u64) -> (r: PaginatedResponse<
        T,
    >)
        ensures
            r.data == data,
            r.page == page,
            r.size == data@.len(),
            r.page_count == spec_page_count(total_records as int, limit as int),
            r.last == spec_is_last_page(page as int, total_records as int, limit as int),
    {
        let effective_limit: u64 = if limit == 0 {
            1
        } else {
            limit
        };
        let page_count: u64 = if total_records == 0 {
            1
        } else {
            proof {
                lemma_page_count_le_total(total_records as int, limit as int);
            }
            (total_records - 1) / effective_limit + 1
        };
        let size = data.len() as u64;
        let last = page >= page_count;
        PaginatedResponse { data, page, size, page_count, last }
    }
}

/// An error rendered to a client, carrying only its message.
pub struct Error {
    pub error: String,
}

} // verus!
