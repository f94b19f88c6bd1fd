use vstd::prelude::*;

verus! {

/// How many listing pages a crawl visits in total: page 1 is always visited,
/// and the remaining pages follow from `ceil(total_count / page_size)`.
/// A page size of zero must never reach the division: the crawl then stays
/// on page 1 alone.
pub open spec fn spec_pages_total(total_count: int, page_size: int) -> int {
    if page_size > 0 {
        if total_count % page_size == 0 {
            total_count / page_size
        } else {
            total_count / page_size + 1
        }
    } else {
        1
    }
}

/// Ceiling division of the total result count by the page size, guarded
/// against a zero page size.
pub fn pages_total(total_count: usize, page_size: usize) -> (r: usize)
    ensures
        r == spec_pages_total(total_count as int, page_size as int),
{
    if page_size == 0 {
        1
    } else if total_count % page_size == 0 {
        total_count / page_size
    } else {
        assert(page_size >= 2);
        assert(total_count / page_size < usize::MAX) by (nonlinear_arith)
            requires
                page_size >= 2,
                total_count <= usize::MAX,
        ;
        total_count / page_size + 1
    }
}

} // verus!
