//! Partitioning of the source dataset into disjoint `(offset, limit)` pages.

use vstd::prelude::*;
use vstd::string::*;
use vstd::arithmetic::div_mod::{lemma_fundamental_div_mod, lemma_fundamental_div_mod_converse};
use vstd::arithmetic::mul::lemma_mul_inequality;

use crate::errors::PipelineError;

verus! {

/// One `(offset, limit)` window over the source dataset ordered by its
/// creation timestamp.
#[derive(Debug, Clone, Copy, PartialEq, Eq, Structural)]
pub struct Page {
    pub offset: u64,
    pub limit: u64,
}

/// The single row that a count query returns.
pub struct CountResult {
    pub count: i64,
}

/// How many pages of `size` rows each are needed for `total` rows:
/// the division `total / size` rounded up.
pub open spec fn page_count(total: int, size: int) -> int
    recommends
        size > 0,
{
    (total + size - 1) / size
}

/// The exact shape of the page list for `total` rows at `size` rows per
/// page: page `i` starts at `i * size` and is full except that the last
/// page stops at `total`.
pub open spec fn pages_shape(pages: Seq<Page>, total: int, size: int) -> bool {
    &&& pages.len() == page_count(total, size)
    &&& forall|i: int|
        0 <= i < pages.len() ==> (#[trigger] pages[i]).offset == i * size
    &&& forall|i: int|
        0 <= i < pages.len() ==> (#[trigger] pages[i]).limit == if i * size + size <= total {
            size
        } else {
            total - i * size
        }
}

/// Whether row index `x` falls inside page `p`.
pub open spec fn page_holds(p: Page, x: int) -> bool {
    p.offset <= x < p.offset + p.limit
}

/// Whether some page of `pages` contains row index `x`.
pub open spec fn covered(pages: Seq<Page>, x: int) -> bool {
    exists|i: int| 0 <= i < pages.len() && page_holds(#[trigger] pages[i], x)
}

/// Derives the covering list of pages for `total` rows, `page_size` rows
/// per page.  A `page_size` of zero is rejected; `total == 0` yields zero
/// pages; `total < page_size` yields exactly one page of limit `total`.
pub fn compute_pages(total: u64, page_size: u64) -> (r: Result<Vec<Page>, PipelineError>)
    ensures
        page_size == 0 ==> (r matches Err(e) && e is InvalidArgument),
        page_size > 0 ==> (r matches Ok(pages) && pages_shape(
            pages@,
            total as int,
            page_size as int,
        )),
{
    if page_size == 0 {
        return Err(PipelineError::InvalidArgument);
    }
    let mut pages: Vec<Page> = Vec::new();
    let mut offset: u64 = 0;
    proof {
        assert(pages@.len() * page_size == 0) by (nonlinear_arith)
            requires pages@.len() == 0;
    }
    while offset < total
        invariant
            page_size >= 1,
            offset <= total,
            offset == pages@.len() * page_size || (offset == total && pages@.len() as int
                == page_count(total as int, page_size as int)),
            forall|i: int|
                0 <= i < pages@.len() ==> (#[trigger] pages@[i]).offset == i * page_size,
            forall|i: int|
                0 <= i < pages@.len() ==> (#[trigger] pages@[i]).limit == if i * page_size
                    + page_size <= total {
                    page_size as int
                } else {
                    total - i * page_size
                },
        decreases total - offset,
    {
        let ghost n = pages@.len() as int;
        let ghost t = total as int;
        let ghost s = page_size as int;
        proof {
            // At the loop head with `offset < total`, the second disjunct of
            // the offset invariant is impossible, so `offset == n * s`.
            assert(offset == n * s);
        }
        let remaining = total - offset;
        if remaining >= page_size {
            pages.push(Page { offset, limit: page_size });
            proof {
                assert((n + 1) * s == n * s + s) by (nonlinear_arith);
                if offset + page_size == total {
                    // The final page is full: `t == (n + 1) * s`, so the
                    // rounded-up page count is exactly `n + 1`.
                    lemma_fundamental_div_mod_converse(t + s - 1, s, n + 1, s - 1);
                }
            }
            offset = offset + page_size;
        } else {
            pages.push(Page { offset, limit: remaining });
            proof {
                // `t == n * s + remaining` with `0 < remaining < s`, so the
                // rounded-up page count is `n + 1`.
                assert((n + 1) * s == n * s + s) by (nonlinear_arith);
                lemma_fundamental_div_mod_converse(t + s - 1, s, n + 1, remaining - 1);
            }
            offset = total;
        }
    }
    proof {
        if pages@.len() * page_size == offset && offset == total {
            // `total` is an exact multiple of `page_size` (including 0).
            let n = pages@.len() as int;
            let t = total as int;
            let s = page_size as int;
            lemma_fundamental_div_mod_converse(t + s - 1, s, n, s - 1);
        }
    }
    Ok(pages)
}

/// The pages of `pages_shape` cover `[0, total)` exactly once: every row
/// index below `total` lies in exactly one page, and no page reaches
/// outside `[0, total)`.
pub proof fn lemma_pages_cover(pages: Seq<Page>, total: int, size: int)
    requires
        size > 0,
        total >= 0,
        pages_shape(pages, total, size),
    ensures
        forall|x: int| 0 <= x < total ==> covered(pages, x),
        forall|x: int| covered(pages, x) ==> 0 <= x < total,
        forall|i: int, j: int, x: int|
            0 <= i < pages.len() && 0 <= j < pages.len() && page_holds(pages[i], x)
                && page_holds(pages[j], x) ==> i == j,
{
    let n = pages.len() as int;
    // The page count is large enough: `n * size >= total`.
    lemma_fundamental_div_mod(total + size - 1, size);
    assert(n * size == size * n) by {
        vstd::arithmetic::mul::lemma_mul_is_commutative(n, size);
    }
    assert(n * size + size > total);
    assert(n * size >= total);

    // Coverage: row `x` lies in page `x / size`.
    assert forall|x: int| 0 <= x < total implies covered(pages, x) by {
        let i = x / size;
        lemma_fundamental_div_mod(x, size);
        let r = x % size;
        assert(x == i * size + r) by {
            vstd::arithmetic::mul::lemma_mul_is_commutative(i, size);
        }
        assert(0 <= i) by {
            vstd::arithmetic::div_mod::lemma_div_pos_is_pos(x, size);
        }
        assert(i < n) by {
            if i >= n {
                lemma_mul_inequality(n, i, size);
                assert(i * size >= n * size);
            }
        }
        assert(page_holds(pages[i], x));
    }

    // No page reaches outside `[0, total)`.
    assert forall|x: int| covered(pages, x) implies 0 <= x < total by {
        let i = choose|i: int| 0 <= i < pages.len() && page_holds(#[trigger] pages[i], x);
        assert(pages[i].offset >= 0) by {
            vstd::arithmetic::mul::lemma_mul_nonnegative(i, size);
        }
        if i * size + size <= total {
            assert(x < i * size + size);
        }
    }

    // Disjointness: a row pins down its page index by division.
    assert forall|i: int, j: int, x: int|
        0 <= i < pages.len() && 0 <= j < pages.len() && page_holds(pages[i], x) && page_holds(
            pages[j],
            x,
        ) implies i == j by {
        lemma_page_index_unique(pages, total, size, i, x);
        lemma_page_index_unique(pages, total, size, j, x);
    }
}

/// A row held by page `i` has `i == x / size`.
proof fn lemma_page_index_unique(pages: Seq<Page>, total: int, size: int, i: int, x: int)
    requires
        size > 0,
        total >= 0,
        pages_shape(pages, total, size),
        0 <= i < pages.len(),
        page_holds(pages[i], x),
    ensures
        i == x / size,
{
    assert(pages[i].limit <= size);
    assert(i * size <= x < i * size + size);
    lemma_fundamental_div_mod_converse(x, size, i, x - i * size);
}

/// The count statement issued before fan-out, scoped by the same filter
/// predicate used for extraction.
pub fn count_query(filter: &str) -> (r: String)
    ensures
        r@ == "SELECT COUNT(id) AS total FROM conditions WHERE "@ + filter@,
{
    let mut out = String::new();
    out.append("SELECT COUNT(id) AS total FROM conditions WHERE ");
    out.append(filter);
    out
}

/// The windowed, ordered query of one page: the extraction filter with
/// the page bounds, ordered by the creation instant.
pub fn windowed_query(filter: &str, page: &Page) -> (r: String)
    ensures
        r@ == "SELECT id, created_on, location, temperature, humidity FROM conditions WHERE "@
            + filter@ + " ORDER BY created_on OFFSET "@ + crate::decimal::dec_rep(
            page.offset as nat,
        ) + " ROWS FETCH NEXT "@ + crate::decimal::dec_rep(page.limit as nat) + " ROWS ONLY"@,
{
    let mut out = String::new();
    out.append("SELECT id, created_on, location, temperature, humidity FROM conditions WHERE ");
    out.append(filter);
    out.append(" ORDER BY created_on OFFSET ");
    crate::decimal::push_u64_dec(&mut out, page.offset);
    out.append(" ROWS FETCH NEXT ");
    crate::decimal::push_u64_dec(&mut out, page.limit);
    out.append(" ROWS ONLY");
    proof {
        assert(out@ =~= "SELECT id, created_on, location, temperature, humidity FROM conditions WHERE "@
            + filter@ + " ORDER BY created_on OFFSET "@ + crate::decimal::dec_rep(
            page.offset as nat,
        ) + " ROWS FETCH NEXT "@ + crate::decimal::dec_rep(page.limit as nat) + " ROWS ONLY"@);
    }
    out
}

/// Reads the outcome of the count query: any total from zero up passes
/// through unchanged — an empty source is a total of zero, for which
/// `compute_pages` yields zero pages and extraction an empty result.  A
/// negative total can only be a backend fault and is reported as a failed
/// query.
pub fn count_from_result(c: &CountResult) -> (r: Result<u64, PipelineError>)
    ensures
        c.count >= 0 ==> (r matches Ok(n) && n == c.count),
        c.count < 0 ==> (r matches Err(e) && e is QueryFailed),
{
    if c.count >= 0 {
        Ok(c.count as u64)
    } else {
        Err(PipelineError::QueryFailed(String::from_str("count query returned a negative total")))
    }
}

} // verus!
