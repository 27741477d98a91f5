//! Fan-in of the per-page extraction tasks.
//!
//! One concurrent task runs per page; each comes back with either that
//! page's records, in page order, or an error.  The default policy is
//! continue-on-error: the merged result keeps every successful page's
//! rows (in the order the results are handed in — no ordering is
//! promised across pages) and records each failed page with its error,
//! and the merge itself never fails.  Callers that need all-or-nothing
//! semantics opt in through [`merge_page_results_strict`].

use vstd::prelude::*;

use vstd::multiset::Multiset;

use crate::codec::batch_view;
use crate::errors::PipelineError;
use crate::partition::Page;
use crate::record::{Conditions, RecordView};

verus! {

broadcast use vstd::seq_lib::group_to_multiset_ensures, vstd::multiset::group_multiset_axioms;

/// What one page task came back with.
pub struct PageResult {
    pub page: Page,
    pub rows: Result<Vec<Conditions>, PipelineError>,
}

/// One recorded failure under the continue-on-error policy.
pub struct PageFailure {
    pub page: Page,
    pub error: PipelineError,
}

/// The merged outcome of one extraction call.
pub struct ExtractOutcome {
    pub records: Vec<Conditions>,
    pub failures: Vec<PageFailure>,
}

/// The rows of all successful pages, in result order.
pub open spec fn merged_rows(results: Seq<PageResult>) -> Seq<RecordView>
    decreases results.len(),
{
    if results.len() == 0 {
        Seq::<RecordView>::empty()
    } else {
        let head = match results[0].rows {
            Ok(v) => batch_view(v@),
            Err(_) => Seq::<RecordView>::empty(),
        };
        head + merged_rows(results.drop_first())
    }
}

/// The failed pages with their errors, in result order.
pub open spec fn failure_list(results: Seq<PageResult>) -> Seq<PageFailure>
    decreases results.len(),
{
    if results.len() == 0 {
        Seq::<PageFailure>::empty()
    } else {
        let rest = failure_list(results.drop_first());
        match results[0].rows {
            Ok(_) => rest,
            Err(e) => seq![PageFailure { page: results[0].page, error: e }] + rest,
        }
    }
}

/// The first error among the results, if any.
pub open spec fn first_failure(results: Seq<PageResult>) -> Option<PipelineError>
    decreases results.len(),
{
    if results.len() == 0 {
        None
    } else {
        match results[0].rows {
            Ok(_) => first_failure(results.drop_first()),
            Err(e) => Some(e),
        }
    }
}

/// Merges the page results under the continue-on-error policy: every
/// successful page's rows are kept, in order; every failed page is
/// recorded with its error; the call itself never fails, so one bad page
/// costs exactly that page's rows.
pub fn merge_page_results(results: Vec<PageResult>) -> (out: ExtractOutcome)
    ensures
        batch_view(out.records@) == merged_rows(results@),
        out.failures@ == failure_list(results@),
{
    let ghost orig = results@;
    let mut results = results;
    let mut records: Vec<Conditions> = Vec::new();
    let mut failures: Vec<PageFailure> = Vec::new();
    proof {
        assert(batch_view(records@) =~= Seq::<RecordView>::empty());
        assert(batch_view(records@) + merged_rows(results@) =~= merged_rows(orig));
        assert(failures@ + failure_list(results@) =~= failure_list(orig));
    }
    while results.len() > 0
        invariant
            merged_rows(orig) == batch_view(records@) + merged_rows(results@),
            failure_list(orig) == failures@ + failure_list(results@),
        decreases results.len(),
    {
        let ghost before = results@;
        let ghost recs_before = records@;
        let ghost fails_before = failures@;
        let r = results.remove(0);
        proof {
            assert(results@ =~= before.drop_first());
            assert(r == before[0]);
        }
        match r.rows {
            Ok(mut v) => {
                let ghost vv = v@;
                records.append(&mut v);
                proof {
                    assert(batch_view(records@) =~= batch_view(recs_before) + batch_view(vv));
                    assert(batch_view(recs_before) + (batch_view(vv) + merged_rows(results@)) =~= (
                    batch_view(recs_before) + batch_view(vv)) + merged_rows(results@));
                }
            },
            Err(e) => {
                failures.push(PageFailure { page: r.page, error: e });
                proof {
                    assert(failures@ =~= fails_before + seq![failures@[fails_before.len() as int]]);
                    assert(fails_before + (seq![failures@[fails_before.len() as int]]
                        + failure_list(results@)) =~= (fails_before + seq![
                        failures@[fails_before.len() as int],
                    ]) + failure_list(results@));
                }
            },
        }
    }
    proof {
        assert(merged_rows(results@) == Seq::<RecordView>::empty());
        assert(batch_view(records@) + Seq::<RecordView>::empty() =~= batch_view(records@));
        assert(failure_list(results@) == Seq::<PageFailure>::empty());
        assert(failures@ + Seq::<PageFailure>::empty() =~= failures@);
    }
    ExtractOutcome { records, failures }
}

/// The opt-in all-or-nothing merge: the rows of every page when all
/// pages succeeded, else the first error.
#[verifier::loop_isolation(false)]
pub fn merge_page_results_strict(results: Vec<PageResult>) -> (out: Result<
    Vec<Conditions>,
    PipelineError,
>)
    ensures
        out matches Ok(records) ==> (batch_view(records@) == merged_rows(results@)
            && first_failure(results@) is None),
        out matches Err(e) ==> first_failure(results@) == Some(e),
{
    let ghost orig = results@;
    let mut results = results;
    let mut records: Vec<Conditions> = Vec::new();
    proof {
        assert(batch_view(records@) =~= Seq::<RecordView>::empty());
        assert(batch_view(records@) + merged_rows(results@) =~= merged_rows(orig));
    }
    while results.len() > 0
        invariant
            merged_rows(orig) == batch_view(records@) + merged_rows(results@),
            first_failure(orig) == first_failure(results@),
        decreases results.len(),
    {
        let ghost before = results@;
        let ghost recs_before = records@;
        let r = results.remove(0);
        proof {
            assert(results@ =~= before.drop_first());
            assert(r == before[0]);
        }
        match r.rows {
            Ok(mut v) => {
                let ghost vv = v@;
                records.append(&mut v);
                proof {
                    assert(batch_view(records@) =~= batch_view(recs_before) + batch_view(vv));
                    assert(batch_view(recs_before) + (batch_view(vv) + merged_rows(results@)) =~= (
                    batch_view(recs_before) + batch_view(vv)) + merged_rows(results@));
                }
            },
            Err(e) => {
                proof {
                    assert(first_failure(before) == Some(e));
                }
                return Err(e);
            },
        }
    }
    proof {
        assert(merged_rows(results@) == Seq::<RecordView>::empty());
        assert(batch_view(records@) + Seq::<RecordView>::empty() =~= batch_view(records@));
    }
    Ok(records)
}

/// Re-sorts a merged result by `created_on` for callers that need global
/// order: the output is ordered by the creation instant and holds exactly
/// the input records, as a multiset.
pub fn sort_by_created_on(records: Vec<Conditions>) -> (r: Vec<Conditions>)
    ensures
        r@.to_multiset() == records@.to_multiset(),
        r@.len() == records@.len(),
        forall|i: int, j: int| 0 <= i < j < r@.len() ==> r@[i].created_on <= r@[j].created_on,
{
    let mut rest = records;
    let mut out: Vec<Conditions> = Vec::new();
    proof {
        assert(out@.to_multiset().add(rest@.to_multiset()) =~= records@.to_multiset());
    }
    while rest.len() > 0
        invariant
            out@.to_multiset().add(rest@.to_multiset()) == records@.to_multiset(),
            out@.len() + rest@.len() == records@.len(),
            forall|i: int, j: int|
                0 <= i < j < out@.len() ==> out@[i].created_on <= out@[j].created_on,
            forall|i: int, j: int|
                0 <= i < out@.len() && 0 <= j < rest@.len() ==> out@[i].created_on
                    <= rest@[j].created_on,
        decreases rest@.len(),
    {
        let mut m: usize = 0;
        let mut k: usize = 1;
        while k < rest.len()
            invariant
                0 < rest@.len(),
                m < k <= rest@.len(),
                forall|j: int| 0 <= j < k ==> rest@[m as int].created_on <= rest@[j].created_on,
            decreases rest@.len() - k,
        {
            if rest[k].created_on < rest[m].created_on {
                m = k;
            }
            k = k + 1;
        }
        let ghost rest_before = rest@;
        let ghost out_before = out@;
        let x = rest.remove(m);
        out.push(x);
        proof {
            assert(rest_before.contains(rest_before[m as int]));
            assert(rest@ == rest_before.remove(m as int));
            assert(rest_before.remove(m as int).to_multiset() =~= rest_before.to_multiset().remove(
                rest_before[m as int],
            ));
            assert(out@ == out_before.push(x));
            assert(out_before.push(x).to_multiset() =~= out_before.to_multiset().insert(x));
            assert(out@.to_multiset().add(rest@.to_multiset()) =~= records@.to_multiset());
            assert forall|j: int| 0 <= j < rest@.len() implies x.created_on
                <= rest@[j].created_on by {
                if j < m {
                    assert(rest@[j] == rest_before[j]);
                } else {
                    assert(rest@[j] == rest_before[j + 1]);
                }
            }
            assert forall|i: int, j: int|
                0 <= i < j < out@.len() implies out@[i].created_on <= out@[j].created_on by {
                if j < out@.len() - 1 {
                    assert(out@[i] == out_before[i]);
                    assert(out@[j] == out_before[j]);
                } else {
                    assert(out@[j] == x);
                    if i < out@.len() - 1 {
                        assert(out@[i] == out_before[i]);
                        assert(out_before[i].created_on <= rest_before[m as int].created_on);
                    }
                }
            }
        }
    }
    proof {
        assert(rest@.to_multiset() =~= Multiset::<Conditions>::empty());
        assert(out@.to_multiset().add(Multiset::<Conditions>::empty()) =~= out@.to_multiset());
    }
    out
}

} // verus!
