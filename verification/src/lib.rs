//! A read model for per-user achievement progress.
//!
//! Given a wallet identifier, the library validates it, plans a single
//! aggregation over three record sets (categories, achievements, completion
//! records), and shapes the store's reply into a list of category views
//! with per-achievement completion state. The surrounding service owns the
//! store round trip: it renders the plan from [`get_progress_start`] in its
//! store's query language and hands the outcome to [`get_progress_finish`].
//! [`aggregate::aggregate_progress`] is the verified reference semantics of
//! the aggregation itself.

pub mod aggregate;
pub mod laws;
pub mod model;
pub mod pipeline;
pub mod query;
pub mod wallet;

use crate::model::{
    Achievement, Category, CategoryProgress, CategoryProgressView, CompletionRecord,
    category_progress_views,
};
use crate::pipeline::progress_spec;
use crate::query::{StoreQuery, plan_query, planned_stages};
use crate::wallet::{WalletId, canonical_string, decimal_of, is_zero_id};
use vstd::prelude::*;
use vstd::string::StringExecFns;

verus! {

/// Why a progress read failed.
#[derive(Debug)]
pub enum ProgressError {
    /// The identifier was the unset sentinel; the store was never asked.
    Validation { message: String },
    /// The store failed to run the aggregation.
    Query { message: String },
}

impl ProgressError {
    /// The human-readable message the error carries.
    pub fn message(&self) -> (r: &String)
        ensures
            self matches ProgressError::Validation { message } ==> r@ == message@,
            self matches ProgressError::Query { message } ==> r@ == message@,
    {
        match self {
            ProgressError::Validation { message } => message,
            ProgressError::Query { message } => message,
        }
    }
}

/// The outcome of the store round trip, as the surrounding service hands
/// it back: one entry per reply row, `None` where a row did not decode
/// into the expected shape; or the store's failure message.
pub enum StoreOutcome {
    Rows(Vec<Option<CategoryProgress>>),
    Failure(String),
}

/// The views of the rows that decoded, in reply order.
pub open spec fn decoded_rows(rows: Seq<Option<CategoryProgress>>) -> Seq<CategoryProgressView>
    decreases rows.len(),
{
    if rows.len() == 0 {
        Seq::empty()
    } else {
        let rest = decoded_rows(rows.drop_first());
        match rows.first() {
            Some(g) => seq![g@] + rest,
            None => rest,
        }
    }
}

/// Begin a progress read: reject the unset sentinel identifier without
/// asking the store, else plan the one aggregation against the canonical
/// decimal form of the identifier.
pub fn get_progress_start(id: &WalletId) -> (r: Result<StoreQuery, ProgressError>)
    requires
        id.wf(),
    ensures
        is_zero_id(id@) ==> (r matches Err(ProgressError::Validation { message })
            && message@ == "Please connect your wallet first"@),
        !is_zero_id(id@) ==> (r matches Ok(q) && q.addr@ == decimal_of(id@) && q.stages@
            == planned_stages()),
{
    if id.is_unset() {
        Err(
            ProgressError::Validation {
                message: "Please connect your wallet first".to_owned(),
            },
        )
    } else {
        Ok(plan_query(canonical_string(&id.bytes)))
    }
}

/// Finish a progress read: keep every row that decoded, skip the malformed
/// ones, and turn a store failure into a `Query` error carrying the
/// store's message.
pub fn get_progress_finish(outcome: StoreOutcome) -> (r: Result<
    Vec<CategoryProgress>,
    ProgressError,
>)
    ensures
        (outcome matches StoreOutcome::Rows(rows) ==> (r matches Ok(out)
            && category_progress_views(out@) == decoded_rows(rows@))),
        (outcome matches StoreOutcome::Failure(msg) ==> (r matches Err(
            ProgressError::Query { message },
        ) && message@ == "Error fetching user achievements: "@ + msg@)),
{
    match outcome {
        StoreOutcome::Rows(rows) => {
            let ghost all = rows@;
            let mut rows = rows;
            let mut out: Vec<CategoryProgress> = Vec::new();
            proof {
                assert(category_progress_views(out@) + decoded_rows(rows@) =~= decoded_rows(all));
            }
            while rows.len() > 0
                invariant
                    category_progress_views(out@) + decoded_rows(rows@) == decoded_rows(all),
                decreases rows@.len(),
            {
                let ghost rows_pre = rows@;
                let first = rows.remove(0);
                proof {
                    assert(rows@ =~= rows_pre.drop_first());
                }
                match first {
                    Some(g) => {
                        let ghost out_pre = out@;
                        out.push(g);
                        proof {
                            assert(category_progress_views(out@) =~= category_progress_views(
                                out_pre,
                            ).push(g@));
                            assert(category_progress_views(out@) + decoded_rows(rows@)
                                =~= category_progress_views(out_pre) + (seq![g@] + decoded_rows(
                                rows@,
                            )));
                        }
                    },
                    None => {},
                }
            }
            proof {
                assert(category_progress_views(out@) + decoded_rows(rows@)
                    =~= category_progress_views(out@));
            }
            Ok(out)
        },
        StoreOutcome::Failure(msg) => {
            let mut message = "Error fetching user achievements: ".to_owned();
            message.append(msg.as_str());
            Err(ProgressError::Query { message })
        },
    }
}

/// Run the whole read against an in-memory store: validate, then aggregate.
/// This is the reference semantics of the read; where the records live in
/// an outside store, the service runs the plan there instead and the
/// outcome goes through [`get_progress_finish`].
pub fn get_progress_local(
    id: &WalletId,
    cats: &Vec<Category>,
    achs: &Vec<Achievement>,
    recs: &Vec<CompletionRecord>,
) -> (r: Result<Vec<CategoryProgress>, ProgressError>)
    requires
        id.wf(),
    ensures
        is_zero_id(id@) ==> (r matches Err(ProgressError::Validation { message })
            && message@ == "Please connect your wallet first"@),
        !is_zero_id(id@) ==> (r matches Ok(out) && category_progress_views(out@) == progress_spec(
            cats@,
            achs@,
            recs@,
            decimal_of(id@),
        )),
{
    match get_progress_start(id) {
        Err(e) => Err(e),
        Ok(q) => Ok(crate::aggregate::aggregate_progress(cats, achs, recs, &q.addr)),
    }
}

} // verus!
