//! The query plan: the aggregation the store is asked to run, as a typed
//! value — the five stages in order, correlated against one canonical
//! identifier. The surrounding service renders it in its store's query
//! language; `crate::pipeline::progress_spec` is its meaning.

use vstd::prelude::*;

verus! {

/// One stage of the read-model aggregation, in the order the store runs them.
#[derive(Clone, Copy, Debug, PartialEq, Eq, Structural)]
pub enum PipelineStage {
    /// Join each category to its achievements: one row per achievement.
    ExpandAchievements,
    /// Look up the completion records matching each achievement and the user.
    CorrelateCompletions,
    /// Derive `completed` and choose the display variant.
    DeriveProgress,
    /// Group rows back by the category's `(name, desc)` pair.
    GroupByCategory,
    /// Keep only the view fields, dropping internal identifiers.
    ProjectView,
}

/// The aggregation request: the five stages against one canonical identifier.
pub struct StoreQuery {
    pub addr: String,
    pub stages: Vec<PipelineStage>,
}

/// The stages every progress read issues, in order.
pub open spec fn planned_stages() -> Seq<PipelineStage> {
    seq![
        PipelineStage::ExpandAchievements,
        PipelineStage::CorrelateCompletions,
        PipelineStage::DeriveProgress,
        PipelineStage::GroupByCategory,
        PipelineStage::ProjectView,
    ]
}

/// Build the one aggregation the read issues, for one canonical identifier.
pub fn plan_query(addr: String) -> (r: StoreQuery)
    ensures
        r.addr == addr,
        r.stages@ == planned_stages(),
{
    let mut stages: Vec<PipelineStage> = Vec::new();
    stages.push(PipelineStage::ExpandAchievements);
    stages.push(PipelineStage::CorrelateCompletions);
    stages.push(PipelineStage::DeriveProgress);
    stages.push(PipelineStage::GroupByCategory);
    stages.push(PipelineStage::ProjectView);
    proof {
        assert(stages@ =~= planned_stages());
    }
    StoreQuery { addr, stages }
}

} // verus!
