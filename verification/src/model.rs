//! The record shapes the store holds and the view shapes the read returns.

use vstd::prelude::*;

verus! {

/// A category of achievements, as the store holds it.
pub struct Category {
    pub id: String,
    pub name: String,
    pub desc: String,
}

/// An achievement, with the two display variants between which the
/// completion state chooses.
pub struct Achievement {
    pub id: String,
    pub category_id: String,
    pub name: String,
    pub short_desc: String,
    pub todo_title: String,
    pub todo_desc: String,
    pub done_title: String,
    pub done_desc: String,
    pub verify_type: String,
}

/// A stored fact that a user has satisfied an achievement. The user is
/// keyed by the canonical decimal form of the wallet identifier.
pub struct CompletionRecord {
    pub achievement_id: String,
    pub addr: String,
}

/// One achievement in the view, its display text already chosen by
/// `completed`: never both variants at once.
pub struct AchievementProgress {
    pub name: String,
    pub short_desc: String,
    pub title: String,
    pub desc: String,
    pub completed: bool,
    pub verify_type: String,
}

/// One category in the view, with its achievements in store order.
pub struct CategoryProgress {
    pub category_name: String,
    pub category_desc: String,
    pub achievements: Vec<AchievementProgress>,
}

/// Mathematical image of `AchievementProgress`.
#[verifier::ext_equal]
pub ghost struct ProgressView {
    pub name: Seq<char>,
    pub short_desc: Seq<char>,
    pub title: Seq<char>,
    pub desc: Seq<char>,
    pub completed: bool,
    pub verify_type: Seq<char>,
}

/// Mathematical image of `CategoryProgress`.
#[verifier::ext_equal]
pub ghost struct CategoryProgressView {
    pub category_name: Seq<char>,
    pub category_desc: Seq<char>,
    pub achievements: Seq<ProgressView>,
}

impl View for AchievementProgress {
    type V = ProgressView;

    open spec fn view(&self) -> ProgressView {
        ProgressView {
            name: self.name@,
            short_desc: self.short_desc@,
            title: self.title@,
            desc: self.desc@,
            completed: self.completed,
            verify_type: self.verify_type@,
        }
    }
}

pub open spec fn progress_views(s: Seq<AchievementProgress>) -> Seq<ProgressView> {
    s.map_values(|p: AchievementProgress| p@)
}

impl View for CategoryProgress {
    type V = CategoryProgressView;

    open spec fn view(&self) -> CategoryProgressView {
        CategoryProgressView {
            category_name: self.category_name@,
            category_desc: self.category_desc@,
            achievements: progress_views(self.achievements@),
        }
    }
}

pub open spec fn category_progress_views(s: Seq<CategoryProgress>) -> Seq<CategoryProgressView> {
    s.map_values(|g: CategoryProgress| g@)
}

} // verus!
