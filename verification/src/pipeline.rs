//! The meaning of the aggregation: five stages — expand, correlate, derive,
//! group, project — composed into `progress_spec`, with the structural
//! lemmas the implementation and the stated laws rest on.

use crate::model::{Achievement, Category, CategoryProgressView, CompletionRecord, ProgressView};
use vstd::prelude::*;

verus! {

/// The `(name, desc)` pair by which the grouping stage keys rows.
#[verifier::ext_equal]
pub ghost struct GroupKey {
    pub name: Seq<char>,
    pub desc: Seq<char>,
}

/// One row after the expand stage: a category joined to one of its achievements.
#[verifier::ext_equal]
pub ghost struct JoinedRow {
    pub cat: Category,
    pub ach: Achievement,
}

pub open spec fn key_of(c: Category) -> GroupKey {
    GroupKey { name: c.name@, desc: c.desc@ }
}

pub open spec fn row_key(r: JoinedRow) -> GroupKey {
    key_of(r.cat)
}

/// Expand, for one category: one row per achievement whose `category_id`
/// equals the category's `id`, in store order.
pub open spec fn rows_for(c: Category, achs: Seq<Achievement>) -> Seq<JoinedRow>
    decreases achs.len(),
{
    if achs.len() == 0 {
        Seq::empty()
    } else {
        let init = rows_for(c, achs.drop_last());
        if achs.last().category_id@ == c.id@ {
            init.push(JoinedRow { cat: c, ach: achs.last() })
        } else {
            init
        }
    }
}

/// Expand: rows for every category, in store order.
pub open spec fn expand(cats: Seq<Category>, achs: Seq<Achievement>) -> Seq<JoinedRow>
    decreases cats.len(),
{
    if cats.len() == 0 {
        Seq::empty()
    } else {
        expand(cats.drop_last(), achs) + rows_for(cats.last(), achs)
    }
}

/// Correlate: whether any completion record matches the achievement and
/// the user's canonical identifier. Presence is boolean: duplicates count once.
pub open spec fn has_completion(
    recs: Seq<CompletionRecord>,
    aid: Seq<char>,
    addr: Seq<char>,
) -> bool {
    exists|k: int|
        0 <= k < recs.len() && recs[k].achievement_id@ == aid && recs[k].addr@ == addr
}

/// Derive: choose the display variant by the completion state.
pub open spec fn derive_progress(a: Achievement, done: bool) -> ProgressView {
    ProgressView {
        name: a.name@,
        short_desc: a.short_desc@,
        title: if done {
            a.done_title@
        } else {
            a.todo_title@
        },
        desc: if done {
            a.done_desc@
        } else {
            a.todo_desc@
        },
        completed: done,
        verify_type: a.verify_type@,
    }
}

pub open spec fn row_keys(rows: Seq<JoinedRow>) -> Seq<GroupKey>
    decreases rows.len(),
{
    if rows.len() == 0 {
        Seq::empty()
    } else {
        row_keys(rows.drop_last()).push(row_key(rows.last()))
    }
}

/// The distinct keys of a sequence, in order of first appearance.
pub open spec fn first_keys(ks: Seq<GroupKey>) -> Seq<GroupKey>
    decreases ks.len(),
{
    if ks.len() == 0 {
        Seq::empty()
    } else {
        let init = first_keys(ks.drop_last());
        if ks.drop_last().contains(ks.last()) {
            init
        } else {
            init.push(ks.last())
        }
    }
}

/// Group: the derived entries of all rows under one key, in row order.
pub open spec fn items_for(
    rows: Seq<JoinedRow>,
    k: GroupKey,
    recs: Seq<CompletionRecord>,
    addr: Seq<char>,
) -> Seq<ProgressView>
    decreases rows.len(),
{
    if rows.len() == 0 {
        Seq::empty()
    } else {
        let init = items_for(rows.drop_last(), k, recs, addr);
        if row_key(rows.last()) == k {
            init.push(
                derive_progress(
                    rows.last().ach,
                    has_completion(recs, rows.last().ach.id@, addr),
                ),
            )
        } else {
            init
        }
    }
}

/// Project: one view object per key, internal identifiers dropped.
pub open spec fn groups_for(
    ks: Seq<GroupKey>,
    rows: Seq<JoinedRow>,
    recs: Seq<CompletionRecord>,
    addr: Seq<char>,
) -> Seq<CategoryProgressView>
    decreases ks.len(),
{
    if ks.len() == 0 {
        Seq::empty()
    } else {
        groups_for(ks.drop_last(), rows, recs, addr).push(
            CategoryProgressView {
                category_name: ks.last().name,
                category_desc: ks.last().desc,
                achievements: items_for(rows, ks.last(), recs, addr),
            },
        )
    }
}

/// What the aggregation returns for a store and a canonical identifier:
/// the five stages composed.
pub open spec fn progress_spec(
    cats: Seq<Category>,
    achs: Seq<Achievement>,
    recs: Seq<CompletionRecord>,
    addr: Seq<char>,
) -> Seq<CategoryProgressView> {
    let rows = expand(cats, achs);
    groups_for(first_keys(row_keys(rows)), rows, recs, addr)
}

pub proof fn lemma_groups_for_index(
    ks: Seq<GroupKey>,
    rows: Seq<JoinedRow>,
    recs: Seq<CompletionRecord>,
    addr: Seq<char>,
)
    ensures
        groups_for(ks, rows, recs, addr).len() == ks.len(),
        forall|g: int|
            0 <= g < ks.len() ==> groups_for(ks, rows, recs, addr)[g]
                == (CategoryProgressView {
                category_name: ks[g].name,
                category_desc: ks[g].desc,
                achievements: items_for(rows, ks[g], recs, addr),
            }),
    decreases ks.len(),
{
    if ks.len() > 0 {
        lemma_groups_for_index(ks.drop_last(), rows, recs, addr);
    }
}

pub proof fn lemma_row_keys_index(rows: Seq<JoinedRow>)
    ensures
        row_keys(rows).len() == rows.len(),
        forall|i: int| 0 <= i < rows.len() ==> row_keys(rows)[i] == row_key(rows[i]),
    decreases rows.len(),
{
    if rows.len() > 0 {
        lemma_row_keys_index(rows.drop_last());
    }
}

pub proof fn lemma_push_contains<A>(s: Seq<A>, v: A, x: A)
    ensures
        s.push(v).contains(x) <==> (s.contains(x) || v == x),
{
    if s.push(v).contains(x) {
        let i = choose|i: int| 0 <= i < s.push(v).len() && s.push(v)[i] == x;
        if i < s.len() {
            assert(s[i] == x);
        }
    }
    if s.contains(x) {
        let i = choose|i: int| 0 <= i < s.len() && s[i] == x;
        assert(s.push(v)[i] == x);
    }
    assert(s.push(v)[s.len() as int] == v);
}

pub proof fn lemma_first_keys_membership(ks: Seq<GroupKey>, k: GroupKey)
    ensures
        first_keys(ks).contains(k) <==> ks.contains(k),
    decreases ks.len(),
{
    if ks.len() > 0 {
        lemma_first_keys_membership(ks.drop_last(), k);
        assert(ks =~= ks.drop_last().push(ks.last()));
        lemma_push_contains(ks.drop_last(), ks.last(), k);
        if !ks.drop_last().contains(ks.last()) {
            lemma_push_contains(first_keys(ks.drop_last()), ks.last(), k);
        }
    }
}

pub proof fn lemma_first_keys_distinct(ks: Seq<GroupKey>)
    ensures
        forall|i: int, j: int|
            0 <= i < j < first_keys(ks).len() ==> first_keys(ks)[i] != first_keys(ks)[j],
    decreases ks.len(),
{
    if ks.len() > 0 {
        lemma_first_keys_distinct(ks.drop_last());
        if !ks.drop_last().contains(ks.last()) {
            lemma_first_keys_membership(ks.drop_last(), ks.last());
            let init = first_keys(ks.drop_last());
            assert(!init.contains(ks.last()));
            assert(first_keys(ks) == init.push(ks.last()));
            assert forall|i: int, j: int|
                0 <= i < j < first_keys(ks).len() implies first_keys(ks)[i]
                != first_keys(ks)[j] by {
                if j == first_keys(ks).len() - 1 {
                    assert(init.contains(init[i]));
                } else {
                    assert(init[i] != init[j]);
                }
            }
        }
    }
}

pub proof fn lemma_row_keys_push(rows: Seq<JoinedRow>, r: JoinedRow)
    ensures
        row_keys(rows.push(r)) == row_keys(rows).push(row_key(r)),
{
    assert(rows.push(r).drop_last() =~= rows);
    assert(rows.push(r).last() == r);
}

pub proof fn lemma_first_keys_push(ks: Seq<GroupKey>, k: GroupKey)
    ensures
        ks.contains(k) ==> first_keys(ks.push(k)) == first_keys(ks),
        !ks.contains(k) ==> first_keys(ks.push(k)) == first_keys(ks).push(k),
{
    assert(ks.push(k).drop_last() =~= ks);
    assert(ks.push(k).last() == k);
}

pub proof fn lemma_items_for_push(
    rows: Seq<JoinedRow>,
    r: JoinedRow,
    k: GroupKey,
    recs: Seq<CompletionRecord>,
    addr: Seq<char>,
)
    ensures
        row_key(r) == k ==> items_for(rows.push(r), k, recs, addr) == items_for(
            rows,
            k,
            recs,
            addr,
        ).push(derive_progress(r.ach, has_completion(recs, r.ach.id@, addr))),
        row_key(r) != k ==> items_for(rows.push(r), k, recs, addr) == items_for(
            rows,
            k,
            recs,
            addr,
        ),
{
    assert(rows.push(r).drop_last() =~= rows);
    assert(rows.push(r).last() == r);
}

/// Appending one row leaves every group unchanged but the groups keyed by
/// that row, whose item list grows by the row's derived entry.
pub proof fn lemma_groups_for_push_row(
    ks: Seq<GroupKey>,
    rows: Seq<JoinedRow>,
    r: JoinedRow,
    recs: Seq<CompletionRecord>,
    addr: Seq<char>,
)
    ensures
        groups_for(ks, rows.push(r), recs, addr).len() == ks.len(),
        forall|g: int|
            0 <= g < ks.len() && ks[g] == row_key(r) ==> groups_for(ks, rows.push(r), recs, addr)[g]
                == (CategoryProgressView {
                category_name: ks[g].name,
                category_desc: ks[g].desc,
                achievements: items_for(rows, ks[g], recs, addr).push(
                    derive_progress(r.ach, has_completion(recs, r.ach.id@, addr)),
                ),
            }),
        forall|g: int|
            0 <= g < ks.len() && ks[g] != row_key(r) ==> groups_for(ks, rows.push(r), recs, addr)[g]
                == groups_for(ks, rows, recs, addr)[g],
{
    lemma_groups_for_index(ks, rows, recs, addr);
    lemma_groups_for_index(ks, rows.push(r), recs, addr);
    assert forall|g: int| 0 <= g < ks.len() implies groups_for(ks, rows.push(r), recs, addr)[g]
        == if ks[g] == row_key(r) {
        (CategoryProgressView {
            category_name: ks[g].name,
            category_desc: ks[g].desc,
            achievements: items_for(rows, ks[g], recs, addr).push(
                derive_progress(r.ach, has_completion(recs, r.ach.id@, addr)),
            ),
        })
    } else {
        groups_for(ks, rows, recs, addr)[g]
    } by {
        lemma_items_for_push(rows, r, ks[g], recs, addr);
    }
}

/// One record more changes the correlation only where that record matches.
pub proof fn lemma_has_completion_push(
    recs: Seq<CompletionRecord>,
    r: CompletionRecord,
    aid: Seq<char>,
    addr: Seq<char>,
)
    ensures
        has_completion(recs.push(r), aid, addr) == (has_completion(recs, aid, addr) || (
        r.achievement_id@ == aid && r.addr@ == addr)),
{
    if has_completion(recs.push(r), aid, addr) {
        let k = choose|k: int|
            0 <= k < recs.push(r).len() && recs.push(r)[k].achievement_id@ == aid && recs.push(
                r,
            )[k].addr@ == addr;
        if k < recs.len() {
            assert(recs[k].achievement_id@ == aid && recs[k].addr@ == addr);
        }
    }
    if has_completion(recs, aid, addr) {
        let k = choose|k: int|
            0 <= k < recs.len() && recs[k].achievement_id@ == aid && recs[k].addr@ == addr;
        assert(recs.push(r)[k] == recs[k]);
    }
    assert(recs.push(r)[recs.len() as int] == r);
}

/// A key no row carries groups an empty item list.
pub proof fn lemma_items_for_absent(
    rows: Seq<JoinedRow>,
    k: GroupKey,
    recs: Seq<CompletionRecord>,
    addr: Seq<char>,
)
    requires
        !row_keys(rows).contains(k),
    ensures
        items_for(rows, k, recs, addr) == Seq::<ProgressView>::empty(),
    decreases rows.len(),
{
    lemma_row_keys_index(rows);
    if rows.len() > 0 {
        lemma_row_keys_index(rows.drop_last());
        assert(!row_keys(rows.drop_last()).contains(k)) by {
            if row_keys(rows.drop_last()).contains(k) {
                let i = choose|i: int|
                    0 <= i < rows.drop_last().len() && row_keys(rows.drop_last())[i] == k;
                assert(row_keys(rows)[i] == k);
            }
        }
        lemma_items_for_absent(rows.drop_last(), k, recs, addr);
        assert(row_keys(rows)[rows.len() - 1] == row_key(rows.last()));
    }
}

} // verus!
