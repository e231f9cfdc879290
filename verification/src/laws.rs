//! What holds of the read model, stated and proved over `progress_spec`:
//! completion drives the display variant, duplicate completion records
//! change nothing, and grouping is exhaustive, exact and lossless.

use crate::model::{Achievement, Category, CategoryProgressView, CompletionRecord};
use crate::pipeline::{
    GroupKey, JoinedRow, derive_progress, expand, first_keys, groups_for, has_completion,
    items_for, lemma_first_keys_distinct, lemma_first_keys_membership, lemma_first_keys_push,
    lemma_groups_for_index, lemma_groups_for_push_row, lemma_has_completion_push,
    lemma_items_for_absent, lemma_items_for_push, lemma_push_contains, lemma_row_keys_index,
    lemma_row_keys_push, progress_spec, row_key, row_keys, rows_for,
};
use vstd::prelude::*;

verus! {

proof fn lemma_rows_for_contains(c: Category, achs: Seq<Achievement>, j: int)
    requires
        0 <= j < achs.len(),
        achs[j].category_id@ == c.id@,
    ensures
        rows_for(c, achs).contains(JoinedRow { cat: c, ach: achs[j] }),
    decreases achs.len(),
{
    let row = JoinedRow { cat: c, ach: achs[j] };
    if j == achs.len() - 1 {
        let all = rows_for(c, achs);
        assert(all[all.len() - 1] == row);
    } else {
        assert(achs.drop_last()[j] == achs[j]);
        lemma_rows_for_contains(c, achs.drop_last(), j);
        if achs.last().category_id@ == c.id@ {
            lemma_push_contains(
                rows_for(c, achs.drop_last()),
                JoinedRow { cat: c, ach: achs.last() },
                row,
            );
        }
    }
}

proof fn lemma_expand_contains(cats: Seq<Category>, achs: Seq<Achievement>, i: int, j: int)
    requires
        0 <= i < cats.len(),
        0 <= j < achs.len(),
        achs[j].category_id@ == cats[i].id@,
    ensures
        expand(cats, achs).contains(JoinedRow { cat: cats[i], ach: achs[j] }),
    decreases cats.len(),
{
    let row = JoinedRow { cat: cats[i], ach: achs[j] };
    let prefix = expand(cats.drop_last(), achs);
    if i == cats.len() - 1 {
        lemma_rows_for_contains(cats[i], achs, j);
        let t = choose|t: int|
            0 <= t < rows_for(cats[i], achs).len() && rows_for(cats[i], achs)[t] == row;
        assert(expand(cats, achs)[prefix.len() + t] == row);
    } else {
        assert(cats.drop_last()[i] == cats[i]);
        lemma_expand_contains(cats.drop_last(), achs, i, j);
        let t = choose|t: int| 0 <= t < prefix.len() && prefix[t] == row;
        assert(expand(cats, achs)[t] == row);
    }
}

proof fn lemma_items_for_contains(
    rows: Seq<JoinedRow>,
    ix: int,
    recs: Seq<CompletionRecord>,
    addr: Seq<char>,
)
    requires
        0 <= ix < rows.len(),
    ensures
        items_for(rows, row_key(rows[ix]), recs, addr).contains(
            derive_progress(rows[ix].ach, has_completion(recs, rows[ix].ach.id@, addr)),
        ),
    decreases rows.len(),
{
    let k = row_key(rows[ix]);
    let entry = derive_progress(rows[ix].ach, has_completion(recs, rows[ix].ach.id@, addr));
    if ix == rows.len() - 1 {
        let all = items_for(rows, k, recs, addr);
        assert(all[all.len() - 1] == entry);
    } else {
        assert(rows.drop_last()[ix] == rows[ix]);
        lemma_items_for_contains(rows.drop_last(), ix, recs, addr);
        if row_key(rows.last()) == k {
            lemma_push_contains(
                items_for(rows.drop_last(), k, recs, addr),
                derive_progress(
                    rows.last().ach,
                    has_completion(recs, rows.last().ach.id@, addr),
                ),
                entry,
            );
        }
    }
}

/// Law: every achievement joined to a category appears in the output under
/// that category's `(name, desc)` pair; its `completed` flag is true exactly
/// when some completion record matches the achievement and the user; and
/// the display text is the done variant when completed, the todo variant
/// otherwise — never both.
pub proof fn lemma_completion_selects_display(
    cats: Seq<Category>,
    achs: Seq<Achievement>,
    recs: Seq<CompletionRecord>,
    addr: Seq<char>,
    i: int,
    j: int,
)
    requires
        0 <= i < cats.len(),
        0 <= j < achs.len(),
        achs[j].category_id@ == cats[i].id@,
    ensures
        ({
            let out = progress_spec(cats, achs, recs, addr);
            let done = has_completion(recs, achs[j].id@, addr);
            let entry = derive_progress(achs[j], done);
            entry.completed == done && entry.title == (if done {
                achs[j].done_title@
            } else {
                achs[j].todo_title@
            }) && entry.desc == (if done {
                achs[j].done_desc@
            } else {
                achs[j].todo_desc@
            }) && exists|g: int|
                0 <= g < out.len() && out[g].category_name == cats[i].name@
                    && out[g].category_desc == cats[i].desc@ && out[g].achievements.contains(entry)
        }),
{
    let rows = expand(cats, achs);
    let row = JoinedRow { cat: cats[i], ach: achs[j] };
    lemma_expand_contains(cats, achs, i, j);
    let ix = choose|ix: int| 0 <= ix < rows.len() && rows[ix] == row;
    lemma_items_for_contains(rows, ix, recs, addr);
    lemma_row_keys_index(rows);
    assert(row_keys(rows)[ix] == row_key(row));
    assert(row_keys(rows).contains(row_key(row)));
    lemma_first_keys_membership(row_keys(rows), row_key(row));
    let ks = first_keys(row_keys(rows));
    let g = choose|g: int| 0 <= g < ks.len() && ks[g] == row_key(row);
    lemma_groups_for_index(ks, rows, recs, addr);
    let out = progress_spec(cats, achs, recs, addr);
    assert(out[g].category_name == cats[i].name@);
    assert(out[g].category_desc == cats[i].desc@);
    assert(out[g].achievements.contains(
        derive_progress(achs[j], has_completion(recs, achs[j].id@, addr)),
    ));
}

proof fn lemma_items_for_congruent(
    rows: Seq<JoinedRow>,
    k: GroupKey,
    recs1: Seq<CompletionRecord>,
    recs2: Seq<CompletionRecord>,
    addr: Seq<char>,
)
    requires
        forall|aid: Seq<char>| has_completion(recs1, aid, addr) == has_completion(
            recs2,
            aid,
            addr,
        ),
    ensures
        items_for(rows, k, recs1, addr) == items_for(rows, k, recs2, addr),
    decreases rows.len(),
{
    if rows.len() > 0 {
        lemma_items_for_congruent(rows.drop_last(), k, recs1, recs2, addr);
        assert(has_completion(recs1, rows.last().ach.id@, addr) == has_completion(
            recs2,
            rows.last().ach.id@,
            addr,
        ));
    }
}

proof fn lemma_groups_for_congruent(
    ks: Seq<GroupKey>,
    rows: Seq<JoinedRow>,
    recs1: Seq<CompletionRecord>,
    recs2: Seq<CompletionRecord>,
    addr: Seq<char>,
)
    requires
        forall|aid: Seq<char>| has_completion(recs1, aid, addr) == has_completion(
            recs2,
            aid,
            addr,
        ),
    ensures
        groups_for(ks, rows, recs1, addr) == groups_for(ks, rows, recs2, addr),
    decreases ks.len(),
{
    if ks.len() > 0 {
        lemma_groups_for_congruent(ks.drop_last(), rows, recs1, recs2, addr);
        lemma_items_for_congruent(rows, ks.last(), recs1, recs2, addr);
    }
}

/// Law: completion is idempotent — a completion record that duplicates one
/// already present changes nothing in the output: two records for the same
/// user and achievement yield the same view as one.
pub proof fn lemma_duplicate_record_idempotent(
    cats: Seq<Category>,
    achs: Seq<Achievement>,
    recs: Seq<CompletionRecord>,
    r: CompletionRecord,
    addr: Seq<char>,
)
    requires
        exists|k: int|
            0 <= k < recs.len() && recs[k].achievement_id@ == r.achievement_id@ && recs[k].addr@
                == r.addr@,
    ensures
        progress_spec(cats, achs, recs.push(r), addr) == progress_spec(cats, achs, recs, addr),
{
    assert forall|aid: Seq<char>|
        has_completion(recs.push(r), aid, addr) == has_completion(recs, aid, addr) by {
        lemma_has_completion_push(recs, r, aid, addr);
        if r.achievement_id@ == aid && r.addr@ == addr {
            let k = choose|k: int|
                0 <= k < recs.len() && recs[k].achievement_id@ == r.achievement_id@
                    && recs[k].addr@ == r.addr@;
            assert(0 <= k < recs.len() && recs[k].achievement_id@ == aid && recs[k].addr@
                == addr);
        }
    }
    let rows = expand(cats, achs);
    lemma_groups_for_congruent(first_keys(row_keys(rows)), rows, recs.push(r), recs, addr);
}

proof fn lemma_rows_for_inverse(c: Category, achs: Seq<Achievement>, ix: int)
    requires
        0 <= ix < rows_for(c, achs).len(),
    ensures
        exists|j: int|
            0 <= j < achs.len() && achs[j].category_id@ == c.id@ && rows_for(c, achs)[ix]
                == (JoinedRow { cat: c, ach: achs[j] }),
    decreases achs.len(),
{
    let init = rows_for(c, achs.drop_last());
    if ix < init.len() {
        lemma_rows_for_inverse(c, achs.drop_last(), ix);
        let j = choose|j: int|
            0 <= j < achs.drop_last().len() && achs.drop_last()[j].category_id@ == c.id@
                && init[ix] == (JoinedRow { cat: c, ach: achs.drop_last()[j] });
        assert(achs[j] == achs.drop_last()[j]);
        assert(rows_for(c, achs)[ix] == init[ix]);
    } else {
        assert(achs.last() == achs[achs.len() - 1]);
        assert(rows_for(c, achs)[ix] == (JoinedRow { cat: c, ach: achs[achs.len() - 1] }));
    }
}

proof fn lemma_expand_inverse(cats: Seq<Category>, achs: Seq<Achievement>, ix: int)
    requires
        0 <= ix < expand(cats, achs).len(),
    ensures
        exists|i: int, j: int|
            0 <= i < cats.len() && 0 <= j < achs.len() && achs[j].category_id@ == cats[i].id@
                && expand(cats, achs)[ix] == (JoinedRow { cat: cats[i], ach: achs[j] }),
    decreases cats.len(),
{
    let prefix = expand(cats.drop_last(), achs);
    if ix < prefix.len() {
        lemma_expand_inverse(cats.drop_last(), achs, ix);
        let (i, j) = choose|i: int, j: int|
            0 <= i < cats.drop_last().len() && 0 <= j < achs.len()
                && achs[j].category_id@ == cats.drop_last()[i].id@ && prefix[ix] == (JoinedRow {
                cat: cats.drop_last()[i],
                ach: achs[j],
            });
        assert(cats[i] == cats.drop_last()[i]);
        assert(expand(cats, achs)[ix] == prefix[ix]);
    } else {
        lemma_rows_for_inverse(cats.last(), achs, ix - prefix.len());
        let j = choose|j: int|
            0 <= j < achs.len() && achs[j].category_id@ == cats.last().id@ && rows_for(
                cats.last(),
                achs,
            )[ix - prefix.len()] == (JoinedRow { cat: cats.last(), ach: achs[j] });
        assert(cats.last() == cats[cats.len() - 1]);
        assert(expand(cats, achs)[ix] == rows_for(cats.last(), achs)[ix - prefix.len()]);
    }
}

/// Law: every group in the output comes from the store — some category
/// with the group's `(name, desc)` pair joins at least one achievement.
pub proof fn lemma_group_comes_from_store(
    cats: Seq<Category>,
    achs: Seq<Achievement>,
    recs: Seq<CompletionRecord>,
    addr: Seq<char>,
    g: int,
)
    requires
        0 <= g < progress_spec(cats, achs, recs, addr).len(),
    ensures
        exists|i: int, j: int|
            0 <= i < cats.len() && 0 <= j < achs.len() && achs[j].category_id@ == cats[i].id@
                && progress_spec(cats, achs, recs, addr)[g].category_name == cats[i].name@
                && progress_spec(cats, achs, recs, addr)[g].category_desc == cats[i].desc@,
{
    let rows = expand(cats, achs);
    let ks = first_keys(row_keys(rows));
    let out = progress_spec(cats, achs, recs, addr);
    lemma_groups_for_index(ks, rows, recs, addr);
    lemma_row_keys_index(rows);
    assert(ks.contains(ks[g]));
    lemma_first_keys_membership(row_keys(rows), ks[g]);
    let ix = choose|ix: int| 0 <= ix < row_keys(rows).len() && row_keys(rows)[ix] == ks[g];
    lemma_expand_inverse(cats, achs, ix);
    let (i, j) = choose|i: int, j: int|
        0 <= i < cats.len() && 0 <= j < achs.len() && achs[j].category_id@ == cats[i].id@
            && rows[ix] == (JoinedRow { cat: cats[i], ach: achs[j] });
    assert(out[g].category_name == row_key(rows[ix]).name);
    assert(0 <= i < cats.len() && 0 <= j < achs.len() && achs[j].category_id@ == cats[i].id@
        && out[g].category_name == cats[i].name@ && out[g].category_desc == cats[i].desc@);
}

/// Law: grouping is exhaustive and exact — the output holds a group for the
/// `(name, desc)` pair of every category that joins at least one
/// achievement, and no two groups share a pair.
pub proof fn lemma_grouping_exhaustive_exact(
    cats: Seq<Category>,
    achs: Seq<Achievement>,
    recs: Seq<CompletionRecord>,
    addr: Seq<char>,
)
    ensures
        ({
            let out = progress_spec(cats, achs, recs, addr);
            (forall|i: int, j: int|
                #![trigger cats[i], achs[j]]
                0 <= i < cats.len() && 0 <= j < achs.len() && achs[j].category_id@ == cats[i].id@
                    ==> exists|g: int|
                    0 <= g < out.len() && out[g].category_name == cats[i].name@
                        && out[g].category_desc == cats[i].desc@) && (forall|g1: int, g2: int|
                #![trigger out[g1], out[g2]]
                0 <= g1 < g2 < out.len() ==> !(out[g1].category_name == out[g2].category_name
                    && out[g1].category_desc == out[g2].category_desc))
        }),
{
    let rows = expand(cats, achs);
    let ks = first_keys(row_keys(rows));
    let out = progress_spec(cats, achs, recs, addr);
    lemma_groups_for_index(ks, rows, recs, addr);
    lemma_first_keys_distinct(row_keys(rows));
    assert forall|i: int, j: int| #![trigger cats[i], achs[j]]
        0 <= i < cats.len() && 0 <= j < achs.len() && achs[j].category_id@
            == cats[i].id@ implies exists|g: int|
        0 <= g < out.len() && out[g].category_name == cats[i].name@ && out[g].category_desc
            == cats[i].desc@ by {
        lemma_completion_selects_display(cats, achs, recs, addr, i, j);
    }
    assert forall|g1: int, g2: int| #![trigger out[g1], out[g2]] 0 <= g1 < g2 < out.len() implies !(out[g1].category_name
        == out[g2].category_name && out[g1].category_desc == out[g2].category_desc) by {
        assert(ks[g1] != ks[g2]);
        if out[g1].category_name == out[g2].category_name && out[g1].category_desc
            == out[g2].category_desc {
            assert(ks[g1] =~= ks[g2]);
        }
    }
}

/// How many achievement entries the whole view holds, over all groups.
pub open spec fn total_items(out: Seq<CategoryProgressView>) -> nat
    decreases out.len(),
{
    if out.len() == 0 {
        0
    } else {
        total_items(out.drop_last()) + out.last().achievements.len()
    }
}

proof fn lemma_total_items_update(out: Seq<CategoryProgressView>, g: int, v: CategoryProgressView)
    requires
        0 <= g < out.len(),
    ensures
        total_items(out.update(g, v)) + out[g].achievements.len() == total_items(out)
            + v.achievements.len(),
    decreases out.len(),
{
    if g == out.len() - 1 {
        assert(out.update(g, v).drop_last() =~= out.drop_last());
        assert(out.update(g, v).last() == v);
    } else {
        assert(out.update(g, v).drop_last() =~= out.drop_last().update(g, v));
        assert(out.update(g, v).last() == out.last());
        lemma_total_items_update(out.drop_last(), g, v);
    }
}

proof fn lemma_total_rows(rows: Seq<JoinedRow>, recs: Seq<CompletionRecord>, addr: Seq<char>)
    ensures
        total_items(groups_for(first_keys(row_keys(rows)), rows, recs, addr)) == rows.len(),
    decreases rows.len(),
{
    if rows.len() == 0 {
        assert(row_keys(rows) == Seq::<GroupKey>::empty());
    } else {
        let rows0 = rows.drop_last();
        let r = rows.last();
        assert(rows =~= rows0.push(r));
        lemma_total_rows(rows0, recs, addr);
        let ks0 = first_keys(row_keys(rows0));
        let k = row_key(r);
        lemma_row_keys_push(rows0, r);
        lemma_first_keys_push(row_keys(rows0), k);
        lemma_first_keys_membership(row_keys(rows0), k);
        lemma_first_keys_distinct(row_keys(rows0));
        lemma_groups_for_index(ks0, rows0, recs, addr);
        lemma_groups_for_push_row(ks0, rows0, r, recs, addr);
        let old_groups = groups_for(ks0, rows0, recs, addr);
        let new_groups = groups_for(ks0, rows0.push(r), recs, addr);
        if row_keys(rows0).contains(k) {
            assert(ks0.contains(k));
            let gidx = choose|g: int| 0 <= g < ks0.len() && ks0[g] == k;
            assert forall|t: int| 0 <= t < ks0.len() && t != gidx implies ks0[t] != k by {
                if t < gidx {
                    assert(ks0[t] != ks0[gidx]);
                } else {
                    assert(ks0[gidx] != ks0[t]);
                }
            }
            assert(new_groups =~= old_groups.update(gidx, new_groups[gidx]));
            lemma_total_items_update(old_groups, gidx, new_groups[gidx]);
            assert(new_groups[gidx].achievements.len() == old_groups[gidx].achievements.len()
                + 1);
        } else {
            assert(!ks0.contains(k));
            assert forall|t: int| 0 <= t < ks0.len() implies ks0[t] != k by {
                assert(ks0.contains(ks0[t]));
            }
            assert(new_groups =~= old_groups);
            let ks = ks0.push(k);
            assert(first_keys(row_keys(rows)) == ks);
            assert(ks.drop_last() =~= ks0);
            assert(ks.last() == k);
            lemma_items_for_absent(rows0, k, recs, addr);
            lemma_items_for_push(rows0, r, k, recs, addr);
            let full = groups_for(ks, rows0.push(r), recs, addr);
            assert(full == new_groups.push(
                CategoryProgressView {
                    category_name: k.name,
                    category_desc: k.desc,
                    achievements: items_for(rows0.push(r), k, recs, addr),
                },
            ));
            assert(full.drop_last() =~= new_groups);
            assert(items_for(rows0.push(r), k, recs, addr).len() == 1);
        }
    }
}

/// Law: no loss and no duplication — the groups together hold exactly one
/// entry per joined (category, achievement) row: every achievement lands in
/// exactly one category's list.
pub proof fn lemma_no_loss_no_duplication(
    cats: Seq<Category>,
    achs: Seq<Achievement>,
    recs: Seq<CompletionRecord>,
    addr: Seq<char>,
)
    ensures
        total_items(progress_spec(cats, achs, recs, addr)) == expand(cats, achs).len(),
{
    lemma_total_rows(expand(cats, achs), recs, addr);
}

} // verus!
