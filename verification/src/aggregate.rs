//! The read model computed in memory: the verified reference for what the
//! store's aggregation returns.

use crate::model::{
    Achievement, AchievementProgress, Category, CategoryProgress, CompletionRecord,
    category_progress_views, progress_views,
};
use crate::pipeline::{
    GroupKey, JoinedRow, derive_progress, expand, first_keys, groups_for, has_completion,
    items_for, lemma_first_keys_distinct, lemma_first_keys_membership,
    lemma_first_keys_push, lemma_groups_for_index, lemma_groups_for_push_row,
    lemma_has_completion_push, lemma_items_for_absent, lemma_items_for_push,
    lemma_row_keys_push, progress_spec, row_key, row_keys, rows_for,
};
use vstd::prelude::*;

verus! {

/// Whether any completion record matches the achievement and the user.
fn completion_exists(recs: &Vec<CompletionRecord>, aid: &String, addr: &String) -> (r: bool)
    ensures
        r == has_completion(recs@, aid@, addr@),
{
    let mut done = false;
    let mut t: usize = 0;
    while t < recs.len()
        invariant
            t <= recs.len(),
            done == has_completion(recs@.take(t as int), aid@, addr@),
        decreases recs.len() - t,
    {
        let rec = &recs[t];
        if rec.achievement_id == *aid && rec.addr == *addr {
            done = true;
        }
        proof {
            assert(recs@.take(t as int + 1).drop_last() =~= recs@.take(t as int));
            assert(recs@.take(t as int + 1) =~= recs@.take(t as int).push(recs@[t as int]));
            lemma_has_completion_push(recs@.take(t as int), recs@[t as int], aid@, addr@);
        }
        t += 1;
    }
    proof {
        assert(recs@.take(recs@.len() as int) =~= recs@);
    }
    done
}

/// The position of the group keyed by the pair, if the view already holds one.
fn find_group(out: &Vec<CategoryProgress>, name: &String, desc: &String) -> (r: Option<usize>)
    ensures
        r matches Some(idx) ==> idx < out@.len() && out@[idx as int].category_name@ == name@
            && out@[idx as int].category_desc@ == desc@,
        r is None ==> forall|t: int|
            0 <= t < out@.len() ==> !(out@[t].category_name@ == name@ && out@[t].category_desc@
                == desc@),
{
    let mut gi: usize = 0;
    while gi < out.len()
        invariant
            gi <= out.len(),
            forall|t: int|
                0 <= t < gi ==> !(out@[t].category_name@ == name@ && out@[t].category_desc@
                    == desc@),
        decreases out.len() - gi,
    {
        let g = &out[gi];
        if g.category_name == *name && g.category_desc == *desc {
            return Some(gi);
        }
        gi += 1;
    }
    None
}

/// Compute the aggregation in memory: one row per category/achievement join,
/// correlated against the canonical identifier, grouped back by the
/// category's `(name, desc)` pair in order of first appearance, achievements
/// in store order within each group.
pub fn aggregate_progress(
    cats: &Vec<Category>,
    achs: &Vec<Achievement>,
    recs: &Vec<CompletionRecord>,
    addr: &String,
) -> (r: Vec<CategoryProgress>)
    ensures
        category_progress_views(r@) == progress_spec(cats@, achs@, recs@, addr@),
{
    let mut out: Vec<CategoryProgress> = Vec::new();
    proof {
        assert(category_progress_views(out@) =~= groups_for(
            first_keys(row_keys(expand(cats@.take(0), achs@))),
            expand(cats@.take(0), achs@),
            recs@,
            addr@,
        ));
    }
    let mut i: usize = 0;
    while i < cats.len()
        invariant
            i <= cats.len(),
            ({
                let rows = expand(cats@.take(i as int), achs@);
                category_progress_views(out@) == groups_for(
                    first_keys(row_keys(rows)),
                    rows,
                    recs@,
                    addr@,
                )
            }),
        decreases cats.len() - i,
    {
        let mut j: usize = 0;
        while j < achs.len()
            invariant
                i < cats.len(),
                j <= achs.len(),
                ({
                    let rows = expand(cats@.take(i as int), achs@) + rows_for(
                        cats@[i as int],
                        achs@.take(j as int),
                    );
                    category_progress_views(out@) == groups_for(
                        first_keys(row_keys(rows)),
                        rows,
                        recs@,
                        addr@,
                    )
                }),
            decreases achs.len() - j,
        {
            let ghost rows_old = expand(cats@.take(i as int), achs@) + rows_for(
                cats@[i as int],
                achs@.take(j as int),
            );
            let ghost ks = first_keys(row_keys(rows_old));
            let c = &cats[i];
            let a = &achs[j];
            proof {
                assert(achs@.take(j as int + 1).drop_last() =~= achs@.take(j as int));
                assert(achs@.take(j as int + 1).last() == achs@[j as int]);
            }
            if a.category_id == c.id {
                let ghost row = JoinedRow { cat: cats@[i as int], ach: achs@[j as int] };
                let ghost rows_new = rows_old.push(row);
                proof {
                    assert(rows_for(cats@[i as int], achs@.take(j as int + 1)) == rows_for(
                        cats@[i as int],
                        achs@.take(j as int),
                    ).push(row));
                    assert(expand(cats@.take(i as int), achs@) + rows_for(
                        cats@[i as int],
                        achs@.take(j as int + 1),
                    ) =~= rows_new);
                    lemma_row_keys_push(rows_old, row);
                    lemma_first_keys_push(row_keys(rows_old), row_key(row));
                    lemma_first_keys_membership(row_keys(rows_old), row_key(row));
                    lemma_groups_for_index(ks, rows_old, recs@, addr@);
                    lemma_groups_for_push_row(ks, rows_old, row, recs@, addr@);
                    lemma_first_keys_distinct(row_keys(rows_old));
                }
                let done = completion_exists(recs, &a.id, addr);
                let title = if done {
                    a.done_title.clone()
                } else {
                    a.todo_title.clone()
                };
                let desc = if done {
                    a.done_desc.clone()
                } else {
                    a.todo_desc.clone()
                };
                let ap = AchievementProgress {
                    name: a.name.clone(),
                    short_desc: a.short_desc.clone(),
                    title,
                    desc,
                    completed: done,
                    verify_type: a.verify_type.clone(),
                };
                proof {
                    assert(ap@ =~= derive_progress(
                        achs@[j as int],
                        has_completion(recs@, achs@[j as int].id@, addr@),
                    ));
                }
                let found = find_group(&out, &c.name, &c.desc);
                let ghost out_before = out@;
                match found {
                    Some(idx) => {
                        proof {
                            assert(category_progress_views(out_before)[idx as int]
                                == out_before[idx as int]@);
                            assert(ks[idx as int] =~= row_key(row));
                            assert(ks.contains(row_key(row)));
                        }
                        let mut grp = out.remove(idx);
                        grp.achievements.push(ap);
                        out.insert(idx, grp);
                        proof {
                            assert(out@ =~= out_before.update(idx as int, out@[idx as int]));
                            assert(out@[idx as int].achievements@ =~= out_before[idx as int].achievements@.push(ap));
                            assert(progress_views(out@[idx as int].achievements@) =~= progress_views(
                                out_before[idx as int].achievements@,
                            ).push(ap@));
                            assert(first_keys(row_keys(rows_new)) == ks);
                            lemma_groups_for_index(ks, rows_new, recs@, addr@);
                            assert forall|t: int| 0 <= t < ks.len() implies category_progress_views(
                                out@,
                            )[t] == groups_for(ks, rows_new, recs@, addr@)[t] by {
                                if t != idx as int {
                                    assert(ks[t] != ks[idx as int]);
                                    assert(category_progress_views(out@)[t]
                                        == category_progress_views(out_before)[t]);
                                }
                            }
                            assert(category_progress_views(out@) =~= groups_for(
                                ks,
                                rows_new,
                                recs@,
                                addr@,
                            ));
                        }
                    },
                    None => {
                        proof {
                            assert forall|t: int| 0 <= t < ks.len() implies ks[t] != row_key(
                                row,
                            ) by {
                                assert(category_progress_views(out_before)[t]
                                    == out_before[t]@);
                                assert(groups_for(ks, rows_old, recs@, addr@)[t].category_name
                                    == ks[t].name);
                                if ks[t] == row_key(row) {
                                    assert(out_before[t].category_name@
                                        == cats@[i as int].name@);
                                    assert(out_before[t].category_desc@
                                        == cats@[i as int].desc@);
                                }
                            }
                            assert(!ks.contains(row_key(row)));
                            assert(!row_keys(rows_old).contains(row_key(row)));
                            lemma_items_for_absent(rows_old, row_key(row), recs@, addr@);
                            lemma_items_for_push(rows_old, row, row_key(row), recs@, addr@);
                        }
                        let mut alist: Vec<AchievementProgress> = Vec::new();
                        alist.push(ap);
                        let grp = CategoryProgress {
                            category_name: c.name.clone(),
                            category_desc: c.desc.clone(),
                            achievements: alist,
                        };
                        out.push(grp);
                        proof {
                            let ks_new = first_keys(row_keys(rows_new));
                            assert(ks_new == ks.push(row_key(row)));
                            assert(ks_new.drop_last() =~= ks);
                            assert(ks_new.last() == row_key(row));
                            lemma_groups_for_index(ks_new, rows_new, recs@, addr@);
                            lemma_groups_for_index(ks, rows_new, recs@, addr@);
                            assert(items_for(rows_new, row_key(row), recs@, addr@)
                                =~= Seq::<crate::model::ProgressView>::empty().push(ap@));
                            assert(out@ =~= out_before.push(out@.last()));
                            assert(progress_views(out@.last().achievements@)
                                =~= Seq::<crate::model::ProgressView>::empty().push(ap@));
                            assert forall|t: int| 0 <= t < ks_new.len() implies
                                category_progress_views(out@)[t] == groups_for(
                                ks_new,
                                rows_new,
                                recs@,
                                addr@,
                            )[t] by {
                                if t < ks.len() {
                                    assert(ks[t] != row_key(row));
                                    assert(category_progress_views(out@)[t]
                                        == category_progress_views(out_before)[t]);
                                    assert(groups_for(ks_new, rows_new, recs@, addr@)[t]
                                        == groups_for(ks, rows_new, recs@, addr@)[t]);
                                }
                            }
                            assert(category_progress_views(out@) =~= groups_for(
                                ks_new,
                                rows_new,
                                recs@,
                                addr@,
                            ));
                        }
                    },
                }
            } else {
                proof {
                    assert(rows_for(cats@[i as int], achs@.take(j as int + 1)) == rows_for(
                        cats@[i as int],
                        achs@.take(j as int),
                    ));
                }
            }
            j += 1;
        }
        proof {
            assert(achs@.take(achs@.len() as int) =~= achs@);
            assert(cats@.take(i as int + 1).drop_last() =~= cats@.take(i as int));
            assert(cats@.take(i as int + 1).last() == cats@[i as int]);
            assert(expand(cats@.take(i as int + 1), achs@) == expand(cats@.take(i as int), achs@)
                + rows_for(cats@[i as int], achs@));
        }
        i += 1;
    }
    proof {
        assert(cats@.take(cats@.len() as int) =~= cats@);
    }
    out
}

} // verus!
