use vstd::prelude::*;
use crate::classify::{CategoryView, extension_of, lemma_match_lists, lower_of};
use crate::config::names_unique;
use crate::engine::{EntryView, count_of, entry_category, moves_of, preview_of, preview_rows};

verus! {

/// The entries that a commit leaves at the root: those without a category.
pub open spec fn kept(root: Seq<EntryView>, cats: Seq<CategoryView>) -> Seq<EntryView>
    decreases root.len(),
{
    if root.len() == 0 {
        seq![]
    } else {
        let prev = kept(root.drop_last(), cats);
        if entry_category(root.last(), cats) is None {
            prev.push(root.last())
        } else {
            prev
        }
    }
}

pub open spec fn has_name(root: Seq<EntryView>, n: Seq<char>) -> bool {
    exists|k: int| 0 <= k < root.len() && (#[trigger] root[k]).name == n
}

pub open spec fn is_category_name(cats: Seq<CategoryView>, n: Seq<char>) -> bool {
    exists|i: int| 0 <= i < cats.len() && (#[trigger] cats[i]).name == n
}

/// The folders that a commit creates among the first `i` categories: those
/// whose name no entry of the root bears yet.
pub open spec fn missing_folders(root: Seq<EntryView>, cats: Seq<CategoryView>, i: int) -> Seq<
    EntryView,
>
    decreases i,
{
    if i <= 0 {
        seq![]
    } else {
        let prev = missing_folders(root, cats, i - 1);
        if has_name(root, cats[i - 1].name) {
            prev
        } else {
            prev.push(EntryView { name: cats[i - 1].name, is_file: false })
        }
    }
}

/// The root after a commit in which every step succeeds: the missing category
/// folders have been created and every classified file has left.
pub open spec fn root_after_commit(root: Seq<EntryView>, cats: Seq<CategoryView>) -> Seq<EntryView> {
    kept(root, cats) + missing_folders(root, cats, cats.len() as int)
}

/// No classified file of the root bears the name of a category.
pub open spec fn no_file_named_as_category(root: Seq<EntryView>, cats: Seq<CategoryView>) -> bool {
    forall|k: int|
        0 <= k < root.len() && (#[trigger] entry_category(root[k], cats)) is Some
            ==> !is_category_name(cats, root[k].name)
}

pub open spec fn names_distinct(root: Seq<EntryView>) -> bool {
    forall|i: int, j: int| 0 <= i < j < root.len() ==> root[i].name != root[j].name
}

pub open spec fn sum_rows(rows: Seq<(Seq<char>, nat)>) -> nat
    decreases rows.len(),
{
    if rows.len() == 0 {
        0
    } else {
        sum_rows(rows.drop_last()) + rows.last().1
    }
}

spec fn sum_counts(root: Seq<EntryView>, cats: Seq<CategoryView>, n: int) -> nat
    decreases n,
{
    if n <= 0 {
        0
    } else {
        sum_counts(root, cats, n - 1) + count_of(root, cats, cats[n - 1].name)
    }
}

spec fn hits(x: Option<Seq<char>>, cats: Seq<CategoryView>, n: int) -> nat
    decreases n,
{
    if n <= 0 {
        0
    } else {
        hits(x, cats, n - 1) + if x == Some(cats[n - 1].name) {
            1nat
        } else {
            0nat
        }
    }
}

proof fn lemma_rows_sum(root: Seq<EntryView>, cats: Seq<CategoryView>, n: int)
    requires
        0 <= n <= cats.len(),
    ensures
        sum_rows(preview_rows(root, cats, n)) == sum_counts(root, cats, n),
    decreases n,
{
    if n > 0 {
        lemma_rows_sum(root, cats, n - 1);
        let prev = preview_rows(root, cats, n - 1);
        let k = count_of(root, cats, cats[n - 1].name);
        if k > 0 {
            assert(prev.push((cats[n - 1].name, k)).drop_last() =~= prev);
        }
    }
}

proof fn lemma_sum_split(root: Seq<EntryView>, cats: Seq<CategoryView>, n: int)
    requires
        root.len() > 0,
        0 <= n <= cats.len(),
    ensures
        sum_counts(root, cats, n) == sum_counts(root.drop_last(), cats, n) + hits(
            entry_category(root.last(), cats),
            cats,
            n,
        ),
    decreases n,
{
    if n > 0 {
        lemma_sum_split(root, cats, n - 1);
    }
}

proof fn lemma_hits(x: Option<Seq<char>>, cats: Seq<CategoryView>, n: int)
    requires
        names_unique(cats),
        0 <= n <= cats.len(),
    ensures
        (exists|j: int| 0 <= j < n && x == Some(#[trigger] cats[j].name)) ==> hits(x, cats, n) == 1,
        !(exists|j: int| 0 <= j < n && x == Some(#[trigger] cats[j].name)) ==> hits(x, cats, n) == 0,
    decreases n,
{
    if n > 0 {
        lemma_hits(x, cats, n - 1);
        if x == Some(cats[n - 1].name) {
            assert forall|j: int| 0 <= j < n - 1 implies x != Some(#[trigger] cats[j].name) by {
                assert(cats[j].name != cats[n - 1].name);
            }
        }
    }
}

/// A category that an entry falls in is one of the configured categories.
proof fn lemma_category_is_configured(e: EntryView, cats: Seq<CategoryView>)
    ensures
        entry_category(e, cats) matches Some(c) ==> exists|j: int|
            0 <= j < cats.len() && #[trigger] cats[j].name == c,
{
    if e.is_file {
        if let Some(x) = extension_of(e.name) {
            lemma_match_lists(cats, lower_of(x), 0);
        }
    }
}

proof fn lemma_sum_empty(root: Seq<EntryView>, cats: Seq<CategoryView>, n: int)
    requires
        root.len() == 0,
    ensures
        sum_counts(root, cats, n) == 0,
    decreases n,
{
    if n > 0 {
        lemma_sum_empty(root, cats, n - 1);
    }
}

proof fn lemma_counts_total(root: Seq<EntryView>, cats: Seq<CategoryView>)
    requires
        names_unique(cats),
    ensures
        sum_counts(root, cats, cats.len() as int) == moves_of(root, cats).len(),
    decreases root.len(),
{
    if root.len() > 0 {
        lemma_counts_total(root.drop_last(), cats);
        lemma_sum_split(root, cats, cats.len() as int);
        lemma_category_is_configured(root.last(), cats);
        lemma_hits(entry_category(root.last(), cats), cats, cats.len() as int);
    } else {
        lemma_sum_empty(root, cats, cats.len() as int);
    }
}

proof fn lemma_moves_hold(root: Seq<EntryView>, cats: Seq<CategoryView>, k: int)
    requires
        0 <= k < root.len(),
    ensures
        entry_category(root[k], cats) matches Some(c) ==> moves_of(root, cats).contains(
            (root[k].name, c),
        ),
    decreases root.len(),
{
    let prev = moves_of(root.drop_last(), cats);
    if k < root.len() - 1 {
        lemma_moves_hold(root.drop_last(), cats, k);
        if let Some(c) = entry_category(root[k], cats) {
            let i = choose|i: int| 0 <= i < prev.len() && prev[i] == (root[k].name, c);
            if let Some(d) = entry_category(root.last(), cats) {
                assert(prev.push((root.last().name, d))[i] == (root[k].name, c));
            }
        }
    } else if let Some(c) = entry_category(root[k], cats) {
        assert(prev.push((root[k].name, c))[prev.len() as int] == (root[k].name, c));
    }
}

/// Each kept entry is an entry of the root without a category.
proof fn lemma_kept_from_root(root: Seq<EntryView>, cats: Seq<CategoryView>)
    ensures
        forall|i: int|
            0 <= i < kept(root, cats).len() ==> exists|j: int|
                0 <= j < root.len() && root[j] == #[trigger] kept(root, cats)[i]
                    && entry_category(root[j], cats) is None,
    decreases root.len(),
{
    if root.len() > 0 {
        lemma_kept_from_root(root.drop_last(), cats);
        let prev = kept(root.drop_last(), cats);
        assert forall|i: int| 0 <= i < kept(root, cats).len() implies exists|j: int|
            0 <= j < root.len() && root[j] == #[trigger] kept(root, cats)[i] && entry_category(
                root[j],
                cats,
            ) is None by {
            if i < prev.len() {
                let j = choose|j: int|
                    0 <= j < root.drop_last().len() && root.drop_last()[j] == #[trigger] prev[i]
                        && entry_category(root.drop_last()[j], cats) is None;
                assert(root[j] == kept(root, cats)[i]);
            } else {
                assert(root[root.len() - 1] == kept(root, cats)[i]);
            }
        }
    }
}

/// An entry without a category is kept.
proof fn lemma_kept_holds(root: Seq<EntryView>, cats: Seq<CategoryView>, k: int)
    requires
        0 <= k < root.len(),
        entry_category(root[k], cats) is None,
    ensures
        kept(root, cats).contains(root[k]),
    decreases root.len(),
{
    let prev = kept(root.drop_last(), cats);
    if k < root.len() - 1 {
        lemma_kept_holds(root.drop_last(), cats, k);
        let i = choose|i: int| 0 <= i < prev.len() && prev[i] == root[k];
        if entry_category(root.last(), cats) is None {
            assert(prev.push(root.last())[i] == root[k]);
        }
    } else {
        assert(prev.push(root[k])[prev.len() as int] == root[k]);
    }
}

proof fn lemma_folders_are_categories(root: Seq<EntryView>, cats: Seq<CategoryView>, n: int)
    requires
        0 <= n <= cats.len(),
    ensures
        forall|i: int|
            0 <= i < missing_folders(root, cats, n).len() ==> !(#[trigger] missing_folders(
                root,
                cats,
                n,
            )[i]).is_file && is_category_name(cats, missing_folders(root, cats, n)[i].name),
    decreases n,
{
    if n > 0 {
        lemma_folders_are_categories(root, cats, n - 1);
        let prev = missing_folders(root, cats, n - 1);
        assert forall|i: int| 0 <= i < missing_folders(root, cats, n).len() implies !(
        #[trigger] missing_folders(root, cats, n)[i]).is_file && is_category_name(
            cats,
            missing_folders(root, cats, n)[i].name,
        ) by {
            if i < prev.len() {
                assert(missing_folders(root, cats, n)[i] == prev[i]);
            } else {
                assert(cats[n - 1].name == missing_folders(root, cats, n)[i].name);
            }
        }
    }
}

proof fn lemma_folder_made(root: Seq<EntryView>, cats: Seq<CategoryView>, n: int, i: int)
    requires
        0 <= i < n <= cats.len(),
        !has_name(root, cats[i].name),
    ensures
        has_name(missing_folders(root, cats, n), cats[i].name),
    decreases n,
{
    let prev = missing_folders(root, cats, n - 1);
    if i < n - 1 {
        lemma_folder_made(root, cats, n - 1, i);
        let k = choose|k: int| 0 <= k < prev.len() && (#[trigger] prev[k]).name == cats[i].name;
        assert(missing_folders(root, cats, n)[k] == prev[k]);
    } else {
        assert(missing_folders(root, cats, n)[prev.len() as int].name == cats[i].name);
    }
}

proof fn lemma_none_missing(root: Seq<EntryView>, cats: Seq<CategoryView>, n: int)
    requires
        0 <= n <= cats.len(),
        forall|i: int| 0 <= i < n ==> has_name(root, #[trigger] cats[i].name),
    ensures
        missing_folders(root, cats, n) == Seq::<EntryView>::empty(),
    decreases n,
{
    if n > 0 {
        lemma_none_missing(root, cats, n - 1);
    }
}

proof fn lemma_all_unclassified(root: Seq<EntryView>, cats: Seq<CategoryView>)
    requires
        forall|k: int| 0 <= k < root.len() ==> (#[trigger] entry_category(root[k], cats)) is None,
    ensures
        kept(root, cats) == root,
        moves_of(root, cats).len() == 0,
    decreases root.len(),
{
    if root.len() > 0 {
        assert(entry_category(root[root.len() - 1], cats) is None);
        lemma_all_unclassified(root.drop_last(), cats);
        assert(root.drop_last().push(root.last()) =~= root);
    }
}

/// After a commit no entry left at the root has a category.
proof fn lemma_after_unclassified(root: Seq<EntryView>, cats: Seq<CategoryView>)
    ensures
        forall|k: int|
            0 <= k < root_after_commit(root, cats).len() ==> (#[trigger] entry_category(
                root_after_commit(root, cats)[k],
                cats,
            )) is None,
{
    let after = root_after_commit(root, cats);
    let kp = kept(root, cats);
    let mf = missing_folders(root, cats, cats.len() as int);
    lemma_kept_from_root(root, cats);
    lemma_folders_are_categories(root, cats, cats.len() as int);
    assert forall|k: int| 0 <= k < after.len() implies (#[trigger] entry_category(
        after[k],
        cats,
    )) is None by {
        if k < kp.len() {
            assert(after[k] == kp[k]);
        } else {
            assert(after[k] == mf[k - kp.len()]);
        }
    }
}

/// Preview counts add up to the files that a commit moves; each counted file
/// is moved into its own category and no entry bearing its name stays at the
/// root.
pub proof fn lemma_commit_conserves(root: Seq<EntryView>, cats: Seq<CategoryView>)
    requires
        names_unique(cats),
        names_distinct(root),
        no_file_named_as_category(root, cats),
    ensures
        sum_rows(preview_of(root, cats)) == moves_of(root, cats).len(),
        forall|k: int|
            0 <= k < root.len() ==> (#[trigger] entry_category(root[k], cats) matches Some(c)
                ==> moves_of(root, cats).contains((root[k].name, c)) && !has_name(
                root_after_commit(root, cats),
                root[k].name,
            )),
{
    lemma_rows_sum(root, cats, cats.len() as int);
    lemma_counts_total(root, cats);
    lemma_kept_from_root(root, cats);
    lemma_folders_are_categories(root, cats, cats.len() as int);
    let after = root_after_commit(root, cats);
    let kp = kept(root, cats);
    let mf = missing_folders(root, cats, cats.len() as int);
    assert forall|k: int| 0 <= k < root.len() implies (#[trigger] entry_category(
        root[k],
        cats,
    ) matches Some(c) ==> moves_of(root, cats).contains((root[k].name, c)) && !has_name(
        after,
        root[k].name,
    )) by {
        lemma_moves_hold(root, cats, k);
        if entry_category(root[k], cats) is Some {
            if has_name(after, root[k].name) {
                let m = choose|m: int| 0 <= m < after.len() && (#[trigger] after[m]).name == root[k].name;
                if m < kp.len() {
                    assert(after[m] == kp[m]);
                    let j = choose|j: int|
                        0 <= j < root.len() && root[j] == #[trigger] kp[m] && entry_category(
                            root[j],
                            cats,
                        ) is None;
                    assert(j != k);
                } else {
                    assert(after[m] == mf[m - kp.len()]);
                    assert(is_category_name(cats, mf[m - kp.len()].name));
                }
            }
        }
    }
}

/// Committing a second time changes nothing: no file is left to move and the
/// root stays as the first commit left it.
pub proof fn lemma_commit_idempotent(root: Seq<EntryView>, cats: Seq<CategoryView>)
    requires
        no_file_named_as_category(root, cats),
    ensures
        moves_of(root_after_commit(root, cats), cats).len() == 0,
        root_after_commit(root_after_commit(root, cats), cats) == root_after_commit(root, cats),
{
    let after = root_after_commit(root, cats);
    let kp = kept(root, cats);
    lemma_after_unclassified(root, cats);
    lemma_all_unclassified(after, cats);
    assert forall|i: int| 0 <= i < cats.len() implies has_name(after, #[trigger] cats[i].name) by {
        if has_name(root, cats[i].name) {
            let k = choose|k: int| 0 <= k < root.len() && (#[trigger] root[k]).name == cats[i].name;
            assert(is_category_name(cats, root[k].name));
            assert(entry_category(root[k], cats) is None);
            lemma_kept_holds(root, cats, k);
            let m = choose|m: int| 0 <= m < kp.len() && kp[m] == root[k];
            assert(after[m] == kp[m]);
        } else {
            lemma_folder_made(root, cats, cats.len() as int, i);
            let mf = missing_folders(root, cats, cats.len() as int);
            let m = choose|m: int| 0 <= m < mf.len() && (#[trigger] mf[m]).name == cats[i].name;
            assert(after[kp.len() + m] == mf[m]);
        }
    }
    lemma_none_missing(after, cats, cats.len() as int);
    assert(after + Seq::<EntryView>::empty() =~= after);
}

proof fn lemma_count_without(root: Seq<EntryView>, cats: Seq<CategoryView>, k: int, c: Seq<char>)
    requires
        0 <= k < root.len(),
        entry_category(root[k], cats) is None,
    ensures
        count_of(root, cats, c) == count_of(root.remove(k), cats, c),
    decreases root.len(),
{
    if k == root.len() - 1 {
        assert(root.remove(k) =~= root.drop_last());
    } else {
        lemma_count_without(root.drop_last(), cats, k, c);
        assert(root.remove(k).drop_last() =~= root.drop_last().remove(k));
        assert(root.remove(k).last() == root.last());
    }
}

/// A file that no category takes stays at the root after a commit and adds
/// to no count of a preview.
pub proof fn lemma_unclassified_stays(root: Seq<EntryView>, cats: Seq<CategoryView>, k: int)
    requires
        0 <= k < root.len(),
        entry_category(root[k], cats) is None,
    ensures
        root_after_commit(root, cats).contains(root[k]),
        forall|c: Seq<char>| #[trigger] count_of(root, cats, c) == count_of(root.remove(k), cats, c),
{
    lemma_kept_holds(root, cats, k);
    let kp = kept(root, cats);
    let m = choose|m: int| 0 <= m < kp.len() && kp[m] == root[k];
    assert(root_after_commit(root, cats)[m] == root[k]);
    assert forall|c: Seq<char>| #[trigger] count_of(root, cats, c) == count_of(root.remove(k), cats, c) by {
        lemma_count_without(root, cats, k, c);
    }
}

} // verus!
