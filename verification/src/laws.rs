//! Laws of the planner and executor, stated and proved once for every input.
//!
//! Each proof function here records a guarantee of the whole pipeline that
//! does not fit a single function's contract: excluded names are never
//! planned, sentinel-labelled entries are never planned, every move an
//! execution performs starts from a planned path, and a scan that meets only
//! directories plans nothing and acts on nothing.

use vstd::prelude::*;

use crate::actions::group_actions;
use crate::actions::move_actions;
use crate::actions::plan_actions;
use crate::pattern::is_excluded_spec;
use crate::plan::add_path;
use crate::plan::contributes;
use crate::plan::find_group;
use crate::plan::label_of;
use crate::plan::lemma_find_group_props;
use crate::label::sanitize_spec;
use crate::plan::scan_plan;
use crate::plan::sentinel;
use crate::plan::EntrySpec;
use crate::plan::GroupSpec;

verus! {

/// Is `path` planned anywhere in this plan?
pub open spec fn plan_contains(pv: Seq<GroupSpec>, path: Seq<u8>) -> bool {
    exists|g: int, p: int|
        0 <= g < pv.len() && 0 <= p < pv[g].paths.len() && #[trigger] pv[g].paths[p] == path
}

/// Does some contributing entry of the scan carry `path`?
pub open spec fn some_entry_contributes(entries: Seq<EntrySpec>, path: Seq<u8>) -> bool {
    exists|k: int|
        0 <= k < entries.len() && #[trigger] contributes(entries[k]) && entries[k].path == path
}

proof fn lemma_contrib_lift(entries: Seq<EntrySpec>, path: Seq<u8>)
    requires
        entries.len() > 0,
        some_entry_contributes(entries.take(entries.len() - 1), path),
    ensures
        some_entry_contributes(entries, path),
{
    let prefix = entries.take(entries.len() - 1);
    let k = choose|k: int|
        0 <= k < prefix.len() && #[trigger] contributes(prefix[k]) && prefix[k].path == path;
    assert(prefix[k] == entries[k]);
    assert(contributes(entries[k]) && entries[k].path == path);
}

/// Law: every planned path stems from a contributing entry — one that
/// survived the filter, was classified successfully, and whose label is not
/// the directory sentinel.
pub proof fn lemma_plan_paths_from_entries(entries: Seq<EntrySpec>)
    ensures
        forall|path: Seq<u8>| #[trigger]
            plan_contains(scan_plan(entries), path) ==> some_entry_contributes(entries, path),
    decreases entries.len(),
{
    if entries.len() == 0 {
        assert(scan_plan(entries).len() == 0);
    } else {
        let prefix = entries.take(entries.len() - 1);
        lemma_plan_paths_from_entries(prefix);
        let e = entries.last();
        let prev = scan_plan(prefix);
        let r = scan_plan(entries);
        assert forall|path: Seq<u8>| #[trigger]
            plan_contains(r, path) implies some_entry_contributes(entries, path) by {
            let (g, p) = choose|g: int, p: int|
                0 <= g < r.len() && 0 <= p < r[g].paths.len() && #[trigger] r[g].paths[p] == path;
            if contributes(e) {
                assert(r == add_path(prev, label_of(e), e.path));
                lemma_find_group_props(prev, label_of(e));
                let f = find_group(prev, label_of(e));
                if f == -1 {
                    if g < prev.len() {
                        assert(r[g] == prev[g]);
                        assert(plan_contains(prev, path));
                        lemma_contrib_lift(entries, path);
                    } else {
                        assert(g == prev.len());
                        assert(r[g].paths =~= seq![e.path]);
                        assert(path == e.path);
                        assert(contributes(entries[entries.len() - 1]));
                        assert(some_entry_contributes(entries, path));
                    }
                } else {
                    if g == f {
                        assert(r[g].paths == prev[g].paths.push(e.path));
                        if p < prev[g].paths.len() {
                            assert(prev[g].paths[p] == path);
                            assert(plan_contains(prev, path));
                            lemma_contrib_lift(entries, path);
                        } else {
                            assert(path == e.path);
                            assert(contributes(entries[entries.len() - 1]));
                            assert(some_entry_contributes(entries, path));
                        }
                    } else {
                        assert(r[g] == prev[g]);
                        assert(plan_contains(prev, path));
                        lemma_contrib_lift(entries, path);
                    }
                }
            } else {
                assert(r == prev);
                assert(plan_contains(prev, path));
                lemma_contrib_lift(entries, path);
            }
        }
    }
}

/// Law (exclusion): a file whose name matches an exclusion pattern never
/// appears in the plan. Stated for a scan of distinct paths, as a directory
/// listing yields: no other entry shares the excluded entry's path.
pub proof fn lemma_excluded_never_planned(entries: Seq<EntrySpec>, k: int)
    requires
        0 <= k < entries.len(),
        is_excluded_spec(entries[k].name),
        forall|j: int|
            0 <= j < entries.len() && j != k ==> (#[trigger] entries[j].path) != entries[k].path,
    ensures
        !plan_contains(scan_plan(entries), entries[k].path),
{
    lemma_plan_paths_from_entries(entries);
    if plan_contains(scan_plan(entries), entries[k].path) {
        let j = choose|j: int|
            0 <= j < entries.len() && #[trigger] contributes(entries[j]) && entries[j].path
                == entries[k].path;
        assert(j == k);
        assert(!is_excluded_spec(entries[k].name));
    }
}

/// Law (sentinel): a file whose classifier label is the directory sentinel
/// never appears in the plan. Stated for a scan of distinct paths.
pub proof fn lemma_sentinel_never_planned(entries: Seq<EntrySpec>, k: int)
    requires
        0 <= k < entries.len(),
        entries[k].outcome is Some,
        sanitize_spec(entries[k].outcome->0) == sentinel(),
        forall|j: int|
            0 <= j < entries.len() && j != k ==> (#[trigger] entries[j].path) != entries[k].path,
    ensures
        !plan_contains(scan_plan(entries), entries[k].path),
{
    lemma_plan_paths_from_entries(entries);
    if plan_contains(scan_plan(entries), entries[k].path) {
        let j = choose|j: int|
            0 <= j < entries.len() && #[trigger] contributes(entries[j]) && entries[j].path
                == entries[k].path;
        assert(j == k);
        assert(sanitize_spec(entries[k].outcome->0) != sentinel());
    }
}

/// Law: an execution only ever moves planned paths — every move action of a
/// plan takes its source from one of the plan's groups.
pub proof fn lemma_moves_come_from_plan(pv: Seq<GroupSpec>)
    ensures
        forall|a: int|
            0 <= a < plan_actions(pv).len() && #[trigger] plan_actions(pv)[a] is MoveFile
                ==> plan_contains(pv, plan_actions(pv)[a]->MoveFile_from),
    decreases pv.len(),
{
    if pv.len() > 0 {
        let butlast = pv.take(pv.len() - 1);
        lemma_moves_come_from_plan(butlast);
        let first = plan_actions(butlast);
        let last = pv.last();
        assert forall|a: int|
            0 <= a < plan_actions(pv).len() && #[trigger] plan_actions(pv)[a] is MoveFile
            implies plan_contains(pv, plan_actions(pv)[a]->MoveFile_from) by {
            if a < first.len() {
                assert(plan_actions(pv)[a] == first[a]);
                assert(plan_contains(butlast, first[a]->MoveFile_from));
                let (g, p) = choose|g: int, p: int|
                    0 <= g < butlast.len() && 0 <= p < butlast[g].paths.len()
                        && #[trigger] butlast[g].paths[p] == first[a]->MoveFile_from;
                assert(pv[g] == butlast[g]);
                assert(pv[g].paths[p] == first[a]->MoveFile_from);
            } else {
                let a2 = a - first.len();
                assert(plan_actions(pv)[a] == group_actions(last)[a2]);
                if a2 == 0 {
                    assert(group_actions(last)[0] is MakeDir);
                } else {
                    let p = a2 - 1;
                    assert(group_actions(last)[a2] == move_actions(last.label, last.paths)[p]);
                    assert(plan_actions(pv)[a]->MoveFile_from == last.paths[p]);
                    assert(pv[pv.len() - 1].paths[p] == last.paths[p]);
                }
            }
        }
    }
}

proof fn lemma_add_path_preserves_contains(
    pv: Seq<GroupSpec>,
    label: Seq<u8>,
    path: Seq<u8>,
    q: Seq<u8>,
)
    requires
        plan_contains(pv, q),
    ensures
        plan_contains(add_path(pv, label, path), q),
{
    let (g, p) = choose|g: int, p: int|
        0 <= g < pv.len() && 0 <= p < pv[g].paths.len() && #[trigger] pv[g].paths[p] == q;
    lemma_find_group_props(pv, label);
    let f = find_group(pv, label);
    let r = add_path(pv, label, path);
    if f == -1 {
        assert(r[g] == pv[g]);
        assert(r[g].paths[p] == q);
    } else if g == f {
        assert(r[g].paths == pv[g].paths.push(path));
        assert(r[g].paths[p] == q);
    } else {
        assert(r[g] == pv[g]);
        assert(r[g].paths[p] == q);
    }
}

/// Law: every contributing entry's path does appear in the plan — the scan
/// loses nothing that survived the filter and was classified off-sentinel.
pub proof fn lemma_contributing_entries_planned(entries: Seq<EntrySpec>, k: int)
    requires
        0 <= k < entries.len(),
        contributes(entries[k]),
    ensures
        plan_contains(scan_plan(entries), entries[k].path),
    decreases entries.len(),
{
    let prefix = entries.take(entries.len() - 1);
    let prev = scan_plan(prefix);
    let e = entries.last();
    let r = scan_plan(entries);
    if k == entries.len() - 1 {
        lemma_find_group_props(prev, label_of(e));
        let f = find_group(prev, label_of(e));
        if f == -1 {
            assert(r[r.len() - 1].paths =~= seq![e.path]);
            assert(r[r.len() - 1].paths[0] == entries[k].path);
        } else {
            assert(r[f].paths == prev[f].paths.push(e.path));
            assert(r[f].paths[r[f].paths.len() - 1] == entries[k].path);
        }
    } else {
        assert(prefix[k] == entries[k]);
        lemma_contributing_entries_planned(prefix, k);
        if contributes(e) {
            lemma_add_path_preserves_contains(prev, label_of(e), e.path, entries[k].path);
        }
    }
}

/// Law: every label the plan groups under is free of path separators, so
/// every destination directory name is a safe single path segment.
pub proof fn lemma_plan_labels_separator_free(entries: Seq<EntrySpec>)
    ensures
        forall|g: int, i: int|
            0 <= g < scan_plan(entries).len() && 0 <= i < scan_plan(entries)[g].label.len()
                ==> #[trigger] scan_plan(entries)[g].label[i] != 47,
    decreases entries.len(),
{
    if entries.len() > 0 {
        let prefix = entries.take(entries.len() - 1);
        lemma_plan_labels_separator_free(prefix);
        let prev = scan_plan(prefix);
        let e = entries.last();
        let r = scan_plan(entries);
        if contributes(e) {
            lemma_find_group_props(prev, label_of(e));
            crate::label::lemma_sanitize_no_separator(e.outcome->0);
            let f = find_group(prev, label_of(e));
            assert forall|g: int, i: int|
                0 <= g < r.len() && 0 <= i < r[g].label.len() implies #[trigger] r[g].label[i]
                != 47 by {
                if f == -1 && g == prev.len() {
                    assert(r[g].label == label_of(e));
                } else if f != -1 && g == f {
                    assert(r[g].label == label_of(e));
                } else {
                    assert(r[g] == prev[g]);
                }
            }
        }
    }
}

/// Law (second run): when every scanned child is a directory — as after a
/// completed execution, whose surviving top-level children are the label
/// directories it created — the plan is empty and calls for no action.
pub proof fn lemma_all_directories_nothing_to_do(entries: Seq<EntrySpec>)
    requires
        forall|k: int| 0 <= k < entries.len() ==> (#[trigger] entries[k]).is_dir,
    ensures
        scan_plan(entries).len() == 0,
        plan_actions(scan_plan(entries)).len() == 0,
    decreases entries.len(),
{
    if entries.len() > 0 {
        let prefix = entries.take(entries.len() - 1);
        assert(forall|k: int| 0 <= k < prefix.len() ==> (#[trigger] prefix[k]).is_dir);
        lemma_all_directories_nothing_to_do(prefix);
        assert(entries.last().is_dir);
        assert(!contributes(entries.last()));
    }
}

} // verus!
