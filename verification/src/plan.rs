//! Grouping scanned directory entries into a move plan.
//!
//! A scan hands the library one [`Entry`] per directory child: its path, its
//! bare name, whether it is a directory, and — for entries that survived the
//! filter and were handed to the classifier — the classifier's raw answer, or
//! `None` when classification failed. [`build_plan`] turns the entry list
//! into a [`Plan`]: one group per distinct type label, each keeping its
//! paths in first-seen order, plus the list of paths whose classification
//! failed and deserve a warning.

use vstd::prelude::*;
use vstd::slice::slice_to_vec;
use vstd::string::StringSliceAdditionalSpecFns;

use crate::label::sanitize_label;
use crate::label::sanitize_spec;
use crate::pattern::is_excluded;
use crate::pattern::is_excluded_spec;

verus! {

/// The label under which the classifier reports directory-typed inodes;
/// entries so labelled are never planned.
pub open spec fn sentinel() -> Seq<u8> {
    "inode_directory".spec_bytes()
}

/// One scanned directory child, as the surrounding scan hands it over.
pub struct Entry {
    /// The path of the child as the scan saw it.
    pub path: Vec<u8>,
    /// The bare file name of the child.
    pub name: Vec<u8>,
    /// Whether the child is itself a directory.
    pub is_dir: bool,
    /// The classifier's answer for this child, raw or already cleaned
    /// (cleaning is idempotent): `None` when the child was filtered out
    /// before classification or when classification failed.
    pub outcome: Option<Vec<u8>>,
}

/// The mathematical shadow of an [`Entry`].
pub struct EntrySpec {
    pub path: Seq<u8>,
    pub name: Seq<u8>,
    pub is_dir: bool,
    pub outcome: Option<Seq<u8>>,
}

impl View for Entry {
    type V = EntrySpec;

    open spec fn view(&self) -> EntrySpec {
        EntrySpec {
            path: self.path@,
            name: self.name@,
            is_dir: self.is_dir,
            outcome: match self.outcome {
                Option::Some(raw) => Option::Some(raw@),
                Option::None => Option::None,
            },
        }
    }
}

/// The views of a sequence of entries.
pub open spec fn entry_views(es: Seq<Entry>) -> Seq<EntrySpec> {
    es.map_values(|e: Entry| e@)
}

/// Does a child with this name and kind survive the scan filter?  Directories
/// are skipped, as are the current and parent directory names and every name
/// matching an exclusion pattern.  Only surviving children are classified.
pub open spec fn survives_filter(name: Seq<u8>, is_dir: bool) -> bool {
    &&& !is_dir
    &&& name != ".".spec_bytes()
    &&& name != "..".spec_bytes()
    &&& !is_excluded_spec(name)
}

/// Does this entry contribute a path to the plan?  It must survive the
/// filter, have been classified successfully, and its label must not be the
/// directory sentinel.
pub open spec fn contributes(e: EntrySpec) -> bool {
    &&& survives_filter(e.name, e.is_dir)
    &&& e.outcome is Some
    &&& sanitize_spec(e.outcome->0) != sentinel()
}

/// The type label an entry is planned under.
pub open spec fn label_of(e: EntrySpec) -> Seq<u8> {
    sanitize_spec(e.outcome->0)
}

/// Does this entry deserve a classification warning?  It survived the filter
/// but the classifier gave no answer.
pub open spec fn warned(e: EntrySpec) -> bool {
    survives_filter(e.name, e.is_dir) && e.outcome is None
}

/// One group of the plan: a type label and the paths planned under it.
pub struct Group {
    pub label: Vec<u8>,
    pub paths: Vec<Vec<u8>>,
}

/// The mathematical shadow of a [`Group`].
pub struct GroupSpec {
    pub label: Seq<u8>,
    pub paths: Seq<Seq<u8>>,
}

/// The views of a sequence of byte vectors.
pub open spec fn seq_views(s: Seq<Vec<u8>>) -> Seq<Seq<u8>> {
    s.map_values(|v: Vec<u8>| v@)
}

impl View for Group {
    type V = GroupSpec;

    open spec fn view(&self) -> GroupSpec {
        GroupSpec { label: self.label@, paths: seq_views(self.paths@) }
    }
}

/// A move plan: one group per distinct type label, in first-seen order.
pub struct Plan {
    pub groups: Vec<Group>,
}

impl View for Plan {
    type V = Seq<GroupSpec>;

    open spec fn view(&self) -> Seq<GroupSpec> {
        self.groups@.map_values(|g: Group| g@)
    }
}

/// Well-formedness of a plan: no two groups carry the same label.
pub open spec fn plan_wf(pv: Seq<GroupSpec>) -> bool {
    forall|i: int, j: int|
        #![trigger pv[i].label, pv[j].label]
        0 <= i < j < pv.len() ==> pv[i].label != pv[j].label
}

/// The index of the group labelled `label`, or `-1` when no group is.
pub open spec fn find_group(pv: Seq<GroupSpec>, label: Seq<u8>) -> int
    decreases pv.len(),
{
    if pv.len() == 0 {
        -1
    } else if pv.last().label == label {
        pv.len() - 1
    } else {
        find_group(pv.take(pv.len() - 1), label)
    }
}

/// The plan with `path` appended under `label`: to the existing group when
/// one carries that label, else as a fresh group at the end.
pub open spec fn add_path(pv: Seq<GroupSpec>, label: Seq<u8>, path: Seq<u8>) -> Seq<GroupSpec> {
    let k = find_group(pv, label);
    if k == -1 {
        pv.push(GroupSpec { label, paths: seq![path] })
    } else {
        pv.update(k, GroupSpec { label, paths: pv[k].paths.push(path) })
    }
}

/// The plan grown from a sequence of scanned entries: each contributing
/// entry's path is appended under its label, in scan order.
pub open spec fn scan_plan(entries: Seq<EntrySpec>) -> Seq<GroupSpec>
    decreases entries.len(),
{
    if entries.len() == 0 {
        Seq::empty()
    } else {
        let prev = scan_plan(entries.take(entries.len() - 1));
        let e = entries.last();
        if contributes(e) {
            add_path(prev, label_of(e), e.path)
        } else {
            prev
        }
    }
}

/// The paths that deserve a classification warning, in scan order.
pub open spec fn scan_warnings(entries: Seq<EntrySpec>) -> Seq<Seq<u8>>
    decreases entries.len(),
{
    if entries.len() == 0 {
        Seq::empty()
    } else {
        let prev = scan_warnings(entries.take(entries.len() - 1));
        let e = entries.last();
        if warned(e) {
            prev.push(e.path)
        } else {
            prev
        }
    }
}

/// Byte-for-byte equality of two byte vectors.
fn bytes_eq(a: &Vec<u8>, b: &Vec<u8>) -> (r: bool)
    ensures
        r == (a@ == b@),
{
    if a.len() != b.len() {
        proof {
            assert(a@.len() != b@.len());
        }
        return false;
    }
    let mut k: usize = 0;
    while k < a.len()
        invariant
            k <= a.len(),
            a@.len() == b@.len(),
            forall|j: int| 0 <= j < k ==> a@[j] == b@[j],
        decreases a.len() - k,
    {
        if a[k] != b[k] {
            return false;
        }
        k += 1;
    }
    proof {
        assert(a@ =~= b@);
    }
    true
}

/// Does a child with this bare name and kind survive the scan filter?  The
/// scan asks this before invoking the classifier, so filtered-out children
/// are never classified.
pub fn should_scan(name: &Vec<u8>, is_dir: bool) -> (r: bool)
    ensures
        r == survives_filter(name@, is_dir),
{
    if is_dir {
        return false;
    }
    let dot = slice_to_vec(".".as_bytes());
    let dotdot = slice_to_vec("..".as_bytes());
    if bytes_eq(name, &dot) || bytes_eq(name, &dotdot) {
        return false;
    }
    !is_excluded(name)
}

pub proof fn lemma_find_group_props(pv: Seq<GroupSpec>, label: Seq<u8>)
    ensures
        find_group(pv, label) == -1 ==> forall|i: int|
            0 <= i < pv.len() ==> #[trigger] pv[i].label != label,
        find_group(pv, label) != -1 ==> 0 <= find_group(pv, label) < pv.len() && pv[find_group(
            pv,
            label,
        )].label == label,
    decreases pv.len(),
{
    if pv.len() == 0 {
    } else if pv.last().label == label {
    } else {
        lemma_find_group_props(pv.take(pv.len() - 1), label);
        assert(forall|i: int| 0 <= i < pv.len() - 1 ==> pv.take(pv.len() - 1)[i] == pv[i]);
    }
}

proof fn lemma_find_group_unique(pv: Seq<GroupSpec>, label: Seq<u8>, i: int)
    requires
        plan_wf(pv),
        0 <= i < pv.len(),
        pv[i].label == label,
    ensures
        find_group(pv, label) == i,
    decreases pv.len(),
{
    if pv.last().label == label {
        assert(pv[i].label == pv[pv.len() - 1].label);
        if i != pv.len() - 1 {
            assert(pv[i].label != pv[pv.len() - 1].label);
        }
    } else {
        assert(i < pv.len() - 1);
        assert(plan_wf(pv.take(pv.len() - 1))) by {
            assert(forall|k: int| 0 <= k < pv.len() - 1 ==> pv.take(pv.len() - 1)[k] == pv[k]);
        }
        assert(pv.take(pv.len() - 1)[i] == pv[i]);
        lemma_find_group_unique(pv.take(pv.len() - 1), label, i);
    }
}

proof fn lemma_add_path_wf(pv: Seq<GroupSpec>, label: Seq<u8>, path: Seq<u8>)
    requires
        plan_wf(pv),
    ensures
        plan_wf(add_path(pv, label, path)),
{
    lemma_find_group_props(pv, label);
    let k = find_group(pv, label);
    let r = add_path(pv, label, path);
    if k == -1 {
        assert forall|i: int, j: int|
            #![trigger r[i].label, r[j].label]
            0 <= i < j < r.len() implies r[i].label != r[j].label by {
            if j < pv.len() {
                assert(r[i].label == pv[i].label && r[j].label == pv[j].label);
            } else {
                assert(r[j].label == label);
                assert(r[i].label == pv[i].label);
            }
        }
    } else {
        assert forall|i: int, j: int|
            #![trigger r[i].label, r[j].label]
            0 <= i < j < r.len() implies r[i].label != r[j].label by {
            assert(r[i].label == pv[i].label && r[j].label == pv[j].label);
        }
    }
}

fn find_index(groups: &Vec<Group>, label: &Vec<u8>) -> (r: usize)
    ensures
        r <= groups@.len(),
        r < groups@.len() ==> (#[trigger] groups@[r as int])@.label == label@,
        r == groups@.len() ==> forall|j: int|
            0 <= j < groups@.len() ==> (#[trigger] groups@[j])@.label != label@,
{
    let n = groups.len();
    let mut k: usize = 0;
    while k < n
        invariant
            k <= n,
            n == groups@.len(),
            forall|j: int| 0 <= j < k ==> (#[trigger] groups@[j])@.label != label@,
        decreases n - k,
    {
        if bytes_eq(&groups[k].label, label) {
            return k;
        }
        k += 1;
    }
    n
}

impl Plan {
    /// The empty plan.
    pub fn new() -> (p: Plan)
        ensures
            p@ == Seq::<GroupSpec>::empty(),
            plan_wf(p@),
    {
        let p = Plan { groups: Vec::new() };
        proof {
            assert(p@ =~= Seq::<GroupSpec>::empty());
        }
        p
    }

    /// Append `path` under `label`: to the group already carrying that label
    /// when there is one, else as a fresh group at the end.
    fn add(&mut self, label: Vec<u8>, path: Vec<u8>)
        requires
            plan_wf(old(self)@),
        ensures
            final(self)@ == add_path(old(self)@, label@, path@),
            plan_wf(final(self)@),
    {
        let ghost pv = self@;
        proof {
            lemma_find_group_props(pv, label@);
            lemma_add_path_wf(pv, label@, path@);
            assert(forall|j: int|
                0 <= j < self.groups@.len() ==> (#[trigger] self.groups@[j])@ == pv[j]);
        }
        let idx = find_index(&self.groups, &label);
        if idx < self.groups.len() {
            proof {
                assert(pv[idx as int].label == label@);
                lemma_find_group_unique(pv, label@, idx as int);
            }
            self.groups[idx].paths.push(path);
            proof {
                assert(self@ =~= add_path(pv, label@, path@)) by {
                    assert(forall|j: int|
                        0 <= j < self@.len() && j != idx ==> self@[j] == #[trigger] pv[j]);
                    assert(self@[idx as int].paths =~= pv[idx as int].paths.push(path@));
                    assert(self@[idx as int] == add_path(pv, label@, path@)[idx as int]);
                }
            }
        } else {
            proof {
                if find_group(pv, label@) != -1 {
                    let f = find_group(pv, label@);
                    assert(pv[f].label == label@);
                    assert((self.groups@[f])@ == pv[f]);
                }
            }
            let mut paths: Vec<Vec<u8>> = Vec::new();
            paths.push(path);
            let g = Group { label, paths };
            proof {
                assert(g@.paths =~= seq![path@]);
            }
            self.groups.push(g);
            proof {
                assert(self@ =~= add_path(pv, label@, path@));
            }
        }
    }
}

/// Build the move plan and the warning list from the scanned entries.
///
/// The plan holds exactly the contributing entries' paths, grouped under
/// their labels in first-seen order; the warning list holds the paths of the
/// entries that survived the filter but could not be classified.
pub fn build_plan(entries: &Vec<Entry>) -> (r: (Plan, Vec<Vec<u8>>))
    ensures
        r.0@ == scan_plan(entry_views(entries@)),
        seq_views(r.1@) == scan_warnings(entry_views(entries@)),
        plan_wf(r.0@),
{
    let ghost evs = entry_views(entries@);
    let mut plan = Plan::new();
    let mut warnings: Vec<Vec<u8>> = Vec::new();
    proof {
        assert(evs.take(0) =~= Seq::<EntrySpec>::empty());
        assert(seq_views(warnings@) =~= Seq::<Seq<u8>>::empty());
    }
    let n = entries.len();
    let mut k: usize = 0;
    let sentinel_bytes = slice_to_vec("inode_directory".as_bytes());
    while k < n
        invariant
            k <= n,
            n == entries.len(),
            evs == entry_views(entries@),
            evs.len() == n,
            plan@ == scan_plan(evs.take(k as int)),
            seq_views(warnings@) == scan_warnings(evs.take(k as int)),
            plan_wf(plan@),
            sentinel_bytes@ == sentinel(),
        decreases n - k,
    {
        let ghost prev_plan = plan@;
        let ghost prev_warn = seq_views(warnings@);
        proof {
            assert(evs[k as int] == entries@[k as int]@);
            assert(evs.take(k + 1).take(k as int) =~= evs.take(k as int));
            assert(evs.take(k + 1).last() == evs[k as int]);
        }
        let e = &entries[k];
        if should_scan(&e.name, e.is_dir) {
            match &e.outcome {
                Option::Some(raw) => {
                    let label = sanitize_label(raw);
                    if !bytes_eq(&label, &sentinel_bytes) {
                        plan.add(label, e.path.clone());
                    }
                },
                Option::None => {
                    warnings.push(e.path.clone());
                    proof {
                        assert(seq_views(warnings@) =~= prev_warn.push(entries@[k as int].path@));
                    }
                },
            }
        }
        k += 1;
        proof {
            assert(plan@ == scan_plan(evs.take(k as int)));
            assert(seq_views(warnings@) =~= scan_warnings(evs.take(k as int)));
        }
    }
    proof {
        assert(evs.take(n as int) =~= evs);
    }
    (plan, warnings)
}

} // verus!
