//! Deriving the filesystem actions a plan calls for.
//!
//! A run either executes its plan or merely previews it. Both modes share
//! the same action list — one directory creation per group followed by one
//! move per planned file — but in preview mode the actions are only
//! described, never performed. [`actions_for`] separates the two: it returns
//! the actions to perform and the actions to describe, and in preview mode
//! the list to perform is empty.

use vstd::prelude::*;
use vstd::slice::slice_to_vec;

use crate::plan::GroupSpec;
use crate::plan::Plan;

verus! {

/// A single filesystem mutation the executor would perform.
#[derive(Debug)]
pub enum FsAction {
    /// Ensure a directory with this name exists directly under the working
    /// directory.
    MakeDir { dir: Vec<u8> },
    /// Move the file at `from` to `to`.
    MoveFile { from: Vec<u8>, to: Vec<u8> },
}

/// The mathematical shadow of an [`FsAction`].
pub enum ActionSpec {
    MakeDir { dir: Seq<u8> },
    MoveFile { from: Seq<u8>, to: Seq<u8> },
}

impl View for FsAction {
    type V = ActionSpec;

    open spec fn view(&self) -> ActionSpec {
        match self {
            FsAction::MakeDir { dir } => ActionSpec::MakeDir { dir: dir@ },
            FsAction::MoveFile { from, to } => ActionSpec::MoveFile { from: from@, to: to@ },
        }
    }
}

/// The views of a sequence of actions.
pub open spec fn action_views(s: Seq<FsAction>) -> Seq<ActionSpec> {
    s.map_values(|a: FsAction| a@)
}

/// The index of the last path separator in `p`, or `-1` when there is none.
pub open spec fn last_sep(p: Seq<u8>) -> int
    decreases p.len(),
{
    if p.len() == 0 {
        -1
    } else if p[p.len() - 1] == 47 {
        p.len() - 1
    } else {
        last_sep(p.take(p.len() - 1))
    }
}

/// The bare file name of a path: everything after its last separator.
pub open spec fn base_name_spec(p: Seq<u8>) -> Seq<u8> {
    p.skip(last_sep(p) + 1)
}

/// The destination a planned file moves to: the label directory, a
/// separator, and the file's bare name.
pub open spec fn dest_spec(label: Seq<u8>, path: Seq<u8>) -> Seq<u8> {
    label + seq![47u8] + base_name_spec(path)
}

/// The move action for one planned file of the group labelled `label`.
pub open spec fn move_action(label: Seq<u8>, path: Seq<u8>) -> ActionSpec {
    ActionSpec::MoveFile { from: path, to: dest_spec(label, path) }
}

/// The move actions for the planned files of the group labelled `label`, in
/// plan order.
pub open spec fn move_actions(label: Seq<u8>, paths: Seq<Seq<u8>>) -> Seq<ActionSpec> {
    paths.map_values(|p: Seq<u8>| move_action(label, p))
}

/// The actions one group calls for: ensure the label directory exists, then
/// move each planned file into it, in plan order.
pub open spec fn group_actions(g: GroupSpec) -> Seq<ActionSpec> {
    seq![ActionSpec::MakeDir { dir: g.label }] + move_actions(g.label, g.paths)
}

/// The actions a whole plan calls for, group by group.
pub open spec fn plan_actions(pv: Seq<GroupSpec>) -> Seq<ActionSpec>
    decreases pv.len(),
{
    if pv.len() == 0 {
        Seq::empty()
    } else {
        plan_actions(pv.take(pv.len() - 1)) + group_actions(pv.last())
    }
}

proof fn lemma_last_sep_at(p: Seq<u8>, c: int)
    requires
        0 <= c <= p.len(),
        forall|k: int| c <= k < p.len() ==> p[k] != 47,
        c == 0 || p[c - 1] == 47,
    ensures
        last_sep(p) == c - 1,
    decreases p.len(),
{
    if c == p.len() {
    } else {
        assert(p[p.len() - 1] != 47);
        assert(forall|k: int| c <= k < p.len() - 1 ==> #[trigger] p.take(p.len() - 1)[k] != 47);
        lemma_last_sep_at(p.take(p.len() - 1), c);
    }
}

/// The bare file name of a path: the bytes after its last `/`, or the whole
/// path when it holds none.
pub fn base_name(path: &Vec<u8>) -> (r: Vec<u8>)
    ensures
        r@ == base_name_spec(path@),
{
    let n = path.len();
    let mut cut: usize = n;
    while cut > 0 && path[cut - 1] != 47
        invariant
            cut <= n,
            n == path.len(),
            forall|k: int| cut <= k < n ==> path@[k] != 47,
        decreases cut,
    {
        cut -= 1;
    }
    proof {
        lemma_last_sep_at(path@, cut as int);
    }
    let mut r: Vec<u8> = Vec::new();
    let mut k: usize = cut;
    while k < n
        invariant
            cut <= k <= n,
            n == path.len(),
            r@ == path@.subrange(cut as int, k as int),
        decreases n - k,
    {
        r.push(path[k]);
        proof {
            assert(r@ =~= path@.subrange(cut as int, k + 1));
        }
        k += 1;
    }
    proof {
        assert(r@ =~= path@.skip(last_sep(path@) + 1));
    }
    r
}

/// The destination path for a planned file: the label, a separator, and the
/// file's bare name.
pub fn dest_path(label: &Vec<u8>, path: &Vec<u8>) -> (r: Vec<u8>)
    ensures
        r@ == dest_spec(label@, path@),
{
    let mut r: Vec<u8> = Vec::new();
    let mut k: usize = 0;
    while k < label.len()
        invariant
            k <= label.len(),
            r@ == label@.take(k as int),
        decreases label.len() - k,
    {
        r.push(label[k]);
        proof {
            assert(r@ =~= label@.take(k + 1));
        }
        k += 1;
    }
    r.push(47);
    let base = base_name(path);
    let mut j: usize = 0;
    while j < base.len()
        invariant
            j <= base.len(),
            base@ == base_name_spec(path@),
            r@ == label@ + seq![47u8] + base@.take(j as int),
        decreases base.len() - j,
    {
        r.push(base[j]);
        proof {
            assert(r@ =~= label@ + seq![47u8] + base@.take(j + 1));
        }
        j += 1;
    }
    proof {
        assert(label@.take(label@.len() as int) =~= label@);
        assert(base@.take(base@.len() as int) =~= base@);
        assert(r@ =~= dest_spec(label@, path@));
    }
    r
}

/// All actions the plan calls for, in plan order.
fn collect_actions(plan: &Plan) -> (acts: Vec<FsAction>)
    ensures
        action_views(acts@) == plan_actions(plan@),
{
    let ghost pv = plan@;
    let mut acts: Vec<FsAction> = Vec::new();
    proof {
        assert(pv.take(0) =~= Seq::<GroupSpec>::empty());
        assert(action_views(acts@) =~= plan_actions(pv.take(0)));
    }
    let n = plan.groups.len();
    let mut g: usize = 0;
    while g < n
        invariant
            g <= n,
            n == plan.groups@.len(),
            pv == plan@,
            pv.len() == n,
            action_views(acts@) == plan_actions(pv.take(g as int)),
        decreases n - g,
    {
        let ghost gv = pv[g as int];
        proof {
            assert((#[trigger] plan.groups@[g as int])@ == pv[g as int]);
        }
        let group = &plan.groups[g];
        acts.push(FsAction::MakeDir { dir: group.label.clone() });
        proof {
            assert(action_views(acts@) =~= plan_actions(pv.take(g as int)) + seq![
                ActionSpec::MakeDir { dir: gv.label },
            ] + move_actions(gv.label, gv.paths.take(0)));
        }
        let m = group.paths.len();
        let mut i: usize = 0;
        while i < m
            invariant
                i <= m,
                m == group.paths@.len(),
                group@ == gv,
                gv.paths.len() == m,
                action_views(acts@) == plan_actions(pv.take(g as int)) + seq![
                    ActionSpec::MakeDir { dir: gv.label },
                ] + move_actions(gv.label, gv.paths.take(i as int)),
            decreases m - i,
        {
            proof {
                assert(gv.paths[i as int] == (#[trigger] group.paths@[i as int])@);
            }
            let to = dest_path(&group.label, &group.paths[i]);
            let from = slice_to_vec(group.paths[i].as_slice());
            let act = FsAction::MoveFile { from, to };
            proof {
                assert(act@ == move_action(gv.label, gv.paths[i as int]));
            }
            let ghost prev_acts = acts@;
            acts.push(act);
            proof {
                assert(action_views(acts@) =~= action_views(prev_acts).push(
                    move_action(gv.label, gv.paths[i as int])));
                assert(gv.paths.take(i + 1) =~= gv.paths.take(i as int).push(
                    gv.paths[i as int]));
                assert(move_actions(gv.label, gv.paths.take(i + 1)) =~= move_actions(
                    gv.label,
                    gv.paths.take(i as int),
                ).push(move_action(gv.label, gv.paths[i as int])));
                assert(action_views(acts@) =~= plan_actions(pv.take(g as int)) + seq![
                    ActionSpec::MakeDir { dir: gv.label },
                ] + move_actions(gv.label, gv.paths.take(i + 1)));
            }
            i += 1;
        }
        proof {
            assert(gv.paths.take(m as int) =~= gv.paths);
            assert(pv.take(g + 1).take(g as int) =~= pv.take(g as int));
            assert(pv.take(g + 1).last() == pv[g as int]);
            assert(action_views(acts@) =~= plan_actions(pv.take(g + 1)));
        }
        g += 1;
    }
    proof {
        assert(pv.take(n as int) =~= pv);
    }
    acts
}

/// Whether a run previews its plan or executes it. The two modes are
/// mutually exclusive; choosing between them belongs to the caller.
pub enum Mode {
    Preview,
    Execute,
}

/// The actions for one run: those to perform and those only to describe.
///
/// In execute mode every action of the plan is handed back to be performed
/// and none is described; in preview mode no action at all is handed back to
/// be performed — whatever the plan holds — and every action is described.
pub fn actions_for(plan: &Plan, mode: Mode) -> (r: (Vec<FsAction>, Vec<FsAction>))
    ensures
        mode is Execute ==> action_views(r.0@) == plan_actions(plan@) && r.1@.len() == 0,
        mode is Preview ==> r.0@.len() == 0 && action_views(r.1@) == plan_actions(plan@),
{
    let acts = collect_actions(plan);
    match mode {
        Mode::Execute => (acts, Vec::new()),
        Mode::Preview => (Vec::new(), acts),
    }
}

} // verus!
