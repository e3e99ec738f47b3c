//! Mirroring as a whole: the destination is erased when present, created
//! afresh, and filled by the plan. Modelled on a destination tree, this makes
//! the outcome depend on the source listing alone.
use vstd::prelude::*;
use crate::fidelity::{
    ancestry, dest_path, expected_step, hidden_entry, lemma_ancestry_visible, lemma_structural_fidelity, shown,
};
use crate::mirror::{
    Action, Entry, EntryFault, EntryKind, EntryView, MirrorError, hidden_name, parent_level, Step, TraversalCursor, entries_view, lemma_fault_persists, plan_spec, walk,
};

verus! {

/// One filesystem operation of a mirroring.
#[derive(PartialEq, Eq, Clone, Debug)]
pub enum FsOp {
    /// Erase the destination directory, with retries.
    RemoveDest,
    /// Create the destination directory and any missing parents.
    CreateDest,
    /// Carry out the action planned for entry `index` of the listing.
    Apply { index: usize, action: Action },
}

/// An operation as a mathematical value.
pub enum OpView {
    RemoveDest,
    CreateDest,
    Apply { index: nat, step: Step },
}

impl View for FsOp {
    type V = OpView;

    open spec fn view(&self) -> OpView {
        match self {
            FsOp::RemoveDest => OpView::RemoveDest,
            FsOp::CreateDest => OpView::CreateDest,
            FsOp::Apply { index, action } => OpView::Apply { index: *index as nat, step: action@ },
        }
    }
}

/// One operation for each step of a plan, in order.
pub open spec fn applied_ops(plan: Seq<Step>) -> Seq<OpView> {
    Seq::new(plan.len(), |i: int| OpView::Apply { index: i as nat, step: plan[i] })
}

/// The operations that mirror a source with `plan` as its steps into a
/// destination that exists or not.
pub open spec fn ops_spec(dest_exists: bool, plan: Seq<Step>) -> Seq<OpView> {
    if dest_exists {
        seq![OpView::RemoveDest, OpView::CreateDest] + applied_ops(plan)
    } else {
        seq![OpView::CreateDest] + applied_ops(plan)
    }
}

/// Lists the operations that replace the destination with a mirror of the
/// source given by `entries`: erase the destination where `dest_exists`,
/// create it, then one operation per entry.
pub fn mirror_ops(dest_exists: bool, entries: &Vec<Entry>) -> (r: Result<Vec<FsOp>, MirrorError>)
    ensures
        match r {
            Ok(ops) => plan_spec(entries_view(entries@)) is Ok && ops@.map_values(|o: FsOp| o@)
                == ops_spec(dest_exists, plan_spec(entries_view(entries@))->Ok_0),
            Err(e) => plan_spec(entries_view(entries@)) == Err::<Seq<Step>, (nat, EntryFault)>(
                (e.index as nat, e.fault),
            ),
        },
{
    let ghost es = entries_view(entries@);
    let mut ops: Vec<FsOp> = Vec::new();
    if dest_exists {
        ops.push(FsOp::RemoveDest);
    }
    ops.push(FsOp::CreateDest);
    let ghost head = ops@.map_values(|o: FsOp| o@);
    assert(head =~= if dest_exists {
        seq![OpView::RemoveDest, OpView::CreateDest]
    } else {
        seq![OpView::CreateDest]
    });
    assert(ops@.map_values(|o: FsOp| o@) =~= head + Seq::<OpView>::empty());
    let mut cursor = TraversalCursor::new();
    let mut i: usize = 0;
    while i < entries.len()
        invariant
            i <= entries.len(),
            es == entries_view(entries@),
            cursor.wf(),
            walk(es, i as nat).0 == cursor@,
            walk(es, i as nat).1 is Ok,
            walk(es, i as nat).1->Ok_0.len() == i,
            head == if dest_exists {
                seq![OpView::RemoveDest, OpView::CreateDest]
            } else {
                seq![OpView::CreateDest]
            },
            ops@.map_values(|o: FsOp| o@) == head + applied_ops(walk(es, i as nat).1->Ok_0),
        decreases entries.len() - i,
    {
        let ghost before = ops@;
        let ghost done = walk(es, i as nat).1->Ok_0;
        match cursor.visit(&entries[i]) {
            Ok(action) => {
                ops.push(FsOp::Apply { index: i, action });
                proof {
                    let now = walk(es, (i + 1) as nat).1->Ok_0;
                    assert(now =~= done.push(action@));
                    assert(applied_ops(now) =~= applied_ops(done).push(
                        OpView::Apply { index: i as nat, step: action@ },
                    ));
                    assert(ops@.map_values(|o: FsOp| o@) =~= before.map_values(|o: FsOp| o@).push(
                        OpView::Apply { index: i as nat, step: action@ },
                    ));
                }
            },
            Err(fault) => {
                proof {
                    lemma_fault_persists(es, (i + 1) as nat, es.len());
                }
                return Err(MirrorError { index: i, fault });
            },
        }
        i = i + 1;
    }
    assert(es.len() == entries@.len());
    Ok(ops)
}

/// What the destination holds at a path below its root: a directory, or a
/// file copied from the listing's entry `index`.
pub enum Node {
    Dir,
    File { index: nat },
}

/// The destination directory: absent, or what it holds by path.
pub type DestTree = Option<Map<Seq<Seq<char>>, Node>>;

/// What one operation does to the destination.
pub open spec fn op_effect(t: DestTree, op: OpView) -> DestTree {
    let held = match t {
        Some(m) => m,
        None => Map::empty(),
    };
    match op {
        OpView::RemoveDest => None,
        OpView::CreateDest => Some(held),
        OpView::Apply { index, step } => match step {
            Step::Skip => t,
            Step::CreateDir(p) => Some(held.insert(p, Node::Dir)),
            Step::CopyFile(p) => Some(held.insert(p, Node::File { index })),
        },
    }
}

/// The destination after a sequence of operations.
pub open spec fn apply_ops(t: DestTree, ops: Seq<OpView>) -> DestTree
    decreases ops.len(),
{
    if ops.len() == 0 {
        t
    } else {
        apply_ops(op_effect(t, ops[0]), ops.drop_first())
    }
}

/// The destination that a plan builds in an empty directory.
pub open spec fn mirror_image(plan: Seq<Step>) -> DestTree {
    apply_ops(Some(Map::empty()), applied_ops(plan))
}

/// The path that a step creates or copies to, if any.
pub open spec fn step_target(step: Step) -> Option<Seq<Seq<char>>> {
    match step {
        Step::Skip => None,
        Step::CreateDir(p) => Some(p),
        Step::CopyFile(p) => Some(p),
    }
}

/// Some step of `plan` creates or copies to `p`.
pub open spec fn targeted(plan: Seq<Step>, p: Seq<Seq<char>>) -> bool {
    exists|i: int| 0 <= i < plan.len() && #[trigger] step_target(plan[i]) == Some(p)
}

/// Some operation of `ops` creates or copies to `p`.
spec fn ops_target(ops: Seq<OpView>, p: Seq<Seq<char>>) -> bool {
    exists|k: int| 0 <= k < ops.len() && #[trigger] step_target(ops[k]->step) == Some(p)
}

/// Destination replacement: whatever the destination held before, after the
/// operations of a mirroring it holds exactly what the plan builds in an
/// empty directory, so nothing of its earlier content is left.
pub proof fn lemma_destination_replaced(prior: DestTree, es: Seq<EntryView>)
    requires
        plan_spec(es) is Ok,
    ensures
        apply_ops(prior, ops_spec(prior is Some, plan_spec(es)->Ok_0)) == mirror_image(
            plan_spec(es)->Ok_0,
        ),
{
    let plan = plan_spec(es)->Ok_0;
    let ops = ops_spec(prior is Some, plan);
    let tail = seq![OpView::CreateDest] + applied_ops(plan);
    assert(tail.drop_first() =~= applied_ops(plan));
    assert(apply_ops(None, tail) == mirror_image(plan));
    assert(apply_ops(Some(Map::empty()), tail) == mirror_image(plan)) by {
        assert(op_effect(Some(Map::empty()), OpView::CreateDest) == Some(Map::<Seq<Seq<char>>, Node>::empty()));
    }
    if prior is Some {
        assert(ops.drop_first() =~= tail);
    } else {
        assert(ops =~= tail);
    }
}

/// Idempotence: mirroring the same source twice into the same destination
/// leaves it as mirroring once does.
pub proof fn lemma_mirror_idempotent(prior: DestTree, es: Seq<EntryView>)
    requires
        plan_spec(es) is Ok,
    ensures
        ({
            let plan = plan_spec(es)->Ok_0;
            let once = apply_ops(prior, ops_spec(prior is Some, plan));
            apply_ops(once, ops_spec(once is Some, plan)) == once
        }),
{
    let plan = plan_spec(es)->Ok_0;
    let once = apply_ops(prior, ops_spec(prior is Some, plan));
    lemma_destination_replaced(prior, es);
    lemma_destination_replaced(once, es);
}

/// Applying the steps of `ops` to a present destination adds the paths that
/// they target and keeps the rest.
proof fn lemma_apply_targets(m: Map<Seq<Seq<char>>, Node>, ops: Seq<OpView>)
    requires
        forall|k: int| 0 <= k < ops.len() ==> #[trigger] ops[k] is Apply,
    ensures
        apply_ops(Some(m), ops) is Some,
        forall|p: Seq<Seq<char>>|
            #[trigger] apply_ops(Some(m), ops)->Some_0.dom().contains(p) <==> (m.dom().contains(p)
                || ops_target(ops, p)),
    decreases ops.len(),
{
    if ops.len() > 0 {
        let next = op_effect(Some(m), ops[0]);
        let held = next->Some_0;
        let rest = ops.drop_first();
        assert forall|k: int| 0 <= k < rest.len() implies #[trigger] rest[k] is Apply by {
            assert(rest[k] == ops[k + 1]);
        }
        lemma_apply_targets(held, rest);
        assert forall|p: Seq<Seq<char>>|
            #[trigger] apply_ops(Some(m), ops)->Some_0.dom().contains(p) <==> (m.dom().contains(p)
                || ops_target(ops, p)) by {
            assert(held.dom().contains(p) == (m.dom().contains(p) || step_target(ops[0]->step) == Some(p)));
            if step_target(ops[0]->step) == Some(p) {
                assert(ops_target(ops, p));
            }
            if ops_target(rest, p) {
                let k = choose|k: int| 0 <= k < rest.len() && #[trigger] step_target(rest[k]->step) == Some(p);
                assert(step_target(ops[k + 1]->step) == Some(p));
            }
            if ops_target(ops, p) {
                let k = choose|k: int| 0 <= k < ops.len() && #[trigger] step_target(ops[k]->step) == Some(p);
                if k > 0 {
                    assert(step_target(rest[k - 1]->step) == Some(p));
                }
            }
        }
    }
}

/// Nothing but the plan reaches the destination: after a mirroring, a path is
/// present exactly when some step of the plan creates or copies to it.
pub proof fn lemma_no_extra_paths(prior: DestTree, es: Seq<EntryView>)
    requires
        plan_spec(es) is Ok,
    ensures
        ({
            let plan = plan_spec(es)->Ok_0;
            let after = apply_ops(prior, ops_spec(prior is Some, plan));
            &&& after is Some
            &&& forall|p: Seq<Seq<char>>| #[trigger] after->Some_0.dom().contains(p) <==> targeted(plan, p)
        }),
{
    let plan = plan_spec(es)->Ok_0;
    let ops = applied_ops(plan);
    lemma_destination_replaced(prior, es);
    lemma_apply_targets(Map::empty(), ops);
    assert forall|p: Seq<Seq<char>>| #[trigger] ops_target(ops, p) <==> targeted(plan, p) by {
        if ops_target(ops, p) {
            let k = choose|k: int| 0 <= k < ops.len() && #[trigger] step_target(ops[k]->step) == Some(p);
            assert(step_target(plan[k]) == Some(p));
        }
        if targeted(plan, p) {
            let i = choose|i: int| 0 <= i < plan.len() && #[trigger] step_target(plan[i]) == Some(p);
            assert(step_target(ops[i]->step) == Some(p));
        }
    }
}

/// Entry `i` is a shown directory below the root or a shown file: one that
/// leaves a path at the destination.
pub open spec fn reaches_destination(es: Seq<EntryView>, i: int) -> bool {
    shown(es, i) && ((es[i].kind == EntryKind::Dir && es[i].depth > 0) || es[i].kind
        == EntryKind::File)
}

/// Structural fidelity of the destination: after a mirroring, a path is
/// present exactly when it is the path of a shown directory or file of the
/// source, whatever the destination held before.
pub proof fn lemma_destination_matches_source(prior: DestTree, es: Seq<EntryView>)
    requires
        plan_spec(es) is Ok,
    ensures
        ({
            let after = apply_ops(prior, ops_spec(prior is Some, plan_spec(es)->Ok_0));
            &&& after is Some
            &&& forall|p: Seq<Seq<char>>| #[trigger] after->Some_0.dom().contains(p) <==> exists|i: int|
                0 <= i < es.len() && reaches_destination(es, i) && #[trigger] dest_path(es, i) == p
        }),
{
    let plan = plan_spec(es)->Ok_0;
    lemma_no_extra_paths(prior, es);
    lemma_structural_fidelity(es);
    assert forall|p: Seq<Seq<char>>| targeted(plan, p) <==> exists|i: int|
        0 <= i < es.len() && reaches_destination(es, i) && #[trigger] dest_path(es, i) == p by {
        if targeted(plan, p) {
            let i = choose|i: int| 0 <= i < plan.len() && #[trigger] step_target(plan[i]) == Some(p);
            assert(plan[i] == expected_step(es, i));
            assert(reaches_destination(es, i) && dest_path(es, i) == p);
        }
        if exists|i: int| 0 <= i < es.len() && reaches_destination(es, i) && #[trigger] dest_path(es, i) == p {
            let i = choose|i: int| 0 <= i < es.len() && reaches_destination(es, i) && #[trigger] dest_path(es, i) == p;
            assert(plan[i] == expected_step(es, i));
            assert(step_target(plan[i]) == Some(p));
        }
    }
}

/// Hidden-subtree exclusion at the destination: after a mirroring, no path
/// present there passes through a name that begins with a dot, so neither a
/// hidden entry nor anything below it appears.
pub proof fn lemma_no_hidden_paths(prior: DestTree, es: Seq<EntryView>)
    requires
        plan_spec(es) is Ok,
    ensures
        ({
            let after = apply_ops(prior, ops_spec(prior is Some, plan_spec(es)->Ok_0));
            forall|p: Seq<Seq<char>>, k: int|
                #[trigger] after->Some_0.dom().contains(p) && 0 <= k < p.len() ==> !hidden_name(#[trigger] p[k])
        }),
{
    let after = apply_ops(prior, ops_spec(prior is Some, plan_spec(es)->Ok_0));
    lemma_destination_matches_source(prior, es);
    assert forall|p: Seq<Seq<char>>, k: int|
        #[trigger] after->Some_0.dom().contains(p) && 0 <= k < p.len() implies !hidden_name(#[trigger] p[k]) by {
        let i = choose|i: int| 0 <= i < es.len() && reaches_destination(es, i) && #[trigger] dest_path(es, i) == p;
        let a = ancestry(es, i as nat, parent_level(es[i].depth));
        lemma_ancestry_visible(es, i as nat, parent_level(es[i].depth));
        assert(!hidden_entry(es[i]));
        if k < a.len() {
            assert(p[k] == a[k]);
        } else {
            assert(p[k] == es[i].name->0);
        }
    }
}

} // verus!
