//! What a plan amounts to: which entries of the source reach the destination,
//! and under which path, stated without reference to the cursor.
use vstd::prelude::*;
use crate::mirror::{
    CursorView, EntryKind, EntryView, Step, hidden_name, parent_level, plan_spec, visit_spec, walk,
};

verus! {

/// The entry carries a name that begins with a dot.
pub open spec fn hidden_entry(e: EntryView) -> bool {
    e.name is Some && hidden_name(e.name->0)
}

/// Entry `j` is hidden, and every entry after it up to position `n` lies
/// below it: in a pre-order listing, these are the members of its subtree.
pub open spec fn open_hidden(es: Seq<EntryView>, n: int, j: int) -> bool {
    &&& 0 <= j < n
    &&& hidden_entry(es[j])
    &&& forall|k: int| j < k < n ==> #[trigger] es[k].depth > es[j].depth
}

/// Entry `i` lies in the subtree of a hidden entry.
pub open spec fn in_hidden_subtree(es: Seq<EntryView>, i: int) -> bool {
    exists|j: int| #[trigger] open_hidden(es, i, j) && es[i].depth > es[j].depth
}

/// Entry `i` reaches the destination: it has a name, it is not hidden, and no
/// hidden entry holds it.
pub open spec fn shown(es: Seq<EntryView>, i: int) -> bool {
    es[i].name is Some && !hidden_entry(es[i]) && !in_hidden_subtree(es, i)
}

/// The names of the directories at depths `1..=d` that enclose position `n` of
/// a pre-order listing: for each depth, the last shown directory of that depth
/// before `n`.
pub open spec fn ancestry(es: Seq<EntryView>, n: nat, d: nat) -> Seq<Seq<char>>
    decreases n,
{
    if n == 0 || d == 0 {
        Seq::empty()
    } else {
        let i = n - 1;
        if shown(es, i) && es[i].kind == EntryKind::Dir && es[i].depth == d {
            ancestry(es, i as nat, (d - 1) as nat).push(es[i].name->0)
        } else {
            ancestry(es, i as nat, d)
        }
    }
}

/// No name in an ancestry is hidden: it holds names of shown entries only.
pub proof fn lemma_ancestry_visible(es: Seq<EntryView>, n: nat, d: nat)
    ensures
        forall|k: int| 0 <= k < ancestry(es, n, d).len() ==> !hidden_name(#[trigger] ancestry(es, n, d)[k]),
    decreases n,
{
    if n > 0 && d > 0 {
        let i = n - 1;
        if shown(es, i) && es[i].kind == EntryKind::Dir && es[i].depth == d {
            lemma_ancestry_visible(es, i as nat, (d - 1) as nat);
            let a = ancestry(es, i as nat, (d - 1) as nat);
            assert(ancestry(es, n, d) == a.push(es[i].name->0));
            assert(!hidden_name(es[i].name->0));
            assert forall|k: int| 0 <= k < a.push(es[i].name->0).len() implies !hidden_name(#[trigger] a.push(es[i].name->0)[k]) by {
                if k < a.len() {
                    assert(a.push(es[i].name->0)[k] == a[k]);
                }
            }
        } else {
            lemma_ancestry_visible(es, i as nat, d);
            assert(ancestry(es, n, d) == ancestry(es, i as nat, d));
        }
    }
}

/// The path of entry `i` below the destination root.
pub open spec fn dest_path(es: Seq<EntryView>, i: int) -> Seq<Seq<char>> {
    ancestry(es, i as nat, parent_level(es[i].depth)).push(es[i].name->0)
}

/// What should become of entry `i`: shown directories below the root are
/// created, shown files copied, everything else left alone.
pub open spec fn expected_step(es: Seq<EntryView>, i: int) -> Step {
    if shown(es, i) && es[i].kind == EntryKind::Dir && es[i].depth > 0 {
        Step::CreateDir(dest_path(es, i))
    } else if shown(es, i) && es[i].kind == EntryKind::File {
        Step::CopyFile(dest_path(es, i))
    } else {
        Step::Skip
    }
}

/// What holds of the cursor and the steps after `n` entries.
spec fn walk_holds(es: Seq<EntryView>, n: nat) -> bool {
    let c = walk(es, n).0;
    let steps = walk(es, n).1->Ok_0;
    &&& c.pruning is Some ==> exists|j: int| #[trigger] open_hidden(es, n as int, j) && es[j].depth == c.pruning->0
    &&& forall|j: int| #[trigger] open_hidden(es, n as int, j) ==> c.pruning is Some && es[j].depth >= c.pruning->0
    &&& forall|l: nat| l <= c.stack.len() ==> c.stack.take(l as int) == #[trigger] ancestry(es, n, l)
    &&& steps.len() == n
    &&& forall|i: int| 0 <= i < n ==> steps[i] == #[trigger] expected_step(es, i)
}

proof fn lemma_walk_holds(es: Seq<EntryView>, n: nat)
    requires
        n <= es.len(),
        walk(es, n).1 is Ok,
    ensures
        walk_holds(es, n),
    decreases n,
{
    if n == 0 {
        let c = walk(es, 0).0;
        assert(c.stack.take(0) =~= Seq::<Seq<char>>::empty());
        return;
    }
    let i = (n - 1) as int;
    lemma_walk_holds(es, i as nat);
    let c = walk(es, i as nat).0;
    let steps = walk(es, i as nat).1->Ok_0;
    let e = es[i];
    let (next, r) = visit_spec(c, e);
    let now = walk(es, n).0;
    let steps2 = walk(es, n).1->Ok_0;
    assert(now == next);
    assert(steps2 == steps.push(r->Ok_0));
    // entry i is pruned exactly when it lies below an open hidden entry
    let pruned = c.pruning is Some && e.depth > c.pruning->0;
    assert(pruned == in_hidden_subtree(es, i)) by {
        if pruned {
            let j = choose|j: int| #[trigger] open_hidden(es, i, j) && es[j].depth == c.pruning->0;
            assert(open_hidden(es, i, j) && es[i].depth > es[j].depth);
        }
        if in_hidden_subtree(es, i) {
            let j = choose|j: int| #[trigger] open_hidden(es, i, j) && es[i].depth > es[j].depth;
            assert(c.pruning is Some && es[j].depth >= c.pruning->0);
        }
    }
    // the hidden entries still open after entry i
    if pruned {
        let j0 = choose|j: int| #[trigger] open_hidden(es, i, j) && es[j].depth == c.pruning->0;
        assert(open_hidden(es, n as int, j0));
        assert forall|j: int| #[trigger] open_hidden(es, n as int, j) implies now.pruning is Some
            && es[j].depth >= now.pruning->0 by {
            if j < i {
                assert(open_hidden(es, i, j));
            }
        }
    } else {
        assert forall|j: int| #[trigger] open_hidden(es, n as int, j) implies j == i by {
            if j < i {
                assert(open_hidden(es, i, j));
                assert(es[i].depth > es[j].depth);
            }
        }
        if hidden_entry(e) {
            assert(open_hidden(es, n as int, i));
        }
    }
    // the stack follows the enclosing directories
    assert forall|l: nat| l <= now.stack.len() implies now.stack.take(l as int) == #[trigger] ancestry(es, n, l) by {
        if l > 0 && shown(es, i) && e.kind == EntryKind::Dir && e.depth == l {
            assert(ancestry(es, n, l) == ancestry(es, i as nat, (l - 1) as nat).push(e.name->0));
            assert(c.stack.take((l - 1) as int) == ancestry(es, i as nat, (l - 1) as nat));
            assert(now.stack.take(l as int) =~= c.stack.take((l - 1) as int).push(e.name->0));
        } else {
            assert(ancestry(es, n, l) == ancestry(es, i as nat, l));
            assert(now.stack.take(l as int) =~= c.stack.take(l as int));
        }
    }
    // and the step taken for entry i is the expected one
    if shown(es, i) {
        let pl = parent_level(e.depth);
        assert(c.stack.take(pl as int) == ancestry(es, i as nat, pl));
    }
    assert(steps2[i] == expected_step(es, i));
    assert forall|k: int| 0 <= k < n implies steps2[k] == #[trigger] expected_step(es, k) by {
        if k < i {
            assert(steps2[k] == steps[k]);
        }
    }
}

/// Hidden entries are excluded with everything below them: when a listing can
/// be planned, no entry that is hidden, or lies in the subtree of a hidden
/// entry, is created or copied.
pub proof fn lemma_hidden_subtrees_excluded(es: Seq<EntryView>)
    requires
        plan_spec(es) is Ok,
    ensures
        forall|i: int|
            0 <= i < es.len() && (hidden_entry(es[i]) || in_hidden_subtree(es, i))
                ==> #[trigger] plan_spec(es)->Ok_0[i] == Step::Skip,
{
    lemma_walk_holds(es, es.len());
    assert forall|i: int|
        0 <= i < es.len() && (hidden_entry(es[i]) || in_hidden_subtree(es, i)) implies #[trigger] plan_spec(
        es,
    )->Ok_0[i] == Step::Skip by {
        assert(plan_spec(es)->Ok_0[i] == expected_step(es, i));
        assert(!shown(es, i));
    }
}

/// The plan is faithful to the source: each shown directory below the root is
/// created and each shown file copied, at the path its enclosing directories
/// and its own name give; no other entry leads to anything.
pub proof fn lemma_structural_fidelity(es: Seq<EntryView>)
    requires
        plan_spec(es) is Ok,
    ensures
        plan_spec(es)->Ok_0.len() == es.len(),
        forall|i: int| 0 <= i < es.len() ==> #[trigger] plan_spec(es)->Ok_0[i] == expected_step(es, i),
{
    lemma_walk_holds(es, es.len());
}

} // verus!
