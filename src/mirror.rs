//! The decisions behind mirroring a directory tree: which entries of a
//! pre-order listing of the source are copied, and to which relative path.
use vstd::prelude::*;

verus! {

/// What kind of filesystem item an entry is.
#[derive(PartialEq, Eq, Structural, Clone, Copy, Debug)]
pub enum EntryKind {
    Dir,
    File,
    /// Anything else (a link, a device): neither created nor copied.
    Other,
}

/// One item of a depth-first, pre-order listing of the source tree. The root
/// of the source has depth 0, its children depth 1, and so on.
#[derive(Clone, Debug)]
pub struct Entry {
    /// The item's name, or `None` where it is not valid Unicode.
    pub name: Option<String>,
    pub depth: usize,
    pub kind: EntryKind,
}

/// An entry as a mathematical value.
pub struct EntryView {
    pub name: Option<Seq<char>>,
    pub depth: nat,
    pub kind: EntryKind,
}

impl View for Entry {
    type V = EntryView;

    open spec fn view(&self) -> EntryView {
        EntryView {
            name: match self.name {
                Some(s) => Some(s@),
                None => None,
            },
            depth: self.depth as nat,
            kind: self.kind,
        }
    }
}

/// A name is hidden when it begins with a dot.
pub open spec fn hidden_name(name: Seq<char>) -> bool {
    name.len() > 0 && name[0] == '.'
}

/// Whether a file name marks a hidden item.
pub fn is_hidden(name: &str) -> (r: bool)
    ensures
        r == hidden_name(name@),
{
    broadcast use vstd::string::axiom_spec_iter, vstd::string::next_postcondition;

    let mut chars = name.chars();
    match chars.next() {
        Some(c) => c == '.',
        None => false,
    }
}

/// What to do at the destination for one entry. A path is the list of names
/// below the destination root.
#[derive(PartialEq, Eq, Clone, Debug)]
pub enum Action {
    Skip,
    CreateDir(Vec<String>),
    CopyFile(Vec<String>),
}

/// An action as a mathematical value.
pub enum Step {
    Skip,
    CreateDir(Seq<Seq<char>>),
    CopyFile(Seq<Seq<char>>),
}

impl View for Action {
    type V = Step;

    open spec fn view(&self) -> Step {
        match self {
            Action::Skip => Step::Skip,
            Action::CreateDir(p) => Step::CreateDir(p.deep_view()),
            Action::CopyFile(p) => Step::CopyFile(p.deep_view()),
        }
    }
}

/// Why an entry of a listing cannot be mirrored.
#[derive(PartialEq, Eq, Structural, Clone, Copy, Debug)]
pub enum EntryFault {
    /// The name is not valid Unicode, so it cannot be told hidden or not.
    UnclassifiableName,
    /// The entry is deeper than one level below the directory last entered:
    /// the listing is not a pre-order walk of a tree.
    BrokenNesting,
}

/// Where a walk over a listing stands: the names of the directories from the
/// destination root down to the current one, and the depth of the hidden
/// entry whose subtree is being passed over, if any.
pub struct TraversalCursor {
    stack: Vec<String>,
    depth: usize,
    pruning: Option<usize>,
}

/// A cursor as a mathematical value.
pub struct CursorView {
    pub stack: Seq<Seq<char>>,
    pub pruning: Option<nat>,
}

/// The depth, counted in names below the destination root, of the directory
/// that holds an entry of depth `d`.
pub open spec fn parent_level(d: nat) -> nat {
    if d == 0 {
        0
    } else {
        (d - 1) as nat
    }
}

/// What visiting entry `e` does: the cursor after it, and the entry's step.
pub open spec fn visit_spec(c: CursorView, e: EntryView) -> (CursorView, Result<Step, EntryFault>) {
    if c.pruning is Some && e.depth > c.pruning->0 {
        (c, Ok(Step::Skip))
    } else {
        let cleared = CursorView { stack: c.stack, pruning: None };
        match e.name {
            None => (cleared, Err(EntryFault::UnclassifiableName)),
            Some(n) => if hidden_name(n) {
                (CursorView { stack: c.stack, pruning: Some(e.depth) }, Ok(Step::Skip))
            } else if e.depth > c.stack.len() + 1 {
                (cleared, Err(EntryFault::BrokenNesting))
            } else {
                let base = c.stack.take(parent_level(e.depth) as int);
                let path = base.push(n);
                if e.kind == EntryKind::Dir && e.depth > 0 {
                    (CursorView { stack: path, pruning: None }, Ok(Step::CreateDir(path)))
                } else if e.kind == EntryKind::File {
                    (CursorView { stack: base, pruning: None }, Ok(Step::CopyFile(path)))
                } else {
                    (CursorView { stack: base, pruning: None }, Ok(Step::Skip))
                }
            },
        }
    }
}

impl View for TraversalCursor {
    type V = CursorView;

    closed spec fn view(&self) -> CursorView {
        CursorView {
            stack: self.stack.deep_view(),
            pruning: match self.pruning {
                Some(p) => Some(p as nat),
                None => None,
            },
        }
    }
}

impl TraversalCursor {
    /// The stack holds one name per level of depth.
    pub closed spec fn wf(&self) -> bool {
        self.stack.len() == self.depth
    }

    /// A cursor at the source root: depth 0, nothing passed over.
    pub fn new() -> (r: TraversalCursor)
        ensures
            r.wf(),
            r@ == (CursorView { stack: Seq::empty(), pruning: None }),
    {
        let r = TraversalCursor { stack: Vec::new(), depth: 0, pruning: None };
        assert(r@.stack =~= Seq::<Seq<char>>::empty());
        r
    }

    /// Takes the next entry of the listing: brings the cursor back up to the
    /// entry's parent, and says what to do with the entry at the destination.
    pub fn visit(&mut self, entry: &Entry) -> (r: Result<Action, EntryFault>)
        requires
            old(self).wf(),
        ensures
            final(self).wf(),
            final(self)@ == visit_spec(old(self)@, entry@).0,
            match r {
                Ok(a) => visit_spec(old(self)@, entry@).1 == Ok::<Step, EntryFault>(a@),
                Err(f) => visit_spec(old(self)@, entry@).1 == Err::<Step, EntryFault>(f),
            },
    {
        broadcast use vstd::std_specs::vec::vec_clone_deep_view_proof;

        if let Some(p) = self.pruning {
            if entry.depth > p {
                return Ok(Action::Skip);
            }
        }
        self.pruning = None;
        let name = match &entry.name {
            Some(n) => n,
            None => {
                return Err(EntryFault::UnclassifiableName);
            },
        };
        if is_hidden(name.as_str()) {
            self.pruning = Some(entry.depth);
            return Ok(Action::Skip);
        }
        if entry.depth > 0 && entry.depth - 1 > self.depth {
            return Err(EntryFault::BrokenNesting);
        }
        let level: usize = if entry.depth == 0 {
            0
        } else {
            entry.depth - 1
        };
        let ghost start = self.stack@;
        while self.depth > level
            invariant
                self.wf(),
                level <= self.depth <= start.len(),
                self.stack@ == start.take(self.depth as int),
                self.pruning is None,
            decreases self.depth,
        {
            self.stack.pop();
            self.depth = self.depth - 1;
            assert(self.stack@ =~= start.take(self.depth as int));
        }
        assert(self.stack.deep_view() =~= old(self)@.stack.take(level as int));
        let mut path = self.stack.clone();
        path.push(name.clone());
        assert(path.deep_view() =~= self.stack.deep_view().push(name@));
        if entry.kind == EntryKind::Dir && entry.depth > 0 {
            self.stack.push(name.clone());
            self.depth = self.depth + 1;
            assert(self.stack.deep_view() =~= path.deep_view());
            Ok(Action::CreateDir(path))
        } else if entry.kind == EntryKind::File {
            Ok(Action::CopyFile(path))
        } else {
            Ok(Action::Skip)
        }
    }
}

/// Why a listing cannot be mirrored: the position of the first entry that
/// cannot be, and why.
#[derive(PartialEq, Eq, Structural, Clone, Copy, Debug)]
pub struct MirrorError {
    pub index: usize,
    pub fault: EntryFault,
}

/// The entries of a listing as mathematical values.
pub open spec fn entries_view(entries: Seq<Entry>) -> Seq<EntryView> {
    entries.map_values(|e: Entry| e@)
}

/// The actions of a plan as mathematical values.
pub open spec fn actions_view(actions: Seq<Action>) -> Seq<Step> {
    actions.map_values(|a: Action| a@)
}

/// Walking the first `n` entries of a listing with a fresh cursor: the cursor
/// afterwards, and the steps taken, or the position and kind of the first
/// fault.
pub open spec fn walk(es: Seq<EntryView>, n: nat) -> (CursorView, Result<Seq<Step>, (nat, EntryFault)>)
    decreases n,
{
    if n == 0 {
        (CursorView { stack: Seq::empty(), pruning: None }, Ok(Seq::empty()))
    } else {
        let (c, prev) = walk(es, (n - 1) as nat);
        match prev {
            Err(f) => (c, Err(f)),
            Ok(steps) => {
                let (next, r) = visit_spec(c, es[n - 1]);
                match r {
                    Ok(step) => (next, Ok(steps.push(step))),
                    Err(f) => (next, Err(((n - 1) as nat, f))),
                }
            },
        }
    }
}

/// The plan for a whole listing: one step per entry, or the first fault.
pub open spec fn plan_spec(es: Seq<EntryView>) -> Result<Seq<Step>, (nat, EntryFault)> {
    walk(es, es.len()).1
}

/// Once a walk has met a fault, walking further entries keeps it.
pub proof fn lemma_fault_persists(es: Seq<EntryView>, m: nat, n: nat)
    requires
        m <= n,
        walk(es, m).1 is Err,
    ensures
        walk(es, n).1 == walk(es, m).1,
    decreases n - m,
{
    if m < n {
        lemma_fault_persists(es, m, (n - 1) as nat);
    }
}

/// Plans the mirroring of a source tree, given as its depth-first, pre-order
/// listing: one action per entry. A hidden entry and everything below it are
/// skipped, whether or not the listing already left them out.
pub fn plan_mirror(entries: &Vec<Entry>) -> (r: Result<Vec<Action>, MirrorError>)
    ensures
        match r {
            Ok(actions) => plan_spec(entries_view(entries@)) == Ok::<Seq<Step>, (nat, EntryFault)>(
                actions_view(actions@),
            ),
            Err(e) => plan_spec(entries_view(entries@)) == Err::<Seq<Step>, (nat, EntryFault)>(
                (e.index as nat, e.fault),
            ),
        },
{
    let ghost es = entries_view(entries@);
    let mut cursor = TraversalCursor::new();
    let mut actions: Vec<Action> = Vec::new();
    let mut i: usize = 0;
    assert(actions_view(actions@) =~= Seq::<Step>::empty());
    while i < entries.len()
        invariant
            i <= entries.len(),
            es == entries_view(entries@),
            cursor.wf(),
            walk(es, i as nat).0 == cursor@,
            walk(es, i as nat).1 == Ok::<Seq<Step>, (nat, EntryFault)>(actions_view(actions@)),
        decreases entries.len() - i,
    {
        let ghost before = actions@;
        match cursor.visit(&entries[i]) {
            Ok(a) => {
                actions.push(a);
                assert(actions_view(actions@) =~= actions_view(before).push(a@));
            },
            Err(fault) => {
                proof {
                    lemma_fault_persists(es, (i + 1) as nat, es.len());
                }
                return Err(MirrorError { index: i, fault });
            },
        }
        i = i + 1;
    }
    assert(entries_view(entries@).len() == entries@.len());
    Ok(actions)
}

} // verus!
