use crater_fs::replace::{mirror_ops, FsOp};
use crater_fs::mirror::{
    is_hidden, plan_mirror, Action, Entry, EntryFault, EntryKind, MirrorError, TraversalCursor,
};

fn dir(name: &str, depth: usize) -> Entry {
    Entry { name: Some(name.to_string()), depth, kind: EntryKind::Dir }
}

fn file(name: &str, depth: usize) -> Entry {
    Entry { name: Some(name.to_string()), depth, kind: EntryKind::File }
}

fn path(names: &[&str]) -> Vec<String> {
    names.iter().map(|n| n.to_string()).collect()
}

fn created(actions: &[Action]) -> Vec<Vec<String>> {
    let mut out = Vec::new();
    for a in actions {
        match a {
            Action::CreateDir(p) | Action::CopyFile(p) => out.push(p.clone()),
            Action::Skip => {}
        }
    }
    out
}

#[test]
fn hidden_names() {
    assert!(is_hidden(".git"));
    assert!(is_hidden("."));
    assert!(!is_hidden("src"));
    assert!(!is_hidden("a.b"));
    assert!(!is_hidden(""));
}

#[test]
fn hidden_subtree_is_left_out() {
    // a/.hidden/x.txt, a/keep/y.txt, a/z.txt
    let entries = vec![
        dir("a", 0),
        dir(".hidden", 1),
        file("x.txt", 2),
        dir("keep", 1),
        file("y.txt", 2),
        file("z.txt", 1),
    ];
    let actions = plan_mirror(&entries).unwrap();
    assert_eq!(
        actions,
        vec![
            Action::Skip,
            Action::Skip,
            Action::Skip,
            Action::CreateDir(path(&["keep"])),
            Action::CopyFile(path(&["keep", "y.txt"])),
            Action::CopyFile(path(&["z.txt"])),
        ]
    );
    for p in created(&actions) {
        assert!(p[0] != ".hidden");
    }
}

#[test]
fn only_the_source_reaches_the_destination() {
    let entries = vec![dir("src", 0), file("new.txt", 1)];
    let actions = plan_mirror(&entries).unwrap();
    assert_eq!(created(&actions), vec![path(&["new.txt"])]);
}

#[test]
fn hidden_file_is_skipped() {
    let entries = vec![dir("src", 0), file(".gitignore", 1), file("lib.rs", 1)];
    let actions = plan_mirror(&entries).unwrap();
    assert_eq!(actions, vec![Action::Skip, Action::Skip, Action::CopyFile(path(&["lib.rs"]))]);
}

#[test]
fn deep_tree_paths_follow_ancestors() {
    let entries = vec![
        dir("root", 0),
        dir("a", 1),
        dir("b", 2),
        file("f1", 3),
        dir("c", 2),
        file("f2", 3),
        file("f3", 1),
        dir("d", 1),
        dir(".e", 2),
        dir("g", 3),
        file("f4", 4),
        file("f5", 2),
    ];
    let actions = plan_mirror(&entries).unwrap();
    assert_eq!(
        created(&actions),
        vec![
            path(&["a"]),
            path(&["a", "b"]),
            path(&["a", "b", "f1"]),
            path(&["a", "c"]),
            path(&["a", "c", "f2"]),
            path(&["f3"]),
            path(&["d"]),
            path(&["d", "f5"]),
        ]
    );
}

#[test]
fn empty_source_plans_nothing() {
    let entries = vec![dir("src", 0)];
    assert_eq!(plan_mirror(&entries).unwrap(), vec![Action::Skip]);
    let none: Vec<Entry> = Vec::new();
    assert_eq!(plan_mirror(&none).unwrap(), Vec::<Action>::new());
}

#[test]
fn source_that_is_a_file_is_copied_by_name() {
    let entries = vec![file("one.txt", 0)];
    assert_eq!(plan_mirror(&entries).unwrap(), vec![Action::CopyFile(path(&["one.txt"]))]);
}

#[test]
fn hidden_root_copies_nothing() {
    let entries = vec![dir(".src", 0), file("x", 1), dir("y", 1)];
    assert_eq!(plan_mirror(&entries).unwrap(), vec![Action::Skip, Action::Skip, Action::Skip]);
}

#[test]
fn other_kinds_are_skipped() {
    let entries = vec![
        dir("src", 0),
        Entry { name: Some("link".to_string()), depth: 1, kind: EntryKind::Other },
        file("f", 1),
    ];
    assert_eq!(
        plan_mirror(&entries).unwrap(),
        vec![Action::Skip, Action::Skip, Action::CopyFile(path(&["f"]))]
    );
}

#[test]
fn unnamed_entry_is_refused() {
    let entries = vec![dir("src", 0), file("ok", 1), Entry { name: None, depth: 1, kind: EntryKind::File }];
    assert_eq!(
        plan_mirror(&entries),
        Err(MirrorError { index: 2, fault: EntryFault::UnclassifiableName })
    );
}

#[test]
fn unnamed_entry_under_hidden_dir_is_passed_over() {
    let entries = vec![dir("src", 0), dir(".git", 1), Entry { name: None, depth: 2, kind: EntryKind::File }];
    assert_eq!(plan_mirror(&entries).unwrap(), vec![Action::Skip, Action::Skip, Action::Skip]);
}

#[test]
fn broken_nesting_is_refused() {
    let entries = vec![dir("src", 0), file("f", 1), file("g", 3)];
    assert_eq!(
        plan_mirror(&entries),
        Err(MirrorError { index: 2, fault: EntryFault::BrokenNesting })
    );
    let under_file = vec![dir("src", 0), file("f", 1), file("g", 2)];
    assert_eq!(
        plan_mirror(&under_file),
        Err(MirrorError { index: 2, fault: EntryFault::BrokenNesting })
    );
}

#[test]
fn cursor_steps_one_entry_at_a_time() {
    let mut cursor = TraversalCursor::new();
    assert_eq!(cursor.visit(&dir("src", 0)), Ok(Action::Skip));
    assert_eq!(cursor.visit(&dir("a", 1)), Ok(Action::CreateDir(path(&["a"]))));
    assert_eq!(cursor.visit(&file("x", 2)), Ok(Action::CopyFile(path(&["a", "x"]))));
    assert_eq!(cursor.visit(&file("y", 1)), Ok(Action::CopyFile(path(&["y"]))));
}

#[test]
fn planning_twice_gives_the_same_plan() {
    let entries = vec![dir("a", 0), dir("k", 1), file("y", 2), file("z", 1)];
    assert_eq!(plan_mirror(&entries), plan_mirror(&entries));
}

#[test]
fn existing_destination_is_erased_first() {
    // the destination held stale.txt; the source holds only new.txt
    let entries = vec![dir("src", 0), file("new.txt", 1)];
    assert_eq!(
        mirror_ops(true, &entries).unwrap(),
        vec![
            FsOp::RemoveDest,
            FsOp::CreateDest,
            FsOp::Apply { index: 0, action: Action::Skip },
            FsOp::Apply { index: 1, action: Action::CopyFile(path(&["new.txt"])) },
        ]
    );
}

#[test]
fn absent_destination_is_only_created() {
    let entries = vec![dir("src", 0)];
    assert_eq!(
        mirror_ops(false, &entries).unwrap(),
        vec![FsOp::CreateDest, FsOp::Apply { index: 0, action: Action::Skip }]
    );
}

#[test]
fn faulty_listing_gives_no_operations() {
    let entries = vec![dir("src", 0), file("a", 2)];
    assert_eq!(
        mirror_ops(true, &entries),
        Err(MirrorError { index: 1, fault: EntryFault::BrokenNesting })
    );
}

#[test]
fn mirroring_twice_takes_the_same_steps_after_the_erase() {
    let entries = vec![dir("a", 0), dir(".hidden", 1), file("x.txt", 2), dir("keep", 1), file("y.txt", 2)];
    let first = mirror_ops(false, &entries).unwrap();
    let second = mirror_ops(true, &entries).unwrap();
    assert_eq!(second[0], FsOp::RemoveDest);
    assert_eq!(&second[1..], &first[..]);
}
