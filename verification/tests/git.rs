use cargo_insert_docs::git::{
    check_version_control, finish, merge, relative_to_workdir, Candidate, EntryStatus, ResultKind,
    Status,
};

fn candidate(display: &str, status: Status, allow_staged: bool, allow_dirty: bool) -> Candidate {
    Candidate { display: display.to_string(), status, allow_staged, allow_dirty }
}

#[test]
fn statuses_in_words() {
    assert_eq!(Status::Current.to_string(), "current");
    assert_eq!(Status::Orphan.to_string(), "orphan");
    assert_eq!(Status::Staged.to_string(), "staged");
    assert_eq!(Status::Dirty.to_string(), "dirty");
    assert_eq!(Status::Ignored.to_string(), "ignored");
    assert_eq!(Status::Error("no luck".to_string()).to_string(), "error: no luck");
}

#[test]
fn statuses_of_entries() {
    assert_eq!(Status::from_entry_status(EntryStatus::Known), Status::Current);
    assert_eq!(Status::from_entry_status(EntryStatus::Untracked), Status::Dirty);
    assert_eq!(Status::from_entry_status(EntryStatus::Ignored), Status::Ignored);
    assert_eq!(Status::from_entry_status(EntryStatus::Pruned), Status::Error("pruned".to_string()));
}

#[test]
fn the_heavier_status_stays() {
    let mut status = None;
    merge(&mut status, Status::Staged);
    assert_eq!(status, Some(Status::Staged));
    merge(&mut status, Status::Current);
    assert_eq!(status, Some(Status::Staged));
    merge(&mut status, Status::Dirty);
    assert_eq!(status, Some(Status::Dirty));
    merge(&mut status, Status::Dirty);
    assert_eq!(status, Some(Status::Dirty));
    merge(&mut status, Status::Error("x".to_string()));
    assert_eq!(status, Some(Status::Error("x".to_string())));
    merge(&mut status, Status::Orphan);
    assert_eq!(status, Some(Status::Error("x".to_string())));
}

#[test]
fn statuses_come_in_the_order_of_the_paths() {
    let statuses = vec![Some(Status::Dirty), None, Some(Status::Current)];
    let results = vec![
        ResultKind::Status(2),
        ResultKind::Orphan,
        ResultKind::Status(1),
        ResultKind::Error("path does not exist".to_string()),
        ResultKind::Status(0),
        ResultKind::Status(7),
    ];
    assert_eq!(
        finish(results, &statuses),
        vec![
            Status::Current,
            Status::Orphan,
            Status::Error("unknown".to_string()),
            Status::Error("path does not exist".to_string()),
            Status::Dirty,
            Status::Error("unknown".to_string()),
        ]
    );
}

#[test]
fn patterns_for_a_repository() {
    assert_eq!(relative_to_workdir("src/lib.rs"), ":(top,literal)src/lib.rs");
}

#[test]
fn clean_files_pass() {
    let files = vec![
        candidate("src/lib.rs", Status::Current, false, false),
        candidate("README.md", Status::Orphan, false, false),
        candidate("a", Status::Ignored, false, false),
    ];
    assert_eq!(check_version_control(&files), Ok(()));
    assert_eq!(check_version_control(&Vec::new()), Ok(()));
}

#[test]
fn allowed_changes_pass() {
    let files = vec![
        candidate("src/lib.rs", Status::Dirty, false, true),
        candidate("README.md", Status::Staged, true, false),
        candidate("other.md", Status::Staged, false, true),
    ];
    assert_eq!(check_version_control(&files), Ok(()));
}

#[test]
fn uncommitted_changes_are_listed() {
    let files = vec![
        candidate("README.md", Status::Staged, false, false),
        candidate("src/lib.rs", Status::Dirty, false, false),
        candidate("docs.md", Status::Dirty, true, false),
        candidate("fine.md", Status::Current, false, false),
    ];
    let expected = "the working directory of this package has uncommitted changes, and \n\
        `cargo fix` can potentially perform destructive changes; if you'd \n\
        like to suppress this error pass `--allow-dirty`, \n\
        or commit the changes to these files:\n\
        \n\
        \x20 * src/lib.rs (dirty)\n\
        \x20 * docs.md (dirty)\n\
        \x20 * README.md (staged)\n\
        \n";
    assert_eq!(check_version_control(&files), Err(expected.to_string()));
}
