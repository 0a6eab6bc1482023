use upxto::compare::{compare_indexes, ChangeKind};
use upxto::deploy::{
    after_removal, apply_changes, change_report, copy_changes_quiet, remove_empty_parents,
    RemovalOutcome, RemovalStep, UpdateStep,
};
use upxto::error::UpxtoError;
use upxto::index::{canonical_dir, index_folder, relative_path, FileEntry, FileIndex, FoundFile};
use upxto::panel::FileKind;
use upxto::state::{ensure_indexes, load_state, sanitize_project_name, State};
use upxto::store::{
    file_rows, load_project_state, path_to_db_string, project_key, project_row, FileRow, ProjectRow,
};
use upxto::walk::{copy_target, should_skip_dir, Walk, WalkStep};

fn index(files: &[(&str, u64, u64)]) -> FileIndex {
    let mut index = FileIndex::new();
    for (path, size, hash) in files {
        index.insert(path.to_string(), FileEntry { size: *size, hash: *hash });
    }
    index
}

fn project(fresh: &[(&str, u64, u64)], production: &[(&str, u64, u64)]) -> State {
    State {
        project_name: None,
        left_dir: None,
        right_dir: None,
        production_root: Some("/srv/app".to_string()),
        fresh_root: Some("/tmp/new".to_string()),
        production: index(production),
        fresh: index(fresh),
    }
}

fn found(path: &str, size: u64, hash: u64) -> FoundFile {
    FoundFile { path: path.to_string(), entry: FileEntry { size, hash } }
}

#[test]
fn index_holds_the_last_entry_of_each_path_in_order() {
    let files = index(&[("b", 1, 1), ("a", 2, 2), ("b", 3, 3), ("a/c", 4, 4)]);
    assert_eq!(files.len(), 3);
    assert_eq!(files.path_at(0), "a");
    assert_eq!(files.path_at(1), "a/c");
    assert_eq!(files.path_at(2), "b");
    assert_eq!(files.get("b"), Some(FileEntry { size: 3, hash: 3 }));
    assert_eq!(files.entry_at(0), FileEntry { size: 2, hash: 2 });
    assert_eq!(files.get("c"), None);
    let copy = files.duplicate();
    assert_eq!(copy.len(), 3);
    assert_eq!(copy.get("a/c"), Some(FileEntry { size: 4, hash: 4 }));
}

#[test]
fn folder_is_indexed_by_relative_path() {
    let files = [found("/srv/app/x/y.txt", 5, 7), found("/srv/app/a", 1, 2)];
    let indexed = index_folder("/srv/app", &files).unwrap();
    assert_eq!(indexed.len(), 2);
    assert_eq!(indexed.path_at(0), "a");
    assert_eq!(indexed.path_at(1), "x/y.txt");
    assert_eq!(indexed.get("x/y.txt"), Some(FileEntry { size: 5, hash: 7 }));
}

#[test]
fn file_outside_the_folder_is_refused() {
    let error = index_folder("/srv/app", &[found("/etc/passwd", 1, 1)]).unwrap_err();
    assert!(matches!(error, UpxtoError::OutsideRoot));
    assert_eq!(error.message(), "prefix not found");
    assert!(matches!(relative_path("/srv", "/etc"), Err(UpxtoError::OutsideRoot)));
    assert_eq!(relative_path("/srv", "/srv/a/b").unwrap(), "a/b");
}

#[test]
fn only_folders_are_accepted_as_roots() {
    assert_eq!(canonical_dir("/srv".to_string(), true).unwrap(), "/srv");
    let error = canonical_dir("/srv/file".to_string(), false).unwrap_err();
    assert_eq!(error.message(), "not a directory: /srv/file");
}

#[test]
fn comparison_follows_the_rules() {
    let state = project(
        &[("new", 1, 1), ("same", 2, 2), ("size", 3, 3), ("hash", 4, 4)],
        &[("same", 2, 2), ("size", 9, 3), ("hash", 4, 9), ("gone", 5, 5)],
    );
    let kept: Vec<(String, ChangeKind)> =
        compare_indexes(&state, false).into_iter().map(|change| (change.path, change.kind)).collect();
    assert_eq!(
        kept,
        vec![
            ("hash".to_string(), ChangeKind::Updated),
            ("new".to_string(), ChangeKind::New),
            ("size".to_string(), ChangeKind::Updated),
        ]
    );
    let all: Vec<(String, ChangeKind)> =
        compare_indexes(&state, true).into_iter().map(|change| (change.path, change.kind)).collect();
    assert_eq!(
        all,
        vec![
            ("gone".to_string(), ChangeKind::Deleted),
            ("hash".to_string(), ChangeKind::Updated),
            ("new".to_string(), ChangeKind::New),
            ("size".to_string(), ChangeKind::Updated),
        ]
    );
}

#[test]
fn change_list_does_not_depend_on_the_order_of_indexing() {
    let first = project(&[("a", 1, 1), ("b", 2, 2), ("c", 3, 3)], &[]);
    let second = project(&[("c", 3, 3), ("a", 1, 1), ("b", 2, 2)], &[]);
    let paths = |state: &State| -> Vec<String> {
        compare_indexes(state, true).into_iter().map(|change| change.path).collect()
    };
    assert_eq!(paths(&first), paths(&second));
    assert_eq!(paths(&first), vec!["a", "b", "c"]);
}

#[test]
fn report_lists_changes_and_counts_them() {
    let state = project(&[("new", 1, 1), ("up", 3, 3)], &[("up", 9, 3), ("gone", 5, 5)]);
    let changes = compare_indexes(&state, true);
    assert_eq!(
        change_report(&changes),
        vec![
            "DELETE  gone",
            "NEW     new",
            "UPDATE  up",
            "\nSummary: 1 new, 1 updated, 1 deleted",
        ]
    );
    assert_eq!(change_report(&[]), vec!["No new or updated files found."]);
}

fn shown(steps: &[UpdateStep]) -> Vec<String> {
    steps
        .iter()
        .map(|step| match step {
            UpdateStep::Say(line) => format!("say {line}"),
            UpdateStep::Copy { source, target } => format!("copy {source} {target}"),
            UpdateStep::Remove { target } => format!("remove {target}"),
        })
        .collect()
}

#[test]
fn update_copies_and_removes() {
    let state = project(&[("d/new", 1, 1), ("up", 3, 3)], &[("up", 9, 3), ("gone", 5, 5)]);
    let changes = compare_indexes(&state, true);
    assert_eq!(
        shown(&apply_changes(&changes, "/srv/app", "/tmp/new", true, false)),
        vec![
            "say COPY       d/new",
            "copy /tmp/new/d/new /srv/app/d/new",
            "say DELETE     gone",
            "remove /srv/app/gone",
            "say COPY       up",
            "copy /tmp/new/up /srv/app/up",
        ]
    );
}

#[test]
fn dry_run_only_reports() {
    let state = project(&[("new", 1, 1)], &[("gone", 5, 5)]);
    let changes = compare_indexes(&state, true);
    assert_eq!(
        shown(&apply_changes(&changes, "/srv/app", "/tmp/new", true, true)),
        vec!["say WOULD DEL  gone", "say WOULD COPY new"]
    );
}

#[test]
fn nothing_is_removed_unless_asked_for() {
    let state = project(&[("new", 1, 1)], &[("gone", 5, 5)]);
    let changes = compare_indexes(&state, true);
    assert_eq!(
        shown(&apply_changes(&changes, "/srv/app", "/tmp/new", false, false)),
        vec!["say COPY       new", "copy /tmp/new/new /srv/app/new"]
    );
    assert_eq!(shown(&apply_changes(&[], "/p", "/f", true, false)), vec!["say Nothing to update."]);
}

#[test]
fn quiet_copies_leave_out_deletions() {
    let state = project(&[("new", 1, 1), ("up", 3, 3)], &[("up", 9, 3), ("gone", 5, 5)]);
    let changes = compare_indexes(&state, true);
    assert_eq!(
        shown(&copy_changes_quiet(&changes, "/srv/app", "/tmp/new")),
        vec!["copy /tmp/new/new /srv/app/new", "copy /tmp/new/up /srv/app/up"]
    );
}

#[test]
fn update_brings_production_up_to_date() {
    let mut state = project(&[("new", 1, 1), ("up", 3, 3)], &[("up", 9, 3), ("gone", 5, 5)]);
    let changes = compare_indexes(&state, false);
    for step in copy_changes_quiet(&changes, "/srv/app", "/tmp/new") {
        if let UpdateStep::Copy { source, target } = step {
            let from = relative_path("/tmp/new", &source).unwrap();
            let to = relative_path("/srv/app", &target).unwrap();
            let entry = state.fresh.get(&from).unwrap();
            state.production.insert(to, entry);
        }
    }
    assert!(compare_indexes(&state, false).is_empty());
    assert_eq!(state.production.get("gone"), Some(FileEntry { size: 5, hash: 5 }));
}

#[test]
fn empty_folders_are_removed_up_to_the_root() {
    let stop = "/srv/app";
    let step = remove_empty_parents(Some("/srv/app/a/b".to_string()), stop);
    assert!(matches!(&step, RemovalStep::Try(folder) if folder == "/srv/app/a/b"));
    let step = after_removal("/srv/app/a/b", RemovalOutcome::Removed, stop);
    assert!(matches!(&step, RemovalStep::Try(folder) if folder == "/srv/app/a"));
    assert!(matches!(after_removal("/srv/app/a", RemovalOutcome::Removed, stop), RemovalStep::Done));
    assert!(matches!(after_removal("/srv/app/a", RemovalOutcome::NotEmpty, stop), RemovalStep::Done));
    assert!(matches!(after_removal("/srv/app/a", RemovalOutcome::NotFound, stop), RemovalStep::Done));
    assert!(matches!(after_removal("/srv/app/a", RemovalOutcome::Failed, stop), RemovalStep::Fail));
    assert!(matches!(
        remove_empty_parents(Some("/srv/app/".to_string()), stop),
        RemovalStep::Done
    ));
    assert!(matches!(remove_empty_parents(None, stop), RemovalStep::Done));
}

#[test]
fn both_folders_must_be_indexed() {
    let mut state = State::default();
    assert_eq!(
        ensure_indexes(&state).unwrap_err().message(),
        "production is not indexed yet; run --index-production <folder>"
    );
    state.production_root = Some("/srv/app".to_string());
    assert_eq!(
        ensure_indexes(&state).unwrap_err().message(),
        "fresh folder is not indexed yet; run --index-fresh <folder>"
    );
    state.fresh_root = Some("/tmp/new".to_string());
    assert!(ensure_indexes(&state).is_ok());
}

#[test]
fn project_names_are_made_safe() {
    assert_eq!(sanitize_project_name("my app/2.0"), "my_app_2_0");
    assert_eq!(sanitize_project_name("ok-Name_7"), "ok-Name_7");
    assert_eq!(sanitize_project_name("äb"), "_b");
    assert_eq!(sanitize_project_name(""), "default");
    assert_eq!(sanitize_project_name(&sanitize_project_name("a b")), "a_b");
}

#[test]
fn missing_project_starts_empty() {
    let state = load_state(None);
    assert_eq!(state.project_name, None);
    assert_eq!(state.fresh.len(), 0);
    let state = load_state(Some(project(&[("a", 1, 1)], &[])));
    assert_eq!(state.fresh.len(), 1);
    let copy = state.clone_for_project();
    assert_eq!(copy.fresh_root, Some("/tmp/new".to_string()));
    assert_eq!(copy.fresh.len(), 1);
}

#[test]
fn saved_project_loads_back() {
    let mut state = project(&[("b", 1, u64::MAX), ("a", 2, 5)], &[("c", i64::MAX as u64, 1 << 63)]);
    state.project_name = Some("shop".to_string());
    state.left_dir = Some("/tmp".to_string());
    assert_eq!(project_key(&state), "shop");
    let row = project_row(&state);
    let rows = file_rows(&state).unwrap();
    assert_eq!(rows.len(), 3);
    assert_eq!(rows[0].side, "production");
    assert_eq!(rows[0].hash, i64::MIN);
    assert_eq!(rows[1].rel_path, "a");
    assert_eq!(rows[2].hash, -1);
    let loaded = load_project_state("shop", Some(row), &rows).unwrap().unwrap();
    assert_eq!(loaded.project_name, Some("shop".to_string()));
    assert_eq!(loaded.left_dir, Some("/tmp".to_string()));
    assert_eq!(loaded.right_dir, None);
    assert_eq!(loaded.production_root, Some("/srv/app".to_string()));
    assert_eq!(loaded.fresh_root, Some("/tmp/new".to_string()));
    assert_eq!(loaded.fresh.len(), 2);
    assert_eq!(loaded.fresh.get("b"), Some(FileEntry { size: 1, hash: u64::MAX }));
    assert_eq!(
        loaded.production.get("c"),
        Some(FileEntry { size: i64::MAX as u64, hash: 1 << 63 })
    );
}

#[test]
fn sizes_that_do_not_fit_are_refused() {
    let state = project(&[("a", 1 << 63, 1)], &[]);
    let error = file_rows(&state).unwrap_err();
    assert_eq!(error.message(), "out of range integral type conversion attempted");
    let row = || ProjectRow {
        left_dir: None,
        right_dir: None,
        production_root: None,
        fresh_root: None,
    };
    let rows = [FileRow {
        side: "fresh".to_string(),
        rel_path: "a".to_string(),
        size: -1,
        hash: 0,
    }];
    assert!(matches!(
        load_project_state("x", Some(row()), &rows),
        Err(UpxtoError::SizeOutOfRange)
    ));
    assert!(load_project_state("x", None, &rows).unwrap().is_none());
}

#[test]
fn records_of_unknown_sides_are_passed_over() {
    let rows = [
        FileRow { side: "other".to_string(), rel_path: "a".to_string(), size: 1, hash: 1 },
        FileRow { side: "fresh".to_string(), rel_path: "b".to_string(), size: 1, hash: 1 },
    ];
    let row = ProjectRow {
        left_dir: None,
        right_dir: Some("/r".to_string()),
        production_root: None,
        fresh_root: None,
    };
    let state = load_project_state("x", Some(row), &rows).unwrap().unwrap();
    assert_eq!(state.production.len(), 0);
    assert_eq!(state.fresh.len(), 1);
    assert_eq!(state.right_dir, Some("/r".to_string()));
    assert_eq!(project_key(&State::default()), "default");
    assert_eq!(path_to_db_string(Some(&"/a".to_string())), Some("/a".to_string()));
    assert_eq!(path_to_db_string(None), None);
}

#[test]
fn cache_and_build_folders_are_skipped() {
    for name in [
        ".git",
        ".upxto",
        "__pycache__",
        ".pytest_cache",
        ".mypy_cache",
        "node_modules",
        "target",
        "venv",
        ".venv",
    ] {
        assert!(should_skip_dir(name));
    }
    assert!(!should_skip_dir("src"));
    assert!(!should_skip_dir("Target"));
}

/// Walks through a tree that is given by its paths; a path that ends with `/` is a folder.
fn walked(skip_excluded: bool, tree: &[&str]) -> Vec<String> {
    let names = |folder: &str| -> Vec<String> {
        tree.iter()
            .filter_map(|path| path.strip_prefix(folder))
            .map(|rest| rest.trim_end_matches('/'))
            .filter(|rest| !rest.is_empty() && !rest.contains('/'))
            .map(|rest| rest.to_string())
            .collect()
    };
    let mut walk = Walk::new(skip_excluded);
    walk.add_folder("/r", &names("/r/"));
    let mut visited = Vec::new();
    while let Some(item) = walk.next() {
        let folder = format!("{}/", item.path);
        let kind = if tree.contains(&folder.as_str()) {
            FileKind::Folder
        } else if item.name.starts_with("link") {
            FileKind::Other
        } else {
            FileKind::File
        };
        match walk.decide(&item, kind) {
            WalkStep::Descend => walk.add_folder(&item.path, &names(&folder)),
            WalkStep::Visit => visited.push(item.path),
            WalkStep::Pass => {}
        }
    }
    visited
}

#[test]
fn walk_visits_every_file_in_order() {
    let tree =
        ["/r/z", "/r/b/", "/r/b/y", "/r/b/c/", "/r/b/c/x", "/r/a", "/r/link", "/r/.git/", "/r/.git/h"];
    assert_eq!(walked(true, &tree), vec!["/r/a", "/r/b/c/x", "/r/b/y", "/r/z"]);
    assert_eq!(walked(false, &tree), vec!["/r/.git/h", "/r/a", "/r/b/c/x", "/r/b/y", "/r/z"]);
}

#[test]
fn walk_enters_every_folder() {
    let folders = ["/r", "/r/empty", "/r/d", "/r/d/inner", "/r/.git"];
    let names = |folder: &str| -> Vec<String> {
        let inside = format!("{folder}/");
        folders
            .iter()
            .filter_map(|path| path.strip_prefix(&inside))
            .filter(|name| !name.contains('/'))
            .map(|name| name.to_string())
            .collect()
    };
    let entered = |skip_excluded: bool| {
        let mut walk = Walk::new(skip_excluded);
        walk.add_folder("/r", &names("/r"));
        let mut entered = Vec::new();
        while let Some(item) = walk.next() {
            if walk.decide(&item, FileKind::Folder) == WalkStep::Descend {
                walk.add_folder(&item.path, &names(&item.path));
                entered.push(item.path);
            }
        }
        entered
    };
    assert_eq!(entered(false), vec!["/r/.git", "/r/d", "/r/d/inner", "/r/empty"]);
    assert_eq!(entered(true), vec!["/r/d", "/r/d/inner", "/r/empty"]);
}

#[test]
fn walk_orders_paths_by_their_components() {
    let tree = ["/r/a.txt", "/r/a/", "/r/a/z", "/r/a-b", "/r/venv/", "/r/venv/x"];
    assert_eq!(walked(true, &tree), vec!["/r/a/z", "/r/a-b", "/r/a.txt"]);
    assert!(walked(true, &[]).is_empty());
}

#[test]
fn copies_keep_relative_paths() {
    let target = copy_target("/srv/app", "/backup/p", "/srv/app/a/b").unwrap();
    assert_eq!(target, "/backup/p/a/b");
    assert_eq!(
        relative_path("/backup/p", &target).unwrap(),
        relative_path("/srv/app", "/srv/app/a/b").unwrap()
    );
    assert!(matches!(copy_target("/srv/app", "/backup", "/etc"), Err(UpxtoError::OutsideRoot)));
}

#[test]
fn only_changed_files_are_copied() {
    let state = project(&[("same", 1, 1), ("new", 2, 2)], &[("same", 1, 1), ("gone", 3, 3)]);
    let changes = compare_indexes(&state, true);
    for step in apply_changes(&changes, "/srv/app", "/tmp/new", true, false) {
        if let UpdateStep::Copy { source, .. } = step {
            assert_eq!(source, "/tmp/new/new");
        }
    }
}

#[test]
fn index_holds_exactly_the_found_files() {
    let files = [found("/r/b", 1, 1), found("/r/a/c", 2, 2), found("/r/a/b", 3, 3)];
    let indexed = index_folder("/r", &files).unwrap();
    let paths: Vec<&String> = (0..indexed.len()).map(|i| indexed.path_at(i)).collect();
    assert_eq!(paths, vec!["a/b", "a/c", "b"]);
    for file in &files {
        let relative = relative_path("/r", &file.path).unwrap();
        assert_eq!(indexed.get(&relative), Some(file.entry));
    }
}
