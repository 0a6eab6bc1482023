use upxto::args::{help_text, next_path, no_actions, parse_args, plan_stages, refreshes_index, Config, Stage};
use upxto::deploy::UpdateStep;
use upxto::error::UpxtoError;
use upxto::index::{FileEntry, FileIndex};
use upxto::panel::{ActivePanel, BrowserPanel, FileStatus, FsEntry, TuiRow};
use upxto::path::{parent_path, path_components};
use upxto::session::{
    cursor_move, open_project, prompt_project, prompt_start, prompt_text, run_about_view,
    run_diff_view, run_help_view, select_project_from_list, start_folder, Action, DiffAction, Key,
    KeyPress, ListAction, PromptAction, Session, TextAction,
};
use upxto::state::State;
use upxto::workflow::{
    backed_up_report, backup_production, backup_production_from_tui, backup_report, copied_report,
    copy_selected_new_file, default_backup_dir, deploy_updates_from_tui, deployed_report,
    failure_report, folder_report, index_fresh, index_left_as_fresh, index_production,
    index_right_as_production, mkdir_in_active_panel, progress_text, refresh_production,
    refreshes_panels, reindex_existing_roots, show_changes, timestamp, update_production, CopyPlan, FolderPlan, Scan,
    Task,
};

fn arguments(items: &[&str]) -> Vec<String> {
    items.iter().map(|item| item.to_string()).collect()
}

fn parsed(items: &[&str]) -> Result<Config, UpxtoError> {
    parse_args(&arguments(items))
}

fn index(files: &[(&str, u64, u64)]) -> FileIndex {
    let mut index = FileIndex::new();
    for (path, size, hash) in files {
        index.insert(path.to_string(), FileEntry { size: *size, hash: *hash });
    }
    index
}

fn project() -> State {
    State {
        project_name: Some("shop".to_string()),
        left_dir: None,
        right_dir: None,
        production_root: Some("/srv/app".to_string()),
        fresh_root: Some("/tmp/new".to_string()),
        production: index(&[("same", 1, 1), ("up", 2, 2), ("gone", 3, 3)]),
        fresh: index(&[("same", 1, 1), ("up", 2, 9), ("new", 4, 4)]),
    }
}

fn press(key: Key) -> KeyPress {
    KeyPress { key, control: false }
}

fn control(ch: char) -> KeyPress {
    KeyPress { key: Key::Char(ch), control: true }
}

fn entry(path: &str, is_dir: bool) -> FsEntry {
    FsEntry { name: path.to_string(), path: path.to_string(), is_dir }
}

fn session() -> Session {
    let left = BrowserPanel::new(
        "/tmp/new".to_string(),
        vec![
            entry("/tmp/new/d", true),
            entry("/tmp/new/new", false),
            entry("/tmp/new/same", false),
            entry("/tmp/new/up", false),
        ],
    );
    let right = BrowserPanel::new("/".to_string(), vec![entry("/srv", true)]);
    Session::new(left, right)
}

#[test]
fn empty_command_line_asks_for_nothing() {
    let config = parsed(&[]).unwrap();
    assert_eq!(config.state_file, ".upxto/upxto.db");
    assert!(no_actions(&config));
    assert!(matches!(plan_stages(&config)[..], [Stage::Help]));
    assert_eq!(Config::default().state_file, "");
}

#[test]
fn all_options_are_read() {
    let config = parsed(&[
        "--index-production", "/srv/app", "--index-fresh", "/tmp/new", "--show-changes", "--tui",
        "--backup-production", "--update-production", "--dry-run", "--delete-missing", "--state",
        "x.db", "--backup-dir", "/backups", "-h",
    ])
    .unwrap();
    assert_eq!(config.index_production, Some("/srv/app".to_string()));
    assert_eq!(config.index_fresh, Some("/tmp/new".to_string()));
    assert!(config.show_changes && config.tui && config.backup_production);
    assert!(config.update_production && config.dry_run && config.delete_missing && config.help);
    assert_eq!(config.state_file, "x.db");
    assert_eq!(config.backup_dir, Some("/backups".to_string()));
    assert!(matches!(plan_stages(&config)[..], [Stage::Help]));
}

#[test]
fn aliases_mean_the_same() {
    assert!(parsed(&["--apply"]).unwrap().update_production);
    assert!(parsed(&["--help"]).unwrap().help);
    let config = parsed(&["--state", "a", "--state", "b"]).unwrap();
    assert_eq!(config.state_file, "b");
    let config = parsed(&["--index-fresh", "--tui"]).unwrap();
    assert_eq!(config.index_fresh, Some("--tui".to_string()));
    assert!(!config.tui);
}

#[test]
fn mistakes_on_the_command_line_are_reported() {
    assert_eq!(parsed(&["--nope", "--tui"]).unwrap_err().message(), "unknown argument: --nope");
    for option in ["--index-production", "--index-fresh", "--state", "--backup-dir"] {
        assert_eq!(
            parsed(&["--tui", option]).unwrap_err().message(),
            format!("{option} requires a folder or file path")
        );
    }
    assert!(matches!(parsed(&["--state"]), Err(UpxtoError::MissingValue(_))));
    assert!(matches!(parsed(&["x", "--state"]), Err(UpxtoError::UnknownArgument(_))));
    assert_eq!(next_path(&arguments(&["a", "b"]), 1, "--state").unwrap(), "b");
    assert!(next_path(&arguments(&["a"]), 1, "--state").is_err());
}

#[test]
fn stages_come_in_order() {
    let config = parsed(&[
        "--update-production", "--backup-production", "--tui", "--show-changes", "--index-fresh",
        "f", "--index-production", "p",
    ])
    .unwrap();
    let stages = plan_stages(&config);
    assert!(matches!(&stages[0], Stage::IndexProduction(folder) if folder == "p"));
    assert!(matches!(&stages[1], Stage::IndexFresh(folder) if folder == "f"));
    assert!(matches!(
        stages[2..],
        [Stage::ShowChanges, Stage::Tui, Stage::BackupProduction, Stage::UpdateProduction]
    ));
    assert!(matches!(plan_stages(&parsed(&["--dry-run"]).unwrap())[..], [Stage::Help]));
    assert!(matches!(plan_stages(&parsed(&["--tui"]).unwrap())[..], [Stage::Tui]));
}

#[test]
fn dry_run_refreshes_nothing() {
    assert!(refreshes_index(&parsed(&["--apply"]).unwrap()));
    assert!(!refreshes_index(&parsed(&["--dry-run", "--apply"]).unwrap()));
}

#[test]
fn help_names_every_option() {
    let text = help_text();
    assert!(text.starts_with("UPXTO - compare and update a production folder from a fresh folder\n\nUsage:\n"));
    assert!(text.ends_with("  target, venv, .venv\n"));
    for option in ["--tui", "--apply", "--dry-run", "--delete-missing", "--state", "--backup-dir"] {
        assert!(text.contains(option));
    }
}

#[test]
fn keys_move_cursors() {
    assert!(cursor_move(Key::Up).is_some());
    assert!(cursor_move(Key::Tab).is_none());
    let mut place: usize = 0;
    assert_eq!(run_diff_view(Key::End, &mut place, 30), DiffAction::Stay);
    assert_eq!(place, 29);
    assert_eq!(run_diff_view(Key::PageUp, &mut place, 30), DiffAction::Stay);
    assert_eq!(place, 19);
    assert_eq!(run_diff_view(Key::F(3), &mut place, 30), DiffAction::Close);
    assert_eq!(run_diff_view(Key::Char('q'), &mut place, 30), DiffAction::Close);
    assert_eq!(run_diff_view(Key::Esc, &mut place, 30), DiffAction::Close);
    assert_eq!(run_diff_view(Key::F(1), &mut place, 30), DiffAction::Help);
    assert_eq!(run_diff_view(Key::F(7), &mut place, 30), DiffAction::About);
    assert_eq!(place, 19);
}

#[test]
fn pages_are_left_by_their_keys() {
    assert!(run_help_view(Key::F(1)) && run_help_view(Key::Esc) && run_help_view(Key::Char('q')));
    assert!(!run_help_view(Key::F(7)) && !run_help_view(Key::Enter));
    assert!(run_about_view(Key::F(7)) && run_about_view(Key::Esc) && run_about_view(Key::Char('q')));
    assert!(!run_about_view(Key::F(1)) && !run_about_view(Key::Char('Q')));
}

#[test]
fn project_is_chosen_from_the_list() {
    let projects = arguments(&["one", "two", "three"]);
    let mut place: usize = 0;
    assert!(matches!(select_project_from_list(Key::Down, &projects, &mut place), ListAction::Stay));
    let action = select_project_from_list(Key::Enter, &projects, &mut place);
    assert!(matches!(&action, ListAction::Return(Some(name)) if name == "two"));
    assert!(matches!(
        select_project_from_list(Key::Esc, &projects, &mut place),
        ListAction::Return(None)
    ));
    assert!(matches!(
        select_project_from_list(Key::Char('q'), &projects, &mut place),
        ListAction::Return(None)
    ));
    place = 0;
    assert!(matches!(
        select_project_from_list(Key::Enter, &[], &mut place),
        ListAction::Return(None)
    ));
}

#[test]
fn text_is_typed_and_taken_back() {
    let mut input = String::new();
    for ch in "año".chars() {
        assert_eq!(prompt_text(press(Key::Char(ch)), &mut input), TextAction::Stay);
    }
    assert_eq!(input, "año");
    prompt_text(press(Key::Backspace), &mut input);
    assert_eq!(input, "añ");
    prompt_text(control('x'), &mut input);
    prompt_text(press(Key::Tab), &mut input);
    assert_eq!(input, "añ");
    assert_eq!(prompt_text(press(Key::Enter), &mut input), TextAction::Confirm);
    assert_eq!(prompt_text(press(Key::Esc), &mut input), TextAction::Cancel);
    prompt_text(press(Key::Backspace), &mut input);
    prompt_text(press(Key::Backspace), &mut input);
    prompt_text(press(Key::Backspace), &mut input);
    assert_eq!(input, "");
}

#[test]
fn project_prompt_opens_and_lists() {
    let mut input = prompt_start(&project());
    assert_eq!(input, "shop");
    assert!(matches!(prompt_project(press(Key::Char('l')), &mut input), PromptAction::List));
    assert!(matches!(prompt_project(press(Key::Char('L')), &mut input), PromptAction::List));
    assert!(matches!(prompt_project(control('l'), &mut input), PromptAction::Stay));
    assert_eq!(input, "shop");
    assert!(matches!(prompt_project(press(Key::Char(' ')), &mut input), PromptAction::Stay));
    assert!(matches!(prompt_project(press(Key::Char('2')), &mut input), PromptAction::Stay));
    let action = prompt_project(press(Key::Enter), &mut input);
    assert!(matches!(&action, PromptAction::Open(name) if name == "shop_2"));
    assert!(matches!(prompt_project(press(Key::Esc), &mut input), PromptAction::UseDefault));
    assert!(matches!(prompt_project(press(Key::Backspace), &mut input), PromptAction::Stay));
    assert_eq!(input, "shop ");
    let mut blank = "  ".to_string();
    assert!(matches!(prompt_project(press(Key::Enter), &mut blank), PromptAction::UseDefault));
    assert_eq!(prompt_start(&State::default()), "");
}

#[test]
fn projects_are_opened_or_created() {
    let (created, is_new) = open_project(&project(), "other", None);
    assert!(is_new);
    assert_eq!(created.project_name, Some("other".to_string()));
    assert_eq!(created.fresh.len(), 3);
    let (stored, is_new) = open_project(&project(), "other", Some(State::default()));
    assert!(!is_new);
    assert_eq!(stored.project_name, Some("other".to_string()));
    assert_eq!(stored.fresh.len(), 0);
}

#[test]
fn panels_start_where_they_were() {
    let mut state = State::default();
    assert_eq!(start_folder(&state, ActivePanel::Left, "/here"), "/here");
    state.fresh_root = Some("/f".to_string());
    state.production_root = Some("/p".to_string());
    assert_eq!(start_folder(&state, ActivePanel::Left, "/here"), "/f");
    assert_eq!(start_folder(&state, ActivePanel::Right, "/here"), "/p");
    state.left_dir = Some("/l".to_string());
    state.right_dir = Some("/r".to_string());
    assert_eq!(start_folder(&state, ActivePanel::Left, "/here"), "/l");
    assert_eq!(start_folder(&state, ActivePanel::Right, "/here"), "/r");
}

#[test]
fn keys_ask_for_work() {
    let state = project();
    let mut shown = session();
    assert_eq!(shown.message, "Ready");
    assert!(matches!(shown.run_tui(&state, press(Key::Char('q'))), Action::Quit));
    assert!(matches!(shown.run_tui(&state, control('q')), Action::Quit));
    assert!(matches!(shown.run_tui(&state, press(Key::Esc)), Action::Quit));
    assert!(matches!(shown.run_tui(&state, press(Key::F(1))), Action::Help));
    assert!(matches!(shown.run_tui(&state, press(Key::F(7))), Action::About));
    assert!(matches!(shown.run_tui(&state, control('a')), Action::Run(Task::IndexFresh)));
    assert!(matches!(shown.run_tui(&state, control('s')), Action::Run(Task::IndexProduction)));
    assert!(matches!(shown.run_tui(&state, press(Key::Char('a'))), Action::Stay));
    assert!(matches!(shown.run_tui(&state, press(Key::Char('s'))), Action::Stay));
    assert!(matches!(shown.run_tui(&state, press(Key::F(6))), Action::Run(Task::Deploy(6))));
    assert!(matches!(shown.run_tui(&state, press(Key::F(10))), Action::Run(Task::Deploy(10))));
    assert!(matches!(shown.run_tui(&state, press(Key::F(8))), Action::Run(Task::BackUp)));
    assert!(matches!(shown.run_tui(&state, press(Key::F(9))), Action::Run(Task::MakeFolder)));
    assert!(matches!(shown.run_tui(&state, press(Key::F(2))), Action::Stay));
    assert!(matches!(shown.run_tui(&state, press(Key::Other)), Action::Stay));
    assert_eq!(shown.message, "Ready");
}

#[test]
fn keys_move_in_the_active_panel() {
    let state = project();
    let mut shown = session();
    shown.run_tui(&state, press(Key::Down));
    shown.run_tui(&state, press(Key::Down));
    shown.run_tui(&state, press(Key::Up));
    assert_eq!((shown.left.selected, shown.right.selected), (1, 0));
    shown.run_tui(&state, press(Key::PageDown));
    assert_eq!(shown.left.selected, 3);
    shown.run_tui(&state, press(Key::Home));
    assert_eq!(shown.left.selected, 0);
    shown.run_tui(&state, press(Key::End));
    shown.run_tui(&state, press(Key::Tab));
    assert_eq!(shown.active_panel, ActivePanel::Right);
    shown.run_tui(&state, press(Key::Down));
    shown.run_tui(&state, press(Key::PageUp));
    assert_eq!((shown.left.selected, shown.right.selected), (3, 0));
    shown.run_tui(&state, press(Key::Tab));
    assert_eq!(shown.active_panel, ActivePanel::Left);
}

#[test]
fn folders_are_opened() {
    let state = project();
    let mut shown = session();
    let action = shown.run_tui(&state, press(Key::Enter));
    assert!(matches!(&action, Action::OpenFolder(folder) if folder == "/tmp/new/d"));
    assert_eq!(shown.message, "Ready");
    shown.run_tui(&state, press(Key::Down));
    assert!(matches!(shown.run_tui(&state, press(Key::Enter)), Action::Stay));
    assert_eq!(shown.message, "Left: /tmp/new");
    let action = shown.run_tui(&state, press(Key::Backspace));
    assert!(matches!(&action, Action::ShowFolder(folder) if folder == "/tmp"));
    assert!(shown.show_folder("/tmp".to_string(), Err("denied".to_string())).is_err());
    assert_eq!((shown.left.current_dir.as_str(), shown.left.selected), ("/tmp", 0));
    assert_eq!(shown.left.entries.len(), 4);
    assert_eq!(shown.message, "Left: /tmp/new");
    assert!(shown.show_folder("/tmp".to_string(), Ok(vec![entry("/tmp/new", true)])).is_ok());
    assert_eq!(shown.left.current_dir, "/tmp");
    assert_eq!(shown.left.selected, 0);
    assert_eq!(shown.message, "Left: /tmp");
    shown.run_tui(&state, press(Key::Tab));
    assert!(matches!(shown.run_tui(&state, press(Key::Backspace)), Action::Stay));
    assert_eq!(shown.message, "Right: /");
}

#[test]
fn selected_file_is_compared_or_copied() {
    let state = project();
    let mut shown = session();
    assert!(matches!(shown.run_tui(&state, press(Key::F(3))), Action::Stay));
    assert_eq!(shown.message, "F3: select a left-panel file after both roots are indexed");
    assert!(matches!(shown.run_tui(&state, press(Key::F(5))), Action::Stay));
    assert_eq!(shown.message, "F5: select a left-panel NEW file after both roots are indexed");
    shown.run_tui(&state, press(Key::Down));
    let action = shown.run_tui(&state, press(Key::F(5)));
    assert!(matches!(&action, Action::CopyFile(row) if row.status == FileStatus::New));
    let action = shown.run_tui(&state, press(Key::F(3)));
    assert!(matches!(&action, Action::ShowDiff(row) if row.status == FileStatus::New));
    shown.run_tui(&state, press(Key::Down));
    assert!(matches!(shown.run_tui(&state, press(Key::F(3))), Action::Stay));
    assert_eq!(shown.message, "F3: selected file is already the same");
}

#[test]
fn session_follows_the_disk() {
    let mut state = project();
    let mut shown = session();
    shown.run_tui(&state, press(Key::End));
    assert!(shown.refresh_panel(ActivePanel::Left, Err("denied".to_string())).is_err());
    assert_eq!(shown.left.selected, 3);
    assert!(shown.refresh_panel(ActivePanel::Left, Ok(vec![entry("/tmp/new/d", true)])).is_ok());
    assert!(shown.refresh_panel(ActivePanel::Right, Ok(Vec::new())).is_ok());
    assert_eq!((shown.left.selected, shown.right.entries.len()), (0, 0));
    let lines = vec![entry("/tmp/new/d", true), entry("/tmp/new/e", true)];
    assert!(shown.refresh_panel(ActivePanel::Left, Ok(lines)).is_ok());
    shown.select_in_active("/tmp/new/e");
    assert_eq!(shown.left.selected, 1);
    assert_eq!(shown.active().current_dir, "/tmp/new");
    shown.finish(Task::BackUp, Ok("hello".to_string()));
    assert_eq!(shown.message, "hello");
    shown.finish(Task::BackUp, Err("no room".to_string()));
    assert_eq!(shown.message, "F8 backup failed: no room");
    shown.remember_folders(&mut state);
    assert_eq!(state.left_dir, Some("/tmp/new".to_string()));
    assert_eq!(state.right_dir, Some("/".to_string()));
}

#[test]
fn folders_are_indexed() {
    let mut state = State::default();
    assert_eq!(
        index_production(&mut state, "/srv/app".to_string(), index(&[("a", 1, 1)])),
        "Indexed production: 1 files from /srv/app"
    );
    assert_eq!(
        index_fresh(&mut state, "/tmp/new".to_string(), index(&[("a", 1, 1), ("b", 1, 1)])),
        "Indexed fresh: 2 files from /tmp/new"
    );
    assert_eq!((state.production.len(), state.fresh.len()), (1, 2));
    assert_eq!(state.left_dir, None);
    assert_eq!(
        index_left_as_fresh(&mut state, "/f".to_string(), index(&[])),
        "Ctrl+A indexed fresh: 0 files from /f"
    );
    assert_eq!(
        index_right_as_production(&mut state, "/p".to_string(), index(&[])),
        "Ctrl+S indexed production: 0 files from /p"
    );
    assert_eq!(state.left_dir, Some("/f".to_string()));
    assert_eq!(state.fresh_root, Some("/f".to_string()));
    assert_eq!(state.right_dir, Some("/p".to_string()));
    assert_eq!(state.production_root, Some("/p".to_string()));
}

#[test]
fn known_folders_are_indexed_again() {
    let mut state = State::default();
    assert_eq!(reindex_existing_roots(&mut state, None, None).unwrap(), "no indexed roots yet");
    state.production_root = Some("/p".to_string());
    assert_eq!(
        reindex_existing_roots(&mut state, None, Some(Scan::Files(index(&[("a", 1, 1)])))).unwrap(),
        "reindexed production 1 files"
    );
    let mut state = project();
    assert_eq!(
        reindex_existing_roots(
            &mut state,
            Some(Scan::Files(index(&[("a", 1, 1)]))),
            Some(Scan::Files(index(&[])))
        )
        .unwrap(),
        "reindexed fresh 1 files, production 0 files"
    );
}

#[test]
fn failed_indexing_keeps_what_was_known() {
    let mut state = project();
    let failed = reindex_existing_roots(&mut state, Some(Scan::Failed("gone".to_string())), None);
    assert_eq!(failed.unwrap_err(), "gone");
    assert_eq!((state.fresh.len(), state.production.len()), (3, 3));
    let failed = reindex_existing_roots(
        &mut state,
        Some(Scan::Files(index(&[]))),
        Some(Scan::Failed("denied".to_string())),
    );
    assert_eq!(failed.unwrap_err(), "denied");
    assert_eq!((state.fresh.len(), state.production.len()), (0, 3));
}

#[test]
fn changes_are_shown() {
    let state = project();
    assert_eq!(
        show_changes(&state, false).unwrap(),
        vec!["NEW     new", "UPDATE  up", "\nSummary: 1 new, 1 updated, 0 deleted"]
    );
    assert_eq!(show_changes(&state, true).unwrap()[0], "DELETE  gone");
    assert!(matches!(
        show_changes(&State::default(), true),
        Err(UpxtoError::ProductionNotIndexed)
    ));
}

#[test]
fn production_is_updated() {
    let mut state = project();
    let steps = update_production(&state, true, false).unwrap();
    assert_eq!(steps.len(), 6);
    assert!(matches!(&steps[1], UpdateStep::Remove { target } if target == "/srv/app/gone"));
    assert_eq!(update_production(&state, false, true).unwrap().len(), 2);
    let report = refresh_production(&mut state, index(&[]));
    assert_eq!(report, "Production index refreshed after update.");
    assert_eq!(state.production.len(), 0);
    state.fresh_root = None;
    assert!(matches!(
        update_production(&state, true, false),
        Err(UpxtoError::FreshNotIndexed)
    ));
}

#[test]
fn backups_are_named_by_time() {
    let state = project();
    assert_eq!(default_backup_dir(), ".upxto/backups");
    assert_eq!(timestamp(1700000000), "1700000000");
    let plan = backup_production(&state, &None, 42).unwrap();
    assert_eq!(plan.source, "/srv/app");
    assert_eq!(plan.target, ".upxto/backups/production-42");
    let plan = backup_production_from_tui(&state, &Some("/b".to_string()), 7).unwrap();
    assert_eq!(plan.target, "/b/production-7");
    let none = State::default();
    assert_eq!(
        backup_production(&none, &None, 42).unwrap_err().message(),
        "production root is not indexed yet; run --index-production <folder> first"
    );
    assert_eq!(
        backup_production_from_tui(&none, &None, 42).unwrap_err().message(),
        "production root is not indexed yet"
    );
    assert_eq!(backed_up_report("/b/x"), "Backed up production to /b/x");
    assert_eq!(
        backup_report("/b/x", &Ok("reindexed".to_string())),
        "F8 backup created: /b/x; reindexed"
    );
    assert_eq!(
        backup_report("/b/x", &Err("denied".to_string())),
        "F8 backup created: /b/x; reindex failed: denied"
    );
}

#[test]
fn new_and_updated_files_are_deployed() {
    let state = project();
    let plan = deploy_updates_from_tui(&state).unwrap();
    assert_eq!(plan.count, 2);
    assert_eq!(plan.steps.len(), 2);
    assert!(matches!(
        &plan.steps[0],
        UpdateStep::Copy { source, target } if source == "/tmp/new/new" && target == "/srv/app/new"
    ));
    assert!(deploy_updates_from_tui(&State::default()).is_err());
    assert_eq!(deployed_report(6, 2, "done"), "F6 deployed 2 new/updated files; done");
    assert_eq!(deployed_report(10, 0, "done"), "F10 deployed 0 new/updated files; done");
}

#[test]
fn only_new_files_are_copied() {
    let mut state = project();
    let row = |status: FileStatus, path: Option<&str>| TuiRow {
        fresh_path: path.map(|path| path.to_string()),
        production_path: None,
        status,
    };
    let say = |plan: CopyPlan| match plan {
        CopyPlan::Say(text) => text,
        CopyPlan::Copy { .. } => panic!("nothing to copy"),
    };
    assert_eq!(say(copy_selected_new_file(&state, None).unwrap()), "F5: no file selected");
    assert_eq!(
        say(copy_selected_new_file(&state, Some(&row(FileStatus::Updated, Some("up")))).unwrap()),
        "F5: only NEW files are copied; updated files are inspect-only for now"
    );
    let new = row(FileStatus::New, Some("new"));
    assert!(matches!(
        copy_selected_new_file(&state, Some(&new)).unwrap(),
        CopyPlan::Copy { path, source, target }
            if path == "new" && source == "/tmp/new/new" && target == "/srv/app/new"
    ));
    assert_eq!(
        copy_selected_new_file(&state, Some(&row(FileStatus::New, None))).unwrap_err().message(),
        "selected row does not exist in fresh folder"
    );
    state.production_root = None;
    assert_eq!(
        copy_selected_new_file(&state, Some(&new)).unwrap_err().message(),
        "production root is missing"
    );
    state.fresh_root = None;
    assert_eq!(
        copy_selected_new_file(&state, Some(&new)).unwrap_err().message(),
        "fresh root is missing"
    );
    assert_eq!(copied_report("new", "done"), "F5 copied new file: new; done");
}

#[test]
fn copied_file_is_the_same_afterwards() {
    let mut state = project();
    let mut shown = session();
    shown.run_tui(&state, press(Key::Down));
    let entry = state.fresh.get("new").unwrap();
    state.production.insert("new".to_string(), entry);
    shown.run_tui(&state, press(Key::F(3)));
    assert_eq!(shown.message, "F3: selected file is already the same");
}

#[test]
fn folder_names_are_checked() {
    let plan = |typed: Option<&str>| {
        match mkdir_in_active_panel("/srv", typed.map(|text| text.to_string())) {
            FolderPlan::Say(text) => text,
            FolderPlan::Create(path) => format!("create {path}"),
        }
    };
    assert_eq!(plan(None), "F9 mkdir cancelled");
    assert_eq!(plan(Some("  ")), "F9 mkdir cancelled");
    assert_eq!(plan(Some("a/b")), "F9 mkdir: use a single folder name, not a path");
    assert_eq!(plan(Some("a\\b")), "F9 mkdir: use a single folder name, not a path");
    assert_eq!(plan(Some(" new folder ")), "create /srv/new folder");
    assert_eq!(folder_report("/srv/x", "done"), "F9 created /srv/x; done");
}

#[test]
fn failures_name_their_key() {
    assert_eq!(failure_report(Task::IndexFresh, "x"), "Ctrl+A failed: x");
    assert_eq!(failure_report(Task::IndexProduction, "x"), "Ctrl+S failed: x");
    assert_eq!(failure_report(Task::CopyFile, "x"), "F5 failed: x");
    assert_eq!(failure_report(Task::BackUp, "x"), "F8 backup failed: x");
    assert_eq!(failure_report(Task::MakeFolder, "x"), "F9 mkdir failed: x");
    assert_eq!(failure_report(Task::Deploy(6), "x"), "F6 update failed: x");
    assert!(refreshes_panels(Task::CopyFile) && refreshes_panels(Task::Deploy(6)));
    assert!(!refreshes_panels(Task::BackUp) && !refreshes_panels(Task::MakeFolder));
    assert_eq!(progress_text(Task::IndexFresh), "Indexing fresh folder...");
    assert_eq!(progress_text(Task::Deploy(6)), "Deploying new and changed files...");
}

#[test]
fn created_folder_lies_in_the_panel() {
    let FolderPlan::Create(path) = mkdir_in_active_panel("/srv/app", Some("new".to_string())) else {
        panic!("a folder is to be created");
    };
    assert_eq!(parent_path(&path), Some("/srv/app".to_string()));
    assert_eq!(path_components(&path).last(), Some(&"new".to_string()));
}

#[test]
fn deployment_leaves_nothing_to_deploy() {
    let mut state = project();
    let plan = deploy_updates_from_tui(&state).unwrap();
    assert_eq!(plan.count, plan.steps.len());
    for path in ["new", "up"] {
        let entry = state.fresh.get(path).unwrap();
        state.production.insert(path.to_string(), entry);
    }
    assert_eq!(deploy_updates_from_tui(&state).unwrap().count, 0);
    assert!(state.production.get("gone").is_some());
}
