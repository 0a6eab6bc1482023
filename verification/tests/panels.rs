use upxto::diff::{align_lines, build_diff_rows, diff_sources, read_file_lines, split_lines, DiffRow};
use upxto::index::{FileEntry, FileIndex};
use upxto::panel::{
    active_browser_mut, current_panel_message, entry_status_for_panel, move_cursor,
    read_browser_entries, select_entry_by_path, selected_browser_row, ActivePanel, BrowserPanel,
    CursorMove, DirItem, FileKind, FileStatus, FsEntry, TuiRow,
};
use upxto::state::State;

fn item(name: &str, kind: FileKind) -> DirItem {
    DirItem { name: name.to_string(), kind }
}

fn names(lines: &[FsEntry]) -> Vec<&str> {
    lines.iter().map(|line| line.name.as_str()).collect()
}

fn file(path: &str) -> FsEntry {
    FsEntry {
        name: path.rsplit('/').next().unwrap().to_string(),
        path: path.to_string(),
        is_dir: false,
    }
}

fn folder(path: &str) -> FsEntry {
    FsEntry { name: format!("[{path}]"), path: path.to_string(), is_dir: true }
}

fn panel(lines: Vec<FsEntry>) -> BrowserPanel {
    BrowserPanel::new("/tmp/new".to_string(), lines)
}

fn index(files: &[(&str, u64, u64)]) -> FileIndex {
    let mut index = FileIndex::new();
    for (path, size, hash) in files {
        index.insert(path.to_string(), FileEntry { size: *size, hash: *hash });
    }
    index
}

fn project() -> State {
    State {
        project_name: None,
        left_dir: None,
        right_dir: None,
        production_root: Some("/srv/app".to_string()),
        fresh_root: Some("/tmp/new".to_string()),
        production: index(&[("same", 1, 1), ("up", 2, 2), ("gone", 3, 3)]),
        fresh: index(&[("same", 1, 1), ("up", 2, 9), ("d/new", 4, 4)]),
    }
}

#[test]
fn panel_lists_folders_first_without_regard_to_case() {
    let items = [
        item("b.txt", FileKind::File),
        item("Zoo", FileKind::Folder),
        item("alpha", FileKind::Folder),
        item("A.txt", FileKind::File),
        item("socket", FileKind::Other),
        item("ÄRGER", FileKind::File),
        item("ärger", FileKind::File),
        item("B.txt", FileKind::File),
    ];
    let lines = read_browser_entries("/srv/app", &items);
    assert_eq!(
        names(&lines),
        vec!["[..]", "[alpha]", "[Zoo]", "A.txt", "b.txt", "B.txt", "ÄRGER", "ärger"]
    );
    assert_eq!(lines[0].path, "/srv");
    assert!(lines[0].is_dir);
    assert_eq!(lines[1].path, "/srv/app/alpha");
    assert_eq!(lines[3].path, "/srv/app/A.txt");
    assert!(!lines[3].is_dir);
}

#[test]
fn root_folder_has_no_parent_line() {
    let lines = read_browser_entries("/", &[item("srv", FileKind::Folder)]);
    assert_eq!(names(&lines), vec!["[srv]"]);
    assert_eq!(lines[0].path, "/srv");
}

#[test]
fn parent_line_is_sorted_with_the_folders() {
    let lines = read_browser_entries("/a", &[item("!x", FileKind::Folder), item(".b", FileKind::Folder)]);
    assert_eq!(names(&lines), vec!["[!x]", "[..]", "[.b]"]);
}

#[test]
fn cursor_moves_stay_in_the_list() {
    assert_eq!(move_cursor(CursorMove::Up, 0, 5), 0);
    assert_eq!(move_cursor(CursorMove::Up, 3, 5), 2);
    assert_eq!(move_cursor(CursorMove::Down, 3, 5), 4);
    assert_eq!(move_cursor(CursorMove::Down, 4, 5), 4);
    assert_eq!(move_cursor(CursorMove::PageUp, 12, 30), 2);
    assert_eq!(move_cursor(CursorMove::PageUp, 7, 30), 0);
    assert_eq!(move_cursor(CursorMove::PageDown, 7, 30), 17);
    assert_eq!(move_cursor(CursorMove::PageDown, 25, 30), 29);
    assert_eq!(move_cursor(CursorMove::Home, 25, 30), 0);
    assert_eq!(move_cursor(CursorMove::End, 25, 30), 29);
    assert_eq!(move_cursor(CursorMove::PageDown, 0, 0), 0);
    assert_eq!(move_cursor(CursorMove::End, 0, 0), 0);
    assert_eq!(move_cursor(CursorMove::Down, usize::MAX, 3), usize::MAX);
}

#[test]
fn panel_moves_its_cursor() {
    let mut shown = panel((0..15).map(|i| file(&format!("/tmp/new/{i}"))).collect());
    shown.move_down();
    shown.move_down();
    shown.move_up();
    assert_eq!(shown.selected, 1);
    shown.page_down();
    assert_eq!(shown.selected, 11);
    shown.end();
    assert_eq!(shown.selected, 14);
    shown.page_up();
    assert_eq!(shown.selected, 4);
    shown.home();
    assert_eq!(shown.selected, 0);
    shown.end();
    assert_eq!(shown.refresh(Ok(vec![file("/tmp/new/a"), file("/tmp/new/b")])), Ok(()));
    assert_eq!(shown.selected, 1);
    assert_eq!(shown.selected_entry().unwrap().path, "/tmp/new/b");
    assert_eq!(shown.refresh(Err("denied".to_string())), Err("denied".to_string()));
    assert_eq!((shown.selected, shown.entries.len()), (1, 2));
    assert_eq!(shown.refresh(Ok(Vec::new())), Ok(()));
    assert_eq!(shown.selected, 0);
    assert!(shown.selected_entry().is_none());
}

#[test]
fn panel_enters_folders_and_goes_up() {
    let mut shown = panel(vec![folder("/tmp/new/d"), file("/tmp/new/f")]);
    assert_eq!(shown.enter_selected(), Some("/tmp/new/d".to_string()));
    shown.move_down();
    assert_eq!(shown.enter_selected(), None);
    assert_eq!(shown.go_parent(), Some("/tmp".to_string()));
    assert_eq!(
        shown.show_folder("/tmp".to_string(), Err("denied".to_string())),
        Err("denied".to_string())
    );
    assert_eq!((shown.current_dir.as_str(), shown.selected, shown.entries.len()), ("/tmp", 0, 2));
    assert_eq!(shown.show_folder("/".to_string(), Ok(Vec::new())), Ok(()));
    assert_eq!((shown.selected, shown.entries.len()), (0, 0));
    assert_eq!(shown.go_parent(), None);
    assert_eq!(shown.enter_selected(), None);
}

#[test]
fn cursor_finds_a_path() {
    let mut shown = panel(vec![folder("/a/b"), file("/a/c"), file("/a//c")]);
    select_entry_by_path(&mut shown, "/a/c/");
    assert_eq!(shown.selected, 1);
    select_entry_by_path(&mut shown, "/a/x");
    assert_eq!(shown.selected, 1);
}

#[test]
fn active_panel_is_chosen() {
    let mut left = panel(vec![file("/a"), file("/b")]);
    let mut right = panel(vec![file("/c"), file("/d")]);
    active_browser_mut(&mut left, &mut right, ActivePanel::Right).move_down();
    assert_eq!((left.selected, right.selected), (0, 1));
    active_browser_mut(&mut left, &mut right, ActivePanel::Left).move_down();
    assert_eq!((left.selected, right.selected), (1, 1));
    assert_eq!(ActivePanel::Left.other(), ActivePanel::Right);
    assert_eq!(ActivePanel::Left.other().other(), ActivePanel::Left);
    right.current_dir = "/srv".to_string();
    assert_eq!(current_panel_message(ActivePanel::Left, &left, &right), "Left: /tmp/new");
    assert_eq!(current_panel_message(ActivePanel::Right, &left, &right), "Right: /srv");
}

fn row_at(path: &str) -> Option<TuiRow> {
    selected_browser_row(&project(), &panel(vec![file(path)]))
}

#[test]
fn selected_file_is_looked_up_on_both_sides() {
    let row = row_at("/tmp/new/d/new").unwrap();
    assert_eq!(row.status, FileStatus::New);
    assert_eq!(row.fresh_path, Some("d/new".to_string()));
    assert_eq!(row.production_path, None);
    let row = row_at("/tmp/new/up").unwrap();
    assert_eq!(row.status, FileStatus::Updated);
    assert_eq!(row.production_path, Some("up".to_string()));
    assert_eq!(row_at("/tmp/new/same").unwrap().status, FileStatus::Same);
    let row = row_at("/tmp/new/gone").unwrap();
    assert_eq!(row.status, FileStatus::Deleted);
    assert_eq!(row.fresh_path, None);
    assert!(row_at("/tmp/new/unknown").is_none());
    assert!(row_at("/elsewhere/up").is_none());
    assert!(selected_browser_row(&project(), &panel(vec![folder("/tmp/new/up")])).is_none());
    assert!(selected_browser_row(&project(), &panel(Vec::new())).is_none());
    assert!(selected_browser_row(&State::default(), &panel(vec![file("/tmp/new/up")])).is_none());
}

#[test]
fn lines_are_marked_by_comparison() {
    let state = project();
    let left = |path: &str| entry_status_for_panel(&state, ActivePanel::Left, &file(path));
    let right = |path: &str| entry_status_for_panel(&state, ActivePanel::Right, &file(path));
    assert_eq!(left("/tmp/new/d/new"), Some(FileStatus::New));
    assert_eq!(left("/tmp/new/up"), Some(FileStatus::Updated));
    assert_eq!(left("/tmp/new/same"), Some(FileStatus::Same));
    assert_eq!(left("/tmp/new/gone"), None);
    assert_eq!(left("/srv/app/gone"), None);
    assert_eq!(right("/srv/app/gone"), Some(FileStatus::Deleted));
    assert_eq!(right("/srv/app/same"), Some(FileStatus::Same));
    assert_eq!(right("/srv/app/up"), Some(FileStatus::Updated));
    assert_eq!(right("/srv/app/d/new"), None);
    assert_eq!(
        entry_status_for_panel(&state, ActivePanel::Left, &folder("/tmp/new/up")),
        None
    );
    assert_eq!(
        entry_status_for_panel(&State::default(), ActivePanel::Left, &file("/tmp/new/up")),
        None
    );
    assert_eq!(left("/tmp/new/up"), row_at("/tmp/new/up").map(|row| row.status));
    assert_eq!(right("/srv/app/gone"), row_at("/tmp/new/gone").map(|row| row.status));
}

fn lines(items: &[&str]) -> Vec<String> {
    items.iter().map(|item| item.to_string()).collect()
}

fn shown(rows: &[DiffRow]) -> Vec<String> {
    rows.iter()
        .map(|row| {
            let side = |line: &Option<usize>, text: &Option<String>| match (line, text) {
                (Some(number), Some(line)) => format!("{number}:{line}"),
                _ => "-".to_string(),
            };
            format!(
                "{} {} {}",
                if row.changed { "!" } else { "=" },
                side(&row.fresh_line, &row.fresh),
                side(&row.production_line, &row.production)
            )
        })
        .collect()
}

#[test]
fn equal_lines_stand_side_by_side() {
    let rows = align_lines(&lines(&["a", "b", "c"]), &lines(&["a", "c"]));
    assert_eq!(shown(&rows), vec!["= 1:a 1:a", "! 2:b -", "= 3:c 2:c"]);
    let rows = align_lines(&lines(&["a", "x", "c"]), &lines(&["a", "y", "c"]));
    assert_eq!(shown(&rows), vec!["= 1:a 1:a", "! 2:x 2:y", "= 3:c 3:c"]);
    let rows = align_lines(&lines(&["c"]), &lines(&["a", "b", "c"]));
    assert_eq!(shown(&rows), vec!["! - 1:a", "! - 2:b", "= 1:c 3:c"]);
    let rows = align_lines(&lines(&["p", "q"]), &lines(&["q", "p"]));
    assert_eq!(shown(&rows), vec!["! 1:p 1:q", "! 2:q 2:p"]);
}

#[test]
fn rows_restate_both_files() {
    let fresh = lines(&["1", "2", "3", "5", "6"]);
    let production = lines(&["0", "2", "3", "4", "6", "7"]);
    let rows = align_lines(&fresh, &production);
    let left: Vec<String> = rows.iter().filter_map(|row| row.fresh.clone()).collect();
    let right: Vec<String> = rows.iter().filter_map(|row| row.production.clone()).collect();
    assert_eq!(left, fresh);
    assert_eq!(right, production);
    for row in &rows {
        assert_eq!(row.changed, row.fresh != row.production);
    }
    assert_eq!(rows.iter().filter(|row| !row.changed).count(), 3);
    assert!(align_lines(&fresh, &fresh).iter().all(|row| !row.changed));
}

#[test]
fn empty_files_give_one_blank_row() {
    let rows = align_lines(&[], &[]);
    assert_eq!(shown(&rows), vec!["= - -"]);
    assert_eq!(shown(&align_lines(&lines(&["a"]), &[])), vec!["! 1:a -"]);
    assert_eq!(shown(&align_lines(&[], &lines(&["a"]))), vec!["! - 1:a"]);
}

#[test]
fn lines_end_with_newlines() {
    assert_eq!(split_lines("a\nb\r\nc"), lines(&["a", "b", "c"]));
    assert_eq!(split_lines("a\n"), split_lines("a"));
    assert_eq!(split_lines("\n\n"), lines(&["", ""]));
    assert_eq!(split_lines(""), lines(&[]));
    assert_eq!(split_lines("a\r"), lines(&["a\r"]));
    assert_eq!(split_lines("a\r\r\n"), lines(&["a\r"]));
    for text in ["", "\n", "a", "a\n", "a\r\n\r\nb\r", "x\r\ry\n\r", "\r\n"] {
        let expected: Vec<String> = text.lines().map(|line| line.to_string()).collect();
        assert_eq!(split_lines(text), expected);
    }
}

#[test]
fn files_are_decoded() {
    assert_eq!(read_file_lines("grün\nx".as_bytes()), lines(&["grün", "x"]));
    assert_eq!(read_file_lines(b"a\xffb\n"), lines(&["a\u{fffd}b"]));
}

#[test]
fn contents_are_compared() {
    let rows = build_diff_rows(&Some(b"a\nb\n".to_vec()), &Some(b"a\r\nc\n".to_vec()));
    assert_eq!(shown(&rows), vec!["= 1:a 1:a", "! 2:b 2:c"]);
    let rows = build_diff_rows(&Some(b"a\n".to_vec()), &None);
    assert_eq!(shown(&rows), vec!["! 1:a -"]);
    assert_eq!(shown(&build_diff_rows(&None, &None)), vec!["= - -"]);
}

#[test]
fn comparison_reads_the_files_of_the_row() {
    let state = project();
    let row = row_at("/tmp/new/up").unwrap();
    assert_eq!(
        diff_sources(&state, &row),
        (Some("/tmp/new/up".to_string()), Some("/srv/app/up".to_string()))
    );
    let row = row_at("/tmp/new/d/new").unwrap();
    assert_eq!(diff_sources(&state, &row), (Some("/tmp/new/d/new".to_string()), None));
}
