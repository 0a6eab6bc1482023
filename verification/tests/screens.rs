use upxto::diff::align_lines;
use upxto::index::{FileEntry, FileIndex};
use upxto::pages::{
    draw_about_view, draw_help_view, draw_project_list, draw_project_prompt, draw_spinner,
    draw_text_prompt, Spinner,
};
use upxto::panel::{ActivePanel, BrowserPanel, FileStatus, FsEntry, TuiRow};
use upxto::screen::{
    clear_line, draw_browser_cell, draw_diff_cell, draw_diff_header, draw_diff_view, draw_header,
    draw_panel_header, draw_tui, scroll_top, status_color, Color, Span,
};
use upxto::state::State;

fn place(span: &Span) -> (u16, u16, &str) {
    (span.x, span.y, span.text.as_str())
}

fn style(span: &Span) -> (Color, bool, bool) {
    (span.color, span.bold, span.reverse)
}

fn entry(name: &str, is_dir: bool) -> FsEntry {
    FsEntry { name: name.to_string(), path: format!("/tmp/new/{name}"), is_dir }
}

fn project() -> State {
    let mut fresh = FileIndex::new();
    fresh.insert("a".to_string(), FileEntry { size: 1, hash: 1 });
    State {
        project_name: None,
        left_dir: None,
        right_dir: None,
        production_root: None,
        fresh_root: Some("/tmp/new".to_string()),
        production: FileIndex::new(),
        fresh,
    }
}

#[test]
fn list_scrolls_around_the_selected_line() {
    assert_eq!(scroll_top(0, 10, 100), 0);
    assert_eq!(scroll_top(5, 10, 100), 0);
    assert_eq!(scroll_top(50, 10, 100), 45);
    assert_eq!(scroll_top(99, 10, 100), 90);
    assert_eq!(scroll_top(3, 10, 4), 0);
    assert_eq!(scroll_top(3, 0, 4), 0);
    for selected in 0..40 {
        for visible in 1..20 {
            let top = scroll_top(selected, visible, 40);
            assert!(top <= selected && selected < top + visible && top + visible <= 40);
        }
    }
}

#[test]
fn files_are_colored_by_status() {
    assert_eq!(status_color(FileStatus::Same), Color::Green);
    assert_eq!(status_color(FileStatus::New), Color::Red);
    assert_eq!(status_color(FileStatus::Updated), Color::Red);
    assert_eq!(status_color(FileStatus::Deleted), Color::Red);
}

#[test]
fn headers_name_the_folders() {
    let span = draw_header(&project(), 60);
    assert_eq!(span.text, format!("{:60}", "UPXTO  fresh: /tmp/new  |  production: -"));
    assert_eq!(style(&span), (Color::White, true, false));
    let span = draw_panel_header(7, 2, 10, "Fresh");
    assert_eq!(place(&span), (7, 2, " Fresh    "));
    assert_eq!(style(&span), (Color::Cyan, true, false));
    let span = draw_diff_header(&project(), "a/b", 40);
    assert_eq!(span.text, "UPXTO F3 diff  fresh: /tmp/new/a/b  |  p");
    let span = clear_line(4, 3);
    assert_eq!(place(&span), (0, 4, "   "));
    assert_eq!(style(&span), (Color::Plain, false, false));
}

#[test]
fn panel_lines_carry_their_marks() {
    let cell = |name: &str, is_dir: bool, status: Option<FileStatus>| {
        let spans = draw_browser_cell(0, 3, 8, &entry(name, is_dir), status, false);
        assert_eq!(spans.len(), 1);
        (spans[0].text.clone(), spans[0].color)
    };
    assert_eq!(cell("x", true, None), ("/ x    ".to_string(), Color::Cyan));
    assert_eq!(cell("x", false, None), ("  x    ".to_string(), Color::Grey));
    assert_eq!(cell("x", false, Some(FileStatus::Same)), ("  x    ".to_string(), Color::Green));
    assert_eq!(cell("x", false, Some(FileStatus::New)), ("+ x    ".to_string(), Color::Red));
    assert_eq!(cell("x", false, Some(FileStatus::Updated)), ("* x    ".to_string(), Color::Red));
    assert_eq!(cell("x", false, Some(FileStatus::Deleted)), ("- x    ".to_string(), Color::Red));
    assert!(draw_browser_cell(0, 3, 0, &entry("x", false), None, true).is_empty());
    assert_eq!(draw_browser_cell(0, 3, 1, &entry("x", false), None, true)[0].text, "");
}

#[test]
fn panels_are_drawn() {
    let left = BrowserPanel::new("/tmp/new".to_string(), vec![entry("d", true), entry("a", false)]);
    let right = BrowserPanel::new("/srv".to_string(), vec![entry("r", false)]);
    let spans = draw_tui(&project(), &left, &right, ActivePanel::Left, "Ready", 21, 7);
    let texts: Vec<(u16, u16, &str)> = spans.iter().map(place).collect();
    assert_eq!(
        texts,
        vec![
            (0, 0, "UPXTO  fresh: /tmp/ne"),
            (0, 2, " Fresh /tm"),
            (10, 2, " Production"),
            (0, 3, "                     "),
            (0, 3, "/ d      "),
            (10, 3, "  r       "),
            (0, 4, "                     "),
            (0, 4, "+ a      "),
            (0, 6, "                     "),
            (0, 6, "F1 help | Tab panel |"),
        ]
    );
    let reversed: Vec<(u16, u16, &str)> =
        spans.iter().filter(|span| span.reverse).map(place).collect();
    assert_eq!(reversed, vec![(0, 3, "/ d      ")]);
    assert_eq!(spans[7].color, Color::Red);
    assert_eq!(spans[9].color, Color::DarkGrey);
    let spans = draw_tui(&project(), &left, &right, ActivePanel::Right, "done", 200, 7);
    let reversed: Vec<u16> =
        spans.iter().filter(|span| span.reverse).map(|span| span.x).collect();
    assert_eq!(reversed, vec![100]);
    assert!(spans.last().unwrap().text.contains("| F6 update | F8 backup | F9 mkdir | done  "));
}

#[test]
fn files_that_only_production_has_are_marked_deleted() {
    let mut state = project();
    state.production_root = Some("/tmp/new".to_string());
    state.production.insert("gone".to_string(), FileEntry { size: 2, hash: 2 });
    let left = BrowserPanel::new("/tmp/new".to_string(), vec![entry("gone", false)]);
    let right = BrowserPanel::new("/tmp/new".to_string(), vec![entry("gone", false)]);
    let spans = draw_tui(&state, &left, &right, ActivePanel::Left, "", 20, 6);
    assert_eq!((spans[4].text.as_str(), spans[4].color), ("  gone   ", Color::Grey));
    assert_eq!((spans[5].text.as_str(), spans[5].color), ("- gone   ", Color::Red));
}

#[test]
fn comparison_is_drawn() {
    let line = |text: &str| vec![text.to_string()];
    let row = TuiRow {
        fresh_path: None,
        production_path: Some("a".to_string()),
        status: FileStatus::Updated,
    };
    let rows = align_lines(&line("old"), &line("new"));
    let spans = draw_diff_view(&project(), &row, &rows, 0, 40, 6);
    let texts: Vec<(u16, u16, &str)> = spans.iter().map(place).collect();
    assert_eq!(texts[1], (0, 2, " Fresh              "));
    assert_eq!(texts[2], (20, 2, " Production         "));
    assert_eq!(texts[4], (0, 3, "!    1 | old       "));
    assert_eq!(texts[5], (20, 3, "!    1 | new       "));
    assert_eq!(
        texts[7],
        (
            0,
            5,
            "Diff view | F1 help | F7 about | Arrows scroll | PgUp/PgDn | Home/End | F3/q/Esc back | 1 lines"
        )
    );
    assert_eq!(style(&spans[4]), (Color::Red, false, true));
    let nameless =
        TuiRow { fresh_path: None, production_path: None, status: FileStatus::Same };
    let spans = draw_diff_view(&State::default(), &nameless, &[], 0, 60, 0);
    assert_eq!(
        spans[0].text,
        format!("{:60}", "UPXTO F3 diff  fresh: -  |  production: -")
    );
    assert_eq!(spans.len(), 5);
}

#[test]
fn compared_lines_are_numbered() {
    let cell = |number: Option<usize>, text: &str, changed: bool| {
        let spans = draw_diff_cell(0, 3, 20, number, text, changed, false);
        (spans[0].text.clone(), spans[0].color)
    };
    assert_eq!(cell(Some(7), "x", false), (format!("{:19}", "     7 | x"), Color::Green));
    assert_eq!(cell(None, "", true), (format!("{:19}", "!    - |"), Color::Red));
    assert_eq!(cell(Some(1234567), "", false), (format!("{:19}", " 1234567 |"), Color::Green));
    assert!(draw_diff_cell(0, 3, 0, None, "", false, false).is_empty());
}

#[test]
fn help_page_fits_the_screen() {
    let spans = draw_help_view(70, 100);
    assert_eq!(spans.len(), 32);
    assert_eq!(style(&spans[0]), (Color::White, true, false));
    assert_eq!(style(&spans[2]), (Color::Cyan, true, false));
    assert_eq!(style(&spans[3]), (Color::Grey, false, false));
    assert_eq!(style(&spans[20]), (Color::Cyan, true, false));
    assert_eq!(style(&spans[27]), (Color::Cyan, true, false));
    assert_eq!(
        spans[14].text,
        format!("{:70}", "  F6               Deploy all NEW and UPDATE files to production")
    );
    assert_eq!(spans[31].y, 31);
    assert_eq!(draw_help_view(70, 5).len(), 5);
    assert!(draw_help_view(70, 0).is_empty());
}

#[test]
fn about_page_is_centered() {
    let spans = draw_about_view(25, 10);
    let texts: Vec<(u16, u16, &str)> = spans.iter().map(place).collect();
    assert_eq!(
        texts,
        vec![
            (10, 2, "UPXTO"),
            (12, 3, ""),
            (1, 4, "Copyright Rob Rymarczyk"),
            (7, 5, "License MIT"),
            (12, 6, ""),
            (0, 7, "Press F7, q, or Esc to return."),
        ]
    );
    assert_eq!(draw_about_view(25, 4).len(), 4);
}

#[test]
fn project_prompt_shows_what_was_typed() {
    let spans = draw_project_prompt("shop", 20, 20);
    assert_eq!(spans.len(), 8);
    assert_eq!(place(&spans[0]), (0, 6, "UPXTO Project       "));
    assert_eq!(place(&spans[7]), (0, 13, "Project: shop       "));
    assert_eq!(style(&spans[7]), (Color::Cyan, false, false));
    let spans = draw_project_prompt("", 20, 3);
    assert_eq!(spans.len(), 4);
    assert_eq!(spans[3].y, 7);
}

#[test]
fn project_list_shows_the_selected_project() {
    let projects = ["one".to_string(), "two".to_string()];
    let spans = draw_project_list(&projects, 1, 6, 8);
    let texts: Vec<(u16, u16, &str)> = spans.iter().map(place).collect();
    assert_eq!(
        texts,
        vec![
            (0, 0, "Load P"),
            (0, 1, "Enter "),
            (0, 3, "      "),
            (0, 3, "one   "),
            (0, 4, "      "),
            (0, 4, "two   "),
            (0, 5, "      "),
        ]
    );
    assert!(!spans[3].reverse && spans[5].reverse);
    let spans = draw_project_list(&[], 0, 30, 8);
    assert_eq!(place(&spans[2]), (0, 3, "No saved projects yet.        "));
}

#[test]
fn text_prompt_is_drawn() {
    let spans = draw_text_prompt("F9 mkdir", "Directory name", "ab", 30, 15);
    let texts: Vec<(u16, u16, &str)> = spans.iter().map(place).collect();
    assert_eq!(
        texts,
        vec![
            (0, 5, "F9 mkdir                      "),
            (0, 7, "Directory name: ab            "),
            (0, 9, "Enter confirms | Esc cancels  "),
        ]
    );
}

#[test]
fn spinner_turns() {
    let mut spinner = Spinner::new();
    assert_eq!(
        (0..5).map(|_| spinner.next()).collect::<String>(),
        "|/-\\|"
    );
    let spans = draw_spinner(&mut spinner, "Working", 19, 9);
    assert_eq!(place(&spans[0]), (5, 4, "/ Working"));
    assert_eq!(place(&spans[1]), (0, 8, "Please wait...     "));
    assert_eq!(spinner.frame, 6);
    let spans = draw_spinner(&mut spinner, "Working", 3, 9);
    assert_eq!(spans[0].x, 0);
}
