//! What the screens show, as pieces of text with a place and a style.

use crate::diff::{DiffRow, DiffRowView};
use crate::panel::{
    entry_status_for_panel, line_status, ActivePanel, BrowserPanel, FileStatus, FsEntry,
    FsEntryView, PanelView, TuiRow, TuiRowView,
};
use crate::path::{join_paths, path_join};
use crate::state::{State, StateView};
use crate::text::{
    align_right, blank, decimal, decimal_text, fit_text, fitted, right_aligned, spaces,
    views,
};
use vstd::prelude::*;
use vstd::string::StringExecFns;

verus! {

/// The colors that the screens use.
#[derive(Debug, Clone, Copy, PartialEq, Eq, Structural)]
pub enum Color {
    White,
    Cyan,
    Grey,
    DarkGrey,
    Red,
    Green,
    /// The color of the terminal itself.
    Plain,
}

/// A piece of text on a screen.
#[derive(Debug)]
pub struct Span {
    pub x: u16,
    pub y: u16,
    pub text: String,
    pub color: Color,
    pub bold: bool,
    pub reverse: bool,
}

/// A piece of text on a screen, as text.
pub struct SpanView {
    pub x: nat,
    pub y: nat,
    pub text: Seq<char>,
    pub color: Color,
    pub bold: bool,
    pub reverse: bool,
}

impl View for Span {
    type V = SpanView;

    open spec fn view(&self) -> SpanView {
        SpanView {
            x: self.x as nat,
            y: self.y as nat,
            text: self.text@,
            color: self.color,
            bold: self.bold,
            reverse: self.reverse,
        }
    }
}

/// A piece of text in a color.
pub open spec fn colored(x: nat, y: nat, text: Seq<char>, color: Color) -> SpanView {
    SpanView { x, y, text, color, bold: false, reverse: false }
}

/// A piece of bold text in a color.
pub open spec fn emphasized(x: nat, y: nat, text: Seq<char>, color: Color) -> SpanView {
    SpanView { x, y, text, color, bold: true, reverse: false }
}

/// A piece of text in a color, shown in reverse where it is selected.
pub open spec fn selectable(
    x: nat,
    y: nat,
    text: Seq<char>,
    color: Color,
    selected: bool,
) -> SpanView {
    SpanView { x, y, text, color, bold: false, reverse: selected }
}

/// All the pieces of a list of rows.
pub open spec fn stacked(rows: Seq<Seq<SpanView>>) -> Seq<SpanView>
    decreases rows.len(),
{
    if rows.len() == 0 {
        Seq::empty()
    } else {
        stacked(rows.drop_last()) + rows.last()
    }
}

/// `a - b`, or zero where that is negative.
pub open spec fn less(a: nat, b: nat) -> nat {
    if a <= b {
        0
    } else {
        (a - b) as nat
    }
}

/// How many rows are left for a list below three lines and above two.
pub open spec fn list_rows(height: nat) -> nat {
    less(height, 5)
}

/// The first line of a list that is shown: the selected line stands in the middle of the page, as
/// far as the ends of the list allow.
pub open spec fn first_shown(selected: nat, visible_rows: nat, total_rows: nat) -> nat {
    if visible_rows == 0 || total_rows <= visible_rows {
        0
    } else if less(selected, visible_rows / 2) <= total_rows - visible_rows {
        less(selected, visible_rows / 2)
    } else {
        (total_rows - visible_rows) as nat
    }
}

/// Finds the first line of a list to show.
pub fn scroll_top(selected: usize, visible_rows: usize, total_rows: usize) -> (top: usize)
    ensures
        top == first_shown(selected as nat, visible_rows as nat, total_rows as nat),
{
    if visible_rows == 0 || total_rows <= visible_rows {
        return 0;
    }
    let half_page: usize = visible_rows / 2;
    let wanted: usize = selected.saturating_sub(half_page);
    let last: usize = total_rows - visible_rows;
    if wanted <= last {
        wanted
    } else {
        last
    }
}

/// The selected line is always on the page, and the page is full when the list fills it.
pub proof fn law_selected_line_is_on_the_page(
    selected: nat,
    visible_rows: nat,
    total_rows: nat,
)
    requires
        selected < total_rows,
        visible_rows > 0,
    ensures
        ({
            let top = first_shown(selected, visible_rows, total_rows);
            &&& top <= selected < top + visible_rows
            &&& total_rows >= visible_rows ==> top + visible_rows <= total_rows
            &&& total_rows <= visible_rows ==> top == 0
        }),
{
}

/// The color of a file by how it compares.
pub open spec fn color_of(status: FileStatus) -> Color {
    match status {
        FileStatus::Same => Color::Green,
        FileStatus::New | FileStatus::Updated | FileStatus::Deleted => Color::Red,
    }
}

/// Chooses the color of a file by how it compares.
pub fn status_color(status: FileStatus) -> (color: Color)
    ensures
        color == color_of(status),
{
    match status {
        FileStatus::Same => Color::Green,
        FileStatus::New | FileStatus::Updated | FileStatus::Deleted => Color::Red,
    }
}

/// A blank line.
pub open spec fn cleared_line(y: nat, width: nat) -> SpanView {
    colored(0, y, spaces(width), Color::Plain)
}

/// Blanks a line.
pub fn clear_line(y: u16, width: u16) -> (span: Span)
    ensures
        span@ == cleared_line(y as nat, width as nat),
{
    Span {
        x: 0,
        y,
        text: blank(width as usize),
        color: Color::Plain,
        bold: false,
        reverse: false,
    }
}

/// Puts text in a color.
pub(crate) fn color_span(x: u16, y: u16, text: String, color: Color) -> (span: Span)
    ensures
        span@ == colored(x as nat, y as nat, text@, color),
{
    Span { x, y, text, color, bold: false, reverse: false }
}

/// Puts bold text in a color.
pub(crate) fn bold_span(x: u16, y: u16, text: String, color: Color) -> (span: Span)
    ensures
        span@ == emphasized(x as nat, y as nat, text@, color),
{
    Span { x, y, text, color, bold: true, reverse: false }
}

/// A folder, or a dash where it is not known.
pub open spec fn folder_or_dash(folder: Option<Seq<char>>) -> Seq<char> {
    match folder {
        Some(path) => path,
        None => "-"@,
    }
}

/// The title of the panels: both indexed folders.
pub open spec fn header_span(state: StateView, width: nat) -> SpanView {
    emphasized(
        0,
        0,
        fitted(
            "UPXTO  fresh: "@ + folder_or_dash(state.fresh_root) + "  |  production: "@
                + folder_or_dash(state.production_root),
            width,
        ),
        Color::White,
    )
}

/// Draws the title of the panels.
pub fn draw_header(state: &State, width: u16) -> (span: Span)
    ensures
        span@ == header_span(state@, width as nat),
{
    let production = match &state.production_root {
        Some(path) => path.as_str(),
        None => "-",
    };
    let fresh = match &state.fresh_root {
        Some(path) => path.as_str(),
        None => "-",
    };
    let title = "UPXTO  fresh: ".to_owned().concat(fresh).concat("  |  production: ").concat(
        production,
    );
    bold_span(0, 0, fit_text(title.as_str(), width as usize), Color::White)
}

/// The title of one panel.
pub open spec fn panel_header_span(x: nat, y: nat, width: nat, title: Seq<char>) -> SpanView {
    emphasized(x, y, fitted(" "@ + title + " "@, width), Color::Cyan)
}

/// Draws the title of one panel.
pub fn draw_panel_header(x: u16, y: u16, width: u16, title: &str) -> (span: Span)
    ensures
        span@ == panel_header_span(x as nat, y as nat, width as nat, title@),
{
    let label = " ".to_owned().concat(title).concat(" ");
    bold_span(x, y, fit_text(label.as_str(), width as usize), Color::Cyan)
}

/// The mark in front of a line of a panel.
pub open spec fn line_marker(is_dir: bool, status: Option<FileStatus>) -> Seq<char> {
    if is_dir {
        "/"@
    } else {
        match status {
            Some(FileStatus::New) => "+"@,
            Some(FileStatus::Updated) => "*"@,
            Some(FileStatus::Deleted) => "-"@,
            Some(FileStatus::Same) => " "@,
            None => " "@,
        }
    }
}

/// The color of a line of a panel.
pub open spec fn line_color(is_dir: bool, status: Option<FileStatus>) -> Color {
    if is_dir {
        Color::Cyan
    } else {
        match status {
            Some(known) => color_of(known),
            None => Color::Grey,
        }
    }
}

/// A line of a panel. A panel without width shows nothing.
pub open spec fn browser_cell(
    x: nat,
    y: nat,
    width: nat,
    line: FsEntryView,
    status: Option<FileStatus>,
    selected: bool,
) -> Seq<SpanView> {
    if width == 0 {
        Seq::empty()
    } else {
        seq![
            selectable(
                x,
                y,
                fitted(line_marker(line.is_dir, status) + " "@ + line.name, less(width, 1)),
                line_color(line.is_dir, status),
                selected,
            ),
        ]
    }
}

/// Draws a line of a panel.
pub fn draw_browser_cell(
    x: u16,
    y: u16,
    width: u16,
    entry: &FsEntry,
    status: Option<FileStatus>,
    selected: bool,
) -> (spans: Vec<Span>)
    ensures
        views(spans@) == browser_cell(
            x as nat,
            y as nat,
            width as nat,
            entry@,
            status,
            selected,
        ),
{
    let mut spans: Vec<Span> = Vec::new();
    if width > 0 {
        let marker = if entry.is_dir {
            "/"
        } else {
            match status {
                Some(FileStatus::New) => "+",
                Some(FileStatus::Updated) => "*",
                Some(FileStatus::Deleted) => "-",
                Some(FileStatus::Same) => " ",
                None => " ",
            }
        };
        let color = if entry.is_dir {
            Color::Cyan
        } else {
            match status {
                Some(known) => status_color(known),
                None => Color::Grey,
            }
        };
        let text = marker.to_owned().concat(" ").concat(entry.name.as_str());
        spans.push(
            Span {
                x,
                y,
                text: fit_text(text.as_str(), (width - 1) as usize),
                color,
                bold: false,
                reverse: selected,
            },
        );
    }
    assert(views(spans@) == browser_cell(
        x as nat,
        y as nat,
        width as nat,
        entry@,
        status,
        selected,
    ));
    spans
}

/// Line `place` of a panel in its half of the screen, if the panel has such a line.
pub open spec fn panel_cell(
    state: StateView,
    panel: ActivePanel,
    shown: PanelView,
    active: bool,
    x: nat,
    y: nat,
    width: nat,
    place: nat,
) -> Seq<SpanView> {
    if place < shown.entries.len() {
        let line = shown.entries[place as int];
        browser_cell(
            x,
            y,
            width,
            line,
            line_status(state, panel, line),
            active && place == shown.selected,
        )
    } else {
        Seq::empty()
    }
}

/// Draws a line of a panel in its half of the screen.
fn draw_panel_cell(
    state: &State,
    panel: ActivePanel,
    shown: &BrowserPanel,
    active: bool,
    x: u16,
    y: u16,
    width: u16,
    place: usize,
) -> (spans: Vec<Span>)
    requires
        state.wf(),
    ensures
        views(spans@) == panel_cell(
            state@,
            panel,
            shown@,
            active,
            x as nat,
            y as nat,
            width as nat,
            place as nat,
        ),
{
    if place < shown.entries.len() {
        let entry = &shown.entries[place];
        assert(shown@.entries[place as int] == entry@);
        let status = entry_status_for_panel(state, panel, entry);
        draw_browser_cell(x, y, width, entry, status, active && place == shown.selected)
    } else {
        let none: Vec<Span> = Vec::new();
        assert(views(none@) == Seq::<SpanView>::empty());
        none
    }
}

/// Row `row` of both panels.
pub open spec fn tui_row(
    state: StateView,
    left: PanelView,
    right: PanelView,
    active_panel: ActivePanel,
    width: nat,
    height: nat,
    row: nat,
) -> Seq<SpanView> {
    let rows = list_rows(height);
    let left_top = first_shown(left.selected, rows, left.entries.len());
    let right_top = first_shown(right.selected, rows, right.entries.len());
    seq![cleared_line(3 + row, width)] + panel_cell(
        state,
        ActivePanel::Left,
        left,
        active_panel == ActivePanel::Left,
        0,
        3 + row,
        width / 2,
        left_top + row,
    ) + panel_cell(
        state,
        ActivePanel::Right,
        right,
        active_panel == ActivePanel::Right,
        width / 2,
        3 + row,
        (width - width / 2) as nat,
        right_top + row,
    )
}

/// The keys that the last line of the panels names.
pub const FOOTER: &'static str =
    "F1 help | Tab panel | Enter open | Backspace/.. up | Ctrl+A fresh | Ctrl+S prod | F3 diff | F5 new | F6 update | F8 backup | F9 mkdir | ";

/// The two panels.
pub open spec fn tui_screen(
    state: StateView,
    left: PanelView,
    right: PanelView,
    active_panel: ActivePanel,
    message: Seq<char>,
    width: nat,
    height: nat,
) -> Seq<SpanView> {
    seq![
        header_span(state, width),
        panel_header_span(0, 2, width / 2, "Fresh "@ + left.current_dir),
        panel_header_span(
            width / 2,
            2,
            (width - width / 2) as nat,
            "Production "@ + right.current_dir,
        ),
    ] + stacked(
        Seq::new(
            list_rows(height),
            |row: int|
                tui_row(state, left, right, active_panel, width, height, row as nat),
        ),
    ) + seq![
        cleared_line(less(height, 1), width),
        colored(0, less(height, 1), fitted(FOOTER@ + message, width), Color::DarkGrey),
    ]
}

/// Draws the two panels.
pub fn draw_tui(
    state: &State,
    left: &BrowserPanel,
    right: &BrowserPanel,
    active_panel: ActivePanel,
    message: &str,
    width: u16,
    height: u16,
) -> (spans: Vec<Span>)
    requires
        state.wf(),
    ensures
        views(spans@) == tui_screen(
            state@,
            left@,
            right@,
            active_panel,
            message@,
            width as nat,
            height as nat,
        ),
{
    let left_width: u16 = width / 2;
    let right_width: u16 = width - left_width;
    let visible_rows: u16 = height.saturating_sub(5);
    let left_lines: usize = left.entries.len();
    let right_lines: usize = right.entries.len();
    let left_top: usize = scroll_top(left.selected, visible_rows as usize, left_lines);
    let right_top: usize = scroll_top(right.selected, visible_rows as usize, right_lines);
    let mut spans: Vec<Span> = Vec::new();
    spans.push(draw_header(state, width));
    spans.push(
        draw_panel_header(
            0,
            2,
            left_width,
            "Fresh ".to_owned().concat(left.current_dir.as_str()).as_str(),
        ),
    );
    spans.push(
        draw_panel_header(
            left_width,
            2,
            right_width,
            "Production ".to_owned().concat(right.current_dir.as_str()).as_str(),
        ),
    );
    let ghost head = views(spans@);
    let ghost row_of = |row: int|
        tui_row(state@, left@, right@, active_panel, width as nat, height as nat, row as nat);
    assert(head == seq![
        header_span(state@, width as nat),
        panel_header_span(0, 2, left_width as nat, "Fresh "@ + left@.current_dir),
        panel_header_span(
            left_width as nat,
            2,
            right_width as nat,
            "Production "@ + right@.current_dir,
        ),
    ]);
    assert(head + stacked(Seq::new(0, row_of)) == head);
    for row in 0..visible_rows
        invariant
            state.wf(),
            left_width == width / 2,
            right_width == width - left_width,
            visible_rows == list_rows(height as nat),
            left_lines == left@.entries.len(),
            right_lines == right@.entries.len(),
            left_top == first_shown(
                left@.selected,
                visible_rows as nat,
                left@.entries.len(),
            ),
            right_top == first_shown(
                right@.selected,
                visible_rows as nat,
                right@.entries.len(),
            ),
            row_of == (|row: int|
                tui_row(
                    state@,
                    left@,
                    right@,
                    active_panel,
                    width as nat,
                    height as nat,
                    row as nat,
                )),
            views(spans@) == head + stacked(Seq::new(row as nat, row_of)),
    {
        let y: u16 = 3 + row;
        let ghost before = views(spans@);
        let mut line: Vec<Span> = Vec::new();
        line.push(clear_line(y, width));
        let mut left_cell = draw_panel_cell(
            state,
            ActivePanel::Left,
            left,
            active_panel == ActivePanel::Left,
            0,
            y,
            left_width,
            left_top + row as usize,
        );
        let mut right_cell = draw_panel_cell(
            state,
            ActivePanel::Right,
            right,
            active_panel == ActivePanel::Right,
            left_width,
            y,
            right_width,
            right_top + row as usize,
        );
        let ghost cells = seq![cleared_line(y as nat, width as nat)] + views(left_cell@) + views(
            right_cell@,
        );
        line.append(&mut left_cell);
        line.append(&mut right_cell);
        assert(views(line@) == cells);
        spans.append(&mut line);
        assert(views(spans@) == before + cells);
        assert(cells == row_of(row as int));
        assert(Seq::new((row + 1) as nat, row_of).drop_last() == Seq::new(row as nat, row_of));
        assert(views(spans@) == head + stacked(Seq::new((row + 1) as nat, row_of)));
    }
    let ghost body = views(spans@);
    let footer_y: u16 = height.saturating_sub(1);
    spans.push(clear_line(footer_y, width));
    let footer = FOOTER.to_owned().concat(message);
    spans.push(
        color_span(0, footer_y, fit_text(footer.as_str(), width as usize), Color::DarkGrey),
    );
    assert(views(spans@) == body + seq![
        cleared_line(footer_y as nat, width as nat),
        colored(
            0,
            footer_y as nat,
            fitted(FOOTER@ + message@, width as nat),
            Color::DarkGrey,
        ),
    ]);
    assert(Seq::new(
        list_rows(height as nat),
        |row: int|
            tui_row(state@, left@, right@, active_panel, width as nat, height as nat, row as nat),
    ) == Seq::new(visible_rows as nat, row_of));
    spans
}

/// Every piece of every row is among the pieces of the rows.
pub proof fn lemma_stacked_holds(rows: Seq<Seq<SpanView>>, row: int, i: int)
    requires
        0 <= row < rows.len(),
        0 <= i < rows[row].len(),
    ensures
        stacked(rows).contains(rows[row][i]),
    decreases rows.len(),
{
    let above = stacked(rows.drop_last());
    if row == rows.len() - 1 {
        assert(stacked(rows)[above.len() + i] == rows[row][i]);
    } else {
        lemma_stacked_holds(rows.drop_last(), row, i);
        let k = above.index_of(rows[row][i]);
        assert(stacked(rows)[k] == rows[row][i]);
    }
}

/// The pieces of the rows come from the rows.
proof fn lemma_stacked_comes_from_rows(rows: Seq<Seq<SpanView>>, piece: SpanView)
    requires
        stacked(rows).contains(piece),
    ensures
        exists|row: int| 0 <= row < rows.len() && (#[trigger] rows[row]).contains(piece),
    decreases rows.len(),
{
    if rows.len() > 0 {
        let above = stacked(rows.drop_last());
        let k = stacked(rows).index_of(piece);
        if k < above.len() {
            assert(above[k] == piece);
            lemma_stacked_comes_from_rows(rows.drop_last(), piece);
            let row = choose|row: int|
                0 <= row < rows.drop_last().len() && (#[trigger] rows.drop_last()[row]).contains(
                    piece,
                );
            assert(rows[row].contains(piece));
        } else {
            assert(rows.last()[k - above.len()] == piece);
            assert(rows[rows.len() - 1].contains(piece));
        }
    }
}

/// The line under the cursor of the active panel, as the panels show it.
pub open spec fn selected_cell(
    state: StateView,
    left: PanelView,
    right: PanelView,
    active_panel: ActivePanel,
    width: nat,
    height: nat,
) -> SpanView {
    let (shown, x, columns) = match active_panel {
        ActivePanel::Left => (left, 0nat, width / 2),
        ActivePanel::Right => (right, width / 2, (width - width / 2) as nat),
    };
    let line = shown.entries[shown.selected as int];
    let status = line_status(state, active_panel, line);
    let top = first_shown(shown.selected, list_rows(height), shown.entries.len());
    selectable(
        x,
        (3 + shown.selected - top) as nat,
        fitted(line_marker(line.is_dir, status) + " "@ + line.name, less(columns, 1)),
        line_color(line.is_dir, status),
        true,
    )
}

/// The panels show exactly the line under the cursor of the active panel in reverse, wherever there
/// is room for it.
pub proof fn law_only_the_selected_line_is_reversed(
    state: StateView,
    left: PanelView,
    right: PanelView,
    active_panel: ActivePanel,
    message: Seq<char>,
    width: nat,
    height: nat,
)
    requires
        height > 5,
        active_panel == ActivePanel::Left ==> width >= 2 && left.selected < left.entries.len(),
        active_panel == ActivePanel::Right ==> width >= 1 && right.selected < right.entries.len(),
    ensures
        ({
            let screen = tui_screen(state, left, right, active_panel, message, width, height);
            let cell = selected_cell(state, left, right, active_panel, width, height);
            &&& screen.contains(cell)
            &&& forall|i: int|
                0 <= i < screen.len() && (#[trigger] screen[i]).reverse ==> screen[i] == cell
        }),
{
    let screen = tui_screen(state, left, right, active_panel, message, width, height);
    let cell = selected_cell(state, left, right, active_panel, width, height);
    let count = list_rows(height);
    let rows = Seq::new(
        count,
        |row: int| tui_row(state, left, right, active_panel, width, height, row as nat),
    );
    let shown = if active_panel == ActivePanel::Left {
        left
    } else {
        right
    };
    let top = first_shown(shown.selected, count, shown.entries.len());
    law_selected_line_is_on_the_page(shown.selected, count, shown.entries.len());
    let row = shown.selected - top;
    let at = rows[row].len() - 1;
    let place = if active_panel == ActivePanel::Left {
        1int
    } else {
        at
    };
    assert(rows[row][place] == cell);
    lemma_stacked_holds(rows, row, place);
    let k = stacked(rows).index_of(cell);
    assert(screen[3 + k] == cell);
    assert forall|i: int| 0 <= i < screen.len() && (#[trigger] screen[i]).reverse implies screen[i]
        == cell by {
        if 3 <= i < 3 + stacked(rows).len() {
            assert(stacked(rows)[i - 3] == screen[i]);
            lemma_stacked_comes_from_rows(rows, screen[i]);
            let other = choose|other: int|
                0 <= other < rows.len() && (#[trigger] rows[other]).contains(screen[i]);
            let j = rows[other].index_of(screen[i]);
            assert(rows[other][j] == screen[i]);
        }
    }
}

/// A file below a folder, or a dash where the folder is not known.
pub open spec fn file_or_dash(folder: Option<Seq<char>>, path: Seq<char>) -> Seq<char> {
    match folder {
        Some(root) => path_join(root, path),
        None => "-"@,
    }
}

/// The title of a comparison: both files.
pub open spec fn diff_header_span(state: StateView, path: Seq<char>, width: nat) -> SpanView {
    emphasized(
        0,
        0,
        fitted(
            "UPXTO F3 diff  fresh: "@ + file_or_dash(state.fresh_root, path)
                + "  |  production: "@ + file_or_dash(state.production_root, path),
            width,
        ),
        Color::White,
    )
}

/// Draws the title of a comparison.
pub fn draw_diff_header(state: &State, path: &str, width: u16) -> (span: Span)
    ensures
        span@ == diff_header_span(state@, path@, width as nat),
{
    let fresh = match &state.fresh_root {
        Some(root) => join_paths(root.as_str(), path),
        None => "-".to_owned(),
    };
    let production = match &state.production_root {
        Some(root) => join_paths(root.as_str(), path),
        None => "-".to_owned(),
    };
    let title = "UPXTO F3 diff  fresh: ".to_owned().concat(fresh.as_str()).concat(
        "  |  production: ",
    ).concat(production.as_str());
    bold_span(0, 0, fit_text(title.as_str(), width as usize), Color::White)
}

/// A line of a compared file with its number.
pub open spec fn diff_line(line_number: Option<nat>, text: Seq<char>, changed: bool) -> Seq<char> {
    let marker = if changed {
        "!"@
    } else {
        " "@
    };
    let number = match line_number {
        Some(value) => decimal(value),
        None => "-"@,
    };
    let start = marker + right_aligned(number, 5) + " |"@;
    if text.len() == 0 {
        start
    } else {
        start + " "@ + text
    }
}

/// A line of one side of a comparison. A side without width shows nothing.
pub open spec fn diff_cell(
    x: nat,
    y: nat,
    width: nat,
    line_number: Option<nat>,
    text: Seq<char>,
    changed: bool,
    selected: bool,
) -> Seq<SpanView> {
    if width == 0 {
        Seq::empty()
    } else {
        seq![
            selectable(
                x,
                y,
                fitted(diff_line(line_number, text, changed), less(width, 1)),
                if changed {
                    Color::Red
                } else {
                    Color::Green
                },
                selected,
            ),
        ]
    }
}

/// Draws a line of one side of a comparison.
pub fn draw_diff_cell(
    x: u16,
    y: u16,
    width: u16,
    line_number: Option<usize>,
    text: &str,
    changed: bool,
    selected: bool,
) -> (spans: Vec<Span>)
    ensures
        views(spans@) == diff_cell(
            x as nat,
            y as nat,
            width as nat,
            crate::diff::line_number(line_number),
            text@,
            changed,
            selected,
        ),
{
    let mut spans: Vec<Span> = Vec::new();
    if width > 0 {
        let color = if changed {
            Color::Red
        } else {
            Color::Green
        };
        let marker = if changed {
            "!"
        } else {
            " "
        };
        let number = match line_number {
            Some(value) => decimal_text(value as u64),
            None => "-".to_owned(),
        };
        let start = marker.to_owned().concat(align_right(number.as_str(), 5).as_str()).concat(
            " |",
        );
        let line = if text.is_empty() {
            start
        } else {
            start.concat(" ").concat(text)
        };
        spans.push(
            Span {
                x,
                y,
                text: fit_text(line.as_str(), (width - 1) as usize),
                color,
                bold: false,
                reverse: selected,
            },
        );
    }
    assert(views(spans@) == diff_cell(
        x as nat,
        y as nat,
        width as nat,
        crate::diff::line_number(line_number),
        text@,
        changed,
        selected,
    ));
    spans
}

/// A line, or nothing where the side has none.
pub open spec fn line_or_nothing(line: Option<Seq<char>>) -> Seq<char> {
    match line {
        Some(text) => text,
        None => ""@,
    }
}

/// Row `row` of a comparison.
pub open spec fn diff_screen_row(
    diff_rows: Seq<DiffRowView>,
    selected: nat,
    width: nat,
    height: nat,
    row: nat,
) -> Seq<SpanView> {
    let place = first_shown(selected, list_rows(height), diff_rows.len()) + row;
    let cells = if place < diff_rows.len() {
        let shown = diff_rows[place as int];
        diff_cell(
            0,
            3 + row,
            width / 2,
            shown.fresh_line,
            line_or_nothing(shown.fresh),
            shown.changed,
            place == selected,
        ) + diff_cell(
            width / 2,
            3 + row,
            (width - width / 2) as nat,
            shown.production_line,
            line_or_nothing(shown.production),
            shown.changed,
            place == selected,
        )
    } else {
        Seq::empty()
    };
    seq![cleared_line(3 + row, width)] + cells
}

/// The path that names a row.
pub open spec fn row_path(row: TuiRowView) -> Seq<char> {
    match (row.fresh_path, row.production_path) {
        (Some(path), _) => path,
        (None, Some(path)) => path,
        (None, None) => "(unknown)"@,
    }
}

/// The keys that the last line of a comparison names.
pub const DIFF_FOOTER: &'static str =
    "Diff view | F1 help | F7 about | Arrows scroll | PgUp/PgDn | Home/End | F3/q/Esc back | ";

/// A comparison of two files.
pub open spec fn diff_screen(
    state: StateView,
    row: TuiRowView,
    diff_rows: Seq<DiffRowView>,
    selected: nat,
    width: nat,
    height: nat,
) -> Seq<SpanView> {
    seq![
        diff_header_span(state, row_path(row), width),
        panel_header_span(0, 2, width / 2, "Fresh"@),
        panel_header_span(width / 2, 2, (width - width / 2) as nat, "Production"@),
    ] + stacked(
        Seq::new(
            list_rows(height),
            |row: int| diff_screen_row(diff_rows, selected, width, height, row as nat),
        ),
    ) + seq![
        cleared_line(less(height, 1), width),
        colored(
            0,
            less(height, 1),
            DIFF_FOOTER@ + decimal(diff_rows.len()) + " lines"@,
            Color::DarkGrey,
        ),
    ]
}

/// Draws both sides of one row of a comparison.
fn draw_diff_row(
    diff_row: &DiffRow,
    y: u16,
    left_width: u16,
    right_width: u16,
    selected: bool,
) -> (spans: Vec<Span>)
    ensures
        views(spans@) == diff_cell(
            0,
            y as nat,
            left_width as nat,
            diff_row@.fresh_line,
            line_or_nothing(diff_row@.fresh),
            diff_row@.changed,
            selected,
        ) + diff_cell(
            left_width as nat,
            y as nat,
            right_width as nat,
            diff_row@.production_line,
            line_or_nothing(diff_row@.production),
            diff_row@.changed,
            selected,
        ),
{
    let fresh = match &diff_row.fresh {
        Some(text) => text.as_str(),
        None => "",
    };
    let production = match &diff_row.production {
        Some(text) => text.as_str(),
        None => "",
    };
    let mut spans = draw_diff_cell(
        0,
        y,
        left_width,
        diff_row.fresh_line,
        fresh,
        diff_row.changed,
        selected,
    );
    let ghost first = views(spans@);
    let mut second = draw_diff_cell(
        left_width,
        y,
        right_width,
        diff_row.production_line,
        production,
        diff_row.changed,
        selected,
    );
    let ghost last = views(second@);
    spans.append(&mut second);
    assert(views(spans@) == first + last);
    spans
}

/// Draws a comparison of two files.
pub fn draw_diff_view(
    state: &State,
    row: &TuiRow,
    diff_rows: &[DiffRow],
    selected: usize,
    width: u16,
    height: u16,
) -> (spans: Vec<Span>)
    ensures
        views(spans@) == diff_screen(
            state@,
            row@,
            views(diff_rows@),
            selected as nat,
            width as nat,
            height as nat,
        ),
{
    let ghost all = views(diff_rows@);
    let left_width: u16 = width / 2;
    let right_width: u16 = width - left_width;
    let visible_rows: u16 = height.saturating_sub(5);
    let total: usize = diff_rows.len();
    let top: usize = scroll_top(selected, visible_rows as usize, total);
    let path = match (&row.fresh_path, &row.production_path) {
        (Some(name), _) => name.as_str(),
        (None, Some(name)) => name.as_str(),
        (None, None) => "(unknown)",
    };
    let mut spans: Vec<Span> = Vec::new();
    spans.push(draw_diff_header(state, path, width));
    spans.push(draw_panel_header(0, 2, left_width, "Fresh"));
    spans.push(draw_panel_header(left_width, 2, right_width, "Production"));
    let ghost head = views(spans@);
    let ghost shown_row = |row: int|
        diff_screen_row(all, selected as nat, width as nat, height as nat, row as nat);
    assert(head == seq![
        diff_header_span(state@, row_path(row@), width as nat),
        panel_header_span(0, 2, left_width as nat, "Fresh"@),
        panel_header_span(left_width as nat, 2, right_width as nat, "Production"@),
    ]);
    assert(head + stacked(Seq::new(0, shown_row)) == head);
    for screen_row in 0..visible_rows
        invariant
            all == views(diff_rows@),
            total == all.len(),
            left_width == width / 2,
            right_width == width - left_width,
            visible_rows == list_rows(height as nat),
            top == first_shown(selected as nat, visible_rows as nat, all.len()),
            shown_row == (|row: int|
                diff_screen_row(all, selected as nat, width as nat, height as nat, row as nat)),
            views(spans@) == head + stacked(Seq::new(screen_row as nat, shown_row)),
    {
        let place: usize = top + screen_row as usize;
        let y: u16 = 3 + screen_row;
        let ghost before = views(spans@);
        let ghost cells = shown_row(screen_row as int);
        spans.push(clear_line(y, width));
        assert(views(spans@) == before.push(cleared_line(y as nat, width as nat)));
        let ghost cleared = views(spans@);
        if place < total {
            assert(all[place as int] == diff_rows@[place as int]@);
            let mut line = draw_diff_row(
                &diff_rows[place],
                y,
                left_width,
                right_width,
                place == selected,
            );
            let ghost drawn = views(line@);
            spans.append(&mut line);
            assert(views(spans@) == cleared + drawn);
        }
        assert(views(spans@) == before + cells);
        assert(Seq::new((screen_row + 1) as nat, shown_row).drop_last() == Seq::new(
            screen_row as nat,
            shown_row,
        ));
        assert(views(spans@) == head + stacked(Seq::new((screen_row + 1) as nat, shown_row)));
    }
    let ghost body = views(spans@);
    let footer_y: u16 = height.saturating_sub(1);
    spans.push(clear_line(footer_y, width));
    let footer = DIFF_FOOTER.to_owned().concat(decimal_text(total as u64).as_str()).concat(
        " lines",
    );
    spans.push(color_span(0, footer_y, footer, Color::DarkGrey));
    assert(views(spans@) == body + seq![
        cleared_line(footer_y as nat, width as nat),
        colored(
            0,
            footer_y as nat,
            DIFF_FOOTER@ + decimal(all.len()) + " lines"@,
            Color::DarkGrey,
        ),
    ]);
    spans
}

/// The selected line stands in the middle of the page, except near the ends of the list: there the
/// page shows the first lines, or the last.
pub proof fn law_selected_line_stands_in_the_middle(
    selected: nat,
    visible_rows: nat,
    total_rows: nat,
)
    requires
        selected < total_rows,
        0 < visible_rows <= total_rows,
    ensures
        ({
            let top = first_shown(selected, visible_rows, total_rows);
            let half = visible_rows / 2;
            &&& top > 0 && top + visible_rows < total_rows ==> selected - top == half
            &&& selected <= half ==> top == 0
            &&& selected + visible_rows - half >= total_rows ==> top + visible_rows == total_rows
        }),
{
}

/// A line of a panel shows a mark, a space and the name, in a color: folders `/` in cyan, new files
/// `+`, updated ones `*` and deleted ones `-` in red, equal ones without a mark in green, and unknown
/// ones without a mark in grey.
pub proof fn law_marks_and_colors_of_lines(
    x: nat,
    y: nat,
    width: nat,
    line: FsEntryView,
    status: Option<FileStatus>,
    selected: bool,
)
    requires
        width > 0,
    ensures
        ({
            let (mark, color) = if line.is_dir {
                ('/', Color::Cyan)
            } else if status == Some(FileStatus::New) {
                ('+', Color::Red)
            } else if status == Some(FileStatus::Updated) {
                ('*', Color::Red)
            } else if status == Some(FileStatus::Deleted) {
                ('-', Color::Red)
            } else if status == Some(FileStatus::Same) {
                (' ', Color::Green)
            } else {
                (' ', Color::Grey)
            };
            browser_cell(x, y, width, line, status, selected) == seq![
                SpanView {
                    x,
                    y,
                    text: fitted(seq![mark, ' '] + line.name, (width - 1) as nat),
                    color,
                    bold: false,
                    reverse: selected,
                },
            ]
        }),
{
    reveal_strlit("/");
    reveal_strlit("+");
    reveal_strlit("*");
    reveal_strlit("-");
    reveal_strlit(" ");
    assert("/"@ == seq!['/'] && "+"@ == seq!['+'] && "*"@ == seq!['*'] && "-"@ == seq!['-'] && " "@
        == seq![' ']);
    let marker = line_marker(line.is_dir, status);
    assert(marker.len() == 1);
    assert(marker + " "@ + line.name == seq![marker[0], ' '] + line.name);
}

/// Every line on the page of a panel is drawn on its row, in the half of the screen that is the
/// panel's.
pub proof fn law_lines_on_the_page_are_drawn(
    state: StateView,
    left: PanelView,
    right: PanelView,
    active_panel: ActivePanel,
    message: Seq<char>,
    width: nat,
    height: nat,
    row: nat,
)
    requires
        width >= 2,
        height > 5,
        row < height - 5,
    ensures
        ({
            let screen = tui_screen(state, left, right, active_panel, message, width, height);
            let left_place = first_shown(left.selected, (height - 5) as nat, left.entries.len())
                + row;
            let right_place = first_shown(right.selected, (height - 5) as nat, right.entries.len())
                + row;
            &&& left_place < left.entries.len() ==> screen.contains(
                browser_cell(
                    0,
                    3 + row,
                    width / 2,
                    left.entries[left_place as int],
                    line_status(state, ActivePanel::Left, left.entries[left_place as int]),
                    active_panel == ActivePanel::Left && left_place == left.selected,
                )[0],
            )
            &&& right_place < right.entries.len() ==> screen.contains(
                browser_cell(
                    width / 2,
                    3 + row,
                    (width - width / 2) as nat,
                    right.entries[right_place as int],
                    line_status(state, ActivePanel::Right, right.entries[right_place as int]),
                    active_panel == ActivePanel::Right && right_place == right.selected,
                )[0],
            )
        }),
{
    let screen = tui_screen(state, left, right, active_panel, message, width, height);
    let count = list_rows(height);
    let rows = Seq::new(
        count,
        |row: int| tui_row(state, left, right, active_panel, width, height, row as nat),
    );
    let left_place = first_shown(left.selected, count, left.entries.len()) + row;
    let right_place = first_shown(right.selected, count, right.entries.len()) + row;
    let cells = rows[row as int];
    if left_place < left.entries.len() {
        lemma_stacked_holds(rows, row as int, 1);
        let k = stacked(rows).index_of(cells[1]);
        assert(screen[3 + k] == cells[1]);
    }
    if right_place < right.entries.len() {
        let last = cells.len() - 1;
        lemma_stacked_holds(rows, row as int, last);
        let k = stacked(rows).index_of(cells[last]);
        assert(screen[3 + k] == cells[last]);
    }
}

/// The panels have the two indexed folders as their title, the two shown folders as the titles of
/// their halves, and the keys and the last message at the bottom.
pub proof fn law_panels_name_folders_and_message(
    state: StateView,
    left: PanelView,
    right: PanelView,
    active_panel: ActivePanel,
    message: Seq<char>,
    width: nat,
    height: nat,
)
    ensures
        ({
            let screen = tui_screen(state, left, right, active_panel, message, width, height);
            let fresh = if state.fresh_root is Some {
                state.fresh_root->0
            } else {
                seq!['-']
            };
            let production = if state.production_root is Some {
                state.production_root->0
            } else {
                seq!['-']
            };
            &&& screen.len() >= 5
            &&& screen[0].text == fitted(
                "UPXTO  fresh: "@ + fresh + "  |  production: "@ + production,
                width,
            )
            &&& screen[1].text == fitted(
                seq![' '] + ("Fresh "@ + left.current_dir) + seq![' '],
                width / 2,
            )
            &&& screen[2].text == fitted(
                seq![' '] + ("Production "@ + right.current_dir) + seq![' '],
                (width - width / 2) as nat,
            )
            &&& screen[1].x == 0 && screen[2].x == width / 2
            &&& screen[0].y == 0 && screen[1].y == 2 && screen[2].y == 2
            &&& screen[screen.len() - 1].text == fitted(FOOTER@ + message, width)
            &&& height > 0 ==> screen[screen.len() - 1].y == height - 1
        }),
{
    reveal_strlit("-");
    reveal_strlit(" ");
    assert("-"@ == seq!['-'] && " "@ == seq![' ']);
}

/// Whether a piece of text stands on a screen of some width.
pub open spec fn fits_in_width(piece: SpanView, width: nat) -> bool {
    piece.x + piece.text.len() <= width
}

/// The panels never draw beyond the right edge, and their lines stay between the titles and the last
/// line.
pub proof fn law_panels_stay_on_the_screen(
    state: StateView,
    left: PanelView,
    right: PanelView,
    active_panel: ActivePanel,
    message: Seq<char>,
    width: nat,
    height: nat,
)
    ensures
        ({
            let screen = tui_screen(state, left, right, active_panel, message, width, height);
            &&& forall|i: int|
                0 <= i < screen.len() ==> fits_in_width(#[trigger] screen[i], width)
            &&& forall|i: int|
                3 <= i < screen.len() - 2 ==> 3 <= (#[trigger] screen[i]).y < height - 2
        }),
{
    let screen = tui_screen(state, left, right, active_panel, message, width, height);
    let count = list_rows(height);
    let rows = Seq::new(
        count,
        |row: int| tui_row(state, left, right, active_panel, width, height, row as nat),
    );
    assert forall|i: int| 3 <= i < screen.len() - 2 implies fits_in_width(
        #[trigger] screen[i],
        width,
    ) && 3 <= screen[i].y < height - 2 by {
        assert(stacked(rows)[i - 3] == screen[i]);
        lemma_stacked_comes_from_rows(rows, screen[i]);
        let row = choose|row: int|
            0 <= row < rows.len() && (#[trigger] rows[row]).contains(screen[i]);
        let j = rows[row].index_of(screen[i]);
        assert(rows[row][j] == screen[i]);
    }
    assert forall|i: int| 0 <= i < screen.len() implies fits_in_width(
        #[trigger] screen[i],
        width,
    ) by {
        if i == 0 {
            assert(screen[i] == header_span(state, width));
        }
    }
}

/// A line of a compared file shows `!` in red where it changed and is green where it did not, then
/// the number of the line at the right end of five columns, a bar and the text.
pub proof fn law_changed_lines_are_marked(
    x: nat,
    y: nat,
    width: nat,
    line_number: Option<nat>,
    text: Seq<char>,
    changed: bool,
    selected: bool,
)
    requires
        width > 0,
    ensures
        ({
            let mark = if changed {
                '!'
            } else {
                ' '
            };
            let number = if line_number is Some {
                decimal(line_number->0)
            } else {
                seq!['-']
            };
            let rest = if text.len() == 0 {
                seq![' ', '|']
            } else {
                seq![' ', '|', ' '] + text
            };
            diff_cell(x, y, width, line_number, text, changed, selected) == seq![
                SpanView {
                    x,
                    y,
                    text: fitted(
                        seq![mark] + right_aligned(number, 5) + rest,
                        (width - 1) as nat,
                    ),
                    color: if changed {
                        Color::Red
                    } else {
                        Color::Green
                    },
                    bold: false,
                    reverse: selected,
                },
            ]
        }),
{
    reveal_strlit("!");
    reveal_strlit(" ");
    reveal_strlit("-");
    reveal_strlit(" |");
    assert("!"@ == seq!['!'] && " "@ == seq![' '] && "-"@ == seq!['-'] && " |"@ == seq![' ', '|']);
    let mark = if changed {
        '!'
    } else {
        ' '
    };
    let number = if line_number is Some {
        decimal(line_number->0)
    } else {
        seq!['-']
    };
    let start = seq![mark] + right_aligned(number, 5);
    assert(start + " |"@ + " "@ + text == start + (seq![' ', '|', ' '] + text));
}

/// Every row on the page of a comparison is drawn with both its sides next to each other, each with
/// its number and text, and only the row under the cursor in reverse.
pub proof fn law_compared_rows_on_the_page_are_drawn(
    state: StateView,
    file: TuiRowView,
    diff_rows: Seq<DiffRowView>,
    selected: nat,
    width: nat,
    height: nat,
    row: nat,
)
    requires
        width >= 2,
        height > 5,
        row < height - 5,
        first_shown(selected, (height - 5) as nat, diff_rows.len()) + row < diff_rows.len(),
    ensures
        ({
            let screen = diff_screen(state, file, diff_rows, selected, width, height);
            let place = first_shown(selected, (height - 5) as nat, diff_rows.len()) + row;
            let shown = diff_rows[place as int];
            let fresh = if shown.fresh is Some {
                shown.fresh->0
            } else {
                Seq::empty()
            };
            let production = if shown.production is Some {
                shown.production->0
            } else {
                Seq::empty()
            };
            &&& screen.contains(
                diff_cell(
                    0,
                    3 + row,
                    width / 2,
                    shown.fresh_line,
                    fresh,
                    shown.changed,
                    place == selected,
                )[0],
            )
            &&& screen.contains(
                diff_cell(
                    width / 2,
                    3 + row,
                    (width - width / 2) as nat,
                    shown.production_line,
                    production,
                    shown.changed,
                    place == selected,
                )[0],
            )
        }),
{
    reveal_strlit("");
    assert(""@ == Seq::<char>::empty());
    let screen = diff_screen(state, file, diff_rows, selected, width, height);
    let count = list_rows(height);
    let rows = Seq::new(
        count,
        |row: int| diff_screen_row(diff_rows, selected, width, height, row as nat),
    );
    let cells = rows[row as int];
    lemma_stacked_holds(rows, row as int, 1);
    let k = stacked(rows).index_of(cells[1]);
    assert(screen[3 + k] == cells[1]);
    lemma_stacked_holds(rows, row as int, 2);
    let m = stacked(rows).index_of(cells[2]);
    assert(screen[3 + m] == cells[2]);
}

/// A comparison has the full paths of both files as its title and says how many rows it has.
pub proof fn law_comparison_names_both_files(
    state: StateView,
    file: TuiRowView,
    diff_rows: Seq<DiffRowView>,
    selected: nat,
    width: nat,
    height: nat,
    path: Seq<char>,
)
    requires
        file.fresh_path == Some(path) || file.fresh_path is None && file.production_path == Some(
            path,
        ),
    ensures
        ({
            let screen = diff_screen(state, file, diff_rows, selected, width, height);
            let fresh = if state.fresh_root is Some {
                path_join(state.fresh_root->0, path)
            } else {
                seq!['-']
            };
            let production = if state.production_root is Some {
                path_join(state.production_root->0, path)
            } else {
                seq!['-']
            };
            &&& screen.len() >= 5
            &&& screen[0].text == fitted(
                "UPXTO F3 diff  fresh: "@ + fresh + "  |  production: "@ + production,
                width,
            )
            &&& screen[screen.len() - 1].text == DIFF_FOOTER@ + decimal(diff_rows.len())
                + " lines"@
        }),
{
    reveal_strlit("-");
    assert("-"@ == seq!['-']);
}

/// Whether two pieces of text share a place on the screen.
pub open spec fn overlap(a: SpanView, b: SpanView) -> bool {
    &&& a.y == b.y
    &&& a.x < b.x + b.text.len()
    &&& b.x < a.x + a.text.len()
}

/// Whether a text is made of spaces.
pub open spec fn is_blank(text: Seq<char>) -> bool {
    forall|i: int| 0 <= i < text.len() ==> #[trigger] text[i] == ' '
}

/// Whether a piece of text stays visible under those that are drawn after it: they cover it only where
/// it is blank.
pub open spec fn nothing_is_covered(pieces: Seq<SpanView>) -> bool {
    forall|i: int, j: int|
        0 <= i < j < pieces.len() && overlap(#[trigger] pieces[i], #[trigger] pieces[j])
            ==> is_blank(pieces[i].text)
}

/// Whether the pieces of every row stand on the line of the row.
pub open spec fn rows_have_their_lines(rows: Seq<Seq<SpanView>>) -> bool {
    forall|row: int, k: int|
        0 <= row < rows.len() && 0 <= k < rows[row].len() ==> (#[trigger] rows[row][k]).y == 3 + row
}

/// Rows on lines of their own do not cover one another.
pub proof fn lemma_rows_do_not_cover_one_another(rows: Seq<Seq<SpanView>>)
    requires
        rows_have_their_lines(rows),
        forall|row: int| 0 <= row < rows.len() ==> nothing_is_covered(#[trigger] rows[row]),
    ensures
        nothing_is_covered(stacked(rows)),
        forall|i: int|
            0 <= i < stacked(rows).len() ==> 3 <= (#[trigger] stacked(rows)[i]).y < 3 + rows.len(),
    decreases rows.len(),
{
    if rows.len() > 0 {
        let front = rows.drop_last();
        let last = rows.last();
        assert forall|row: int, k: int| 0 <= row < front.len() && 0 <= k < front[row].len() implies (
        #[trigger] front[row][k]).y == 3 + row by {
            assert(front[row][k] == rows[row][k]);
        }
        assert forall|row: int| 0 <= row < front.len() implies nothing_is_covered(
            #[trigger] front[row],
        ) by {
            assert(front[row] == rows[row]);
        }
        lemma_rows_do_not_cover_one_another(front);
        let above = stacked(front);
        let all = stacked(rows);
        let place = rows.len() - 1;
        assert(all == above + last);
        assert(nothing_is_covered(rows[place]));
        assert forall|i: int| above.len() <= i < all.len() implies (#[trigger] all[i]).y == 3
            + place by {
            assert(all[i] == rows[place][i - above.len()]);
        }
        assert forall|i: int, j: int|
            0 <= i < j < all.len() && overlap(#[trigger] all[i], #[trigger] all[j]) implies is_blank(
            all[i].text,
        ) by {
            if j < above.len() {
                assert(above[i] == all[i] && above[j] == all[j]);
            } else if i < above.len() {
                assert(above[i] == all[i]);
            } else {
                assert(last[i - above.len()] == all[i] && last[j - above.len()] == all[j]);
            }
        }
        assert forall|i: int| 0 <= i < all.len() implies 3 <= (#[trigger] all[i]).y < 3
            + rows.len() by {
            if i < above.len() {
                assert(above[i] == all[i]);
            }
        }
    }
}

/// A screen of titles, lines and a last line covers nothing when its parts do not.
proof fn lemma_parts_do_not_cover_one_another(
    head: Seq<SpanView>,
    body: Seq<SpanView>,
    foot: Seq<SpanView>,
    end: nat,
)
    requires
        nothing_is_covered(head),
        nothing_is_covered(body),
        nothing_is_covered(foot),
        end >= 3,
        forall|i: int| 0 <= i < head.len() ==> (#[trigger] head[i]).y < 3,
        forall|i: int| 0 <= i < body.len() ==> 3 <= (#[trigger] body[i]).y < end,
        forall|i: int| 0 <= i < foot.len() ==> (#[trigger] foot[i]).y == end,
    ensures
        nothing_is_covered(head + body + foot),
{
    let all = head + body + foot;
    assert forall|i: int, j: int|
        0 <= i < j < all.len() && overlap(#[trigger] all[i], #[trigger] all[j]) implies is_blank(
        all[i].text,
    ) by {
        let first = head.len() as int;
        let second = first + body.len();
        if i < first {
            assert(head[i] == all[i]);
        } else if i < second {
            assert(body[i - first] == all[i]);
        } else {
            assert(foot[i - second] == all[i]);
        }
        if j < first {
            assert(head[j] == all[j]);
        } else if j < second {
            assert(body[j - first] == all[j]);
        } else {
            assert(foot[j - second] == all[j]);
        }
    }
}

/// The panels cover nothing that they have drawn, except blank lines, on every screen of four lines or
/// more.
pub proof fn law_panels_cover_nothing(
    state: StateView,
    left: PanelView,
    right: PanelView,
    active_panel: ActivePanel,
    message: Seq<char>,
    width: nat,
    height: nat,
)
    requires
        height >= 4,
    ensures
        nothing_is_covered(
            tui_screen(state, left, right, active_panel, message, width, height),
        ),
{
    let screen = tui_screen(state, left, right, active_panel, message, width, height);
    let rows = Seq::new(
        list_rows(height),
        |row: int| tui_row(state, left, right, active_panel, width, height, row as nat),
    );
    let head = seq![
        header_span(state, width),
        panel_header_span(0, 2, width / 2, "Fresh "@ + left.current_dir),
        panel_header_span(
            width / 2,
            2,
            (width - width / 2) as nat,
            "Production "@ + right.current_dir,
        ),
    ];
    let end = (height - 1) as nat;
    let foot = seq![
        cleared_line(end, width),
        colored(0, end, fitted(FOOTER@ + message, width), Color::DarkGrey),
    ];
    assert forall|row: int, k: int| 0 <= row < rows.len() && 0 <= k < rows[row].len() implies (
    #[trigger] rows[row][k]).y == 3 + row by {}
    assert forall|row: int| 0 <= row < rows.len() implies nothing_is_covered(
        #[trigger] rows[row],
    ) by {
        assert(is_blank(rows[row][0].text));
    }
    lemma_rows_do_not_cover_one_another(rows);
    assert(is_blank(foot[0].text));
    lemma_parts_do_not_cover_one_another(head, stacked(rows), foot, end);
    assert(screen == head + stacked(rows) + foot);
}

/// A comparison covers nothing that it has drawn, except blank lines, on every screen of four lines or
/// more.
pub proof fn law_comparison_covers_nothing(
    state: StateView,
    file: TuiRowView,
    diff_rows: Seq<DiffRowView>,
    selected: nat,
    width: nat,
    height: nat,
)
    requires
        height >= 4,
    ensures
        nothing_is_covered(diff_screen(state, file, diff_rows, selected, width, height)),
{
    let screen = diff_screen(state, file, diff_rows, selected, width, height);
    let rows = Seq::new(
        list_rows(height),
        |row: int| diff_screen_row(diff_rows, selected, width, height, row as nat),
    );
    let head = seq![
        diff_header_span(state, row_path(file), width),
        panel_header_span(0, 2, width / 2, "Fresh"@),
        panel_header_span(width / 2, 2, (width - width / 2) as nat, "Production"@),
    ];
    let end = (height - 1) as nat;
    let foot = seq![
        cleared_line(end, width),
        colored(
            0,
            end,
            DIFF_FOOTER@ + decimal(diff_rows.len()) + " lines"@,
            Color::DarkGrey,
        ),
    ];
    assert forall|row: int, k: int| 0 <= row < rows.len() && 0 <= k < rows[row].len() implies (
    #[trigger] rows[row][k]).y == 3 + row by {}
    assert forall|row: int| 0 <= row < rows.len() implies nothing_is_covered(
        #[trigger] rows[row],
    ) by {
        assert(is_blank(rows[row][0].text));
    }
    lemma_rows_do_not_cover_one_another(rows);
    assert(is_blank(foot[0].text));
    lemma_parts_do_not_cover_one_another(head, stacked(rows), foot, end);
    assert(screen == head + stacked(rows) + foot);
}

/// Whether a piece of text blanks a whole line.
pub open spec fn blanks_line(piece: SpanView, y: nat, width: nat) -> bool {
    piece.x == 0 && piece.y == y && piece.text.len() == width && is_blank(piece.text)
}

/// Whether a piece of text is a line of a panel, at the place where its panel has it on the page.
pub open spec fn shows_panel_line(
    piece: SpanView,
    state: StateView,
    panel: ActivePanel,
    shown: PanelView,
    x: nat,
    columns: nat,
    active: bool,
    height: nat,
) -> bool {
    let top = first_shown(shown.selected, (height - 5) as nat, shown.entries.len());
    let place = top + piece.y - 3;
    let line = shown.entries[place];
    &&& 0 <= place < shown.entries.len()
    &&& piece == browser_cell(
        x,
        piece.y,
        columns,
        line,
        line_status(state, panel, line),
        active && place == shown.selected,
    )[0]
}

/// Between the titles and the last line the panels blank every line and show nothing else than the
/// lines of the two panels.
pub proof fn law_panels_show_their_lines_only(
    state: StateView,
    left: PanelView,
    right: PanelView,
    active_panel: ActivePanel,
    message: Seq<char>,
    width: nat,
    height: nat,
    row: nat,
    i: int,
)
    requires
        height > 5,
        row < height - 5,
        3 <= i < tui_screen(state, left, right, active_panel, message, width, height).len() - 2,
    ensures
        ({
            let screen = tui_screen(state, left, right, active_panel, message, width, height);
            let piece = screen[i];
            &&& screen.contains(cleared_line(3 + row, width))
            &&& blanks_line(cleared_line(3 + row, width), 3 + row, width)
            &&& blanks_line(piece, piece.y, width) || shows_panel_line(
                piece,
                state,
                ActivePanel::Left,
                left,
                0,
                width / 2,
                active_panel == ActivePanel::Left,
                height,
            ) || shows_panel_line(
                piece,
                state,
                ActivePanel::Right,
                right,
                width / 2,
                (width - width / 2) as nat,
                active_panel == ActivePanel::Right,
                height,
            )
        }),
{
    let screen = tui_screen(state, left, right, active_panel, message, width, height);
    let rows = Seq::new(
        list_rows(height),
        |row: int| tui_row(state, left, right, active_panel, width, height, row as nat),
    );
    let blank = rows[row as int][0];
    assert(blank == cleared_line(3 + row, width));
    lemma_stacked_holds(rows, row as int, 0);
    let k = stacked(rows).index_of(blank);
    assert(screen[3 + k] == blank);
    let piece = screen[i];
    assert(stacked(rows)[i - 3] == piece);
    lemma_stacked_comes_from_rows(rows, piece);
    let other = choose|other: int|
        0 <= other < rows.len() && (#[trigger] rows[other]).contains(piece);
    let j = rows[other].index_of(piece);
    assert(rows[other][j] == piece);
    let line = other as nat;
    let left_top = first_shown(left.selected, list_rows(height), left.entries.len());
    let right_top = first_shown(right.selected, list_rows(height), right.entries.len());
    let left_cell = panel_cell(
        state,
        ActivePanel::Left,
        left,
        active_panel == ActivePanel::Left,
        0,
        3 + line,
        width / 2,
        left_top + line,
    );
    let right_cell = panel_cell(
        state,
        ActivePanel::Right,
        right,
        active_panel == ActivePanel::Right,
        width / 2,
        3 + line,
        (width - width / 2) as nat,
        right_top + line,
    );
    assert(rows[other] == seq![cleared_line(3 + line, width)] + left_cell + right_cell);
    if j == 0 {
        assert(piece == cleared_line(3 + line, width));
        assert(blanks_line(piece, piece.y, width));
    } else if j - 1 < left_cell.len() {
        assert(piece == left_cell[0]);
        assert(piece.y == 3 + line);
    } else {
        assert(piece == right_cell[0]);
        assert(piece.y == 3 + line);
    }
}

/// A comparison blanks every line before it shows a row there.
pub proof fn law_comparison_blanks_its_lines(
    state: StateView,
    file: TuiRowView,
    diff_rows: Seq<DiffRowView>,
    selected: nat,
    width: nat,
    height: nat,
    row: nat,
)
    requires
        height > 5,
        row < height - 5,
    ensures
        diff_screen(state, file, diff_rows, selected, width, height).contains(
            cleared_line(3 + row, width),
        ),
        blanks_line(cleared_line(3 + row, width), 3 + row, width),
{
    let screen = diff_screen(state, file, diff_rows, selected, width, height);
    let rows = Seq::new(
        list_rows(height),
        |row: int| diff_screen_row(diff_rows, selected, width, height, row as nat),
    );
    let blank = rows[row as int][0];
    assert(blank == cleared_line(3 + row, width));
    lemma_stacked_holds(rows, row as int, 0);
    let k = stacked(rows).index_of(blank);
    assert(screen[3 + k] == blank);
}

} // verus!
