//! The pages beside the panels: help, about, prompts, the project list and the spinner.

use crate::screen::{
    bold_span, clear_line, cleared_line, color_span, colored, emphasized, first_shown,
    is_blank, lemma_rows_do_not_cover_one_another, lemma_stacked_holds, less, list_rows,
    nothing_is_covered, overlap, scroll_top, selectable, stacked, Color, Span, SpanView,
};
use crate::text::{fit_text, fitted, same_text, views};
use vstd::prelude::*;
use vstd::string::StrSliceExecFns;
use vstd::string::StringExecFns;

verus! {

/// How many of `count` lines that start at line `start` fit on the screen.
pub open spec fn lines_that_fit(count: nat, start: nat, height: nat) -> nat {
    if less(height, start) < count {
        less(height, start)
    } else {
        count
    }
}

/// The help page.
pub open spec fn help_lines() -> Seq<Seq<char>> {
    seq![
        "UPXTO TUI Help"@,
        ""@,
        "File list"@,
        "  Tab              Switch active panel"@,
        "  Up/Down          Move cursor"@,
        "  PageUp/PageDown  Jump through files"@,
        "  Home/End         Go to first or last file"@,
        "  Enter            Open selected folder"@,
        "  Backspace        Move to parent folder"@,
        "  [..]             Visible parent folder entry"@,
        "  Ctrl+A           Index current left folder as fresh"@,
        "  Ctrl+S           Index current right folder as production"@,
        "  F3               Show side-by-side diff for selected changed file"@,
        "  F5               Copy selected NEW file from fresh to production"@,
        "  F6               Deploy all NEW and UPDATE files to production"@,
        "  F7               Show copyright and license"@,
        "  F8               Back up the full production folder"@,
        "  F9               Create folder in active panel"@,
        "  q or Esc         Quit"@,
        ""@,
        "Diff view"@,
        "  Up/Down          Scroll lines"@,
        "  PageUp/PageDown  Jump through lines"@,
        "  Home/End         Go to first or last line"@,
        "  F3, q, or Esc    Return to file list"@,
        "  F7               Show copyright and license"@,
        ""@,
        "Colors"@,
        "  Green            Same"@,
        "  Red              New, updated, deleted, or changed line"@,
        ""@,
        "Press F1, q, or Esc to return."@,
    ]
}

/// Lists the lines of the help page.
fn help_text() -> (lines: Vec<&'static str>)
    ensures
        views(lines@) == help_lines(),
{
    let lines = vec![
        "UPXTO TUI Help",
        "",
        "File list",
        "  Tab              Switch active panel",
        "  Up/Down          Move cursor",
        "  PageUp/PageDown  Jump through files",
        "  Home/End         Go to first or last file",
        "  Enter            Open selected folder",
        "  Backspace        Move to parent folder",
        "  [..]             Visible parent folder entry",
        "  Ctrl+A           Index current left folder as fresh",
        "  Ctrl+S           Index current right folder as production",
        "  F3               Show side-by-side diff for selected changed file",
        "  F5               Copy selected NEW file from fresh to production",
        "  F6               Deploy all NEW and UPDATE files to production",
        "  F7               Show copyright and license",
        "  F8               Back up the full production folder",
        "  F9               Create folder in active panel",
        "  q or Esc         Quit",
        "",
        "Diff view",
        "  Up/Down          Scroll lines",
        "  PageUp/PageDown  Jump through lines",
        "  Home/End         Go to first or last line",
        "  F3, q, or Esc    Return to file list",
        "  F7               Show copyright and license",
        "",
        "Colors",
        "  Green            Same",
        "  Red              New, updated, deleted, or changed line",
        "",
        "Press F1, q, or Esc to return.",
    ];
    assert(views(lines@) == help_lines());
    lines
}

/// Whether a line of the help page is a heading.
pub open spec fn is_heading(line: Seq<char>) -> bool {
    line == "File list"@ || line == "Colors"@ || line == "Diff view"@
}

/// Line `y` of the help page.
pub open spec fn help_span(y: nat, line: Seq<char>, width: nat) -> SpanView {
    if y == 0 {
        emphasized(0, y, fitted(line, width), Color::White)
    } else if is_heading(line) {
        emphasized(0, y, fitted(line, width), Color::Cyan)
    } else {
        colored(0, y, fitted(line, width), Color::Grey)
    }
}

/// The help page, as far as the screen reaches.
pub open spec fn help_screen(width: nat, height: nat) -> Seq<SpanView> {
    Seq::new(
        lines_that_fit(help_lines().len(), 0, height),
        |i: int| help_span(i as nat, help_lines()[i], width),
    )
}

/// Draws the help page.
pub fn draw_help_view(width: u16, height: u16) -> (spans: Vec<Span>)
    ensures
        views(spans@) == help_screen(width as nat, height as nat),
{
    let lines = help_text();
    let mut spans: Vec<Span> = Vec::new();
    let mut index: usize = 0;
    assert(views(spans@) == help_screen(width as nat, height as nat).take(0));
    while index < lines.len() && index < height as usize
        invariant
            views(lines@) == help_lines(),
            index <= lines@.len(),
            index <= height,
            views(spans@) == help_screen(width as nat, height as nat).take(index as int),
        decreases lines@.len() - index,
    {
        let ghost before = views(spans@);
        let y: u16 = index as u16;
        let line = lines[index];
        assert(help_lines()[index as int] == line@);
        let text = fit_text(line, width as usize);
        let span = if index == 0 {
            bold_span(0, y, text, Color::White)
        } else if same_text(line, "File list") || same_text(line, "Colors") || same_text(
            line,
            "Diff view",
        ) {
            bold_span(0, y, text, Color::Cyan)
        } else {
            color_span(0, y, text, Color::Grey)
        };
        assert(span@ == help_span(index as nat, line@, width as nat));
        let ghost drawn = span@;
        spans.push(span);
        assert(views(spans@) == before.push(drawn));
        assert(views(spans@) == help_screen(width as nat, height as nat).take(index + 1));
        index += 1;
    }
    assert(help_screen(width as nat, height as nat).take(index as int) == help_screen(
        width as nat,
        height as nat,
    ));
    spans
}

/// The about page.
pub open spec fn about_lines() -> Seq<Seq<char>> {
    seq![
        "UPXTO"@,
        ""@,
        "Copyright Rob Rymarczyk"@,
        "License MIT"@,
        ""@,
        "Press F7, q, or Esc to return."@,
    ]
}

/// Where a text starts that stands in the middle of the screen. Its length counts as a screen
/// coordinate, which starts over at 65536.
pub open spec fn centered(width: nat, length: nat) -> nat {
    less(width, length % 65536) / 2
}

/// Centers a text.
fn center(width: u16, text: &str) -> (x: u16)
    ensures
        x == centered(width as nat, text@.len()),
{
    let length: usize = text.unicode_len();
    assert(length % 65536 <= 65535) by (nonlinear_arith);
    let columns: u16 = (length % 65536) as u16;
    width.saturating_sub(columns) / 2
}

/// The line of the screen on which the about page starts.
pub open spec fn about_start(height: nat) -> nat {
    less(height, 6) / 2
}

/// The about page, in the middle of the screen.
pub open spec fn about_screen(width: nat, height: nat) -> Seq<SpanView> {
    Seq::new(
        lines_that_fit(6, about_start(height), height),
        |i: int|
            {
                let line = about_lines()[i];
                let x = centered(width, line.len());
                let y = about_start(height) + i as nat;
                if i == 0 {
                    emphasized(x, y, line, Color::White)
                } else {
                    colored(x, y, line, Color::Grey)
                }
            },
    )
}

/// Draws the about page.
pub fn draw_about_view(width: u16, height: u16) -> (spans: Vec<Span>)
    ensures
        views(spans@) == about_screen(width as nat, height as nat),
{
    let lines = vec![
        "UPXTO",
        "",
        "Copyright Rob Rymarczyk",
        "License MIT",
        "",
        "Press F7, q, or Esc to return.",
    ];
    assert(views(lines@) == about_lines());
    let start_y: u16 = height.saturating_sub(6) / 2;
    let room: u16 = height - start_y;
    let mut spans: Vec<Span> = Vec::new();
    let mut index: u16 = 0;
    assert(views(spans@) == about_screen(width as nat, height as nat).take(0));
    while (index as usize) < lines.len() && index < room
        invariant
            views(lines@) == about_lines(),
            lines@.len() == 6,
            start_y == about_start(height as nat),
            room == height - start_y,
            index <= 6,
            index <= room,
            views(spans@) == about_screen(width as nat, height as nat).take(index as int),
        decreases 6 - index,
    {
        let ghost before = views(spans@);
        let line = lines[index as usize];
        assert(about_lines()[index as int] == line@);
        let x: u16 = center(width, line);
        let y: u16 = start_y + index;
        let span = if index == 0 {
            bold_span(x, y, line.to_owned(), Color::White)
        } else {
            color_span(x, y, line.to_owned(), Color::Grey)
        };
        let ghost drawn = span@;
        spans.push(span);
        assert(views(spans@) == before.push(drawn));
        assert(views(spans@) == about_screen(width as nat, height as nat).take(index + 1));
        index += 1;
    }
    assert(about_screen(width as nat, height as nat).take(index as int) == about_screen(
        width as nat,
        height as nat,
    ));
    spans
}

/// The lines above the project prompt.
pub open spec fn project_prompt_lines() -> Seq<Seq<char>> {
    seq![
        "UPXTO Project"@,
        ""@,
        "Type project name and press Enter to load or create it."@,
        "Press L to list saved projects."@,
        "Leave blank and press Enter for the default session."@,
        "Esc also starts the default session."@,
        ""@,
    ]
}

/// The line of the screen on which the project prompt starts.
pub open spec fn project_prompt_start(height: nat) -> nat {
    less(height, 8) / 2
}

/// The lines above the project prompt that fit on the screen.
pub open spec fn project_prompt_head(width: nat, height: nat) -> Seq<SpanView> {
    Seq::new(
        lines_that_fit(7, project_prompt_start(height), height),
        |i: int|
            {
                let text = fitted(project_prompt_lines()[i], width);
                let y = project_prompt_start(height) + i as nat;
                if i == 0 {
                    emphasized(0, y, text, Color::White)
                } else {
                    colored(0, y, text, Color::Grey)
                }
            },
    )
}

/// The project prompt with what was typed so far.
pub open spec fn project_prompt_screen(
    input: Seq<char>,
    width: nat,
    height: nat,
) -> Seq<SpanView> {
    project_prompt_head(width, height).push(
        colored(
            0,
            project_prompt_start(height) + 7,
            fitted("Project: "@ + input, width),
            Color::Cyan,
        ),
    )
}

/// Draws the project prompt.
pub fn draw_project_prompt(input: &str, width: u16, height: u16) -> (spans: Vec<Span>)
    ensures
        views(spans@) == project_prompt_screen(input@, width as nat, height as nat),
{
    let lines = vec![
        "UPXTO Project",
        "",
        "Type project name and press Enter to load or create it.",
        "Press L to list saved projects.",
        "Leave blank and press Enter for the default session.",
        "Esc also starts the default session.",
        "",
    ];
    assert(views(lines@) == project_prompt_lines());
    let start_y: u16 = height.saturating_sub(8) / 2;
    let room: u16 = height - start_y;
    let ghost head = project_prompt_head(width as nat, height as nat);
    let mut spans: Vec<Span> = Vec::new();
    let mut index: u16 = 0;
    assert(views(spans@) == head.take(0));
    while (index as usize) < lines.len() && index < room
        invariant
            views(lines@) == project_prompt_lines(),
            lines@.len() == 7,
            start_y == project_prompt_start(height as nat),
            room == height - start_y,
            index <= 7,
            index <= room,
            head == project_prompt_head(width as nat, height as nat),
            views(spans@) == head.take(index as int),
        decreases 7 - index,
    {
        let ghost before = views(spans@);
        let line = lines[index as usize];
        assert(project_prompt_lines()[index as int] == line@);
        let text = fit_text(line, width as usize);
        let y: u16 = start_y + index;
        let span = if index == 0 {
            bold_span(0, y, text, Color::White)
        } else {
            color_span(0, y, text, Color::Grey)
        };
        let ghost drawn = span@;
        spans.push(span);
        assert(views(spans@) == before.push(drawn));
        assert(views(spans@) == head.take(index + 1));
        index += 1;
    }
    assert(head.take(index as int) == head);
    let prompt = "Project: ".to_owned().concat(input);
    let span = color_span(
        0,
        start_y + 7,
        fit_text(prompt.as_str(), width as usize),
        Color::Cyan,
    );
    let ghost drawn = span@;
    spans.push(span);
    assert(views(spans@) == head.push(drawn));
    spans
}

/// Row `row` of the project list.
pub open spec fn project_row(
    projects: Seq<Seq<char>>,
    selected: nat,
    width: nat,
    height: nat,
    row: nat,
) -> Seq<SpanView> {
    let place = first_shown(selected, list_rows(height), projects.len()) + row;
    if place < projects.len() {
        seq![
            cleared_line(3 + row, width),
            selectable(
                0,
                3 + row,
                fitted(projects[place as int], width),
                Color::Cyan,
                place == selected,
            ),
        ]
    } else {
        seq![cleared_line(3 + row, width)]
    }
}

/// The list of saved projects.
pub open spec fn project_list_screen(
    projects: Seq<Seq<char>>,
    selected: nat,
    width: nat,
    height: nat,
) -> Seq<SpanView> {
    let head = seq![
        emphasized(0, 0, fitted("Load Project"@, width), Color::White),
        colored(
            0,
            1,
            fitted("Enter loads | Arrows move | q/Esc returns"@, width),
            Color::DarkGrey,
        ),
    ];
    if projects.len() == 0 {
        head.push(colored(0, 3, fitted("No saved projects yet."@, width), Color::Grey))
    } else {
        head + stacked(
            Seq::new(
                list_rows(height),
                |row: int| project_row(projects, selected, width, height, row as nat),
            ),
        )
    }
}

/// Draws the list of saved projects.
pub fn draw_project_list(projects: &[String], selected: usize, width: u16, height: u16) -> (spans:
    Vec<Span>)
    ensures
        views(spans@) == project_list_screen(
            views(projects@),
            selected as nat,
            width as nat,
            height as nat,
        ),
{
    let ghost all = views(projects@);
    let total: usize = projects.len();
    let visible_rows: u16 = height.saturating_sub(5);
    let top: usize = scroll_top(selected, visible_rows as usize, total);
    let mut spans: Vec<Span> = Vec::new();
    spans.push(bold_span(0, 0, fit_text("Load Project", width as usize), Color::White));
    spans.push(
        color_span(
            0,
            1,
            fit_text("Enter loads | Arrows move | q/Esc returns", width as usize),
            Color::DarkGrey,
        ),
    );
    let ghost head = views(spans@);
    assert(head == seq![
        emphasized(0, 0, fitted("Load Project"@, width as nat), Color::White),
        colored(
            0,
            1,
            fitted("Enter loads | Arrows move | q/Esc returns"@, width as nat),
            Color::DarkGrey,
        ),
    ]);
    if total == 0 {
        let span = color_span(
            0,
            3,
            fit_text("No saved projects yet.", width as usize),
            Color::Grey,
        );
        let ghost drawn = span@;
        spans.push(span);
        assert(views(spans@) == head.push(drawn));
        return spans;
    }
    let ghost shown_row = |row: int|
        project_row(all, selected as nat, width as nat, height as nat, row as nat);
    assert(head + stacked(Seq::new(0, shown_row)) == head);
    for screen_row in 0..visible_rows
        invariant
            all == views(projects@),
            total == all.len(),
            visible_rows == list_rows(height as nat),
            top == first_shown(selected as nat, visible_rows as nat, all.len()),
            shown_row == (|row: int|
                project_row(all, selected as nat, width as nat, height as nat, row as nat)),
            views(spans@) == head + stacked(Seq::new(screen_row as nat, shown_row)),
    {
        let place: usize = top + screen_row as usize;
        let y: u16 = 3 + screen_row;
        let ghost before = views(spans@);
        let ghost cells = shown_row(screen_row as int);
        spans.push(clear_line(y, width));
        assert(views(spans@) == before.push(cleared_line(y as nat, width as nat)));
        if place < total {
            assert(all[place as int] == projects@[place as int]@);
            let ghost cleared = views(spans@);
            let span = Span {
                x: 0,
                y,
                text: fit_text(projects[place].as_str(), width as usize),
                color: Color::Cyan,
                bold: false,
                reverse: place == selected,
            };
            let ghost drawn = span@;
            spans.push(span);
            assert(views(spans@) == cleared.push(drawn));
        }
        assert(views(spans@) == before + cells);
        assert(Seq::new((screen_row + 1) as nat, shown_row).drop_last() == Seq::new(
            screen_row as nat,
            shown_row,
        ));
        assert(views(spans@) == head + stacked(Seq::new((screen_row + 1) as nat, shown_row)));
    }
    spans
}

/// A prompt for a line of text, with what was typed so far.
pub open spec fn text_prompt_screen(
    title: Seq<char>,
    label: Seq<char>,
    input: Seq<char>,
    width: nat,
    height: nat,
) -> Seq<SpanView> {
    let start = less(height, 5) / 2;
    seq![
        emphasized(0, start, fitted(title, width), Color::White),
        colored(0, start + 2, fitted(label + ": "@ + input, width), Color::Cyan),
        colored(0, start + 4, fitted("Enter confirms | Esc cancels"@, width), Color::DarkGrey),
    ]
}

/// Draws a prompt for a line of text.
pub fn draw_text_prompt(title: &str, label: &str, input: &str, width: u16, height: u16) -> (spans:
    Vec<Span>)
    ensures
        views(spans@) == text_prompt_screen(
            title@,
            label@,
            input@,
            width as nat,
            height as nat,
        ),
{
    let start_y: u16 = height.saturating_sub(5) / 2;
    let prompt = label.to_owned().concat(": ").concat(input);
    let mut spans: Vec<Span> = Vec::new();
    spans.push(bold_span(0, start_y, fit_text(title, width as usize), Color::White));
    spans.push(
        color_span(0, start_y + 2, fit_text(prompt.as_str(), width as usize), Color::Cyan),
    );
    spans.push(
        color_span(
            0,
            start_y + 4,
            fit_text("Enter confirms | Esc cancels", width as usize),
            Color::DarkGrey,
        ),
    );
    assert(views(spans@) == text_prompt_screen(
        title@,
        label@,
        input@,
        width as nat,
        height as nat,
    ));
    spans
}

/// A sign that turns while work goes on.
#[derive(Debug)]
pub struct Spinner {
    pub frame: usize,
}

/// The sign of a frame.
pub open spec fn spinner_sign(frame: nat) -> char {
    if frame % 4 == 0 {
        '|'
    } else if frame % 4 == 1 {
        '/'
    } else if frame % 4 == 2 {
        '-'
    } else {
        '\\'
    }
}

impl Spinner {
    /// A spinner before its first turn.
    pub fn new() -> (spinner: Spinner)
        ensures
            spinner.frame == 0,
    {
        Spinner { frame: 0 }
    }

    /// Turns once and gives the sign to show.
    pub fn next(&mut self) -> (sign: char)
        requires
            old(self).frame < usize::MAX,
        ensures
            sign == spinner_sign(old(self).frame as nat),
            final(self).frame == old(self).frame + 1,
    {
        let turn: usize = self.frame % 4;
        self.frame += 1;
        if turn == 0 {
            '|'
        } else if turn == 1 {
            '/'
        } else if turn == 2 {
            '-'
        } else {
            '\\'
        }
    }
}

/// A spinner with what is being done.
pub open spec fn spinner_screen(
    sign: char,
    message: Seq<char>,
    width: nat,
    height: nat,
) -> Seq<SpanView> {
    let text = seq![sign] + " "@ + message;
    seq![
        emphasized(centered(width, text.len()), height / 2, text, Color::Cyan),
        colored(0, less(height, 1), fitted("Please wait..."@, width), Color::DarkGrey),
    ]
}

/// Turns a spinner and draws it.
pub fn draw_spinner(spinner: &mut Spinner, message: &str, width: u16, height: u16) -> (spans: Vec<
    Span,
>)
    requires
        old(spinner).frame < usize::MAX,
    ensures
        final(spinner).frame == old(spinner).frame + 1,
        views(spans@) == spinner_screen(
            spinner_sign(old(spinner).frame as nat),
            message@,
            width as nat,
            height as nat,
        ),
{
    let sign = spinner.next();
    let mut text = String::new();
    text.push(sign);
    assert(text@ == seq![sign]);
    let text = text.concat(" ").concat(message);
    let x: u16 = center(width, text.as_str());
    let mut spans: Vec<Span> = Vec::new();
    spans.push(bold_span(x, height / 2, text, Color::Cyan));
    spans.push(
        color_span(
            0,
            height.saturating_sub(1),
            fit_text("Please wait...", width as usize),
            Color::DarkGrey,
        ),
    );
    assert(views(spans@) == spinner_screen(sign, message@, width as nat, height as nat));
    spans
}

/// The help page shows its lines from the top, one below the other, as far as the screen reaches.
pub proof fn law_help_is_shown_line_by_line(width: nat, height: nat, i: int)
    requires
        0 <= i < help_lines().len(),
        i < height,
    ensures
        ({
            let screen = help_screen(width, height);
            &&& i < screen.len()
            &&& screen.len() <= height && screen.len() <= help_lines().len()
            &&& screen[i].x == 0 && screen[i].y == i
            &&& screen[i].text == fitted(help_lines()[i], width)
        }),
{
}

/// A text that fits on the screen stands in its middle: the space on its right is as wide as that on
/// its left, or wider by one.
pub proof fn law_centered_text_has_equal_margins(width: nat, length: nat)
    requires
        length <= width < 65536,
    ensures
        ({
            let left = centered(width, length) as int;
            let right = width - length - left;
            left == right || left + 1 == right
        }),
{
    assert(length % 65536 == length) by (nonlinear_arith)
        requires
            length < 65536,
    ;
}

/// The about page stands in the middle of the screen: its lines follow one another, each centered,
/// and none is left out where there is room.
pub proof fn law_about_page_stands_in_the_middle(width: nat, height: nat, i: int)
    requires
        height >= 6,
        0 <= i < 6,
    ensures
        ({
            let screen = about_screen(width, height);
            let above = screen[0].y as int;
            let below = height - 6 - above;
            &&& screen.len() == 6
            &&& above == below || above + 1 == below
            &&& screen[i].y == above + i
            &&& screen[i].text == about_lines()[i]
            &&& screen[i].x == centered(width, about_lines()[i].len())
        }),
{
}

/// The project prompt shows what was typed behind its label, below the lines that explain it.
pub proof fn law_prompt_shows_what_was_typed(input: Seq<char>, width: nat, height: nat)
    ensures
        ({
            let screen = project_prompt_screen(input, width, height);
            let last = screen[screen.len() - 1];
            &&& screen.len() > 0
            &&& last.text == fitted("Project: "@ + input, width)
            &&& last.x == 0
            &&& forall|k: int| 0 <= k < screen.len() - 1 ==> (#[trigger] screen[k]).y < last.y
            &&& height >= 8 ==> screen.len() == 8 && last.y < height
        }),
{
    let screen = project_prompt_screen(input, width, height);
    let head = project_prompt_head(width, height);
    assert forall|k: int| 0 <= k < screen.len() - 1 implies (#[trigger] screen[k]).y
        < screen[screen.len() - 1].y by {
        assert(screen[k] == head[k]);
    }
}

/// A prompt for a line of text shows its title, its label with what was typed, and the keys that end
/// it, below one another.
pub proof fn law_text_prompt_shows_what_was_typed(
    title: Seq<char>,
    label: Seq<char>,
    input: Seq<char>,
    width: nat,
    height: nat,
)
    ensures
        ({
            let screen = text_prompt_screen(title, label, input, width, height);
            &&& screen.len() == 3
            &&& screen[0].text == fitted(title, width)
            &&& screen[1].text == fitted(label + ": "@ + input, width)
            &&& screen[2].text == fitted("Enter confirms | Esc cancels"@, width)
            &&& screen[0].y < screen[1].y < screen[2].y
            &&& height >= 5 ==> screen[2].y < height
        }),
{
}

/// Every project on the page of the list is drawn on its line, and only the one under the cursor in
/// reverse.
pub proof fn law_projects_on_the_page_are_drawn(
    projects: Seq<Seq<char>>,
    selected: nat,
    width: nat,
    height: nat,
    place: nat,
)
    requires
        place < projects.len(),
        height > 5,
        first_shown(selected, (height - 5) as nat, projects.len()) <= place < first_shown(
            selected,
            (height - 5) as nat,
            projects.len(),
        ) + height - 5,
    ensures
        project_list_screen(projects, selected, width, height).contains(
            SpanView {
                x: 0,
                y: (3 + place - first_shown(selected, (height - 5) as nat, projects.len())) as nat,
                text: fitted(projects[place as int], width),
                color: Color::Cyan,
                bold: false,
                reverse: place == selected,
            },
        ),
{
    let count = list_rows(height);
    let rows = Seq::new(
        count,
        |row: int| project_row(projects, selected, width, height, row as nat),
    );
    let top = first_shown(selected, count, projects.len());
    let row = place - top;
    let screen = project_list_screen(projects, selected, width, height);
    let cell = rows[row][1];
    lemma_stacked_holds(rows, row, 1);
    let k = stacked(rows).index_of(cell);
    assert(screen[2 + k] == cell);
}

/// Without projects the list says so.
pub proof fn law_empty_project_list_says_so(selected: nat, width: nat, height: nat)
    ensures
        ({
            let screen = project_list_screen(Seq::empty(), selected, width, height);
            screen[screen.len() - 1].text == fitted("No saved projects yet."@, width)
        }),
{
}

/// A spinner turns through four different signs and starts over.
pub proof fn law_spinner_turns(frame: nat, step: nat)
    ensures
        spinner_sign(0) == '|',
        spinner_sign(1) == '/',
        spinner_sign(2) == '-',
        spinner_sign(3) == '\\',
        spinner_sign(frame + 4) == spinner_sign(frame),
        0 < step < 4 ==> spinner_sign(frame + step) != spinner_sign(frame),
{
}

/// The spinner's page shows the sign and what is being done, on the middle line.
pub proof fn law_spinner_says_what_is_done(
    sign: char,
    message: Seq<char>,
    width: nat,
    height: nat,
)
    ensures
        ({
            let screen = spinner_screen(sign, message, width, height);
            &&& screen[0].text == seq![sign, ' '] + message
            &&& screen[0].y == height / 2
            &&& screen[0].x == centered(width, message.len() + 2)
            &&& screen[1].text == fitted("Please wait..."@, width)
            &&& height > 0 ==> screen[1].y == height - 1
        }),
{
    reveal_strlit(" ");
    assert(" "@ == seq![' ']);
    assert(seq![sign] + " "@ + message == seq![sign, ' '] + message);
}

/// The title of the help page is bold and white, its three headings are bold and cyan, and all else is
/// grey.
pub proof fn law_help_headings_stand_out(width: nat, height: nat, i: int)
    requires
        0 < i < help_screen(width, height).len(),
    ensures
        ({
            let first = help_screen(width, height)[0];
            let piece = help_screen(width, height)[i];
            let line = help_lines()[i];
            let heading = line == "File list"@ || line == "Diff view"@ || line == "Colors"@;
            &&& first.bold && first.color == Color::White && !first.reverse
            &&& piece.bold <==> heading
            &&& piece.color == if heading {
                Color::Cyan
            } else {
                Color::Grey
            }
            &&& !piece.reverse
        }),
{
}

/// The lines above the project prompt follow one another from its start, the first of them bold.
pub proof fn law_project_prompt_explains_itself(input: Seq<char>, width: nat, height: nat, i: int)
    requires
        height >= 8,
        0 <= i < 7,
    ensures
        ({
            let screen = project_prompt_screen(input, width, height);
            let above = screen[0].y as int;
            let below = height - 8 - above;
            &&& above == below || above + 1 == below
            &&& screen[i].y == above + i
            &&& screen[i].x == 0
            &&& screen[i].text == fitted(project_prompt_lines()[i], width)
            &&& screen[i].bold <==> i == 0
        }),
{
}

/// The project list covers nothing that it has drawn, except blank lines.
pub proof fn law_project_list_covers_nothing(
    projects: Seq<Seq<char>>,
    selected: nat,
    width: nat,
    height: nat,
)
    ensures
        nothing_is_covered(project_list_screen(projects, selected, width, height)),
{
    let screen = project_list_screen(projects, selected, width, height);
    if projects.len() > 0 {
        let rows = Seq::new(
            list_rows(height),
            |row: int| project_row(projects, selected, width, height, row as nat),
        );
        assert forall|row: int, k: int| 0 <= row < rows.len() && 0 <= k < rows[row].len() implies (
        #[trigger] rows[row][k]).y == 3 + row by {}
        assert forall|row: int| 0 <= row < rows.len() implies nothing_is_covered(
            #[trigger] rows[row],
        ) by {
            assert(is_blank(rows[row][0].text));
        }
        lemma_rows_do_not_cover_one_another(rows);
        let body = stacked(rows);
        assert forall|i: int, j: int|
            0 <= i < j < screen.len() && overlap(
                #[trigger] screen[i],
                #[trigger] screen[j],
            ) implies is_blank(screen[i].text) by {
            if j >= 2 {
                assert(screen[j] == body[j - 2]);
            }
            if i >= 2 {
                assert(screen[i] == body[i - 2]);
            }
        }
    }
}

} // verus!
