//! Side-by-side alignment of two files, line by line.

use crate::panel::{TuiRow, TuiRowView};
use crate::path::{is_plain, join_paths, law_relative_path_of_join, path_join, relative_to};
use crate::state::{State, StateView};
use crate::text::{chars_of, decode_lossy, opt_view, split_on, split_text, utf8_lossy, views};
use vstd::prelude::*;
use vstd::utf8::{decode_utf8, valid_utf8};

verus! {

/// One row of a side-by-side comparison. A side that has no line here is `None`.
#[derive(Debug)]
pub struct DiffRow {
    pub fresh: Option<String>,
    pub fresh_line: Option<usize>,
    pub production: Option<String>,
    pub production_line: Option<usize>,
    pub changed: bool,
}

/// What a row shows. Lines are numbered from one.
pub ghost struct DiffRowView {
    pub fresh: Option<Seq<char>>,
    pub fresh_line: Option<nat>,
    pub production: Option<Seq<char>>,
    pub production_line: Option<nat>,
    pub changed: bool,
}

/// A line number as a mathematical number.
pub open spec fn line_number(line: Option<usize>) -> Option<nat> {
    match line {
        Some(number) => Some(number as nat),
        None => None,
    }
}

impl View for DiffRow {
    type V = DiffRowView;

    open spec fn view(&self) -> DiffRowView {
        DiffRowView {
            fresh: opt_view(self.fresh),
            fresh_line: line_number(self.fresh_line),
            production: opt_view(self.production),
            production_line: line_number(self.production_line),
            changed: self.changed,
        }
    }
}

/// The length of the longest common subsequence of the lines from `i` on and from `j` on.
pub open spec fn lcs(fresh: Seq<Seq<char>>, production: Seq<Seq<char>>, i: nat, j: nat) -> nat
    decreases (fresh.len() - i) + (production.len() - j),
{
    if i >= fresh.len() || j >= production.len() {
        0
    } else if fresh[i as int] == production[j as int] {
        lcs(fresh, production, i + 1, j + 1) + 1
    } else {
        let below = lcs(fresh, production, i + 1, j);
        let right = lcs(fresh, production, i, j + 1);
        if below >= right {
            below
        } else {
            right
        }
    }
}

/// A row with line `i` of the fresh file beside line `j` of the production file.
pub open spec fn paired_row(
    fresh: Seq<Seq<char>>,
    production: Seq<Seq<char>>,
    i: nat,
    j: nat,
    changed: bool,
) -> DiffRowView {
    DiffRowView {
        fresh: Some(fresh[i as int]),
        fresh_line: Some(i + 1),
        production: Some(production[j as int]),
        production_line: Some(j + 1),
        changed,
    }
}

/// A row with line `i` of the fresh file alone.
pub open spec fn fresh_row(fresh: Seq<Seq<char>>, i: nat) -> DiffRowView {
    DiffRowView {
        fresh: Some(fresh[i as int]),
        fresh_line: Some(i + 1),
        production: None,
        production_line: None,
        changed: true,
    }
}

/// A row with line `j` of the production file alone.
pub open spec fn production_row(production: Seq<Seq<char>>, j: nat) -> DiffRowView {
    DiffRowView {
        fresh: None,
        fresh_line: None,
        production: Some(production[j as int]),
        production_line: Some(j + 1),
        changed: true,
    }
}

/// The one row shown when both files are empty.
pub open spec fn blank_row() -> DiffRowView {
    DiffRowView {
        fresh: None,
        fresh_line: None,
        production: None,
        production_line: None,
        changed: false,
    }
}

/// How many of `len` lines are left from line `i` on.
pub open spec fn lines_left(len: nat, i: nat) -> nat {
    if i < len {
        (len - i) as nat
    } else {
        0
    }
}

/// The rows for the lines from `i` on and from `j` on. Equal lines stand side by side. Of two
/// different lines, the one whose removal keeps the longer common subsequence stands alone; when
/// neither does better they stand side by side, marked as changed.
pub open spec fn align(
    fresh: Seq<Seq<char>>,
    production: Seq<Seq<char>>,
    i: nat,
    j: nat,
) -> Seq<DiffRowView>
    decreases lines_left(fresh.len(), i) + lines_left(production.len(), j),
{
    if i >= fresh.len() && j >= production.len() {
        Seq::empty()
    } else if i >= fresh.len() {
        seq![production_row(production, j)] + align(fresh, production, i, j + 1)
    } else if j >= production.len() {
        seq![fresh_row(fresh, i)] + align(fresh, production, i + 1, j)
    } else if fresh[i as int] == production[j as int] {
        seq![paired_row(fresh, production, i, j, false)] + align(fresh, production, i + 1, j + 1)
    } else if lcs(fresh, production, i + 1, j) == lcs(fresh, production, i, j + 1) {
        seq![paired_row(fresh, production, i, j, true)] + align(fresh, production, i + 1, j + 1)
    } else if lcs(fresh, production, i + 1, j) > lcs(fresh, production, i, j + 1) {
        seq![fresh_row(fresh, i)] + align(fresh, production, i + 1, j)
    } else {
        seq![production_row(production, j)] + align(fresh, production, i, j + 1)
    }
}

/// The whole comparison of two files.
pub open spec fn aligned(fresh: Seq<Seq<char>>, production: Seq<Seq<char>>) -> Seq<DiffRowView> {
    if fresh.len() == 0 && production.len() == 0 {
        seq![blank_row()]
    } else {
        align(fresh, production, 0, 0)
    }
}

/// Row `fresh.len() - k` of the table of common subsequence lengths, from its right end: entry `t`
/// is the length for the production lines from `production.len() - t` on.
spec fn is_lcs_row(
    row: Seq<usize>,
    fresh: Seq<Seq<char>>,
    production: Seq<Seq<char>>,
    k: int,
) -> bool {
    &&& row.len() == production.len() + 1
    &&& forall|t: int|
        0 <= t < row.len() ==> #[trigger] row[t] == lcs(
            fresh,
            production,
            (fresh.len() - k) as nat,
            (production.len() - t) as nat,
        )
}

proof fn lemma_lcs_bound(fresh: Seq<Seq<char>>, production: Seq<Seq<char>>, i: nat, j: nat)
    requires
        i <= fresh.len(),
        j <= production.len(),
    ensures
        lcs(fresh, production, i, j) <= fresh.len() - i,
        lcs(fresh, production, i, j) <= production.len() - j,
    decreases (fresh.len() - i) + (production.len() - j),
{
    if i < fresh.len() && j < production.len() {
        if fresh[i as int] == production[j as int] {
            lemma_lcs_bound(fresh, production, i + 1, j + 1);
        } else {
            lemma_lcs_bound(fresh, production, i + 1, j);
            lemma_lcs_bound(fresh, production, i, j + 1);
        }
    }
}

/// Computes the common subsequence lengths for all pairs of suffixes, shortest suffixes first.
fn lcs_table(fresh: &[String], production: &[String]) -> (table: Vec<Vec<usize>>)
    ensures
        table@.len() == fresh@.len() + 1,
        forall|k: int|
            0 <= k < table@.len() ==> is_lcs_row(
                (#[trigger] table@[k])@,
                views(fresh@),
                views(production@),
                k,
            ),
{
    let ghost a = views(fresh@);
    let ghost b = views(production@);
    let mut table: Vec<Vec<usize>> = Vec::new();
    let mut first: Vec<usize> = Vec::new();
    first.push(0);
    for t in 0..production.len()
        invariant
            first@.len() == t + 1,
            forall|u: int| 0 <= u < first@.len() ==> first@[u] == 0,
    {
        first.push(0);
    }
    assert(is_lcs_row(first@, a, b, 0));
    table.push(first);
    for k in 0..fresh.len()
        invariant
            a == views(fresh@),
            b == views(production@),
            table@.len() == k + 1,
            forall|m: int|
                0 <= m < table@.len() ==> is_lcs_row((#[trigger] table@[m])@, a, b, m),
    {
        let i: usize = fresh.len() - 1 - k;
        let mut row: Vec<usize> = Vec::new();
        row.push(0);
        for t in 0..production.len()
            invariant
                a == views(fresh@),
                b == views(production@),
                k < fresh@.len(),
                i == fresh@.len() - 1 - k,
                table@.len() == k + 1,
                is_lcs_row(table@[k as int]@, a, b, k as int),
                row@.len() == t + 1,
                forall|u: int|
                    0 <= u < row@.len() ==> #[trigger] row@[u] == lcs(
                        a,
                        b,
                        i as nat,
                        (b.len() - u) as nat,
                    ),
        {
            let j: usize = production.len() - 1 - t;
            proof {
                lemma_lcs_bound(a, b, (i + 1) as nat, (j + 1) as nat);
                assert(a[i as int] == fresh@[i as int]@ && b[j as int] == production@[j as int]@);
                let from = (a.len() - k) as nat;
                assert(table@[k as int]@[t as int] == lcs(a, b, from, (b.len() - t) as nat));
                assert(table@[k as int]@[t + 1] == lcs(a, b, from, (b.len() - (t + 1)) as nat));
                assert(row@[t as int] == lcs(a, b, i as nat, (b.len() - t) as nat));
            }
            let below = &table[k];
            let length: usize = if fresh[i] == production[j] {
                below[t] + 1
            } else if below[t + 1] >= row[t] {
                below[t + 1]
            } else {
                row[t]
            };
            row.push(length);
        }
        table.push(row);
    }
    table
}

/// Sets the lines of two files side by side.
pub fn align_lines(fresh: &[String], production: &[String]) -> (rows: Vec<DiffRow>)
    ensures
        views(rows@) == aligned(views(fresh@), views(production@)),
{
    let ghost a = views(fresh@);
    let ghost b = views(production@);
    let table = lcs_table(fresh, production);
    let mut rows: Vec<DiffRow> = Vec::new();
    let mut i: usize = 0;
    let mut j: usize = 0;
    assert(views(rows@) + align(a, b, 0, 0) == align(a, b, 0, 0));
    while i < fresh.len() || j < production.len()
        invariant
            a == views(fresh@),
            b == views(production@),
            i <= fresh@.len(),
            j <= production@.len(),
            table@.len() == fresh@.len() + 1,
            forall|k: int|
                0 <= k < table@.len() ==> is_lcs_row((#[trigger] table@[k])@, a, b, k),
            views(rows@) + align(a, b, i as nat, j as nat) == align(a, b, 0, 0),
        decreases (fresh@.len() - i) + (production@.len() - j),
    {
        let ghost before = views(rows@);
        let ghost rest = align(a, b, i as nat, j as nat);
        let ghost row: DiffRowView = rest[0];
        if i < fresh.len() && j < production.len() && fresh[i] == production[j] {
            rows.push(
                DiffRow {
                    fresh: Some(fresh[i].clone()),
                    fresh_line: Some(i + 1),
                    production: Some(production[j].clone()),
                    production_line: Some(j + 1),
                    changed: false,
                },
            );
            i += 1;
            j += 1;
        } else if i < fresh.len() && j < production.len() {
            let below_row = &table[fresh.len() - i - 1];
            let same_row = &table[fresh.len() - i];
            let below: usize = below_row[production.len() - j];
            let right: usize = same_row[production.len() - j - 1];
            assert(below == lcs(a, b, (i + 1) as nat, j as nat));
            assert(right == lcs(a, b, i as nat, (j + 1) as nat));
            if below == right {
                rows.push(
                    DiffRow {
                        fresh: Some(fresh[i].clone()),
                        fresh_line: Some(i + 1),
                        production: Some(production[j].clone()),
                        production_line: Some(j + 1),
                        changed: true,
                    },
                );
                i += 1;
                j += 1;
            } else if below > right {
                rows.push(
                    DiffRow {
                        fresh: Some(fresh[i].clone()),
                        fresh_line: Some(i + 1),
                        production: None,
                        production_line: None,
                        changed: true,
                    },
                );
                i += 1;
            } else {
                rows.push(
                    DiffRow {
                        fresh: None,
                        fresh_line: None,
                        production: Some(production[j].clone()),
                        production_line: Some(j + 1),
                        changed: true,
                    },
                );
                j += 1;
            }
        } else if i < fresh.len() {
            rows.push(
                DiffRow {
                    fresh: Some(fresh[i].clone()),
                    fresh_line: Some(i + 1),
                    production: None,
                    production_line: None,
                    changed: true,
                },
            );
            i += 1;
        } else {
            rows.push(
                DiffRow {
                    fresh: None,
                    fresh_line: None,
                    production: Some(production[j].clone()),
                    production_line: Some(j + 1),
                    changed: true,
                },
            );
            j += 1;
        }
        proof {
            assert(rows@.last()@ == row);
            assert(views(rows@) == before.push(row));
            assert(rest == seq![row] + align(a, b, i as nat, j as nat));
            assert(before.push(row) + align(a, b, i as nat, j as nat) == before + rest);
        }
    }
    if rows.len() == 0 {
        rows.push(
            DiffRow {
                fresh: None,
                fresh_line: None,
                production: None,
                production_line: None,
                changed: false,
            },
        );
    }
    assert(views(rows@) == aligned(a, b));
    rows
}

/// The fresh lines that the rows show, from the top down.
pub open spec fn fresh_column(rows: Seq<DiffRowView>) -> Seq<Seq<char>>
    decreases rows.len(),
{
    if rows.len() == 0 {
        Seq::empty()
    } else {
        match rows[0].fresh {
            Some(line) => seq![line] + fresh_column(rows.drop_first()),
            None => fresh_column(rows.drop_first()),
        }
    }
}

/// The production lines that the rows show, from the top down.
pub open spec fn production_column(rows: Seq<DiffRowView>) -> Seq<Seq<char>>
    decreases rows.len(),
{
    if rows.len() == 0 {
        Seq::empty()
    } else {
        match rows[0].production {
            Some(line) => seq![line] + production_column(rows.drop_first()),
            None => production_column(rows.drop_first()),
        }
    }
}

/// The fresh line numbers that the rows show, from the top down.
pub open spec fn fresh_numbers(rows: Seq<DiffRowView>) -> Seq<nat>
    decreases rows.len(),
{
    if rows.len() == 0 {
        Seq::empty()
    } else {
        match rows[0].fresh_line {
            Some(number) => seq![number] + fresh_numbers(rows.drop_first()),
            None => fresh_numbers(rows.drop_first()),
        }
    }
}

/// The production line numbers that the rows show, from the top down.
pub open spec fn production_numbers(rows: Seq<DiffRowView>) -> Seq<nat>
    decreases rows.len(),
{
    if rows.len() == 0 {
        Seq::empty()
    } else {
        match rows[0].production_line {
            Some(number) => seq![number] + production_numbers(rows.drop_first()),
            None => production_numbers(rows.drop_first()),
        }
    }
}

/// The numbers of the lines from `i` on in a file of `len` lines.
pub open spec fn numbers_from(len: nat, i: nat) -> Seq<nat> {
    Seq::new(lines_left(len, i), |k: int| (i + k + 1) as nat)
}

/// How many rows are not marked as changed.
pub open spec fn unchanged_rows(rows: Seq<DiffRowView>) -> nat
    decreases rows.len(),
{
    if rows.len() == 0 {
        0
    } else {
        unchanged_rows(rows.drop_first()) + if rows[0].changed {
            0nat
        } else {
            1nat
        }
    }
}

proof fn lemma_align_columns(
    fresh: Seq<Seq<char>>,
    production: Seq<Seq<char>>,
    i: nat,
    j: nat,
)
    requires
        i <= fresh.len(),
        j <= production.len(),
    ensures
        fresh_column(align(fresh, production, i, j)) == fresh.skip(i as int),
        production_column(align(fresh, production, i, j)) == production.skip(j as int),
        fresh_numbers(align(fresh, production, i, j)) == numbers_from(fresh.len(), i),
        production_numbers(align(fresh, production, i, j)) == numbers_from(production.len(), j),
        unchanged_rows(align(fresh, production, i, j)) <= lcs(fresh, production, i, j),
    decreases (fresh.len() - i) + (production.len() - j),
{
    let rows = align(fresh, production, i, j);
    if i < fresh.len() || j < production.len() {
        let row = rows[0];
        let i2 = if row.fresh is Some {
            i + 1
        } else {
            i
        };
        let j2 = if row.production is Some {
            j + 1
        } else {
            j
        };
        let rest = align(fresh, production, i2, j2);
        assert(rows == seq![row] + rest);
        assert(rows.drop_first() == rest);
        lemma_align_columns(fresh, production, i2, j2);
        if row.fresh is Some {
            assert(fresh.skip(i as int) == seq![fresh[i as int]] + fresh.skip(
                (i + 1) as int,
            ));
            assert(numbers_from(fresh.len(), i) == seq![(i + 1) as nat] + numbers_from(
                fresh.len(),
                i + 1,
            ));
        }
        if row.production is Some {
            assert(production.skip(j as int) == seq![production[j as int]] + production.skip(
                (j + 1) as int,
            ));
            assert(numbers_from(production.len(), j) == seq![(j + 1) as nat] + numbers_from(
                production.len(),
                j + 1,
            ));
        }
        if row.fresh is Some && row.production is Some && row.changed {
            lemma_lcs_monotone(fresh, production, i, j + 1);
        }
    } else {
        assert(fresh.skip(i as int) == Seq::<Seq<char>>::empty());
        assert(production.skip(j as int) == Seq::<Seq<char>>::empty());
        assert(numbers_from(fresh.len(), i) == Seq::<nat>::empty());
        assert(numbers_from(production.len(), j) == Seq::<nat>::empty());
    }
}

proof fn lemma_lcs_monotone(fresh: Seq<Seq<char>>, production: Seq<Seq<char>>, i: nat, j: nat)
    requires
        i < fresh.len(),
        j <= production.len(),
    ensures
        lcs(fresh, production, i + 1, j) <= lcs(fresh, production, i, j),
    decreases (fresh.len() - i) + (production.len() - j),
{
    if j < production.len() && fresh[i as int] == production[j as int] {
        lemma_lcs_step(fresh, production, i + 1, j);
    }
}

/// Leaving out one production line costs at most one common line.
proof fn lemma_lcs_step(fresh: Seq<Seq<char>>, production: Seq<Seq<char>>, i: nat, j: nat)
    requires
        i <= fresh.len(),
        j < production.len(),
    ensures
        lcs(fresh, production, i, j) <= lcs(fresh, production, i, j + 1) + 1,
    decreases (fresh.len() - i) + (production.len() - j),
{
    if i < fresh.len() {
        if fresh[i as int] == production[j as int] {
            lemma_lcs_monotone(fresh, production, i, j + 1);
        } else {
            lemma_lcs_step(fresh, production, i + 1, j);
            lemma_lcs_monotone(fresh, production, i, j + 1);
        }
    }
}

/// Each side of the comparison shows every line of its file once, in order, under its own number.
pub proof fn law_rows_restate_both_files(fresh: Seq<Seq<char>>, production: Seq<Seq<char>>)
    ensures
        fresh_column(aligned(fresh, production)) == fresh,
        production_column(aligned(fresh, production)) == production,
        fresh_numbers(aligned(fresh, production)) == numbers_from(fresh.len(), 0),
        production_numbers(aligned(fresh, production)) == numbers_from(production.len(), 0),
{
    lemma_align_columns(fresh, production, 0, 0);
    assert(fresh.skip(0) == fresh);
    assert(production.skip(0) == production);
    if fresh.len() == 0 && production.len() == 0 {
        let rows = aligned(fresh, production);
        assert(rows.drop_first() == Seq::<DiffRowView>::empty());
        assert(fresh_column(rows.drop_first()) == fresh);
        assert(production_column(rows.drop_first()) == production);
        assert(numbers_from(0, 0) == Seq::<nat>::empty());
    }
}

proof fn lemma_align_marks(fresh: Seq<Seq<char>>, production: Seq<Seq<char>>, i: nat, j: nat)
    requires
        i <= fresh.len(),
        j <= production.len(),
    ensures
        forall|k: int|
            #![trigger align(fresh, production, i, j)[k]]
            0 <= k < align(fresh, production, i, j).len() ==> {
                let row = align(fresh, production, i, j)[k];
                row.changed == (row.fresh != row.production)
            },
    decreases (fresh.len() - i) + (production.len() - j),
{
    let rows = align(fresh, production, i, j);
    if i < fresh.len() || j < production.len() {
        let row = rows[0];
        let i2 = if row.fresh is Some {
            i + 1
        } else {
            i
        };
        let j2 = if row.production is Some {
            j + 1
        } else {
            j
        };
        let rest = align(fresh, production, i2, j2);
        assert(rows == seq![row] + rest);
        lemma_align_marks(fresh, production, i2, j2);
        assert forall|k: int| 0 <= k < rows.len() implies {
            let row = #[trigger] rows[k];
            row.changed == (row.fresh != row.production)
        } by {
            if k > 0 {
                assert(rows[k] == rest[k - 1]);
            }
        }
    }
}

/// A row is marked as changed exactly when its two sides differ.
pub proof fn law_rows_are_marked_when_sides_differ(
    fresh: Seq<Seq<char>>,
    production: Seq<Seq<char>>,
)
    ensures
        forall|k: int|
            #![trigger aligned(fresh, production)[k]]
            0 <= k < aligned(fresh, production).len() ==> {
                let row = aligned(fresh, production)[k];
                row.changed == (row.fresh != row.production)
            },
{
    lemma_align_marks(fresh, production, 0, 0);
}

proof fn lemma_equal_columns(rows: Seq<DiffRowView>)
    requires
        forall|k: int|
            #![trigger rows[k]]
            0 <= k < rows.len() ==> rows[k].fresh == rows[k].production,
    ensures
        fresh_column(rows) == production_column(rows),
    decreases rows.len(),
{
    if rows.len() > 0 {
        let rest = rows.drop_first();
        assert forall|k: int| 0 <= k < rest.len() implies (#[trigger] rest[k]).fresh
            == rest[k].production by {
            assert(rest[k] == rows[k + 1]);
        }
        lemma_equal_columns(rest);
    }
}

proof fn lemma_align_same(lines: Seq<Seq<char>>, i: nat)
    requires
        i <= lines.len(),
    ensures
        forall|k: int|
            #![trigger align(lines, lines, i, i)[k]]
            0 <= k < align(lines, lines, i, i).len() ==> !align(lines, lines, i, i)[k].changed,
    decreases lines.len() - i,
{
    if i < lines.len() {
        let rows = align(lines, lines, i, i);
        let rest = align(lines, lines, i + 1, i + 1);
        lemma_align_same(lines, i + 1);
        assert forall|k: int| 0 <= k < rows.len() implies !(#[trigger] rows[k]).changed by {
            if k > 0 {
                assert(rows[k] == rest[k - 1]);
            }
        }
    }
}

/// No row is marked as changed exactly when the two files hold the same lines.
pub proof fn law_no_marks_means_same_lines(fresh: Seq<Seq<char>>, production: Seq<Seq<char>>)
    ensures
        (forall|k: int|
            #![trigger aligned(fresh, production)[k]]
            0 <= k < aligned(fresh, production).len() ==> !aligned(fresh, production)[k].changed)
            <==> fresh == production,
{
    let rows = aligned(fresh, production);
    if fresh == production {
        lemma_align_same(fresh, 0);
    }
    if forall|k: int| #![trigger rows[k]] 0 <= k < rows.len() ==> !rows[k].changed {
        law_rows_are_marked_when_sides_differ(fresh, production);
        assert forall|k: int| 0 <= k < rows.len() implies (#[trigger] rows[k]).fresh
            == rows[k].production by {
            assert(!rows[k].changed);
        }
        lemma_equal_columns(rows);
        law_rows_restate_both_files(fresh, production);
    }
}

/// Whether `first` and `second` pick out, in order, equal lines of the two files from lines `i`
/// and `j` on.
pub open spec fn is_common_subsequence(
    fresh: Seq<Seq<char>>,
    production: Seq<Seq<char>>,
    first: Seq<nat>,
    second: Seq<nat>,
    i: nat,
    j: nat,
) -> bool {
    &&& first.len() == second.len()
    &&& forall|k: int|
        0 <= k < first.len() ==> i <= #[trigger] first[k] < fresh.len() && j <= second[k]
            < production.len() && fresh[first[k] as int] == production[second[k] as int]
    &&& forall|k: int, m: int|
        0 <= k < m < first.len() ==> #[trigger] first[k] < #[trigger] first[m] && second[k]
            < second[m]
}

/// `lcs` bounds every common subsequence, and some common subsequence reaches it.
pub proof fn law_lcs_is_longest(
    fresh: Seq<Seq<char>>,
    production: Seq<Seq<char>>,
    i: nat,
    j: nat,
)
    ensures
        forall|first: Seq<nat>, second: Seq<nat>|
            #[trigger] is_common_subsequence(fresh, production, first, second, i, j)
                ==> first.len() <= lcs(fresh, production, i, j),
        exists|first: Seq<nat>, second: Seq<nat>|
            #[trigger] is_common_subsequence(fresh, production, first, second, i, j)
                && first.len() == lcs(fresh, production, i, j),
    decreases lines_left(fresh.len(), i) + lines_left(production.len(), j),
{
    if i >= fresh.len() || j >= production.len() {
        assert forall|first: Seq<nat>, second: Seq<nat>| #[trigger]
            is_common_subsequence(fresh, production, first, second, i, j) implies first.len()
            <= lcs(fresh, production, i, j) by {
            if first.len() > 0 {
                assert(i <= first[0] < fresh.len());
            }
        }
        assert(is_common_subsequence(fresh, production, Seq::empty(), Seq::empty(), i, j));
    } else if fresh[i as int] == production[j as int] {
        law_lcs_is_longest(fresh, production, i + 1, j + 1);
        assert forall|first: Seq<nat>, second: Seq<nat>| #[trigger]
            is_common_subsequence(fresh, production, first, second, i, j) implies first.len()
            <= lcs(fresh, production, i, j) by {
            if first.len() > 0 {
                assert(is_common_subsequence(
                    fresh,
                    production,
                    first.drop_first(),
                    second.drop_first(),
                    i + 1,
                    j + 1,
                )) by {
                    assert forall|k: int| 0 <= k < first.drop_first().len() implies i + 1
                        <= #[trigger] first.drop_first()[k] < fresh.len() && j + 1
                        <= second.drop_first()[k] < production.len()
                        && fresh[first.drop_first()[k] as int]
                        == production[second.drop_first()[k] as int] by {
                        assert(first[0] < first[k + 1]);
                    }
                }
            }
        }
        let (first, second) = choose|first: Seq<nat>, second: Seq<nat>| #[trigger]
            is_common_subsequence(fresh, production, first, second, i + 1, j + 1) && first.len()
                == lcs(fresh, production, i + 1, j + 1);
        let longer = seq![i] + first;
        assert(is_common_subsequence(fresh, production, longer, seq![j] + second, i, j)) by {
            assert forall|k: int| 0 <= k < longer.len() implies i <= #[trigger] longer[k]
                < fresh.len() && j <= (seq![j] + second)[k] < production.len()
                && fresh[longer[k] as int] == production[(seq![j] + second)[k] as int] by {
                if k > 0 {
                    assert(longer[k] == first[k - 1]);
                }
            }
            assert forall|k: int, m: int| 0 <= k < m < longer.len() implies #[trigger] longer[k]
                < #[trigger] longer[m] && (seq![j] + second)[k] < (seq![j] + second)[m] by {
                assert(longer[m] == first[m - 1]);
                if k > 0 {
                    assert(longer[k] == first[k - 1]);
                }
            }
        }
    } else {
        law_lcs_is_longest(fresh, production, i + 1, j);
        law_lcs_is_longest(fresh, production, i, j + 1);
        assert forall|first: Seq<nat>, second: Seq<nat>| #[trigger]
            is_common_subsequence(fresh, production, first, second, i, j) implies first.len()
            <= lcs(fresh, production, i, j) by {
            if first.len() > 0 {
                assert(first[0] != i || second[0] != j);
                if first[0] != i {
                    assert forall|k: int| 0 <= k < first.len() implies i + 1 <= #[trigger] first[k]
                        < fresh.len() && j <= second[k] < production.len()
                        && fresh[first[k] as int] == production[second[k] as int] by {
                        if k > 0 {
                            assert(first[0] < first[k]);
                        }
                    }
                    assert(is_common_subsequence(fresh, production, first, second, i + 1, j));
                } else {
                    assert forall|k: int| 0 <= k < first.len() implies i <= #[trigger] first[k]
                        < fresh.len() && j + 1 <= second[k] < production.len()
                        && fresh[first[k] as int] == production[second[k] as int] by {
                        if k > 0 {
                            assert(first[0] < first[k]);
                        }
                    }
                    assert(is_common_subsequence(fresh, production, first, second, i, j + 1));
                }
            }
        }
        if lcs(fresh, production, i + 1, j) >= lcs(fresh, production, i, j + 1) {
            let (first, second) = choose|first: Seq<nat>, second: Seq<nat>| #[trigger]
                is_common_subsequence(fresh, production, first, second, i + 1, j) && first.len()
                    == lcs(fresh, production, i + 1, j);
            assert(is_common_subsequence(fresh, production, first, second, i, j));
        } else {
            let (first, second) = choose|first: Seq<nat>, second: Seq<nat>| #[trigger]
                is_common_subsequence(fresh, production, first, second, i, j + 1) && first.len()
                    == lcs(fresh, production, i, j + 1);
            assert(is_common_subsequence(fresh, production, first, second, i, j));
        }
    }
}

/// The comparison never shows more unchanged lines than the two files have in common.
pub proof fn law_unchanged_rows_are_common_lines(
    fresh: Seq<Seq<char>>,
    production: Seq<Seq<char>>,
)
    requires
        fresh.len() + production.len() > 0,
    ensures
        unchanged_rows(aligned(fresh, production)) <= lcs(fresh, production, 0, 0),
{
    lemma_align_columns(fresh, production, 0, 0);
}

/// Whether the lines of `part` stand in `whole`, in order, at `places`.
pub open spec fn stands_in(part: Seq<Seq<char>>, whole: Seq<Seq<char>>, places: Seq<nat>) -> bool {
    &&& places.len() == part.len()
    &&& forall|k: int|
        0 <= k < places.len() ==> #[trigger] places[k] < whole.len() && whole[places[k] as int]
            == part[k]
    &&& forall|k: int, m: int|
        0 <= k < m < places.len() ==> #[trigger] places[k] < #[trigger] places[m]
}

proof fn lemma_all_production_lines_unchanged(
    fresh: Seq<Seq<char>>,
    production: Seq<Seq<char>>,
    i: nat,
    j: nat,
)
    requires
        i <= fresh.len(),
        j <= production.len(),
        lcs(fresh, production, i, j) == production.len() - j,
    ensures
        unchanged_rows(align(fresh, production, i, j)) == production.len() - j,
        align(fresh, production, i, j).len() == fresh.len() - i,
    decreases (fresh.len() - i) + (production.len() - j),
{
    let rows = align(fresh, production, i, j);
    if i < fresh.len() {
        if j >= production.len() {
            lemma_all_production_lines_unchanged(fresh, production, i + 1, j);
            assert(rows.drop_first() == align(fresh, production, i + 1, j));
        } else if fresh[i as int] == production[j as int] {
            lemma_all_production_lines_unchanged(fresh, production, i + 1, j + 1);
            assert(rows.drop_first() == align(fresh, production, i + 1, j + 1));
        } else {
            lemma_lcs_bound(fresh, production, i, j + 1);
            lemma_all_production_lines_unchanged(fresh, production, i + 1, j);
            assert(rows.drop_first() == align(fresh, production, i + 1, j));
        }
    }
}

proof fn lemma_all_fresh_lines_unchanged(
    fresh: Seq<Seq<char>>,
    production: Seq<Seq<char>>,
    i: nat,
    j: nat,
)
    requires
        i <= fresh.len(),
        j <= production.len(),
        lcs(fresh, production, i, j) == fresh.len() - i,
    ensures
        unchanged_rows(align(fresh, production, i, j)) == fresh.len() - i,
        align(fresh, production, i, j).len() == production.len() - j,
    decreases (fresh.len() - i) + (production.len() - j),
{
    let rows = align(fresh, production, i, j);
    if j < production.len() {
        if i >= fresh.len() {
            lemma_all_fresh_lines_unchanged(fresh, production, i, j + 1);
            assert(rows.drop_first() == align(fresh, production, i, j + 1));
        } else if fresh[i as int] == production[j as int] {
            lemma_all_fresh_lines_unchanged(fresh, production, i + 1, j + 1);
            assert(rows.drop_first() == align(fresh, production, i + 1, j + 1));
        } else {
            lemma_lcs_bound(fresh, production, i + 1, j);
            lemma_all_fresh_lines_unchanged(fresh, production, i, j + 1);
            assert(rows.drop_first() == align(fresh, production, i, j + 1));
        }
    }
}

/// Where lines were only added, every line that was there before stands in an unchanged row, and
/// there are no more rows than lines in the longer file. The same holds where lines were only removed.
pub proof fn law_added_lines_leave_the_others_unchanged(
    shorter: Seq<Seq<char>>,
    longer: Seq<Seq<char>>,
    places: Seq<nat>,
)
    requires
        shorter.len() > 0,
        stands_in(shorter, longer, places),
    ensures
        unchanged_rows(aligned(longer, shorter)) == shorter.len(),
        aligned(longer, shorter).len() == longer.len(),
        unchanged_rows(aligned(shorter, longer)) == shorter.len(),
        aligned(shorter, longer).len() == longer.len(),
{
    let all = Seq::new(shorter.len(), |k: int| k as nat);
    law_lcs_is_longest(longer, shorter, 0, 0);
    law_lcs_is_longest(shorter, longer, 0, 0);
    lemma_lcs_bound(longer, shorter, 0, 0);
    lemma_lcs_bound(shorter, longer, 0, 0);
    assert(places[0] < longer.len());
    assert(is_common_subsequence(longer, shorter, places, all, 0, 0));
    assert forall|k: int| 0 <= k < all.len() implies 0 <= #[trigger] all[k] < shorter.len() && 0
        <= places[k] < longer.len() && shorter[all[k] as int] == longer[places[k] as int] by {
        assert(longer[places[k] as int] == shorter[k]);
    }
    assert forall|k: int, m: int| 0 <= k < m < all.len() implies #[trigger] all[k]
        < #[trigger] all[m] && places[k] < places[m] by {
        assert(places[k] < places[m]);
    }
    assert(is_common_subsequence(shorter, longer, all, places, 0, 0));
    lemma_all_production_lines_unchanged(longer, shorter, 0, 0);
    lemma_all_fresh_lines_unchanged(shorter, longer, 0, 0);
}

/// How a row stands to the lines that are left on both sides when it is reached, from line `i` of the
/// fresh file and line `j` of the production file on: equal lines always stand side by side; a line
/// stands alone only when the other side has run out, or when setting it aside keeps more common lines
/// than setting the other aside would; and two different lines share a row only when it makes no
/// difference.
pub open spec fn row_keeps_common_lines(
    row: DiffRowView,
    fresh: Seq<Seq<char>>,
    production: Seq<Seq<char>>,
    i: nat,
    j: nat,
) -> bool {
    &&& row.fresh is Some || row.production is Some
    &&& row.fresh is Some ==> i < fresh.len() && row.fresh->0 == fresh[i as int]
    &&& row.production is Some ==> j < production.len() && row.production->0
        == production[j as int]
    &&& i < fresh.len() && j < production.len() && fresh[i as int] == production[j as int]
        ==> row.fresh is Some && row.production is Some
    &&& row.production is None && j < production.len() ==> lcs(fresh, production, i + 1, j) > lcs(
        fresh,
        production,
        i,
        j + 1,
    )
    &&& row.fresh is None && i < fresh.len() ==> lcs(fresh, production, i, j + 1) > lcs(
        fresh,
        production,
        i + 1,
        j,
    )
    &&& row.fresh is Some && row.production is Some && row.fresh != row.production ==> lcs(
        fresh,
        production,
        i + 1,
        j,
    ) == lcs(fresh, production, i, j + 1)
}

proof fn lemma_rows_keep_common_lines(
    fresh: Seq<Seq<char>>,
    production: Seq<Seq<char>>,
    i: nat,
    j: nat,
    k: int,
)
    requires
        i <= fresh.len(),
        j <= production.len(),
        0 <= k < align(fresh, production, i, j).len(),
    ensures
        ({
            let rows = align(fresh, production, i, j);
            row_keeps_common_lines(
                rows[k],
                fresh,
                production,
                i + fresh_column(rows.take(k)).len(),
                j + production_column(rows.take(k)).len(),
            )
        }),
    decreases k,
{
    let rows = align(fresh, production, i, j);
    let row = rows[0];
    let i2 = if row.fresh is Some {
        i + 1
    } else {
        i
    };
    let j2 = if row.production is Some {
        j + 1
    } else {
        j
    };
    let rest = align(fresh, production, i2, j2);
    assert(rows == seq![row] + rest);
    if k == 0 {
        assert(fresh_column(rows.take(0)).len() == 0);
        assert(production_column(rows.take(0)).len() == 0);
    } else {
        lemma_rows_keep_common_lines(fresh, production, i2, j2, k - 1);
        assert(rows.take(k).drop_first() == rest.take(k - 1));
        assert(rows.take(k)[0] == row);
        assert(rows[k] == rest[k - 1]);
    }
}

/// Every row is chosen so that as many common lines as possible can still follow.
pub proof fn law_rows_keep_common_lines(
    fresh: Seq<Seq<char>>,
    production: Seq<Seq<char>>,
    k: int,
)
    requires
        fresh.len() + production.len() > 0,
        0 <= k < aligned(fresh, production).len(),
    ensures
        ({
            let rows = aligned(fresh, production);
            row_keeps_common_lines(
                rows[k],
                fresh,
                production,
                fresh_column(rows.take(k)).len(),
                production_column(rows.take(k)).len(),
            )
        }),
{
    lemma_rows_keep_common_lines(fresh, production, 0, 0, k);
}

proof fn lemma_common_start(
    fresh: Seq<Seq<char>>,
    production: Seq<Seq<char>>,
    i: nat,
    common: nat,
    k: int,
)
    requires
        i <= common <= fresh.len(),
        common <= production.len(),
        fresh.take(common as int) == production.take(common as int),
        0 <= k < common - i,
    ensures
        k < align(fresh, production, i, i).len(),
        align(fresh, production, i, i)[k] == paired_row(
            fresh,
            production,
            (i + k) as nat,
            (i + k) as nat,
            false,
        ),
    decreases k,
{
    assert(fresh.take(common as int)[i as int] == production.take(common as int)[i as int]);
    let rest = align(fresh, production, i + 1, i + 1);
    assert(align(fresh, production, i, i) == seq![paired_row(fresh, production, i, i, false)] + rest);
    if k > 0 {
        lemma_common_start(fresh, production, i + 1, common, k - 1);
    }
}

/// The lines with which both files start stand side by side at the top, unchanged and under equal
/// numbers.
pub proof fn law_common_start_is_unchanged(
    fresh: Seq<Seq<char>>,
    production: Seq<Seq<char>>,
    common: nat,
    k: int,
)
    requires
        common <= fresh.len(),
        common <= production.len(),
        fresh.take(common as int) == production.take(common as int),
        0 <= k < common,
    ensures
        ({
            let row = aligned(fresh, production)[k];
            &&& k < aligned(fresh, production).len()
            &&& row.fresh == Some(fresh[k]) && row.production == Some(fresh[k])
            &&& row.fresh_line == Some((k + 1) as nat) && row.production_line == Some(
                (k + 1) as nat,
            )
            &&& !row.changed
        }),
{
    lemma_common_start(fresh, production, 0, common, k);
    assert(fresh.take(common as int)[k] == production.take(common as int)[k]);
}

proof fn lemma_no_common_line(fresh: Seq<Seq<char>>, production: Seq<Seq<char>>, i: nat, j: nat)
    requires
        forall|a: int, b: int|
            0 <= a < fresh.len() && 0 <= b < production.len() ==> #[trigger] fresh[a]
                != #[trigger] production[b],
    ensures
        lcs(fresh, production, i, j) == 0,
    decreases lines_left(fresh.len(), i) + lines_left(production.len(), j),
{
    if i < fresh.len() && j < production.len() {
        assert(fresh[i as int] != production[j as int]);
        lemma_no_common_line(fresh, production, i + 1, j);
        lemma_no_common_line(fresh, production, i, j + 1);
    }
}

proof fn lemma_different_lines_are_paired(
    fresh: Seq<Seq<char>>,
    production: Seq<Seq<char>>,
    i: nat,
    k: int,
)
    requires
        forall|a: int, b: int|
            0 <= a < fresh.len() && 0 <= b < production.len() ==> #[trigger] fresh[a]
                != #[trigger] production[b],
        i < fresh.len() && i < production.len(),
        0 <= k < fresh.len() - i,
        k < production.len() - i,
    ensures
        k < align(fresh, production, i, i).len(),
        align(fresh, production, i, i)[k] == paired_row(
            fresh,
            production,
            (i + k) as nat,
            (i + k) as nat,
            true,
        ),
    decreases k,
{
    assert(fresh[i as int] != production[i as int]);
    lemma_no_common_line(fresh, production, i + 1, i);
    lemma_no_common_line(fresh, production, i, i + 1);
    let rest = align(fresh, production, i + 1, i + 1);
    assert(align(fresh, production, i, i) == seq![paired_row(fresh, production, i, i, true)] + rest);
    if k > 0 {
        lemma_different_lines_are_paired(fresh, production, i + 1, k - 1);
    }
}

/// Files without a common line stand side by side line by line, all of it changed.
pub proof fn law_different_files_are_paired_line_by_line(
    fresh: Seq<Seq<char>>,
    production: Seq<Seq<char>>,
    k: int,
)
    requires
        forall|a: int, b: int|
            0 <= a < fresh.len() && 0 <= b < production.len() ==> #[trigger] fresh[a]
                != #[trigger] production[b],
        0 <= k < fresh.len(),
        k < production.len(),
    ensures
        ({
            let row = aligned(fresh, production)[k];
            &&& k < aligned(fresh, production).len()
            &&& row.fresh == Some(fresh[k]) && row.production == Some(production[k])
            &&& row.changed
        }),
{
    lemma_different_lines_are_paired(fresh, production, 0, k);
}

/// A line without the carriage return that belongs to its ending.
pub open spec fn without_return(line: Seq<char>) -> Seq<char> {
    if line.len() > 0 && line.last() == '\r' {
        line.drop_last()
    } else {
        line
    }
}

/// The lines of a text. A line ends with a newline, or with a carriage return and a newline; the
/// ending of the last line may be missing.
pub open spec fn text_lines(text: Seq<char>) -> Seq<Seq<char>> {
    let pieces = split_on(text, '\n');
    let ended = Seq::new((pieces.len() - 1) as nat, |i: int| without_return(pieces[i]));
    if pieces.last().len() == 0 {
        ended
    } else {
        ended.push(pieces.last())
    }
}

proof fn lemma_split_is_not_empty(text: Seq<char>, separator: char)
    ensures
        split_on(text, separator).len() > 0,
    decreases text.len(),
{
    if text.len() > 0 {
        lemma_split_is_not_empty(text.drop_last(), separator);
    }
}

/// Takes off the carriage return that belongs to a line ending.
fn drop_return(line: &str) -> (rest: String)
    ensures
        rest@ == without_return(line@),
{
    let mut rest = line.to_owned();
    let chars = chars_of(line);
    if chars.len() > 0 && chars[chars.len() - 1] == '\r' {
        let _ = rest.pop();
    }
    rest
}

/// Splits a text into its lines.
pub fn split_lines(text: &str) -> (lines: Vec<String>)
    ensures
        views(lines@) == text_lines(text@),
{
    let pieces = split_text(text, '\n');
    let ghost all = views(pieces@);
    proof {
        lemma_split_is_not_empty(text@, '\n');
    }
    let last: usize = pieces.len() - 1;
    let mut lines: Vec<String> = Vec::new();
    for i in 0..last
        invariant
            all == views(pieces@),
            last == all.len() - 1,
            views(lines@) == Seq::new(i as nat, |k: int| without_return(all[k])),
    {
        let ghost before = views(lines@);
        lines.push(drop_return(pieces[i].as_str()));
        assert(views(lines@) == before.push(without_return(all[i as int])));
        assert(views(lines@) == Seq::new((i + 1) as nat, |k: int| without_return(all[k])));
    }
    let ghost ended = views(lines@);
    assert(all[last as int] == pieces@[last as int]@);
    if !pieces[last].as_str().is_empty() {
        lines.push(pieces[last].clone());
        assert(views(lines@) == ended.push(all.last()));
    }
    lines
}

/// An ending after the last line adds no line, unless that line was empty or ends with a carriage
/// return.
pub proof fn law_last_line_ending_is_optional(text: Seq<char>)
    requires
        text.len() > 0,
        text.last() != '\n',
        text.last() != '\r',
    ensures
        text_lines(text.push('\n')) == text_lines(text),
{
    let pieces = split_on(text, '\n');
    lemma_split_is_not_empty(text.drop_last(), '\n');
    assert(text.push('\n').drop_last() == text);
    assert(split_on(text.push('\n'), '\n') == pieces.push(Seq::empty()));
    assert(pieces.last().last() == text.last());
    assert(text_lines(text.push('\n')) == text_lines(text));
}

/// A line that ends with a newline, or with a carriage return and a newline, is the first line of a
/// text, whatever follows it.
pub proof fn law_lines_follow_one_another(line: Seq<char>, rest: Seq<char>)
    requires
        !line.contains('\n'),
    ensures
        line.len() == 0 || line.last() != '\r' ==> text_lines(line.push('\n') + rest) == seq![line]
            + text_lines(rest),
        text_lines(line.push('\r').push('\n') + rest) == seq![line] + text_lines(rest),
        line.len() > 0 ==> text_lines(line) == seq![line],
        text_lines(Seq::empty()) == Seq::<Seq<char>>::empty(),
{
    let returned = line.push('\r');
    assert forall|i: int| 0 <= i < returned.len() implies returned[i] != '\n' by {
        if i < line.len() {
            assert(line.contains(line[i]));
        }
    }
    lemma_split_at_newline(line, rest);
    lemma_split_at_newline(returned, rest);
    lemma_split_of_one_line(line);
    lemma_split_is_not_empty(rest, '\n');
    assert(returned.drop_last() == line);
    assert(text_lines(line.push('\n') + rest) == seq![without_return(line)] + text_lines(rest));
    assert(text_lines(returned.push('\n') + rest) == seq![line] + text_lines(rest));
    assert(line.len() > 0 ==> text_lines(line) == seq![line]);
    assert(text_lines(Seq::empty()) == Seq::<Seq<char>>::empty());
}

proof fn lemma_split_of_one_line(line: Seq<char>)
    requires
        !line.contains('\n'),
    ensures
        split_on(line, '\n') == seq![line],
    decreases line.len(),
{
    if line.len() > 0 {
        let shorter = line.drop_last();
        assert forall|i: int| 0 <= i < shorter.len() implies shorter[i] != '\n' by {
            assert(line.contains(line[i]));
        }
        lemma_split_of_one_line(shorter);
        assert(line.contains(line.last()));
        assert(split_on(line, '\n') == seq![shorter.push(line.last())]);
        assert(shorter.push(line.last()) == line);
    } else {
        assert(line == Seq::<char>::empty());
    }
}

proof fn lemma_split_at_newline(line: Seq<char>, rest: Seq<char>)
    requires
        !line.contains('\n'),
    ensures
        split_on(line.push('\n') + rest, '\n') == seq![line] + split_on(rest, '\n'),
    decreases rest.len(),
{
    let text = line.push('\n') + rest;
    if rest.len() == 0 {
        lemma_split_of_one_line(line);
        assert(text == line.push('\n'));
        assert(text.drop_last() == line);
        assert(seq![line].push(Seq::<char>::empty()) == seq![line] + seq![Seq::<char>::empty()]);
    } else {
        let shorter = rest.drop_last();
        lemma_split_at_newline(line, shorter);
        lemma_split_is_not_empty(shorter, '\n');
        assert(text.drop_last() == line.push('\n') + shorter);
        assert(text.last() == rest.last());
        let before = split_on(shorter, '\n');
        if rest.last() == '\n' {
            assert((seq![line] + before).push(Seq::<char>::empty()) == seq![line] + before.push(
                Seq::empty(),
            ));
        } else {
            assert((seq![line] + before).drop_last().push(before.last().push(rest.last()))
                == seq![line] + before.drop_last().push(before.last().push(rest.last())));
        }
    }
}

/// Splits the content of a file into its lines. Bytes that are not UTF-8 become replacement
/// characters.
pub fn read_file_lines(content: &[u8]) -> (lines: Vec<String>)
    ensures
        views(lines@) == text_lines(utf8_lossy(content@)),
        valid_utf8(content@) ==> views(lines@) == text_lines(decode_utf8(content@)),
{
    let text = decode_lossy(content);
    split_lines(text.as_str())
}

/// The files that a comparison reads: on each side the one that the row names there.
pub open spec fn files_to_compare(state: StateView, row: TuiRowView) -> (
    Option<Seq<char>>,
    Option<Seq<char>>,
) {
    (
        match row.fresh_path {
            Some(path) => Some(path_join(state.fresh_root->0, path)),
            None => None,
        },
        match row.production_path {
            Some(path) => Some(path_join(state.production_root->0, path)),
            None => None,
        },
    )
}

/// Finds the files to compare. A side that the row names must have its folder indexed.
pub fn diff_sources(state: &State, row: &TuiRow) -> (files: (Option<String>, Option<String>))
    requires
        row@.fresh_path is Some ==> state@.fresh_root is Some,
        row@.production_path is Some ==> state@.production_root is Some,
    ensures
        (opt_view(files.0), opt_view(files.1)) == files_to_compare(state@, row@),
{
    let fresh = match (&row.fresh_path, &state.fresh_root) {
        (Some(path), Some(root)) => Some(join_paths(root.as_str(), path.as_str())),
        _ => None,
    };
    let production = match (&row.production_path, &state.production_root) {
        (Some(path), Some(root)) => Some(join_paths(root.as_str(), path.as_str())),
        _ => None,
    };
    (fresh, production)
}

/// The files to compare lie in the two indexed folders, under the relative path of the row.
pub proof fn law_compared_files_have_the_path_of_the_row(
    state: StateView,
    row: TuiRowView,
    path: Seq<char>,
)
    requires
        is_plain(path),
    ensures
        row.fresh_path == Some(path) ==> files_to_compare(state, row).0 is Some && relative_to(
            state.fresh_root->0,
            files_to_compare(state, row).0->0,
        ) == Some(path),
        row.production_path == Some(path) ==> files_to_compare(state, row).1 is Some
            && relative_to(state.production_root->0, files_to_compare(state, row).1->0) == Some(
            path,
        ),
        row.fresh_path is None ==> files_to_compare(state, row).0 is None,
        row.production_path is None ==> files_to_compare(state, row).1 is None,
{
    law_relative_path_of_join(state.fresh_root->0, path);
    law_relative_path_of_join(state.production_root->0, path);
}

/// The lines of a file that may be missing.
pub open spec fn content_lines(content: Option<Seq<u8>>) -> Seq<Seq<char>> {
    match content {
        Some(bytes) => text_lines(utf8_lossy(bytes)),
        None => Seq::empty(),
    }
}

/// Whether a file that may be missing holds UTF-8.
pub open spec fn is_utf8(content: Option<Seq<u8>>) -> bool {
    match content {
        Some(bytes) => valid_utf8(bytes),
        None => true,
    }
}

/// The lines of a file that may be missing and holds UTF-8.
pub open spec fn utf8_lines(content: Option<Seq<u8>>) -> Seq<Seq<char>> {
    match content {
        Some(bytes) => text_lines(decode_utf8(bytes)),
        None => Seq::empty(),
    }
}

/// Compares the contents of two files line by line. A side without a file has no lines.
pub fn build_diff_rows(fresh: &Option<Vec<u8>>, production: &Option<Vec<u8>>) -> (rows: Vec<
    DiffRow,
>)
    ensures
        views(rows@) == aligned(
            content_lines(opt_view(*fresh)),
            content_lines(opt_view(*production)),
        ),
        is_utf8(opt_view(*fresh)) && is_utf8(opt_view(*production)) ==> views(rows@) == aligned(
            utf8_lines(opt_view(*fresh)),
            utf8_lines(opt_view(*production)),
        ),
{
    let fresh_lines = match fresh {
        Some(content) => read_file_lines(content.as_slice()),
        None => Vec::new(),
    };
    let production_lines = match production {
        Some(content) => read_file_lines(content.as_slice()),
        None => Vec::new(),
    };
    assert(fresh is None ==> views(fresh_lines@) == Seq::<Seq<char>>::empty());
    assert(production is None ==> views(production_lines@) == Seq::<Seq<char>>::empty());
    align_lines(fresh_lines.as_slice(), production_lines.as_slice())
}

/// Every row holds a line of at least one side, except the one row that stands for two empty files.
pub proof fn law_every_row_holds_a_line(fresh: Seq<Seq<char>>, production: Seq<Seq<char>>)
    ensures
        ({
            let rows = aligned(fresh, production);
            let empty = fresh.len() == 0 && production.len() == 0;
            &&& empty ==> rows.len() == 1 && rows[0].fresh is None && rows[0].production is None
                && rows[0].fresh_line is None && rows[0].production_line is None && !rows[0].changed
            &&& !empty ==> forall|k: int|
                0 <= k < rows.len() ==> (#[trigger] rows[k]).fresh is Some
                    || rows[k].production is Some
            &&& forall|k: int|
                0 <= k < rows.len() ==> ((#[trigger] rows[k]).fresh is Some
                    <==> rows[k].fresh_line is Some) && (rows[k].production is Some
                    <==> rows[k].production_line is Some)
        }),
{
    lemma_rows_hold_lines(fresh, production, 0, 0);
}

/// The rows from two lines on each hold a line.
proof fn lemma_rows_hold_lines(fresh: Seq<Seq<char>>, production: Seq<Seq<char>>, i: nat, j: nat)
    ensures
        forall|k: int|
            #![trigger align(fresh, production, i, j)[k]]
            0 <= k < align(fresh, production, i, j).len() ==> {
                let row = align(fresh, production, i, j)[k];
                &&& row.fresh is Some || row.production is Some
                &&& row.fresh is Some <==> row.fresh_line is Some
                &&& row.production is Some <==> row.production_line is Some
            },
    decreases lines_left(fresh.len(), i) + lines_left(production.len(), j),
{
    let rows = align(fresh, production, i, j);
    if i < fresh.len() || j < production.len() {
        let row = rows[0];
        let i2 = if row.fresh is Some {
            i + 1
        } else {
            i
        };
        let j2 = if row.production is Some {
            j + 1
        } else {
            j
        };
        lemma_rows_hold_lines(fresh, production, i2, j2);
        let rest = align(fresh, production, i2, j2);
        assert(rows == seq![row] + rest);
        assert forall|k: int| #![trigger rows[k]] 0 <= k < rows.len() implies {
            &&& rows[k].fresh is Some || rows[k].production is Some
            &&& rows[k].fresh is Some <==> rows[k].fresh_line is Some
            &&& rows[k].production is Some <==> rows[k].production_line is Some
        } by {
            if k > 0 {
                assert(rows[k] == rest[k - 1]);
            }
        }
    }
}

/// A file that only one side has is shown line by line, all of it marked as changed.
pub proof fn law_file_of_one_side_is_all_changed(lines: Seq<Seq<char>>, k: int)
    requires
        0 <= k < lines.len(),
    ensures
        ({
            let added = aligned(lines, content_lines(None));
            let removed = aligned(content_lines(None), lines);
            &&& added.len() == lines.len()
            &&& added[k] == (DiffRowView {
                fresh: Some(lines[k]),
                fresh_line: Some((k + 1) as nat),
                production: None,
                production_line: None,
                changed: true,
            })
            &&& removed.len() == lines.len()
            &&& removed[k] == (DiffRowView {
                fresh: None,
                fresh_line: None,
                production: Some(lines[k]),
                production_line: Some((k + 1) as nat),
                changed: true,
            })
        }),
{
    lemma_one_side(lines, 0, k);
}

/// The rows of a file that the other side lacks, from line `i` on.
proof fn lemma_one_side(lines: Seq<Seq<char>>, i: nat, k: int)
    requires
        i <= lines.len(),
    ensures
        ({
            let none = Seq::<Seq<char>>::empty();
            &&& align(lines, none, i, 0).len() == lines.len() - i
            &&& align(none, lines, 0, i).len() == lines.len() - i
            &&& i <= k < lines.len() ==> align(lines, none, i, 0)[k - i] == fresh_row(
                lines,
                k as nat,
            )
            &&& i <= k < lines.len() ==> align(none, lines, 0, i)[k - i] == production_row(
                lines,
                k as nat,
            )
        }),
    decreases lines.len() - i,
{
    if i < lines.len() {
        lemma_one_side(lines, i + 1, k);
    }
}

} // verus!
