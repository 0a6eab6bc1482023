//! The two folder panels: what they list, where their cursors stand, and how their files compare.

use crate::compare::{change_of, ChangeKind};
use crate::index::FileEntry;
use crate::order::{
    is_stable_order, is_stable_run, law_stable_order_is_unique, lemma_stable_run_exists,
    sorts_before, stable_order,
};
use crate::path::{
    components, join_paths, parent_of, parent_path, path_join, relative_to, same_path, strip_root,
};
use crate::state::{State, StateView};
use crate::text::{
    lemma_lex_irreflexive, lemma_lex_transitive, lex_less, lowercase, opt_view, to_lowercase, views,
};
use vstd::prelude::*;
use vstd::string::StringExecFns;

verus! {

/// What a folder entry is.
#[derive(Debug, Clone, Copy, PartialEq, Eq, Structural)]
pub enum FileKind {
    Folder,
    File,
    Other,
}

/// An entry of a folder, as the folder lists it.
#[derive(Debug)]
pub struct DirItem {
    pub name: String,
    pub kind: FileKind,
}

impl View for DirItem {
    type V = (Seq<char>, FileKind);

    open spec fn view(&self) -> (Seq<char>, FileKind) {
        (self.name@, self.kind)
    }
}

/// A line of a panel: a folder, named in brackets, or a file.
#[derive(Debug)]
pub struct FsEntry {
    pub name: String,
    pub path: String,
    pub is_dir: bool,
}

/// A line of a panel as text.
pub struct FsEntryView {
    pub name: Seq<char>,
    pub path: Seq<char>,
    pub is_dir: bool,
}

impl View for FsEntry {
    type V = FsEntryView;

    open spec fn view(&self) -> FsEntryView {
        FsEntryView { name: self.name@, path: self.path@, is_dir: self.is_dir }
    }
}

/// The line that leads to the parent folder, where there is one.
pub open spec fn parent_line(folder: Seq<char>) -> Seq<FsEntryView> {
    match parent_of(folder) {
        Some(parent) => seq![FsEntryView { name: "[..]"@, path: parent, is_dir: true }],
        None => Seq::empty(),
    }
}

/// The line of a folder in a folder.
pub open spec fn folder_line(folder: Seq<char>, name: Seq<char>) -> FsEntryView {
    FsEntryView { name: "["@ + name + "]"@, path: path_join(folder, name), is_dir: true }
}

/// The line of a file in a folder.
pub open spec fn file_line(folder: Seq<char>, name: Seq<char>) -> FsEntryView {
    FsEntryView { name, path: path_join(folder, name), is_dir: false }
}

/// The lines for the folders in a folder, in the order in which it lists them.
pub open spec fn folder_lines(
    folder: Seq<char>,
    items: Seq<(Seq<char>, FileKind)>,
) -> Seq<FsEntryView>
    decreases items.len(),
{
    if items.len() == 0 {
        Seq::empty()
    } else {
        let rest = folder_lines(folder, items.drop_last());
        let (name, kind) = items.last();
        if kind == FileKind::Folder {
            rest.push(folder_line(folder, name))
        } else {
            rest
        }
    }
}

/// The lines for the files in a folder, in the order in which it lists them.
pub open spec fn file_lines(
    folder: Seq<char>,
    items: Seq<(Seq<char>, FileKind)>,
) -> Seq<FsEntryView>
    decreases items.len(),
{
    if items.len() == 0 {
        Seq::empty()
    } else {
        let rest = file_lines(folder, items.drop_last());
        let (name, kind) = items.last();
        if kind == FileKind::File {
            rest.push(file_line(folder, name))
        } else {
            rest
        }
    }
}

/// The names by which lines are sorted, without regard to case.
pub open spec fn name_keys(lines: Seq<FsEntryView>) -> Seq<Seq<char>> {
    Seq::new(lines.len(), |i: int| lowercase(lines[i].name))
}

/// The lines sorted by name without regard to case. Lines with equal names keep their order.
pub open spec fn in_name_order(lines: Seq<FsEntryView>) -> Seq<FsEntryView> {
    let order = choose|order: Seq<usize>| is_stable_order(name_keys(lines), order);
    Seq::new(lines.len(), |i: int| lines[order[i] as int])
}

/// The lines of a panel: folders first, then files, each sorted by name.
pub open spec fn panel_lines(
    folder: Seq<char>,
    items: Seq<(Seq<char>, FileKind)>,
) -> Seq<FsEntryView> {
    in_name_order(parent_line(folder) + folder_lines(folder, items)) + in_name_order(
        file_lines(folder, items),
    )
}

/// Sorts lines by name without regard to case.
fn sort_by_name(lines: &Vec<FsEntry>) -> (sorted: Vec<FsEntry>)
    ensures
        views(sorted@) == in_name_order(views(lines@)),
{
    let ghost all = views(lines@);
    let mut keys: Vec<String> = Vec::new();
    for i in 0..lines.len()
        invariant
            all == views(lines@),
            views(keys@) == name_keys(all).take(i as int),
    {
        let ghost before = views(keys@);
        keys.push(to_lowercase(lines[i].name.as_str()));
        assert(views(keys@) == before.push(lowercase(all[i as int].name)));
        assert(views(keys@) == name_keys(all).take(i + 1));
    }
    assert(name_keys(all).take(all.len() as int) == name_keys(all));
    let order = stable_order(keys.as_slice());
    let mut sorted: Vec<FsEntry> = Vec::new();
    for i in 0..order.len()
        invariant
            all == views(lines@),
            is_stable_order(name_keys(all), order@),
            views(sorted@) == Seq::new(i as nat, |k: int| all[order@[k] as int]),
    {
        let ghost before = views(sorted@);
        let line = &lines[order[i]];
        sorted.push(
            FsEntry { name: line.name.clone(), path: line.path.clone(), is_dir: line.is_dir },
        );
        assert(views(sorted@) == before.push(all[order@[i as int] as int]));
        assert(views(sorted@) == Seq::new((i + 1) as nat, |k: int| all[order@[k] as int]));
    }
    proof {
        let chosen = choose|order: Seq<usize>| is_stable_order(name_keys(all), order);
        law_stable_order_is_unique(name_keys(all), chosen, order@);
        assert(views(sorted@) == in_name_order(all));
    }
    sorted
}

/// Arranges the entries of a folder for a panel.
pub fn read_browser_entries(path: &str, items: &[DirItem]) -> (lines: Vec<FsEntry>)
    ensures
        views(lines@) == panel_lines(path@, views(items@)),
{
    let ghost all = views(items@);
    let mut folders: Vec<FsEntry> = Vec::new();
    let mut files: Vec<FsEntry> = Vec::new();
    if let Some(parent) = parent_path(path) {
        folders.push(FsEntry { name: "[..]".to_owned(), path: parent, is_dir: true });
    }
    assert(views(folders@) == parent_line(path@));
    assert(parent_line(path@) + Seq::<FsEntryView>::empty() == parent_line(path@));
    for i in 0..items.len()
        invariant
            all == views(items@),
            views(folders@) == parent_line(path@) + folder_lines(path@, all.take(i as int)),
            views(files@) == file_lines(path@, all.take(i as int)),
    {
        let item = &items[i];
        let ghost before_folders = views(folders@);
        let ghost before_files = views(files@);
        assert(all.take(i + 1).drop_last() == all.take(i as int));
        assert(all[i as int] == item@);
        match item.kind {
            FileKind::Folder => {
                folders.push(
                    FsEntry {
                        name: "[".to_owned().concat(item.name.as_str()).concat("]"),
                        path: join_paths(path, item.name.as_str()),
                        is_dir: true,
                    },
                );
                assert(views(folders@) == before_folders.push(folders@.last()@));
                assert(views(folders@) == parent_line(path@) + folder_lines(
                    path@,
                    all.take(i + 1),
                ));
            },
            FileKind::File => {
                files.push(
                    FsEntry {
                        name: item.name.clone(),
                        path: join_paths(path, item.name.as_str()),
                        is_dir: false,
                    },
                );
                assert(views(files@) == before_files.push(files@.last()@));
            },
            FileKind::Other => {},
        }
    }
    assert(all.take(all.len() as int) == all);
    let mut lines = sort_by_name(&folders);
    let ghost first = views(lines@);
    let mut sorted_files = sort_by_name(&files);
    let ghost second = views(sorted_files@);
    lines.append(&mut sorted_files);
    assert(views(lines@) == first + second);
    lines
}

/// Sorting keeps the lines: it adds none and loses none.
proof fn lemma_name_order_keeps_lines(lines: Seq<FsEntryView>)
    requires
        lines.len() <= usize::MAX,
    ensures
        in_name_order(lines).len() == lines.len(),
        forall|line: FsEntryView| #[trigger]
            in_name_order(lines).contains(line) <==> lines.contains(line),
        forall|i: int, j: int|
            0 <= i < j < lines.len() ==> !lex_less(
                lowercase((#[trigger] in_name_order(lines)[j]).name),
                lowercase((#[trigger] in_name_order(lines)[i]).name),
            ),
{
    let keys = name_keys(lines);
    let high = keys.len() as int;
    lemma_stable_run_exists(keys, high);
    let witness = choose|order: Seq<usize>| is_stable_run(keys, order, 0, high);
    assert(is_stable_order(keys, witness));
    let order = choose|order: Seq<usize>| is_stable_order(keys, order);
    let sorted = in_name_order(lines);
    assert forall|line: FsEntryView| #[trigger] sorted.contains(line) <==> lines.contains(line) by {
        if sorted.contains(line) {
            let i = choose|i: int| 0 <= i < sorted.len() && sorted[i] == line;
            assert(lines[order[i] as int] == line);
        }
        if lines.contains(line) {
            let k = choose|k: int| 0 <= k < lines.len() && lines[k] == line;
            assert(order.contains(k as usize));
            let i = choose|i: int| 0 <= i < order.len() && order[i] == k as usize;
            assert(sorted[i] == line);
        }
    }
    assert forall|i: int, j: int| 0 <= i < j < lines.len() implies !lex_less(
        lowercase((#[trigger] sorted[j]).name),
        lowercase((#[trigger] sorted[i]).name),
    ) by {
        let a = order[i] as int;
        let b = order[j] as int;
        assert(sorts_before(keys, a, b));
        if lex_less(keys[b], keys[a]) {
            if lex_less(keys[a], keys[b]) {
                lemma_lex_transitive(keys[a], keys[b], keys[a]);
            }
            lemma_lex_irreflexive(keys[a]);
        }
    }
}

/// Every folder of a folder has its line.
proof fn lemma_folder_lines(folder: Seq<char>, items: Seq<(Seq<char>, FileKind)>)
    ensures
        folder_lines(folder, items).len() <= items.len(),
        forall|i: int|
            0 <= i < items.len() && (#[trigger] items[i]).1 == FileKind::Folder ==> folder_lines(
                folder,
                items,
            ).contains(folder_line(folder, items[i].0)),
        forall|k: int|
            0 <= k < folder_lines(folder, items).len() ==> (#[trigger] folder_lines(
                folder,
                items,
            )[k]).is_dir,
    decreases items.len(),
{
    if items.len() > 0 {
        let before = items.drop_last();
        lemma_folder_lines(folder, before);
        let rest = folder_lines(folder, before);
        let all = folder_lines(folder, items);
        let (name, kind) = items.last();
        if kind == FileKind::Folder {
            assert(all == rest.push(folder_line(folder, name)));
            assert(all[rest.len() as int] == folder_line(folder, name));
        }
        assert forall|i: int|
            0 <= i < items.len() && (#[trigger] items[i]).1 == FileKind::Folder implies all.contains(
            folder_line(folder, items[i].0),
        ) by {
            if i < before.len() {
                assert(before[i] == items[i]);
                let k = rest.index_of(folder_line(folder, items[i].0));
                assert(all[k] == rest[k]);
            }
        }
        assert forall|k: int| 0 <= k < all.len() implies (#[trigger] all[k]).is_dir by {
            if k < rest.len() {
                assert(rest[k] == all[k]);
            }
        }
    }
}

/// Every file of a folder has its line.
proof fn lemma_file_lines(folder: Seq<char>, items: Seq<(Seq<char>, FileKind)>)
    ensures
        file_lines(folder, items).len() <= items.len(),
        forall|i: int|
            0 <= i < items.len() && (#[trigger] items[i]).1 == FileKind::File ==> file_lines(
                folder,
                items,
            ).contains(file_line(folder, items[i].0)),
        forall|k: int|
            0 <= k < file_lines(folder, items).len() ==> !(#[trigger] file_lines(
                folder,
                items,
            )[k]).is_dir,
    decreases items.len(),
{
    if items.len() > 0 {
        let before = items.drop_last();
        lemma_file_lines(folder, before);
        let rest = file_lines(folder, before);
        let all = file_lines(folder, items);
        let (name, kind) = items.last();
        if kind == FileKind::File {
            assert(all == rest.push(file_line(folder, name)));
            assert(all[rest.len() as int] == file_line(folder, name));
        }
        assert forall|i: int|
            0 <= i < items.len() && (#[trigger] items[i]).1 == FileKind::File implies all.contains(
            file_line(folder, items[i].0),
        ) by {
            if i < before.len() {
                assert(before[i] == items[i]);
                let k = rest.index_of(file_line(folder, items[i].0));
                assert(all[k] == rest[k]);
            }
        }
        assert forall|k: int| 0 <= k < all.len() implies !(#[trigger] all[k]).is_dir by {
            if k < rest.len() {
                assert(rest[k] == all[k]);
            }
        }
    }
}

/// A panel lists the parent folder and every folder and file of its folder, and nothing else. Folders
/// come before files, and each are in the order of their names without regard to case.
pub proof fn law_panel_lists_the_folder(folder: Seq<char>, items: Seq<(Seq<char>, FileKind)>)
    requires
        items.len() < usize::MAX,
    ensures
        ({
            let lines = panel_lines(folder, items);
            &&& parent_of(folder) is Some ==> lines.contains(
                FsEntryView { name: "[..]"@, path: parent_of(folder)->0, is_dir: true },
            )
            &&& forall|i: int|
                0 <= i < items.len() && (#[trigger] items[i]).1 == FileKind::Folder
                    ==> lines.contains(folder_line(folder, items[i].0))
            &&& forall|i: int|
                0 <= i < items.len() && (#[trigger] items[i]).1 == FileKind::File
                    ==> lines.contains(file_line(folder, items[i].0))
            &&& forall|k: int|
                0 <= k < lines.len() ==> parent_line(folder).contains(#[trigger] lines[k])
                    || folder_lines(folder, items).contains(lines[k]) || file_lines(
                    folder,
                    items,
                ).contains(lines[k])
            &&& forall|j: int, k: int|
                0 <= j < k < lines.len() && (#[trigger] lines[k]).is_dir ==> (
                #[trigger] lines[j]).is_dir
            &&& forall|j: int, k: int|
                0 <= j < k < lines.len() && (#[trigger] lines[j]).is_dir == (
                #[trigger] lines[k]).is_dir ==> !lex_less(
                    lowercase(lines[k].name),
                    lowercase(lines[j].name),
                )
        }),
{
    let up = parent_line(folder);
    let folders = folder_lines(folder, items);
    let files = file_lines(folder, items);
    lemma_folder_lines(folder, items);
    lemma_file_lines(folder, items);
    lemma_name_order_keeps_lines(up + folders);
    lemma_name_order_keeps_lines(files);
    let first = in_name_order(up + folders);
    let second = in_name_order(files);
    let lines = panel_lines(folder, items);
    assert forall|line: FsEntryView| #[trigger] first.contains(line) implies lines.contains(
        line,
    ) by {
        let k = first.index_of(line);
        assert(lines[k] == line);
    }
    assert forall|line: FsEntryView| #[trigger] second.contains(line) implies lines.contains(
        line,
    ) by {
        let k = second.index_of(line);
        assert(lines[first.len() + k] == line);
    }
    if parent_of(folder) is Some {
        assert((up + folders)[0] == up[0]);
        assert(first.contains(up[0]));
    }
    assert forall|i: int|
        0 <= i < items.len() && (#[trigger] items[i]).1 == FileKind::Folder implies lines.contains(
        folder_line(folder, items[i].0),
    ) by {
        let k = folders.index_of(folder_line(folder, items[i].0));
        assert((up + folders)[up.len() + k] == folders[k]);
        assert(first.contains(folders[k]));
    }
    assert forall|i: int|
        0 <= i < items.len() && (#[trigger] items[i]).1 == FileKind::File implies lines.contains(
        file_line(folder, items[i].0),
    ) by {
        assert(second.contains(file_line(folder, items[i].0)));
    }
    assert forall|k: int| 0 <= k < lines.len() implies (up.contains(#[trigger] lines[k])
        || folders.contains(lines[k]) || files.contains(lines[k])) && (lines[k].is_dir <==> k
        < first.len()) by {
        if k < first.len() {
            assert(first[k] == lines[k]);
            assert(first.contains(lines[k]));
            let m = (up + folders).index_of(lines[k]);
            if m < up.len() {
                assert(up[m] == lines[k]);
            } else {
                assert(folders[m - up.len()] == lines[k]);
            }
        } else {
            assert(second[k - first.len()] == lines[k]);
            assert(second.contains(lines[k]));
            let m = files.index_of(lines[k]);
            assert(files[m] == lines[k]);
        }
    }
    assert forall|j: int, k: int|
        0 <= j < k < lines.len() && (#[trigger] lines[j]).is_dir == (
        #[trigger] lines[k]).is_dir implies !lex_less(
        lowercase(lines[k].name),
        lowercase(lines[j].name),
    ) by {
        if k < first.len() {
            assert(first[j] == lines[j] && first[k] == lines[k]);
        } else {
            assert(second[j - first.len()] == lines[j] && second[k - first.len()] == lines[k]);
        }
    }
}

/// Whether a line leads to an entry of a folder: by its path, with the name of a folder in brackets.
pub open spec fn line_leads_to(
    folder: Seq<char>,
    item: (Seq<char>, FileKind),
    line: FsEntryView,
) -> bool {
    &&& line.path == path_join(folder, item.0)
    &&& match item.1 {
        FileKind::Folder => line.is_dir && line.name == seq!['['] + item.0 + seq![']'],
        FileKind::File => !line.is_dir && line.name == item.0,
        FileKind::Other => false,
    }
}

/// Each line of a panel leads to the parent folder or to a folder or file of its folder, and there are
/// as many lines as there are such folders and files.
pub proof fn law_panel_lines_lead_somewhere(folder: Seq<char>, items: Seq<(Seq<char>, FileKind)>)
    requires
        items.len() < usize::MAX,
    ensures
        ({
            let lines = panel_lines(folder, items);
            let shown = items.filter(|item: (Seq<char>, FileKind)| item.1 != FileKind::Other);
            &&& lines.len() == shown.len() + if parent_of(folder) is Some {
                1int
            } else {
                0
            }
            &&& forall|k: int|
                0 <= k < lines.len() ==> (#[trigger] lines[k]).is_dir && Some(lines[k].path)
                    == parent_of(folder) && lines[k].name == seq!['[', '.', '.', ']']
                    || exists|i: int|
                    0 <= i < items.len() && line_leads_to(folder, #[trigger] items[i], lines[k])
        }),
{
    law_panel_lists_the_folder(folder, items);
    lemma_lines_lead_to_items(folder, items);
    let up = parent_line(folder);
    let folders = folder_lines(folder, items);
    let files = file_lines(folder, items);
    lemma_folder_lines(folder, items);
    lemma_file_lines(folder, items);
    lemma_name_order_keeps_lines(up + folders);
    lemma_name_order_keeps_lines(files);
    let lines = panel_lines(folder, items);
    assert forall|k: int| 0 <= k < lines.len() implies (#[trigger] lines[k]).is_dir && Some(
        lines[k].path,
    ) == parent_of(folder) && lines[k].name == seq!['[', '.', '.', ']'] || exists|i: int|
        0 <= i < items.len() && line_leads_to(folder, #[trigger] items[i], lines[k]) by {
        let line = lines[k];
        if up.contains(line) {
            reveal_strlit("[..]");
            assert(line == up[0]);
            assert("[..]"@ == seq!['[', '.', '.', ']']);
        } else if folders.contains(line) {
            let m = folders.index_of(line);
            assert(folders[m] == line);
        } else {
            let m = files.index_of(line);
            assert(files[m] == line);
        }
    }
}

/// The lines of folders and files lead to them, one line each.
proof fn lemma_lines_lead_to_items(folder: Seq<char>, items: Seq<(Seq<char>, FileKind)>)
    ensures
        ({
            let folders = folder_lines(folder, items);
            let files = file_lines(folder, items);
            &&& forall|k: int|
                0 <= k < folders.len() ==> exists|i: int|
                    0 <= i < items.len() && line_leads_to(
                        folder,
                        #[trigger] items[i],
                        #[trigger] folders[k],
                    )
            &&& forall|k: int|
                0 <= k < files.len() ==> exists|i: int|
                    0 <= i < items.len() && line_leads_to(
                        folder,
                        #[trigger] items[i],
                        #[trigger] files[k],
                    )
            &&& folders.len() + files.len() == items.filter(
                |item: (Seq<char>, FileKind)| item.1 != FileKind::Other,
            ).len()
        }),
    decreases items.len(),
{
    reveal(Seq::filter);
    if items.len() > 0 {
        let before = items.drop_last();
        let last = items.last();
        lemma_lines_lead_to_items(folder, before);
        let folders = folder_lines(folder, items);
        let files = file_lines(folder, items);
        assert forall|k: int| 0 <= k < folders.len() implies exists|i: int|
            0 <= i < items.len() && line_leads_to(
                folder,
                #[trigger] items[i],
                #[trigger] folders[k],
            ) by {
            let rest = folder_lines(folder, before);
            if k < rest.len() {
                assert(rest[k] == folders[k]);
                let i = choose|i: int|
                    0 <= i < before.len() && line_leads_to(
                        folder,
                        #[trigger] before[i],
                        rest[k],
                    );
                assert(items[i] == before[i]);
            } else {
                reveal_strlit("[");
                reveal_strlit("]");
                assert("["@ == seq!['['] && "]"@ == seq![']']);
                assert(line_leads_to(folder, items[items.len() - 1], folders[k]));
            }
        }
        assert forall|k: int| 0 <= k < files.len() implies exists|i: int|
            0 <= i < items.len() && line_leads_to(
                folder,
                #[trigger] items[i],
                #[trigger] files[k],
            ) by {
            let rest = file_lines(folder, before);
            if k < rest.len() {
                assert(rest[k] == files[k]);
                let i = choose|i: int|
                    0 <= i < before.len() && line_leads_to(
                        folder,
                        #[trigger] before[i],
                        rest[k],
                    );
                assert(items[i] == before[i]);
            } else {
                assert(line_leads_to(folder, items[items.len() - 1], files[k]));
            }
        }
    }
}

/// Which panel is worked in.
#[derive(Debug, Clone, Copy, PartialEq, Eq, Structural)]
pub enum ActivePanel {
    Left,
    Right,
}

impl ActivePanel {
    /// The panel across.
    pub open spec fn across(self) -> ActivePanel {
        match self {
            ActivePanel::Left => ActivePanel::Right,
            ActivePanel::Right => ActivePanel::Left,
        }
    }

    /// Switches to the panel across.
    pub fn other(self) -> (panel: ActivePanel)
        ensures
            panel == self.across(),
            panel.across() == self,
    {
        match self {
            ActivePanel::Left => ActivePanel::Right,
            ActivePanel::Right => ActivePanel::Left,
        }
    }
}

/// The last place in a list, or the first in an empty one.
pub open spec fn last_place(total: nat) -> nat {
    if total == 0 {
        0
    } else {
        (total - 1) as nat
    }
}

/// A place, moved back into a list where it lies behind its end.
pub open spec fn clamped(place: nat, total: nat) -> nat {
    if place <= last_place(total) {
        place
    } else {
        last_place(total)
    }
}

/// `count` places up, short of the first.
pub open spec fn moved_up(place: nat, count: nat) -> nat {
    if place <= count {
        0
    } else {
        (place - count) as nat
    }
}

/// One place down, short of the last.
pub open spec fn moved_down(place: nat, total: nat) -> nat {
    if place + 1 < total {
        place + 1
    } else {
        place
    }
}

/// How far a page reaches.
pub const PAGE: usize = 10;

/// A move of a cursor in a list.
#[derive(Debug, Clone, Copy, PartialEq, Eq, Structural)]
pub enum CursorMove {
    Up,
    Down,
    PageUp,
    PageDown,
    Home,
    End,
}

/// Where a move leads in a list of `total` lines.
pub open spec fn cursor_after(step: CursorMove, place: nat, total: nat) -> nat {
    match step {
        CursorMove::Up => moved_up(place, 1),
        CursorMove::Down => moved_down(place, total),
        CursorMove::PageUp => moved_up(place, PAGE as nat),
        CursorMove::PageDown => clamped(place + PAGE as nat, total),
        CursorMove::Home => 0,
        CursorMove::End => last_place(total),
    }
}

/// Whether a cursor stands on a line, or at the start of an empty list.
pub open spec fn on_a_line(place: nat, total: nat) -> bool {
    place <= last_place(total)
}

/// Moves a cursor in a list of `total` lines.
pub fn move_cursor(step: CursorMove, place: usize, total: usize) -> (next: usize)
    ensures
        next == cursor_after(step, place as nat, total as nat),
{
    let last: usize = total.saturating_sub(1);
    match step {
        CursorMove::Up => place.saturating_sub(1),
        CursorMove::Down => if place < last {
            place + 1
        } else {
            place
        },
        CursorMove::PageUp => place.saturating_sub(PAGE),
        CursorMove::PageDown => {
            let far: usize = place.saturating_add(PAGE);
            if far <= last {
                far
            } else {
                last
            }
        },
        CursorMove::Home => 0,
        CursorMove::End => last,
    }
}

/// A cursor that stands on a line stays on one.
pub proof fn law_cursor_stays_on_a_line(step: CursorMove, place: nat, total: nat)
    requires
        on_a_line(place, total),
    ensures
        on_a_line(cursor_after(step, place, total), total),
{
}

/// Where a cursor stands after several equal moves.
pub open spec fn after_moves(step: CursorMove, count: nat, place: nat, total: nat) -> nat
    decreases count,
{
    if count == 0 {
        place
    } else {
        cursor_after(step, after_moves(step, (count - 1) as nat, place, total), total)
    }
}

/// Down leads to the next line and up to the one before, as long as there is one, so each takes the
/// other back. A page is ten lines. Home and End lead to the two ends.
pub proof fn law_cursor_moves_line_by_line(place: nat, total: nat)
    requires
        place < total,
    ensures
        place + 1 < total ==> cursor_after(CursorMove::Down, place, total) == place + 1,
        place + 1 == total ==> cursor_after(CursorMove::Down, place, total) == place,
        place > 0 ==> cursor_after(CursorMove::Up, place, total) == place - 1,
        place == 0 ==> cursor_after(CursorMove::Up, place, total) == place,
        cursor_after(CursorMove::PageDown, place, total) == after_moves(
            CursorMove::Down,
            10,
            place,
            total,
        ),
        cursor_after(CursorMove::PageUp, place, total) == after_moves(
            CursorMove::Up,
            10,
            place,
            total,
        ),
        cursor_after(CursorMove::Home, place, total) == 0,
        cursor_after(CursorMove::End, place, total) == total - 1,
{
    reveal_with_fuel(after_moves, 11);
}

/// In an empty list a cursor stays at the start.
pub proof fn law_cursor_of_an_empty_list_stays(step: CursorMove)
    ensures
        cursor_after(step, 0, 0) == 0,
{
}

/// The lines that listing a folder gave.
pub open spec fn listed_lines(listing: Result<Vec<FsEntry>, String>) -> Option<Seq<FsEntryView>> {
    match listing {
        Ok(entries) => Some(views(entries@)),
        Err(_) => None,
    }
}

/// Why listing a folder failed, if it did.
pub open spec fn listing_error(listing: Result<Vec<FsEntry>, String>) -> Result<(), String> {
    match listing {
        Ok(_) => Ok(()),
        Err(error) => Err(error),
    }
}

/// A panel: the folder it shows, its lines, and the line that is selected.
#[derive(Debug)]
pub struct BrowserPanel {
    pub current_dir: String,
    pub entries: Vec<FsEntry>,
    pub selected: usize,
}

/// A panel as text.
#[verifier::ext_equal]
pub struct PanelView {
    pub current_dir: Seq<char>,
    pub entries: Seq<FsEntryView>,
    pub selected: nat,
}

impl View for BrowserPanel {
    type V = PanelView;

    open spec fn view(&self) -> PanelView {
        PanelView {
            current_dir: self.current_dir@,
            entries: views(self.entries@),
            selected: self.selected as nat,
        }
    }
}

impl PanelView {
    /// The cursor stands on a line.
    pub open spec fn wf(self) -> bool {
        on_a_line(self.selected, self.entries.len())
    }

    /// The panel after a move of its cursor.
    pub open spec fn moved(self, step: CursorMove) -> PanelView {
        PanelView { selected: cursor_after(step, self.selected, self.entries.len()), ..self }
    }

    /// The line under the cursor.
    pub open spec fn selected_line(self) -> Option<FsEntryView> {
        if self.selected < self.entries.len() {
            Some(self.entries[self.selected as int])
        } else {
            None
        }
    }

    /// The panel with the lines read anew. Where the folder could not be listed, nothing changes.
    pub open spec fn reread(self, listing: Option<Seq<FsEntryView>>) -> PanelView {
        match listing {
            Some(entries) => PanelView {
                entries,
                selected: clamped(self.selected, entries.len()),
                ..self
            },
            None => self,
        }
    }

    /// The panel showing another folder. Where the folder could not be listed, the old lines stay.
    pub open spec fn showing(
        self,
        folder: Seq<char>,
        listing: Option<Seq<FsEntryView>>,
    ) -> PanelView {
        PanelView {
            current_dir: folder,
            entries: match listing {
                Some(entries) => entries,
                None => self.entries,
            },
            selected: 0,
        }
    }

    /// The folder under the cursor, if it is one.
    pub open spec fn folder_to_enter(self) -> Option<Seq<char>> {
        match self.selected_line() {
            Some(line) => if line.is_dir {
                Some(line.path)
            } else {
                None
            },
            None => None,
        }
    }
}

impl BrowserPanel {
    /// A panel on a folder, with the cursor on its first line.
    pub fn new(current_dir: String, entries: Vec<FsEntry>) -> (panel: BrowserPanel)
        ensures
            panel@ == (PanelView {
                current_dir: current_dir@,
                entries: views(entries@),
                selected: 0,
            }),
            panel@.wf(),
    {
        BrowserPanel { current_dir, entries, selected: 0 }
    }

    /// Takes over the outcome of reading the folder anew.
    pub fn refresh(&mut self, listing: Result<Vec<FsEntry>, String>) -> (done: Result<(), String>)
        ensures
            final(self)@ == old(self)@.reread(listed_lines(listing)),
            done == listing_error(listing),
            old(self)@.wf() || listing is Ok ==> final(self)@.wf(),
    {
        let entries = match listing {
            Ok(lines) => lines,
            Err(error) => {
                return Err(error);
            },
        };
        let last: usize = entries.len().saturating_sub(1);
        if self.selected > last {
            self.selected = last;
        }
        self.entries = entries;
        Ok(())
    }

    /// The line under the cursor.
    pub fn selected_entry(&self) -> (entry: Option<&FsEntry>)
        ensures
            (match entry {
                Some(line) => Some(line@),
                None => None,
            }) == self@.selected_line(),
    {
        if self.selected < self.entries.len() {
            Some(&self.entries[self.selected])
        } else {
            None
        }
    }

    /// Moves the cursor.
    pub fn move_by(&mut self, step: CursorMove)
        ensures
            final(self)@ == old(self)@.moved(step),
            old(self)@.wf() ==> final(self)@.wf(),
    {
        self.selected = move_cursor(step, self.selected, self.entries.len());
    }

    /// Moves the cursor one line up.
    pub fn move_up(&mut self)
        ensures
            final(self)@ == old(self)@.moved(CursorMove::Up),
            old(self)@.wf() ==> final(self)@.wf(),
    {
        self.move_by(CursorMove::Up);
    }

    /// Moves the cursor one line down.
    pub fn move_down(&mut self)
        ensures
            final(self)@ == old(self)@.moved(CursorMove::Down),
            old(self)@.wf() ==> final(self)@.wf(),
    {
        self.move_by(CursorMove::Down);
    }

    /// Moves the cursor a page up.
    pub fn page_up(&mut self)
        ensures
            final(self)@ == old(self)@.moved(CursorMove::PageUp),
            old(self)@.wf() ==> final(self)@.wf(),
    {
        self.move_by(CursorMove::PageUp);
    }

    /// Moves the cursor a page down.
    pub fn page_down(&mut self)
        ensures
            final(self)@ == old(self)@.moved(CursorMove::PageDown),
            final(self)@.wf(),
    {
        self.move_by(CursorMove::PageDown);
    }

    /// Moves the cursor to the first line.
    pub fn home(&mut self)
        ensures
            final(self)@ == old(self)@.moved(CursorMove::Home),
            final(self)@.wf(),
    {
        self.move_by(CursorMove::Home);
    }

    /// Moves the cursor to the last line.
    pub fn end(&mut self)
        ensures
            final(self)@ == old(self)@.moved(CursorMove::End),
            final(self)@.wf(),
    {
        self.move_by(CursorMove::End);
    }

    /// The folder to open when the line under the cursor is entered. Files are not entered.
    pub fn enter_selected(&self) -> (folder: Option<String>)
        ensures
            opt_view(folder) == self@.folder_to_enter(),
    {
        match self.selected_entry() {
            Some(line) => if line.is_dir {
                Some(line.path.clone())
            } else {
                None
            },
            None => None,
        }
    }

    /// The folder to open when the panel goes up.
    pub fn go_parent(&self) -> (folder: Option<String>)
        ensures
            opt_view(folder) == parent_of(self@.current_dir),
    {
        parent_path(self.current_dir.as_str())
    }

    /// Shows another folder, with the cursor on its first line, and takes over the outcome of listing
    /// it.
    pub fn show_folder(&mut self, folder: String, listing: Result<Vec<FsEntry>, String>) -> (done:
        Result<(), String>)
        ensures
            final(self)@ == old(self)@.showing(folder@, listed_lines(listing)),
            done == listing_error(listing),
            final(self)@.wf(),
    {
        self.current_dir = folder;
        self.selected = 0;
        match listing {
            Ok(entries) => {
                self.entries = entries;
                Ok(())
            },
            Err(error) => Err(error),
        }
    }
}

/// The first line that leads to a path, if any.
pub open spec fn is_first_line_to(entries: Seq<FsEntryView>, path: Seq<char>, place: int) -> bool {
    &&& 0 <= place < entries.len()
    &&& components(entries[place].path) == components(path)
    &&& forall|k: int| 0 <= k < place ==> components((#[trigger] entries[k]).path) != components(path)
}

/// Whether a place is that of the first line that leads to a path, or the old one where there is no
/// such line.
pub open spec fn selects_path(panel: PanelView, path: Seq<char>, place: nat) -> bool {
    is_first_line_to(panel.entries, path, place as int) || (place == panel.selected && forall|k: int|
        0 <= k < panel.entries.len() ==> components((#[trigger] panel.entries[k]).path)
            != components(path))
}

/// Moves the cursor of a panel to the first line that leads to a path. Without such a line it stays.
pub fn select_entry_by_path(panel: &mut BrowserPanel, path: &str)
    ensures
        final(panel)@ == (PanelView { selected: final(panel)@.selected, ..old(panel)@ }),
        selects_path(old(panel)@, path@, final(panel)@.selected),
        old(panel)@.wf() ==> final(panel)@.wf(),
{
    let ghost before = panel@;
    let count: usize = panel.entries.len();
    for i in 0..count
        invariant
            panel@ == before,
            before == old(panel)@,
            count == before.entries.len(),
            forall|k: int|
                0 <= k < i ==> components((#[trigger] before.entries[k]).path) != components(
                    path@,
                ),
    {
        assert(before.entries[i as int] == panel.entries@[i as int]@);
        if same_path(panel.entries[i].path.as_str(), path) {
            panel.selected = i;
            return;
        }
    }
}

/// The panel that is worked in.
pub fn active_browser_mut<'a>(
    left: &'a mut BrowserPanel,
    right: &'a mut BrowserPanel,
    active_panel: ActivePanel,
) -> (panel: &'a mut BrowserPanel)
    ensures
        match active_panel {
            ActivePanel::Left => *panel == *old(left) && *final(left) == *final(panel)
                && *final(right) == *old(right),
            ActivePanel::Right => *panel == *old(right) && *final(right) == *final(panel)
                && *final(left) == *old(left),
        },
{
    match active_panel {
        ActivePanel::Left => left,
        ActivePanel::Right => right,
    }
}

/// What is said of the folder that the active panel shows.
pub open spec fn panel_message(
    active_panel: ActivePanel,
    left: PanelView,
    right: PanelView,
) -> Seq<char> {
    match active_panel {
        ActivePanel::Left => "Left: "@ + left.current_dir,
        ActivePanel::Right => "Right: "@ + right.current_dir,
    }
}

/// Says which folder the active panel shows.
pub fn current_panel_message(
    active_panel: ActivePanel,
    left: &BrowserPanel,
    right: &BrowserPanel,
) -> (message: String)
    ensures
        message@ == panel_message(active_panel, left@, right@),
{
    match active_panel {
        ActivePanel::Left => "Left: ".to_owned().concat(left.current_dir.as_str()),
        ActivePanel::Right => "Right: ".to_owned().concat(right.current_dir.as_str()),
    }
}

/// How a file compares with the other side.
#[derive(Debug, Clone, Copy, PartialEq, Eq, Structural)]
pub enum FileStatus {
    Same,
    New,
    Updated,
    Deleted,
}

/// A file of the fresh panel with what is known of it on both sides.
#[derive(Debug)]
pub struct TuiRow {
    pub fresh_path: Option<String>,
    pub production_path: Option<String>,
    pub status: FileStatus,
}

/// A row as text.
pub struct TuiRowView {
    pub fresh_path: Option<Seq<char>>,
    pub production_path: Option<Seq<char>>,
    pub status: FileStatus,
}

impl View for TuiRow {
    type V = TuiRowView;

    open spec fn view(&self) -> TuiRowView {
        TuiRowView {
            fresh_path: opt_view(self.fresh_path),
            production_path: opt_view(self.production_path),
            status: self.status,
        }
    }
}

/// How a file that at least one side has compares: new where only the fresh folder has it, deleted
/// where only production has it.
pub open spec fn file_status(state: StateView, path: Seq<char>) -> FileStatus {
    if !state.fresh.contains_key(path) {
        FileStatus::Deleted
    } else if !state.production.contains_key(path) {
        FileStatus::New
    } else if state.fresh[path] == state.production[path] {
        FileStatus::Same
    } else {
        FileStatus::Updated
    }
}

/// A path, where an index has it.
pub open spec fn path_in(index: Map<Seq<char>, FileEntry>, path: Seq<char>) -> Option<Seq<char>> {
    if index.contains_key(path) {
        Some(path)
    } else {
        None
    }
}

/// The row of a file under its relative path, if one side has it.
pub open spec fn row_of(state: StateView, path: Seq<char>) -> Option<TuiRowView> {
    if state.fresh.contains_key(path) || state.production.contains_key(path) {
        Some(
            TuiRowView {
                fresh_path: path_in(state.fresh, path),
                production_path: path_in(state.production, path),
                status: file_status(state, path),
            },
        )
    } else {
        None
    }
}

/// The row of the file under the cursor of the left panel. Folders and files outside the fresh folder
/// have none.
pub open spec fn selected_row(state: StateView, left: PanelView) -> Option<TuiRowView> {
    match (left.selected_line(), state.fresh_root) {
        (Some(line), Some(root)) => if line.is_dir {
            None
        } else {
            match relative_to(root, line.path) {
                Some(path) => row_of(state, path),
                None => None,
            }
        },
        _ => None,
    }
}

/// Looks up the file under the cursor of the left panel on both sides.
pub fn selected_browser_row(state: &State, left: &BrowserPanel) -> (row: Option<TuiRow>)
    requires
        state.wf(),
    ensures
        opt_view(row) == selected_row(state@, left@),
{
    let entry = left.selected_entry()?;
    if entry.is_dir {
        return None;
    }
    let fresh_root = match &state.fresh_root {
        Some(root) => root,
        None => {
            return None;
        },
    };
    let path = match strip_root(fresh_root.as_str(), entry.path.as_str()) {
        Some(relative) => relative,
        None => {
            return None;
        },
    };
    match (state.fresh.get(path.as_str()), state.production.get(path.as_str())) {
        (Some(fresh), Some(production)) => {
            let status = if production == fresh {
                FileStatus::Same
            } else {
                FileStatus::Updated
            };
            Some(TuiRow { fresh_path: Some(path.clone()), production_path: Some(path), status })
        },
        (Some(_), None) => {
            Some(TuiRow { fresh_path: Some(path), production_path: None, status: FileStatus::New })
        },
        (None, Some(_)) => {
            Some(
                TuiRow {
                    fresh_path: None,
                    production_path: Some(path),
                    status: FileStatus::Deleted,
                },
            )
        },
        (None, None) => None,
    }
}

/// The root and the index of a panel.
pub open spec fn panel_side(state: StateView, panel: ActivePanel) -> (
    Option<Seq<char>>,
    Map<Seq<char>, FileEntry>,
) {
    match panel {
        ActivePanel::Left => (state.fresh_root, state.fresh),
        ActivePanel::Right => (state.production_root, state.production),
    }
}

/// The mark of a panel's line: how its file compares, where the panel's own index has the file.
pub open spec fn line_status(
    state: StateView,
    panel: ActivePanel,
    line: FsEntryView,
) -> Option<FileStatus> {
    let (root, index) = panel_side(state, panel);
    if line.is_dir || root is None {
        None
    } else {
        match relative_to(root->0, line.path) {
            Some(path) => if index.contains_key(path) {
                Some(file_status(state, path))
            } else {
                None
            },
            None => None,
        }
    }
}

/// Finds the mark of a panel's line.
pub fn entry_status_for_panel(state: &State, panel: ActivePanel, entry: &FsEntry) -> (status: Option<
    FileStatus,
>)
    requires
        state.wf(),
    ensures
        status == line_status(state@, panel, entry@),
{
    if entry.is_dir {
        return None;
    }
    let root = match panel {
        ActivePanel::Left => &state.fresh_root,
        ActivePanel::Right => &state.production_root,
    };
    let this_root = match root {
        Some(folder) => folder,
        None => {
            return None;
        },
    };
    let path = match strip_root(this_root.as_str(), entry.path.as_str()) {
        Some(relative) => relative,
        None => {
            return None;
        },
    };
    match (state.fresh.get(path.as_str()), state.production.get(path.as_str()), panel) {
        (Some(fresh), Some(production), _) => if fresh == production {
            Some(FileStatus::Same)
        } else {
            Some(FileStatus::Updated)
        },
        (Some(_), None, ActivePanel::Left) => Some(FileStatus::New),
        (None, Some(_), ActivePanel::Right) => Some(FileStatus::Deleted),
        _ => None,
    }
}

/// The status that goes with a change. A file without a change is the same on both sides.
pub open spec fn status_for(change: Option<ChangeKind>) -> FileStatus {
    match change {
        Some(ChangeKind::New) => FileStatus::New,
        Some(ChangeKind::Updated) => FileStatus::Updated,
        Some(ChangeKind::Deleted) => FileStatus::Deleted,
        None => FileStatus::Same,
    }
}

/// The row of a file has the status that a comparison of the indexes, deletions included, gives the
/// file, and each panel marks its files in the same way.
pub proof fn law_row_status_is_the_comparison(
    state: StateView,
    panel: ActivePanel,
    path: Seq<char>,
    line: FsEntryView,
)
    requires
        panel_side(state, panel).1.contains_key(path),
        panel_side(state, panel).0 is Some,
        !line.is_dir,
        relative_to(panel_side(state, panel).0->0, line.path) == Some(path),
    ensures
        row_of(state, path) is Some,
        row_of(state, path)->0.status == status_for(
            change_of(state.fresh, state.production, true, path),
        ),
        line_status(state, panel, line) == Some(
            status_for(change_of(state.fresh, state.production, true, path)),
        ),
{
}

/// A panel marks a file of its own index by what the two indexes hold under the file's relative path.
/// Folders, files outside the panel's root and files that its index lacks carry no mark.
pub proof fn law_marks_tell_the_indexes_apart(
    state: StateView,
    panel: ActivePanel,
    root: Seq<char>,
    path: Seq<char>,
    line: FsEntryView,
)
    requires
        panel == ActivePanel::Left ==> state.fresh_root == Some(root),
        panel == ActivePanel::Right ==> state.production_root == Some(root),
        relative_to(root, line.path) == Some(path),
    ensures
        ({
            let mark = line_status(state, panel, line);
            let in_fresh = state.fresh.contains_key(path);
            let in_production = state.production.contains_key(path);
            let same = state.fresh[path] == state.production[path];
            &&& line.is_dir ==> mark is None
            &&& !line.is_dir ==> {
                &&& mark == Some(FileStatus::New) <==> panel == ActivePanel::Left && in_fresh
                    && !in_production
                &&& mark == Some(FileStatus::Deleted) <==> panel == ActivePanel::Right && !in_fresh
                    && in_production
                &&& mark == Some(FileStatus::Same) <==> in_fresh && in_production && same
                &&& mark == Some(FileStatus::Updated) <==> in_fresh && in_production && !same
            }
        }),
{
}

/// Without a root, or for a file outside it, a panel marks nothing.
pub proof fn law_nothing_is_marked_outside_the_root(
    state: StateView,
    panel: ActivePanel,
    line: FsEntryView,
)
    ensures
        panel == ActivePanel::Left && (state.fresh_root is None || relative_to(
            state.fresh_root->0,
            line.path,
        ) is None) ==> line_status(state, panel, line) is None,
        panel == ActivePanel::Right && (state.production_root is None || relative_to(
            state.production_root->0,
            line.path,
        ) is None) ==> line_status(state, panel, line) is None,
{
}

/// Reading a folder anew leaves the cursor where it is, unless fewer lines are left: then it stands on
/// the last. Where the folder could not be listed, all stays as it was.
pub proof fn law_rereading_keeps_the_place(panel: PanelView, lines: Seq<FsEntryView>)
    ensures
        panel.reread(None) == panel,
        panel.reread(Some(lines)).current_dir == panel.current_dir,
        panel.reread(Some(lines)).entries == lines,
        panel.selected < lines.len() ==> panel.reread(Some(lines)).selected == panel.selected,
        panel.selected >= lines.len() && lines.len() > 0 ==> panel.reread(Some(lines)).selected
            == lines.len() - 1,
        lines.len() == 0 ==> panel.reread(Some(lines)).selected == 0,
{
}

/// A folder that is shown starts on its first line. One that could not be listed leaves the old lines.
pub proof fn law_shown_folder_starts_on_the_first_line(
    panel: PanelView,
    folder: Seq<char>,
    lines: Seq<FsEntryView>,
)
    ensures
        panel.showing(folder, Some(lines)).current_dir == folder,
        panel.showing(folder, Some(lines)).entries == lines,
        panel.showing(folder, Some(lines)).selected == 0,
        panel.showing(folder, None).current_dir == folder,
        panel.showing(folder, None).entries == panel.entries,
        panel.showing(folder, None).selected == 0,
{
}

/// Selecting a path puts the cursor on the first line that leads to it, and leaves it where it is when
/// no line does.
pub proof fn law_selection_finds_the_first_line(
    panel: PanelView,
    path: Seq<char>,
    place: nat,
    line: int,
)
    requires
        selects_path(panel, path, place),
        0 <= line < panel.entries.len(),
    ensures
        components(panel.entries[line].path) == components(path) ==> place <= line && components(
            panel.entries[place as int].path,
        ) == components(path),
        (forall|k: int|
            0 <= k < panel.entries.len() ==> components((#[trigger] panel.entries[k]).path)
                != components(path)) ==> place == panel.selected,
{
}

/// Listing a folder gives its lines or an error, and never both.
pub proof fn law_listing_gives_lines_or_an_error(
    entries: Vec<FsEntry>,
    error: String,
    listing: Result<Vec<FsEntry>, String>,
)
    ensures
        listed_lines(Ok(entries)) == Some(views(entries@)),
        listing_error(Ok(entries)) is Ok,
        listed_lines(Err(error)) is None,
        listing_error(Err(error)) == Err::<(), String>(error),
        listed_lines(listing) is Some <==> listing_error(listing) is Ok,
{
}

} // verus!
