//! The records in which a project is kept, and the project that records give back.

use crate::error::{ErrorView, UpxtoError};
use crate::index::{lemma_ascending_entries_count, lemma_map_of, map_of, FileEntry, FileIndex};
use crate::state::{State, StateView, DEFAULT_PROJECT};
use crate::text::{opt_view, views};
use vstd::prelude::*;

verus! {

/// The record of a project's folders.
#[derive(Debug)]
pub struct ProjectRow {
    pub left_dir: Option<String>,
    pub right_dir: Option<String>,
    pub production_root: Option<String>,
    pub fresh_root: Option<String>,
}

/// The folders of a project record.
pub struct ProjectRowView {
    pub left_dir: Option<Seq<char>>,
    pub right_dir: Option<Seq<char>>,
    pub production_root: Option<Seq<char>>,
    pub fresh_root: Option<Seq<char>>,
}

impl View for ProjectRow {
    type V = ProjectRowView;

    open spec fn view(&self) -> ProjectRowView {
        ProjectRowView {
            left_dir: opt_view(self.left_dir),
            right_dir: opt_view(self.right_dir),
            production_root: opt_view(self.production_root),
            fresh_root: opt_view(self.fresh_root),
        }
    }
}

/// The record of an indexed file. Numbers are kept as signed integers.
#[derive(Debug)]
pub struct FileRow {
    pub side: String,
    pub rel_path: String,
    pub size: i64,
    pub hash: i64,
}

/// What a file record says.
pub struct FileRowView {
    pub side: Seq<char>,
    pub rel_path: Seq<char>,
    pub size: i64,
    pub hash: i64,
}

impl View for FileRow {
    type V = FileRowView;

    open spec fn view(&self) -> FileRowView {
        FileRowView {
            side: self.side@,
            rel_path: self.rel_path@,
            size: self.size,
            hash: self.hash,
        }
    }
}

/// The name under which a project is kept.
pub open spec fn saved_name(state: StateView) -> Seq<char> {
    match state.project_name {
        Some(name) => name,
        None => DEFAULT_PROJECT@,
    }
}

/// The folders that are kept of a project.
pub open spec fn saved_folders(state: StateView) -> ProjectRowView {
    ProjectRowView {
        left_dir: state.left_dir,
        right_dir: state.right_dir,
        production_root: state.production_root,
        fresh_root: state.fresh_root,
    }
}

/// The form of a path in a record.
pub fn path_to_db_string(path: Option<&String>) -> (text: Option<String>)
    ensures
        opt_view(text) == (match path {
            Some(value) => Some(value@),
            None => None,
        }),
{
    match path {
        Some(value) => Some(value.clone()),
        None => None,
    }
}

/// The name under which to keep a project.
pub fn project_key(state: &State) -> (name: String)
    ensures
        name@ == saved_name(state@),
{
    match &state.project_name {
        Some(name) => name.clone(),
        None => DEFAULT_PROJECT.to_owned(),
    }
}

/// The folder record of a project.
pub fn project_row(state: &State) -> (row: ProjectRow)
    ensures
        row@ == saved_folders(state@),
{
    ProjectRow {
        left_dir: path_to_db_string(state.left_dir.as_ref()),
        right_dir: path_to_db_string(state.right_dir.as_ref()),
        production_root: path_to_db_string(state.production_root.as_ref()),
        fresh_root: path_to_db_string(state.fresh_root.as_ref()),
    }
}

/// The records of one side's files.
pub open spec fn side_rows(
    listing: Seq<(Seq<char>, FileEntry)>,
    side: Seq<char>,
) -> Seq<FileRowView> {
    Seq::new(
        listing.len(),
        |i: int|
            FileRowView {
                side,
                rel_path: listing[i].0,
                size: listing[i].1.size as i64,
                hash: listing[i].1.hash as i64,
            },
    )
}

/// Whether all file sizes of a listing fit in a record.
pub open spec fn sizes_fit(listing: Seq<(Seq<char>, FileEntry)>) -> bool {
    forall|i: int| 0 <= i < listing.len() ==> (#[trigger] listing[i]).1.size <= i64::MAX
}

/// The file records of a project: production first, then fresh.
pub open spec fn saved_files(state: State) -> Seq<FileRowView> {
    side_rows(state.production.listing(), "production"@) + side_rows(
        state.fresh.listing(),
        "fresh"@,
    )
}

/// Adds the records of one side's files to `rows`.
fn add_side_rows(index: &FileIndex, side: &str, rows: &mut Vec<FileRow>) -> (added: Result<
    (),
    UpxtoError,
>)
    requires
        index.wf(),
    ensures
        match added {
            Ok(()) => sizes_fit(index.listing()) && views(final(rows)@) == views(old(rows)@)
                + side_rows(index.listing(), side@),
            Err(error) => !sizes_fit(index.listing()) && error@ == ErrorView::SizeOutOfRange,
        },
{
    let ghost before = views(rows@);
    let ghost listing = index.listing();
    let ghost wanted = side_rows(listing, side@);
    assert(before + wanted.take(0) == before);
    let count: usize = index.len();
    for i in 0..count
        invariant
            index.wf(),
            count == listing.len(),
            listing == index.listing(),
            wanted == side_rows(listing, side@),
            views(rows@) == before + wanted.take(i as int),
            forall|k: int| 0 <= k < i ==> (#[trigger] listing[k]).1.size <= i64::MAX,
    {
        let entry = index.entry_at(i);
        if entry.size > i64::MAX as u64 {
            assert(listing[i as int].1.size > i64::MAX);
            return Err(UpxtoError::SizeOutOfRange);
        }
        let ghost shown = views(rows@);
        rows.push(
            FileRow {
                side: side.to_owned(),
                rel_path: index.path_at(i).clone(),
                size: entry.size as i64,
                hash: #[verifier::truncate] (entry.hash as i64),
            },
        );
        assert(views(rows@) == shown.push(wanted[i as int]));
        assert(views(rows@) == before + wanted.take(i + 1));
    }
    assert(wanted.take(wanted.len() as int) == wanted);
    Ok(())
}

/// The file records of a project. A size that does not fit in a record is refused.
pub fn file_rows(state: &State) -> (rows: Result<Vec<FileRow>, UpxtoError>)
    requires
        state.wf(),
    ensures
        match rows {
            Ok(list) => sizes_fit(state.production.listing()) && sizes_fit(state.fresh.listing())
                && views(list@) == saved_files(*state),
            Err(error) => !(sizes_fit(state.production.listing()) && sizes_fit(
                state.fresh.listing(),
            )) && error@ == ErrorView::SizeOutOfRange,
        },
{
    let mut rows: Vec<FileRow> = Vec::new();
    add_side_rows(&state.production, "production", &mut rows)?;
    assert(views(rows@) == side_rows(state.production.listing(), "production"@));
    add_side_rows(&state.fresh, "fresh", &mut rows)?;
    Ok(rows)
}

/// The entry of a file record.
pub open spec fn row_entry(row: FileRowView) -> FileEntry {
    FileEntry { size: row.size as u64, hash: row.hash as u64 }
}

/// The files that records give one side.
pub open spec fn files_of_side(rows: Seq<FileRowView>, side: Seq<char>) -> Seq<
    (Seq<char>, FileEntry),
>
    decreases rows.len(),
{
    if rows.len() == 0 {
        Seq::empty()
    } else {
        let rest = files_of_side(rows.drop_last(), side);
        if rows.last().side == side {
            rest.push((rows.last().rel_path, row_entry(rows.last())))
        } else {
            rest
        }
    }
}

/// Whether no record has a negative size.
pub open spec fn sizes_count(rows: Seq<FileRowView>) -> bool {
    forall|i: int| 0 <= i < rows.len() ==> (#[trigger] rows[i]).size >= 0
}

/// The project that records give.
pub open spec fn loaded_state(
    name: Seq<char>,
    folders: ProjectRowView,
    rows: Seq<FileRowView>,
) -> StateView {
    StateView {
        project_name: Some(name),
        left_dir: folders.left_dir,
        right_dir: folders.right_dir,
        production_root: folders.production_root,
        fresh_root: folders.fresh_root,
        production: map_of(files_of_side(rows, "production"@)),
        fresh: map_of(files_of_side(rows, "fresh"@)),
    }
}

/// Builds a project out of its records. Without a folder record there is no such project. A
/// negative size is refused, and records of an unknown side are passed over.
pub fn load_project_state(
    project_name: &str,
    project: Option<ProjectRow>,
    rows: &[FileRow],
) -> (state: Result<Option<State>, UpxtoError>)
    ensures
        match state {
            Ok(None) => project is None,
            Ok(Some(found)) => project is Some && sizes_count(views(rows@)) && found.wf() && found@
                == loaded_state(project_name@, project->0@, views(rows@)),
            Err(error) => project is Some && !sizes_count(views(rows@)) && error@
                == ErrorView::SizeOutOfRange,
        },
{
    let folders = match project {
        Some(row) => row,
        None => {
            return Ok(None);
        },
    };
    let ghost all = views(rows@);
    let mut production = FileIndex::new();
    let mut fresh = FileIndex::new();
    proof {
        reveal_strlit("production");
        reveal_strlit("fresh");
    }
    assert("production"@.len() != "fresh"@.len());
    assert(all.take(0) == Seq::<FileRowView>::empty());
    for i in 0..rows.len()
        invariant
            all == views(rows@),
            project is Some,
            "production"@ != "fresh"@,
            production.wf(),
            fresh.wf(),
            production@ == map_of(files_of_side(all.take(i as int), "production"@)),
            fresh@ == map_of(files_of_side(all.take(i as int), "fresh"@)),
            forall|k: int| 0 <= k < i ==> (#[trigger] all[k]).size >= 0,
    {
        let row = &rows[i];
        assert(all[i as int] == row@);
        if row.size < 0 {
            return Err(UpxtoError::SizeOutOfRange);
        }
        let entry = FileEntry {
            size: row.size as u64,
            hash: #[verifier::truncate] (row.hash as u64),
        };
        proof {
            assert(all.take(i + 1).drop_last() == all.take(i as int));
            let earlier = files_of_side(all.take(i as int), row.side@);
            assert(earlier.push((row.rel_path@, entry)).drop_last() == earlier);
        }
        if crate::text::same_text(row.side.as_str(), "production") {
            production.insert(row.rel_path.clone(), entry);
        } else if crate::text::same_text(row.side.as_str(), "fresh") {
            fresh.insert(row.rel_path.clone(), entry);
        }
    }
    assert(all.take(all.len() as int) == all);
    Ok(
        Some(
            State {
                project_name: Some(project_name.to_owned()),
                left_dir: folders.left_dir,
                right_dir: folders.right_dir,
                production_root: folders.production_root,
                fresh_root: folders.fresh_root,
                production,
                fresh,
            },
        ),
    )
}

/// Every file of a side comes from a record of that side, and every such record gives one.
proof fn lemma_files_of_side(rows: Seq<FileRowView>, side: Seq<char>)
    ensures
        forall|k: int|
            0 <= k < files_of_side(rows, side).len() ==> exists|i: int|
                0 <= i < rows.len() && (#[trigger] rows[i]).side == side && (
                #[trigger] files_of_side(rows, side)[k]) == (rows[i].rel_path, row_entry(rows[i])),
        forall|i: int|
            0 <= i < rows.len() && (#[trigger] rows[i]).side == side ==> files_of_side(
                rows,
                side,
            ).contains((rows[i].rel_path, row_entry(rows[i]))),
    decreases rows.len(),
{
    if rows.len() > 0 {
        let front = rows.drop_last();
        let rest = files_of_side(front, side);
        let files = files_of_side(rows, side);
        lemma_files_of_side(front, side);
        assert forall|k: int| 0 <= k < files.len() implies exists|i: int|
            0 <= i < rows.len() && (#[trigger] rows[i]).side == side && (#[trigger] files[k]) == (
                rows[i].rel_path,
                row_entry(rows[i]),
            ) by {
            if k < rest.len() {
                assert(files[k] == rest[k]);
                let i = choose|i: int|
                    0 <= i < front.len() && (#[trigger] front[i]).side == side && rest[k] == (
                        front[i].rel_path,
                        row_entry(front[i]),
                    );
                assert(rows[i] == front[i]);
            } else {
                assert(rows[rows.len() - 1].side == side);
            }
        }
        assert forall|i: int| 0 <= i < rows.len() && (#[trigger] rows[i]).side == side implies
            files.contains((rows[i].rel_path, row_entry(rows[i]))) by {
            if i < front.len() {
                assert(front[i] == rows[i]);
                let file = (rows[i].rel_path, row_entry(rows[i]));
                assert(rest.contains(file));
                let k = choose|k: int| 0 <= k < rest.len() && rest[k] == file;
                assert(files[k] == file);
            } else {
                assert(files.last() == files[files.len() - 1]);
            }
        }
    }
}

/// Records that hold exactly the rows of one side give that side's index back.
proof fn lemma_side_loads_back(
    listing: Seq<(Seq<char>, FileEntry)>,
    side: Seq<char>,
    rows: Seq<FileRowView>,
)
    requires
        crate::index::is_ascending(listing),
        sizes_fit(listing),
        forall|row: FileRowView|
            row.side == side ==> (#[trigger] rows.contains(row) <==> side_rows(
                listing,
                side,
            ).contains(row)),
    ensures
        map_of(files_of_side(rows, side)) == map_of(listing),
{
    let files = files_of_side(rows, side);
    let wanted = side_rows(listing, side);
    lemma_files_of_side(rows, side);
    lemma_map_of(files);
    lemma_map_of(listing);
    lemma_ascending_entries_count(listing);
    assert forall|k: int| 0 <= k < files.len() implies map_of(listing).contains_key(
        (#[trigger] files[k]).0,
    ) && map_of(listing)[files[k].0] == files[k].1 by {
        let i = choose|i: int|
            0 <= i < rows.len() && (#[trigger] rows[i]).side == side && files[k] == (
                rows[i].rel_path,
                row_entry(rows[i]),
            );
        assert(rows.contains(rows[i]));
        assert(wanted.contains(rows[i]));
        let m = choose|m: int| 0 <= m < wanted.len() && wanted[m] == rows[i];
        lemma_entry_loads_back(listing[m].1);
        assert(listing[m].0 == files[k].0);
    }
    assert forall|path: Seq<char>| #[trigger]
        map_of(files).contains_key(path) <==> map_of(listing).contains_key(path) by {
        if map_of(files).contains_key(path) {
            let k = choose|k: int|
                0 <= k < files.len() && (#[trigger] files[k]).0 == path && files[k].1 == map_of(
                    files,
                )[path];
            assert(map_of(listing).contains_key(files[k].0));
        }
        if map_of(listing).contains_key(path) {
            let m = choose|m: int|
                0 <= m < listing.len() && (#[trigger] listing[m]).0 == path && listing[m].1
                    == map_of(listing)[path];
            assert(wanted[m].side == side);
            assert(wanted.contains(wanted[m]));
            assert(rows.contains(wanted[m]));
            let i = choose|i: int| 0 <= i < rows.len() && rows[i] == wanted[m];
            assert(rows[i].side == side);
            let file = (rows[i].rel_path, row_entry(rows[i]));
            assert(files.contains(file));
            let k = choose|k: int| 0 <= k < files.len() && files[k] == file;
            assert(files[k].0 == path);
        }
    }
    assert forall|path: Seq<char>| #[trigger] map_of(files).contains_key(path) implies map_of(
        files,
    )[path] == map_of(listing)[path] by {
        let k = choose|k: int|
            0 <= k < files.len() && (#[trigger] files[k]).0 == path && files[k].1 == map_of(
                files,
            )[path];
        assert(map_of(listing)[files[k].0] == files[k].1);
    }
    assert(map_of(files) =~= map_of(listing));
}

/// An entry whose size fits is kept without loss.
proof fn lemma_entry_loads_back(entry: FileEntry)
    requires
        entry.size <= i64::MAX,
    ensures
        entry.size as i64 >= 0,
        (entry.size as i64) as u64 == entry.size,
        (entry.hash as i64) as u64 == entry.hash,
{
    let hash = entry.hash;
    assert((hash as i64) as u64 == hash) by (bit_vector);
}

/// What was kept of a project comes back, in whatever order the records are read: the same folders
/// and the same two indexes, under the name it was kept by.
pub proof fn law_saved_project_loads_back(state: State, rows: Seq<FileRowView>)
    requires
        state.wf(),
        sizes_fit(state.production.listing()),
        sizes_fit(state.fresh.listing()),
        forall|row: FileRowView| #[trigger] rows.contains(row) <==> saved_files(state).contains(row),
    ensures
        sizes_count(rows),
        loaded_state(saved_name(state@), saved_folders(state@), rows) == (StateView {
            project_name: Some(saved_name(state@)),
            ..state@
        }),
{
    reveal_strlit("production");
    reveal_strlit("fresh");
    assert("production"@.len() != "fresh"@.len());
    let first = side_rows(state.production.listing(), "production"@);
    let second = side_rows(state.fresh.listing(), "fresh"@);
    let all = saved_files(state);
    assert forall|row: FileRowView| row.side == "production"@ implies (#[trigger] rows.contains(row)
        <==> first.contains(row)) by {
        if first.contains(row) {
            let i = choose|i: int| 0 <= i < first.len() && first[i] == row;
            assert(all[i] == row);
        }
        if all.contains(row) {
            let i = choose|i: int| 0 <= i < all.len() && all[i] == row;
            if i >= first.len() {
                assert(all[i] == second[i - first.len()]);
            } else {
                assert(all[i] == first[i]);
            }
        }
    }
    assert forall|row: FileRowView| row.side == "fresh"@ implies (#[trigger] rows.contains(row)
        <==> second.contains(row)) by {
        if second.contains(row) {
            let i = choose|i: int| 0 <= i < second.len() && second[i] == row;
            assert(all[first.len() + i] == row);
        }
        if all.contains(row) {
            let i = choose|i: int| 0 <= i < all.len() && all[i] == row;
            if i >= first.len() {
                assert(all[i] == second[i - first.len()]);
            } else {
                assert(all[i] == first[i]);
            }
        }
    }
    lemma_side_loads_back(state.production.listing(), "production"@, rows);
    lemma_side_loads_back(state.fresh.listing(), "fresh"@, rows);
    assert forall|k: int| 0 <= k < rows.len() implies (#[trigger] rows[k]).size >= 0 by {
        assert(rows.contains(rows[k]));
        let i = choose|i: int| 0 <= i < all.len() && all[i] == rows[k];
        if i >= first.len() {
            assert(all[i] == second[i - first.len()]);
            lemma_entry_loads_back(state.fresh.listing()[i - first.len()].1);
        } else {
            assert(all[i] == first[i]);
            lemma_entry_loads_back(state.production.listing()[i].1);
        }
    }
}

/// Whether a record holds the path, the size and the hash of a file. The hash is kept bit by bit.
pub open spec fn keeps_file(row: FileRowView, file: (Seq<char>, FileEntry)) -> bool {
    &&& row.rel_path == file.0
    &&& row.size as int == file.1.size as int
    &&& row.hash as u64 == file.1.hash
}

/// A project has one record for each file of each side, which holds the side, the path, the size and
/// the hash, as long as the size fits in a signed integer.
pub proof fn law_each_file_has_its_record(state: State, k: int)
    requires
        forall|i: int|
            0 <= i < state.production.listing().len() ==> (
            #[trigger] state.production.listing()[i]).1.size < 0x8000_0000_0000_0000,
        forall|i: int|
            0 <= i < state.fresh.listing().len() ==> (#[trigger] state.fresh.listing()[i]).1.size
                < 0x8000_0000_0000_0000,
    ensures
        ({
            let production = state.production.listing();
            let fresh = state.fresh.listing();
            let rows = saved_files(state);
            &&& sizes_fit(production) && sizes_fit(fresh)
            &&& rows.len() == production.len() + fresh.len()
            &&& 0 <= k < production.len() ==> rows[k].side == "production"@ && keeps_file(
                rows[k],
                production[k],
            )
            &&& 0 <= k < fresh.len() ==> rows[production.len() + k].side == "fresh"@ && keeps_file(
                rows[production.len() + k],
                fresh[k],
            )
        }),
{
    let production = state.production.listing();
    let fresh = state.fresh.listing();
    if 0 <= k < production.len() {
        lemma_entry_loads_back(production[k].1);
        assert(production[k].1.size as i64 as int == production[k].1.size as int);
    }
    if 0 <= k < fresh.len() {
        lemma_entry_loads_back(fresh[k].1);
        assert(fresh[k].1.size as i64 as int == fresh[k].1.size as int);
    }
}

/// A project whose files are all smaller than two to the power of 63 bytes comes back from its own
/// records as it was: both indexes, both roots and both shown folders, under its name or `default`.
pub proof fn law_project_comes_back_from_its_records(state: State)
    requires
        state.wf(),
        forall|i: int|
            0 <= i < state.production.listing().len() ==> (
            #[trigger] state.production.listing()[i]).1.size < 0x8000_0000_0000_0000,
        forall|i: int|
            0 <= i < state.fresh.listing().len() ==> (#[trigger] state.fresh.listing()[i]).1.size
                < 0x8000_0000_0000_0000,
    ensures
        ({
            let loaded = loaded_state(
                saved_name(state@),
                saved_folders(state@),
                saved_files(state),
            );
            &&& forall|i: int|
                0 <= i < saved_files(state).len() ==> (#[trigger] saved_files(state)[i]).size >= 0
            &&& loaded.production == state@.production
            &&& loaded.fresh == state@.fresh
            &&& loaded.production_root == state@.production_root
            &&& loaded.fresh_root == state@.fresh_root
            &&& loaded.left_dir == state@.left_dir
            &&& loaded.right_dir == state@.right_dir
            &&& loaded.project_name == Some(
                if state@.project_name is Some {
                    state@.project_name->0
                } else {
                    "default"@
                },
            )
        }),
{
    law_each_file_has_its_record(state, 0);
    law_saved_project_loads_back(state, saved_files(state));
}

/// A record adds its file to its side and changes nothing else. A later record replaces an earlier one
/// of the same path, and one of an unknown side is passed over.
pub proof fn law_records_count_for_their_side(
    name: Seq<char>,
    folders: ProjectRowView,
    rows: Seq<FileRowView>,
    row: FileRowView,
)
    ensures
        ({
            let before = loaded_state(name, folders, rows);
            let after = loaded_state(name, folders, rows.push(row));
            let entry = FileEntry { size: row.size as u64, hash: row.hash as u64 };
            &&& loaded_state(name, folders, Seq::empty()) == (StateView {
                project_name: Some(name),
                left_dir: folders.left_dir,
                right_dir: folders.right_dir,
                production_root: folders.production_root,
                fresh_root: folders.fresh_root,
                production: Map::empty(),
                fresh: Map::empty(),
            })
            &&& row.side == "production"@ ==> after == (StateView {
                production: before.production.insert(row.rel_path, entry),
                ..before
            })
            &&& row.side == "fresh"@ ==> after == (StateView {
                fresh: before.fresh.insert(row.rel_path, entry),
                ..before
            })
            &&& row.side != "production"@ && row.side != "fresh"@ ==> after == before
        }),
{
    reveal_strlit("production");
    reveal_strlit("fresh");
    assert("production"@.len() != "fresh"@.len());
    assert(rows.push(row).drop_last() == rows);
    let entry = row_entry(row);
    let production = files_of_side(rows, "production"@);
    let fresh = files_of_side(rows, "fresh"@);
    assert(production.push((row.rel_path, entry)).drop_last() == production);
    assert(fresh.push((row.rel_path, entry)).drop_last() == fresh);
}

/// Records are refused for a negative size and for nothing else.
pub proof fn law_negative_sizes_are_refused(rows: Seq<FileRowView>, row: FileRowView)
    ensures
        sizes_count(Seq::empty()),
        sizes_count(rows.push(row)) <==> sizes_count(rows) && row.size >= 0,
{
    let more = rows.push(row);
    if sizes_count(more) {
        assert forall|i: int| 0 <= i < rows.len() implies (#[trigger] rows[i]).size >= 0 by {
            assert(more[i] == rows[i]);
        }
        assert(more[rows.len() as int].size >= 0);
    }
}

} // verus!
