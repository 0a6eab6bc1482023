//! File indexes: what is known of each file, by relative path.

use crate::error::{ErrorView, UpxtoError};
use crate::path::{
    is_plain, law_relative_paths_are_plain, lies_below, relative_to, strip_root,
};
use crate::text::{lex_less, same_text, text_less, views};
use vstd::prelude::*;

verus! {

/// What an index holds of a file: its size and the hash of its content.
#[derive(Debug, Clone, Copy, PartialEq, Eq, Structural)]
pub struct FileEntry {
    pub size: u64,
    pub hash: u64,
}

/// A file of an index, under its relative path.
#[derive(Debug)]
pub struct IndexedFile {
    pub path: String,
    pub entry: FileEntry,
}

impl View for IndexedFile {
    type V = (Seq<char>, FileEntry);

    open spec fn view(&self) -> (Seq<char>, FileEntry) {
        (self.path@, self.entry)
    }
}

/// The files of a list by path. Of several entries under one path the last counts.
pub open spec fn map_of(list: Seq<(Seq<char>, FileEntry)>) -> Map<Seq<char>, FileEntry>
    decreases list.len(),
{
    if list.len() == 0 {
        Map::empty()
    } else {
        map_of(list.drop_last()).insert(list.last().0, list.last().1)
    }
}

/// Whether a list is in ascending order of paths, each path once.
pub open spec fn is_ascending(list: Seq<(Seq<char>, FileEntry)>) -> bool {
    forall|i: int, j: int|
        0 <= i < j < list.len() ==> lex_less((#[trigger] list[i]).0, (#[trigger] list[j]).0)
}

/// The files of a folder, in ascending order of their relative paths.
#[derive(Debug)]
pub struct FileIndex {
    files: Vec<IndexedFile>,
}

impl View for FileIndex {
    type V = Map<Seq<char>, FileEntry>;

    open spec fn view(&self) -> Map<Seq<char>, FileEntry> {
        map_of(self.listing())
    }
}

/// A list holds exactly the paths of its entries, and without repeated paths each entry counts.
pub proof fn lemma_map_of(list: Seq<(Seq<char>, FileEntry)>)
    ensures
        forall|path: Seq<char>| #[trigger]
            map_of(list).contains_key(path) ==> exists|i: int|
                0 <= i < list.len() && (#[trigger] list[i]).0 == path && list[i].1 == map_of(
                    list,
                )[path],
        forall|i: int| 0 <= i < list.len() ==> map_of(list).contains_key((#[trigger] list[i]).0),
    decreases list.len(),
{
    if list.len() > 0 {
        let front = list.drop_last();
        lemma_map_of(front);
        assert forall|path: Seq<char>| #[trigger] map_of(list).contains_key(path) implies exists|
            i: int,
        |
            0 <= i < list.len() && (#[trigger] list[i]).0 == path && list[i].1 == map_of(
                list,
            )[path] by {
            if path == list.last().0 {
                assert(list[list.len() - 1].0 == path);
            } else {
                assert(map_of(front).contains_key(path));
                let i = choose|i: int|
                    0 <= i < front.len() && (#[trigger] front[i]).0 == path && front[i].1
                        == map_of(front)[path];
                assert(list[i] == front[i]);
            }
        }
        assert forall|i: int| 0 <= i < list.len() implies map_of(list).contains_key(
            (#[trigger] list[i]).0,
        ) by {
            if i < front.len() {
                assert(front[i] == list[i]);
            }
        }
    }
}

/// In an ascending list every entry counts.
pub proof fn lemma_ascending_entries_count(list: Seq<(Seq<char>, FileEntry)>)
    requires
        is_ascending(list),
    ensures
        forall|i: int|
            0 <= i < list.len() ==> map_of(list).contains_key((#[trigger] list[i]).0) && map_of(
                list,
            )[list[i].0] == list[i].1,
        forall|i: int, j: int|
            0 <= i < j < list.len() ==> (#[trigger] list[i]).0 != (#[trigger] list[j]).0,
{
    assert forall|i: int, j: int| 0 <= i < j < list.len() implies (#[trigger] list[i]).0 != (
    #[trigger] list[j]).0 by {
        crate::text::lemma_lex_irreflexive(list[i].0);
    }
    lemma_map_of(list);
    assert forall|i: int| 0 <= i < list.len() implies map_of(list)[(#[trigger] list[i]).0]
        == list[i].1 by {
        assert(map_of(list).contains_key(list[i].0));
        let k = choose|k: int|
            0 <= k < list.len() && (#[trigger] list[k]).0 == list[i].0 && list[k].1 == map_of(
                list,
            )[list[i].0];
        assert(k == i);
    }
}

/// An ascending list has as many entries as its map.
pub proof fn lemma_ascending_len(list: Seq<(Seq<char>, FileEntry)>)
    requires
        is_ascending(list),
    ensures
        map_of(list).dom().finite(),
        map_of(list).len() == list.len(),
    decreases list.len(),
{
    if list.len() > 0 {
        let front = list.drop_last();
        assert forall|i: int, j: int| 0 <= i < j < front.len() implies lex_less(
            (#[trigger] front[i]).0,
            (#[trigger] front[j]).0,
        ) by {
            assert(front[i] == list[i] && front[j] == list[j]);
        }
        lemma_ascending_len(front);
        lemma_ascending_entries_count(list);
        lemma_map_of(front);
        if map_of(front).contains_key(list.last().0) {
            let i = choose|i: int|
                0 <= i < front.len() && (#[trigger] front[i]).0 == list.last().0 && front[i].1
                    == map_of(front)[list.last().0];
            assert(list[i].0 == list[list.len() - 1].0);
        }
    }
}

impl FileIndex {
    /// The files with their paths, in the order in which the index holds them.
    pub closed spec fn listing(&self) -> Seq<(Seq<char>, FileEntry)> {
        views(self.files@)
    }

    /// The files are in ascending order of paths.
    pub open spec fn wf(&self) -> bool {
        is_ascending(self.listing())
    }

    /// An index of no files.
    pub fn new() -> (index: FileIndex)
        ensures
            index.wf(),
            index@ == Map::<Seq<char>, FileEntry>::empty(),
            index.listing().len() == 0,
    {
        FileIndex { files: Vec::new() }
    }

    /// How many files the index holds.
    pub fn len(&self) -> (count: usize)
        requires
            self.wf(),
        ensures
            count == self@.len(),
            count == self.listing().len(),
    {
        proof {
            lemma_ascending_len(self.listing());
        }
        self.files.len()
    }

    /// The path of the file at a place in the order.
    pub fn path_at(&self, place: usize) -> (path: &String)
        requires
            place < self.listing().len(),
        ensures
            path@ == self.listing()[place as int].0,
    {
        &self.files[place].path
    }

    /// The entry of the file at a place in the order.
    pub fn entry_at(&self, place: usize) -> (entry: FileEntry)
        requires
            place < self.listing().len(),
        ensures
            entry == self.listing()[place as int].1,
    {
        self.files[place].entry
    }

    /// The place of the first file whose path does not come before `path`.
    fn place_of(&self, path: &str) -> (place: usize)
        requires
            self.wf(),
        ensures
            place <= self.files@.len(),
            forall|i: int|
                0 <= i < place ==> lex_less((#[trigger] self.listing()[i]).0, path@),
            forall|i: int|
                place <= i < self.files@.len() ==> !lex_less(
                    (#[trigger] self.listing()[i]).0,
                    path@,
                ),
    {
        let mut low: usize = 0;
        let mut high: usize = self.files.len();
        while low < high
            invariant
                self.wf(),
                low <= high <= self.files@.len(),
                forall|i: int|
                    0 <= i < low ==> lex_less((#[trigger] self.listing()[i]).0, path@),
                forall|i: int|
                    high <= i < self.files@.len() ==> !lex_less(
                        (#[trigger] self.listing()[i]).0,
                        path@,
                    ),
            decreases high - low,
        {
            let middle: usize = low + (high - low) / 2;
            let ghost list = self.listing();
            if text_less(self.files[middle].path.as_str(), path) {
                assert forall|i: int| 0 <= i < middle + 1 implies lex_less(
                    (#[trigger] list[i]).0,
                    path@,
                ) by {
                    assert(list[middle as int].0 == self.files@[middle as int].path@);
                    if i < middle {
                        assert(lex_less(list[i].0, list[middle as int].0));
                        crate::text::lemma_lex_transitive(list[i].0, list[middle as int].0, path@);
                    }
                }
                low = middle + 1;
            } else {
                assert forall|i: int| middle <= i < self.files@.len() implies !lex_less(
                    (#[trigger] list[i]).0,
                    path@,
                ) by {
                    assert(list[middle as int].0 == self.files@[middle as int].path@);
                    if i > middle && lex_less(list[i].0, path@) {
                        assert(lex_less(list[middle as int].0, list[i].0));
                        crate::text::lemma_lex_transitive(list[middle as int].0, list[i].0, path@);
                    }
                }
                high = middle;
            }
        }
        low
    }

    /// What the index holds of a file.
    pub fn get(&self, path: &str) -> (entry: Option<FileEntry>)
        requires
            self.wf(),
        ensures
            entry == (if self@.contains_key(path@) {
                Some(self@[path@])
            } else {
                None
            }),
    {
        let place = self.place_of(path);
        let ghost list = self.listing();
        proof {
            lemma_map_of(list);
            lemma_ascending_entries_count(list);
        }
        if place < self.files.len() && same_text(self.files[place].path.as_str(), path) {
            assert(list[place as int].0 == path@);
            Some(self.files[place].entry)
        } else {
            proof {
                if self@.contains_key(path@) {
                    let i = choose|i: int|
                        0 <= i < list.len() && (#[trigger] list[i]).0 == path@ && list[i].1
                            == map_of(list)[path@];
                    crate::text::lemma_lex_irreflexive(path@);
                    assert(i >= place);
                    assert(list[place as int].0 == self.files@[place as int].path@);
                    assert(lex_less(list[place as int].0, list[i].0));
                }
            }
            None
        }
    }

    /// Puts a file into the index. An earlier entry under the same path is replaced.
    pub fn insert(&mut self, path: String, entry: FileEntry)
        requires
            old(self).wf(),
        ensures
            final(self).wf(),
            final(self)@ == old(self)@.insert(path@, entry),
    {
        let place = self.place_of(path.as_str());
        let ghost key = path@;
        let ghost before = self.listing();
        let replaces: bool = place < self.files.len() && self.files[place].path == path;
        proof {
            if place < before.len() {
                assert(before[place as int].0 == self.files@[place as int].path@);
                crate::text::lemma_lex_total(before[place as int].0, key);
            }
        }
        if replaces {
            let _ = self.files.remove(place);
        }
        let ghost shrunk = self.listing();
        proof {
            if replaces {
                assert(shrunk == before.remove(place as int));
            }
            assert forall|i: int| place <= i < shrunk.len() implies lex_less(
                key,
                (#[trigger] shrunk[i]).0,
            ) by {
                if replaces {
                    assert(shrunk[i] == before[i + 1]);
                    assert(lex_less(before[place as int].0, before[i + 1].0));
                } else {
                    assert(shrunk[i] == before[i]);
                    if i > place {
                        assert(lex_less(before[place as int].0, before[i].0));
                        crate::text::lemma_lex_transitive(
                            key,
                            before[place as int].0,
                            before[i].0,
                        );
                    }
                }
            }
        }
        self.files.insert(place, IndexedFile { path, entry });
        let ghost after = self.listing();
        proof {
            assert(after == shrunk.insert(place as int, (key, entry)));
            lemma_insert_into_list(before, shrunk, after, place as int, (key, entry), replaces);
        }
    }
}

impl FileIndex {
    /// Another index with the same files.
    pub fn duplicate(&self) -> (copy: FileIndex)
        ensures
            copy.listing() == self.listing(),
    {
        let mut files: Vec<IndexedFile> = Vec::new();
        for i in 0..self.files.len()
            invariant
                views(files@) == self.listing().take(i as int),
        {
            let ghost before = views(files@);
            let file = &self.files[i];
            files.push(IndexedFile { path: file.path.clone(), entry: file.entry });
            assert(views(files@) == before.push(file@));
            assert(views(files@) == self.listing().take(i + 1));
        }
        assert(self.listing().take(self.listing().len() as int) == self.listing());
        FileIndex { files }
    }
}

/// A file that was found on disk, with its full path.
#[derive(Debug)]
pub struct FoundFile {
    pub path: String,
    pub entry: FileEntry,
}

impl View for FoundFile {
    type V = (Seq<char>, FileEntry);

    open spec fn view(&self) -> (Seq<char>, FileEntry) {
        (self.path@, self.entry)
    }
}

/// The path of a file relative to a root, with `/` between its components.
pub fn relative_path(root: &str, path: &str) -> (relative: Result<String, UpxtoError>)
    ensures
        match relative {
            Ok(text) => relative_to(root@, path@) == Some(text@),
            Err(error) => relative_to(root@, path@) is None && error@ == ErrorView::OutsideRoot,
        },
{
    match strip_root(root, path) {
        Some(text) => Ok(text),
        None => Err(UpxtoError::OutsideRoot),
    }
}

/// Accepts the resolved path of a folder, and refuses that of anything else.
pub fn canonical_dir(canonical: String, is_dir: bool) -> (folder: Result<String, UpxtoError>)
    ensures
        match folder {
            Ok(path) => is_dir && path@ == canonical@,
            Err(error) => !is_dir && error@ == ErrorView::NotADirectory(canonical@),
        },
{
    if is_dir {
        Ok(canonical)
    } else {
        Err(UpxtoError::NotADirectory(canonical))
    }
}

/// The files of a folder under their paths relative to it.
pub open spec fn relative_list(
    root: Seq<char>,
    files: Seq<(Seq<char>, FileEntry)>,
) -> Seq<(Seq<char>, FileEntry)> {
    Seq::new(files.len(), |i: int| (relative_to(root, files[i].0)->0, files[i].1))
}

/// Whether all files lie below a folder.
pub open spec fn all_below(root: Seq<char>, files: Seq<(Seq<char>, FileEntry)>) -> bool {
    forall|i: int| 0 <= i < files.len() ==> relative_to(root, (#[trigger] files[i]).0) is Some
}

/// Indexes the files that were found below a folder, by relative path.
pub fn index_folder(root: &str, files: &[FoundFile]) -> (index: Result<FileIndex, UpxtoError>)
    ensures
        match index {
            Ok(found) => all_below(root@, views(files@)) && found.wf() && found@ == map_of(
                relative_list(root@, views(files@)),
            ),
            Err(error) => !all_below(root@, views(files@)) && error@ == ErrorView::OutsideRoot,
        },
{
    let ghost all = views(files@);
    let ghost list = relative_list(root@, all);
    let mut index = FileIndex::new();
    for i in 0..files.len()
        invariant
            all == views(files@),
            list == relative_list(root@, all),
            index.wf(),
            index@ == map_of(list.take(i as int)),
            forall|k: int| 0 <= k < i ==> relative_to(root@, (#[trigger] all[k]).0) is Some,
    {
        assert(all[i as int] == files@[i as int]@);
        let relative = relative_path(root, files[i].path.as_str())?;
        assert(list.take(i + 1).drop_last() == list.take(i as int));
        index.insert(relative, files[i].entry);
    }
    assert(list.take(list.len() as int) == list);
    Ok(index)
}

/// Whether a path of an index is the relative path of a found file that has the indexed entry.
pub open spec fn is_indexed_file(
    root: Seq<char>,
    files: Seq<(Seq<char>, FileEntry)>,
    i: int,
    path: Seq<char>,
) -> bool {
    0 <= i < files.len() && relative_to(root, files[i].0) == Some(path) && files[i].1 == map_of(
        relative_list(root, files),
    )[path]
}

/// An index holds every file that was found below its folder, and nothing else. Its paths are plain.
pub proof fn law_index_holds_the_found_files(root: Seq<char>, files: Seq<(Seq<char>, FileEntry)>)
    requires
        forall|i: int| 0 <= i < files.len() ==> lies_below(root, (#[trigger] files[i]).0),
    ensures
        ({
            let index = map_of(relative_list(root, files));
            &&& forall|i: int|
                0 <= i < files.len() ==> index.contains_key(
                    relative_to(root, (#[trigger] files[i]).0)->0,
                )
            &&& forall|path: Seq<char>| #[trigger]
                index.contains_key(path) ==> is_plain(path) && exists|i: int|
                    is_indexed_file(root, files, i, path)
        }),
{
    let list = relative_list(root, files);
    let index = map_of(list);
    lemma_map_of(list);
    assert forall|i: int| 0 <= i < files.len() implies index.contains_key(
        relative_to(root, (#[trigger] files[i]).0)->0,
    ) by {
        assert(list[i].0 == relative_to(root, files[i].0)->0);
    }
    assert forall|path: Seq<char>| #[trigger] index.contains_key(path) implies is_plain(path)
        && exists|i: int| is_indexed_file(root, files, i, path) by {
        let i = choose|i: int|
            0 <= i < list.len() && (#[trigger] list[i]).0 == path && list[i].1 == index[path];
        assert(lies_below(root, files[i].0));
        law_relative_paths_are_plain(root, files[i].0);
        assert(is_indexed_file(root, files, i, path));
    }
}

/// Where an entry stood before an insertion at `place`.
spec fn old_place(i: int, place: int, replaces: bool) -> int {
    if i < place || replaces {
        i
    } else {
        i - 1
    }
}

/// Where an entry stands after an insertion at `place`.
spec fn new_place(i: int, place: int, replaces: bool) -> int {
    if i < place || replaces {
        i
    } else {
        i + 1
    }
}

/// Inserting an entry at its place keeps the order and adds the entry to the map.
proof fn lemma_insert_into_list(
    before: Seq<(Seq<char>, FileEntry)>,
    shrunk: Seq<(Seq<char>, FileEntry)>,
    after: Seq<(Seq<char>, FileEntry)>,
    place: int,
    file: (Seq<char>, FileEntry),
    replaces: bool,
)
    requires
        is_ascending(before),
        0 <= place <= shrunk.len(),
        replaces ==> place < before.len() && before[place].0 == file.0 && shrunk == before.remove(
            place,
        ),
        !replaces ==> shrunk == before,
        after == shrunk.insert(place, file),
        forall|k: int| 0 <= k < place ==> lex_less((#[trigger] before[k]).0, file.0),
        forall|k: int| place <= k < shrunk.len() ==> lex_less(file.0, (#[trigger] shrunk[k]).0),
    ensures
        is_ascending(after),
        map_of(after) == map_of(before).insert(file.0, file.1),
{
    let target = map_of(before).insert(file.0, file.1);
    assert forall|i: int, j: int| 0 <= i < j < after.len() implies lex_less(
        (#[trigger] after[i]).0,
        (#[trigger] after[j]).0,
    ) by {
        lemma_insert_keeps_order(before, shrunk, after, place, file, replaces, i, j);
    }
    lemma_map_of(before);
    lemma_ascending_entries_count(before);
    lemma_map_of(after);
    lemma_ascending_entries_count(after);
    assert forall|p: Seq<char>| #[trigger]
        map_of(after).contains_key(p) <==> target.contains_key(p) by {
        if map_of(after).contains_key(p) {
            let i = choose|i: int|
                0 <= i < after.len() && (#[trigger] after[i]).0 == p && after[i].1
                    == map_of(after)[p];
            let k = old_place(i, place, replaces);
            if i != place {
                assert(after[i] == before[k]);
            }
        }
        if map_of(before).contains_key(p) {
            let i = choose|i: int|
                0 <= i < before.len() && (#[trigger] before[i]).0 == p && before[i].1
                    == map_of(before)[p];
            let k = new_place(i, place, replaces);
            if i < place || !replaces || i > place {
                assert(after[k] == before[i]);
            } else {
                assert(after[place].0 == p);
            }
        } else if p == file.0 {
            assert(after[place].0 == p);
        }
    }
    assert forall|p: Seq<char>| #[trigger] map_of(after).contains_key(p) implies map_of(
        after,
    )[p] == target[p] by {
        let i = choose|i: int|
            0 <= i < after.len() && (#[trigger] after[i]).0 == p && after[i].1 == map_of(
                after,
            )[p];
        if i != place {
            let k = old_place(i, place, replaces);
            assert(after[i] == before[k]);
            assert(after[i].0 != after[place].0) by {
                if i < place {
                    assert(after[i].0 != after[place].0);
                } else {
                    assert(after[place].0 != after[i].0);
                }
            }
        }
    }
    assert(map_of(after) =~= target);
}

proof fn lemma_insert_keeps_order(
    before: Seq<(Seq<char>, FileEntry)>,
    shrunk: Seq<(Seq<char>, FileEntry)>,
    after: Seq<(Seq<char>, FileEntry)>,
    place: int,
    file: (Seq<char>, FileEntry),
    replaces: bool,
    i: int,
    j: int,
)
    requires
        is_ascending(before),
        0 <= place <= shrunk.len(),
        replaces ==> place < before.len() && shrunk == before.remove(place),
        !replaces ==> shrunk == before,
        after == shrunk.insert(place, file),
        forall|k: int| 0 <= k < place ==> lex_less((#[trigger] before[k]).0, file.0),
        forall|k: int| place <= k < shrunk.len() ==> lex_less(file.0, (#[trigger] shrunk[k]).0),
        0 <= i < j < after.len(),
    ensures
        lex_less(after[i].0, after[j].0),
{
    if i != place && j != place {
        let a = old_place(i, place, replaces);
        let b = old_place(j, place, replaces);
        assert(after[i] == before[a]);
        assert(after[j] == before[b]);
    } else if j == place {
        assert(after[i] == before[i]);
    } else {
        assert(after[j] == shrunk[j - 1]);
    }
}

/// The entry of a path is that of the last file found under it.
pub proof fn law_last_found_file_counts(
    root: Seq<char>,
    files: Seq<(Seq<char>, FileEntry)>,
    place: int,
)
    requires
        0 <= place < files.len(),
        relative_to(root, files[place].0) is Some,
        forall|i: int|
            place < i < files.len() ==> relative_to(root, (#[trigger] files[i]).0) is Some
                && relative_to(root, files[i].0) != relative_to(root, files[place].0),
    ensures
        ({
            let index = map_of(relative_list(root, files));
            let path = relative_to(root, files[place].0)->0;
            index.contains_key(path) && index[path] == files[place].1
        }),
    decreases files.len(),
{
    let list = relative_list(root, files);
    let front = files.drop_last();
    assert(list.drop_last() == relative_list(root, front));
    if place < front.len() {
        assert(files[files.len() - 1] == files.last());
        assert forall|i: int| place < i < front.len() implies relative_to(
            root,
            (#[trigger] front[i]).0,
        ) is Some && relative_to(root, front[i].0) != relative_to(root, front[place].0) by {
            assert(front[i] == files[i]);
        }
        law_last_found_file_counts(root, front, place);
        assert(list.last().0 != relative_to(root, files[place].0)->0);
    }
}

} // verus!
