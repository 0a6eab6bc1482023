//! Walking through a folder: which entries to look at, in which order, and which to pass over.

use crate::error::{ErrorView, UpxtoError};
use crate::order::{
    law_different_texts_ascend, law_sorting_keeps_the_texts, sort_texts, sorted_texts,
};
use crate::panel::FileKind;
use crate::path::{
    components, counts, join_paths, law_components_of_join, law_relative_path_of_join,
    law_relative_paths_are_plain, lemma_single_component, lies_below, path_join, relative_to,
    strip_root,
};
use crate::text::{lemma_lex_irreflexive, lex_less, same_text, views};
use vstd::prelude::*;

verus! {

/// The names of the folders that indexing skips.
pub open spec fn excluded(name: Seq<char>) -> bool {
    ||| name == ".git"@
    ||| name == ".upxto"@
    ||| name == "__pycache__"@
    ||| name == ".pytest_cache"@
    ||| name == ".mypy_cache"@
    ||| name == "node_modules"@
    ||| name == "target"@
    ||| name == "venv"@
    ||| name == ".venv"@
}

/// Whether indexing skips a folder of this name.
pub fn should_skip_dir(name: &str) -> (skip: bool)
    ensures
        skip == excluded(name@),
{
    same_text(name, ".git") || same_text(name, ".upxto") || same_text(name, "__pycache__")
        || same_text(name, ".pytest_cache") || same_text(name, ".mypy_cache") || same_text(
        name,
        "node_modules",
    ) || same_text(name, "target") || same_text(name, "venv") || same_text(name, ".venv")
}

/// An entry that the walk comes to.
#[derive(Debug)]
pub struct WalkItem {
    pub path: String,
    pub name: String,
}

impl View for WalkItem {
    type V = (Seq<char>, Seq<char>);

    open spec fn view(&self) -> (Seq<char>, Seq<char>) {
        (self.path@, self.name@)
    }
}

/// What the walk does with an entry.
#[derive(Debug, Clone, Copy, PartialEq, Eq, Structural)]
pub enum WalkStep {
    /// List the folder and hand its names to the walk.
    Descend,
    /// Take the file.
    Visit,
    /// Leave the entry alone.
    Pass,
}

/// What a walk does with an entry of a kind.
pub open spec fn step_for(skip_excluded: bool, name: Seq<char>, kind: FileKind) -> WalkStep {
    match kind {
        FileKind::Folder => if skip_excluded && excluded(name) {
            WalkStep::Pass
        } else {
            WalkStep::Descend
        },
        FileKind::File => WalkStep::Visit,
        FileKind::Other => WalkStep::Pass,
    }
}

/// A walk through a folder and all that lies below it. The entry to come to next is the last pending
/// one.
#[derive(Debug)]
pub struct Walk {
    pending: Vec<WalkItem>,
    skip_excluded: bool,
}

/// The entries of a folder, in the order in which they wait: the one to come first stands last.
pub open spec fn waiting_items(folder: Seq<char>, names: Seq<Seq<char>>) -> Seq<
    (Seq<char>, Seq<char>),
> {
    let sorted = sorted_texts(names);
    Seq::new(
        names.len(),
        |i: int|
            (path_join(folder, sorted[names.len() - 1 - i]), sorted[names.len() - 1 - i]),
    )
}

impl Walk {
    /// The entries that wait.
    pub closed spec fn waiting(&self) -> Seq<(Seq<char>, Seq<char>)> {
        views(self.pending@)
    }

    /// Whether the walk skips excluded folders.
    pub closed spec fn skips(&self) -> bool {
        self.skip_excluded
    }

    /// A walk with nothing to come.
    pub fn new(skip_excluded: bool) -> (walk: Walk)
        ensures
            walk.waiting() == Seq::<(Seq<char>, Seq<char>)>::empty(),
            walk.skips() == skip_excluded,
    {
        let walk = Walk { pending: Vec::new(), skip_excluded };
        assert(walk.waiting() == Seq::<(Seq<char>, Seq<char>)>::empty());
        walk
    }

    /// Takes in the names that a folder lists. They come next, in lexicographic order.
    pub fn add_folder(&mut self, folder: &str, names: &[String])
        ensures
            final(self).waiting() == old(self).waiting() + waiting_items(folder@, views(names@)),
            final(self).skips() == old(self).skips(),
    {
        let sorted = sort_texts(names);
        let ghost before = self.waiting();
        let ghost items = waiting_items(folder@, views(names@));
        let count: usize = sorted.len();
        assert(views(sorted@).len() == views(names@).len());
        assert(before + items.take(0) == before);
        for i in 0..count
            invariant
                count == sorted@.len(),
                count == items.len(),
                views(sorted@) == sorted_texts(views(names@)),
                items == waiting_items(folder@, views(names@)),
                views(self.pending@) == before + items.take(i as int),
                self.skip_excluded == old(self).skip_excluded,
        {
            let name = &sorted[count - 1 - i];
            let ghost shown = views(self.pending@);
            assert(views(sorted@)[count - 1 - i] == name@);
            self.pending.push(
                WalkItem { path: join_paths(folder, name.as_str()), name: name.clone() },
            );
            assert(views(self.pending@) == shown.push(items[i as int]));
            assert(views(self.pending@) == before + items.take(i + 1));
        }
        assert(items.take(items.len() as int) == items);
    }

    /// The entry to come to next.
    pub fn next(&mut self) -> (item: Option<WalkItem>)
        ensures
            match item {
                Some(entry) => old(self).waiting().len() > 0 && entry@ == old(
                    self,
                ).waiting().last() && final(self).waiting() == old(self).waiting().drop_last(),
                None => old(self).waiting().len() == 0 && final(self).waiting() == old(
                    self,
                ).waiting(),
            },
            final(self).skips() == old(self).skips(),
    {
        let ghost before = self.waiting();
        let item = self.pending.pop();
        assert(item is Some ==> self.waiting() == before.drop_last());
        item
    }

    /// Decides about an entry, once it is known what it is.
    pub fn decide(&self, item: &WalkItem, kind: FileKind) -> (step: WalkStep)
        ensures
            step == step_for(self.skips(), item@.1, kind),
    {
        match kind {
            FileKind::Folder => if self.skip_excluded && should_skip_dir(item.name.as_str()) {
                WalkStep::Pass
            } else {
                WalkStep::Descend
            },
            FileKind::File => WalkStep::Visit,
            FileKind::Other => WalkStep::Pass,
        }
    }
}

/// Where an entry goes when a folder is copied, if it lies below that folder.
pub open spec fn copied_to(
    root: Seq<char>,
    destination: Seq<char>,
    path: Seq<char>,
) -> Option<Seq<char>> {
    match relative_to(root, path) {
        Some(relative) => Some(path_join(destination, relative)),
        None => None,
    }
}

/// The place of an entry in the copy of a folder.
pub fn copy_target(root: &str, destination: &str, path: &str) -> (target: Result<
    String,
    UpxtoError,
>)
    ensures
        match target {
            Ok(text) => copied_to(root@, destination@, path@) == Some(text@),
            Err(error) => copied_to(root@, destination@, path@) is None && error@
                == ErrorView::OutsideRoot,
        },
{
    match strip_root(root, path) {
        Some(relative) => Ok(join_paths(destination, relative.as_str())),
        None => Err(UpxtoError::OutsideRoot),
    }
}

/// What lies under a name: a file, a folder with its entries, or something else.
pub enum Tree {
    File,
    Other,
    Folder(Seq<(Seq<char>, Tree)>),
}

/// The kind of an entry.
pub open spec fn kind_of(tree: Tree) -> FileKind {
    match tree {
        Tree::File => FileKind::File,
        Tree::Other => FileKind::Other,
        Tree::Folder(_) => FileKind::Folder,
    }
}

/// Whether following `chain` from an entry leads to a file without entering a skipped folder.
pub open spec fn leads_to_file(
    skip_excluded: bool,
    name: Seq<char>,
    tree: Tree,
    chain: Seq<Seq<char>>,
) -> bool
    decreases chain.len(),
{
    match tree {
        Tree::File => chain.len() == 0,
        Tree::Other => false,
        Tree::Folder(entries) => {
            &&& !(skip_excluded && excluded(name))
            &&& chain.len() > 0
            &&& exists|i: int|
                0 <= i < entries.len() && (#[trigger] entries[i]).0 == chain[0] && leads_to_file(
                    skip_excluded,
                    chain[0],
                    entries[i].1,
                    chain.drop_first(),
                )
        },
    }
}

/// A walk takes every regular file, whatever its name, and nothing that is neither a file nor a folder.
/// It goes into every folder, except that an index leaves out the folders with these names.
pub proof fn law_only_named_folders_are_left_out(skip_excluded: bool, name: Seq<char>)
    ensures
        step_for(skip_excluded, name, FileKind::File) == WalkStep::Visit,
        step_for(skip_excluded, name, FileKind::Other) == WalkStep::Pass,
        step_for(false, name, FileKind::Folder) == WalkStep::Descend,
        step_for(true, name, FileKind::Folder) != WalkStep::Visit,
        step_for(true, name, FileKind::Folder) == WalkStep::Pass <==> seq![
            ".git"@,
            ".upxto"@,
            "__pycache__"@,
            ".pytest_cache"@,
            ".mypy_cache"@,
            "node_modules"@,
            "target"@,
            "venv"@,
            ".venv"@,
        ].contains(name),
{
    let names = seq![
        ".git"@,
        ".upxto"@,
        "__pycache__"@,
        ".pytest_cache"@,
        ".mypy_cache"@,
        "node_modules"@,
        "target"@,
        "venv"@,
        ".venv"@,
    ];
    assert(names[0] == ".git"@ && names[1] == ".upxto"@ && names[2] == "__pycache__"@ && names[3]
        == ".pytest_cache"@ && names[4] == ".mypy_cache"@ && names[5] == "node_modules"@
        && names[6] == "target"@ && names[7] == "venv"@ && names[8] == ".venv"@);
    assert(names.len() == 9);
}

/// The path that following `chain` from `path` gives.
pub open spec fn chain_path(path: Seq<char>, chain: Seq<Seq<char>>) -> Seq<char>
    decreases chain.len(),
{
    if chain.len() == 0 {
        path
    } else {
        chain_path(path_join(path, chain[0]), chain.drop_first())
    }
}

/// Whether a file that an index takes in lies under an entry, and has this path.
pub open spec fn holds_file(
    skip_excluded: bool,
    item: (Seq<char>, Seq<char>),
    tree: Tree,
    file: Seq<char>,
) -> bool {
    exists|chain: Seq<Seq<char>>| #[trigger]
        leads_to_file(skip_excluded, item.1, tree, chain) && chain_path(item.0, chain) == file
}

/// The names that a folder lists.
pub open spec fn names_of(entries: Seq<(Seq<char>, Tree)>) -> Seq<Seq<char>> {
    Seq::new(entries.len(), |i: int| entries[i].0)
}

/// Whether a folder can list a name: it counts as a component and holds no separator.
pub open spec fn is_name(name: Seq<char>) -> bool {
    counts(name) && !name.contains('/')
}

/// Whether a tree can lie on a disk: every folder lists names, each of them once.
pub open spec fn is_real(tree: Tree) -> bool
    decreases tree,
{
    match tree {
        Tree::File | Tree::Other => true,
        Tree::Folder(entries) => {
            &&& entries.len() <= usize::MAX
            &&& names_of(entries).no_duplicates()
            &&& forall|i: int| 0 <= i < entries.len() ==> is_name((#[trigger] entries[i]).0)
            &&& forall|i: int| 0 <= i < entries.len() ==> is_real((#[trigger] entries[i]).1)
        },
    }
}

/// What a folder has under a name.
pub open spec fn tree_named(entries: Seq<(Seq<char>, Tree)>, name: Seq<char>) -> Tree {
    entries[choose|i: int| 0 <= i < entries.len() && (#[trigger] entries[i]).0 == name].1
}

/// A walk over trees: the entries that wait, each with what lies there, and the files visited so far.
#[verifier::ext_equal]
pub struct WalkView {
    pub pending: Seq<((Seq<char>, Seq<char>), Tree)>,
    pub visited: Seq<Seq<char>>,
}

/// The entries of a folder as they wait, each with what lies there.
pub open spec fn listed(folder: Seq<char>, entries: Seq<(Seq<char>, Tree)>) -> Seq<
    ((Seq<char>, Seq<char>), Tree),
> {
    let waiting = waiting_items(folder, names_of(entries));
    Seq::new(waiting.len(), |i: int| (waiting[i], tree_named(entries, waiting[i].1)))
}

/// One step of a walk: the next entry is visited, passed over, or replaced by its own entries.
pub open spec fn walk_once(skip_excluded: bool, walk: WalkView) -> WalkView {
    if walk.pending.len() == 0 {
        walk
    } else {
        let (item, tree) = walk.pending.last();
        let rest = walk.pending.drop_last();
        match step_for(skip_excluded, item.1, kind_of(tree)) {
            WalkStep::Visit => WalkView { pending: rest, visited: walk.visited.push(item.0) },
            WalkStep::Pass => WalkView { pending: rest, visited: walk.visited },
            WalkStep::Descend => WalkView {
                pending: rest + listed(item.0, tree->Folder_0),
                visited: walk.visited,
            },
        }
    }
}

/// A walk after a number of steps.
pub open spec fn walk_on(skip_excluded: bool, walk: WalkView, steps: nat) -> WalkView
    decreases steps,
{
    if steps == 0 {
        walk
    } else {
        walk_on(skip_excluded, walk_once(skip_excluded, walk), (steps - 1) as nat)
    }
}

/// The entries that wait, without what lies there.
pub open spec fn items_of(pending: Seq<((Seq<char>, Seq<char>), Tree)>) -> Seq<
    (Seq<char>, Seq<char>),
> {
    Seq::new(pending.len(), |i: int| pending[i].0)
}

/// A step over trees does to the waiting entries what taking the next one does, followed by adding
/// the names of its folder where the walk decides to descend.
pub proof fn law_steps_follow_the_waiting_entries(skip_excluded: bool, walk: WalkView)
    requires
        walk.pending.len() > 0,
    ensures
        ({
            let (item, tree) = walk.pending.last();
            let left = items_of(walk.pending).drop_last();
            &&& items_of(walk.pending).last() == item
            &&& items_of(walk_once(skip_excluded, walk).pending) == if step_for(
                skip_excluded,
                item.1,
                kind_of(tree),
            ) == WalkStep::Descend {
                left + waiting_items(item.0, names_of(tree->Folder_0))
            } else {
                left
            }
        }),
{
    let (item, tree) = walk.pending.last();
    let left = items_of(walk.pending).drop_last();
    let after = items_of(walk_once(skip_excluded, walk).pending);
    if step_for(skip_excluded, item.1, kind_of(tree)) == WalkStep::Descend {
        assert(after == left + waiting_items(item.0, names_of(tree->Folder_0)));
    } else {
        assert(after == left);
    }
}

/// The order of paths: by their components, from the first on.
pub open spec fn path_before(a: Seq<Seq<char>>, b: Seq<Seq<char>>) -> bool
    decreases a.len(),
{
    if b.len() == 0 {
        false
    } else if a.len() == 0 {
        true
    } else if a[0] != b[0] {
        lex_less(a[0], b[0])
    } else {
        path_before(a.drop_first(), b.drop_first())
    }
}

/// Whether files are in ascending order of their paths.
pub open spec fn in_path_order(files: Seq<Seq<char>>) -> bool {
    forall|i: int, j: int|
        0 <= i < j < files.len() ==> path_before(
            components(#[trigger] files[i]),
            components(#[trigger] files[j]),
        )
}

/// Whether entry `i` of a folder is or holds a file that the walk takes in.
pub open spec fn entry_holds(
    skip_excluded: bool,
    folder: Seq<char>,
    entries: Seq<(Seq<char>, Tree)>,
    i: int,
    file: Seq<char>,
) -> bool {
    0 <= i < entries.len() && holds_file(
        skip_excluded,
        (path_join(folder, entries[i].0), entries[i].0),
        entries[i].1,
        file,
    )
}

/// A folder that is entered holds what its entries hold.
proof fn lemma_folder_holds(
    skip_excluded: bool,
    item: (Seq<char>, Seq<char>),
    entries: Seq<(Seq<char>, Tree)>,
    file: Seq<char>,
)
    requires
        step_for(skip_excluded, item.1, FileKind::Folder) == WalkStep::Descend,
    ensures
        holds_file(skip_excluded, item, Tree::Folder(entries), file) <==> exists|i: int|
            entry_holds(skip_excluded, item.0, entries, i, file),
{
    let tree = Tree::Folder(entries);
    assert(kind_of(tree) == FileKind::Folder && tree->Folder_0 == entries);
    if holds_file(skip_excluded, item, tree, file) {
        let chain = choose|chain: Seq<Seq<char>>| #[trigger]
            leads_to_file(skip_excluded, item.1, tree, chain) && chain_path(item.0, chain) == file;
        let i = choose|i: int|
            0 <= i < entries.len() && (#[trigger] entries[i]).0 == chain[0] && leads_to_file(
                skip_excluded,
                chain[0],
                entries[i].1,
                chain.drop_first(),
            );
        let inner = (path_join(item.0, entries[i].0), entries[i].0);
        assert(leads_to_file(skip_excluded, inner.1, entries[i].1, chain.drop_first()));
        assert(chain_path(inner.0, chain.drop_first()) == file);
        assert(holds_file(skip_excluded, inner, entries[i].1, file));
        assert(entry_holds(skip_excluded, item.0, entries, i, file));
    }
    if exists|i: int| entry_holds(skip_excluded, item.0, entries, i, file) {
        let i = choose|i: int| entry_holds(skip_excluded, item.0, entries, i, file);
        let name = entries[i].0;
        let rest = choose|rest: Seq<Seq<char>>| #[trigger]
            leads_to_file(skip_excluded, name, entries[i].1, rest) && chain_path(
                path_join(item.0, name),
                rest,
            ) == file;
        let chain = seq![name] + rest;
        assert(chain.drop_first() == rest);
        assert(chain[0] == name);
        assert(entries[i].0 == chain[0]);
        assert(leads_to_file(skip_excluded, chain[0], entries[i].1, chain.drop_first()));
        assert(leads_to_file(skip_excluded, item.1, tree, chain));
        assert(chain_path(item.0, chain) == file);
    }
}

/// Following a chain of names adds them to the components.
proof fn lemma_chain_components(
    skip_excluded: bool,
    path: Seq<char>,
    name: Seq<char>,
    tree: Tree,
    chain: Seq<Seq<char>>,
)
    requires
        is_real(tree),
        leads_to_file(skip_excluded, name, tree, chain),
    ensures
        components(chain_path(path, chain)) == components(path) + chain,
    decreases chain.len(),
{
    if chain.len() == 0 {
        assert(components(path) + chain == components(path));
    } else {
        let entries = tree->Folder_0;
        let rest = chain.drop_first();
        let i = choose|i: int|
            0 <= i < entries.len() && (#[trigger] entries[i]).0 == chain[0] && leads_to_file(
                skip_excluded,
                chain[0],
                entries[i].1,
                rest,
            );
        assert(is_name(entries[i].0) && is_real(entries[i].1));
        lemma_entry_components(path, chain[0]);
        lemma_chain_components(
            skip_excluded,
            path_join(path, chain[0]),
            chain[0],
            entries[i].1,
            rest,
        );
        assert(components(path).push(chain[0]) + rest == components(path) + chain);
    }
}

/// An entry of a folder has one component more than the folder.
proof fn lemma_entry_components(folder: Seq<char>, name: Seq<char>)
    requires
        is_name(name),
    ensures
        components(path_join(folder, name)) == components(folder).push(name),
{
    lemma_single_component(name);
    law_components_of_join(folder, name);
    assert(components(folder) + seq![name] == components(folder).push(name));
}

/// Where two paths first differ decides their order.
proof fn lemma_first_difference_decides(a: Seq<Seq<char>>, b: Seq<Seq<char>>, k: int)
    requires
        0 <= k < a.len(),
        k < b.len(),
        a.take(k) == b.take(k),
        lex_less(a[k], b[k]),
    ensures
        path_before(a, b),
    decreases k,
{
    if k == 0 {
        lemma_lex_irreflexive(a[0]);
    } else {
        assert(a[0] == a.take(k)[0] && b[0] == b.take(k)[0]);
        assert(a.drop_first().take(k - 1) == a.take(k).drop_first());
        assert(b.drop_first().take(k - 1) == b.take(k).drop_first());
        lemma_first_difference_decides(a.drop_first(), b.drop_first(), k - 1);
    }
}

/// No path comes before itself.
proof fn lemma_path_not_before_itself(a: Seq<Seq<char>>)
    ensures
        !path_before(a, a),
    decreases a.len(),
{
    if a.len() > 0 {
        lemma_path_not_before_itself(a.drop_first());
    }
}

/// Steps follow one another.
proof fn lemma_walk_goes_on(skip_excluded: bool, walk: WalkView, first: nat, second: nat)
    ensures
        walk_on(skip_excluded, walk, first + second) == walk_on(
            skip_excluded,
            walk_on(skip_excluded, walk, first),
            second,
        ),
    decreases first,
{
    if first > 0 {
        lemma_walk_goes_on(
            skip_excluded,
            walk_once(skip_excluded, walk),
            (first - 1) as nat,
            second,
        );
    }
}

/// The place of a sorted name among the entries.
proof fn lemma_place_of_name(entries: Seq<(Seq<char>, Tree)>, m: int) -> (i: int)
    requires
        is_real(Tree::Folder(entries)),
        0 <= m < entries.len(),
    ensures
        0 <= i < entries.len(),
        sorted_texts(names_of(entries))[m] == entries[i].0,
        tree_named(entries, entries[i].0) == entries[i].1,
{
    let names = names_of(entries);
    let sorted = sorted_texts(names);
    law_sorting_keeps_the_texts(names);
    assert(sorted.contains(sorted[m]));
    assert(names.contains(sorted[m]));
    let i = choose|i: int| 0 <= i < names.len() && names[i] == sorted[m];
    assert(entries[i].0 == sorted[m]);
    let k = choose|k: int| 0 <= k < entries.len() && (#[trigger] entries[k]).0 == entries[i].0;
    assert(names[k] == names[i]);
    i
}

/// Whether the entry at place `m` in the order of names is or holds a file.
spec fn held_at(
    skip_excluded: bool,
    folder: Seq<char>,
    entries: Seq<(Seq<char>, Tree)>,
    m: int,
    file: Seq<char>,
) -> bool {
    let name = sorted_texts(names_of(entries))[m];
    0 <= m < entries.len() && holds_file(
        skip_excluded,
        (path_join(folder, name), name),
        tree_named(entries, name),
        file,
    )
}

/// Walking through an entry takes in exactly its files, in order, and leads to what waited before.
proof fn lemma_walk_through_entry(
    skip_excluded: bool,
    rest: Seq<((Seq<char>, Seq<char>), Tree)>,
    item: (Seq<char>, Seq<char>),
    tree: Tree,
    visited: Seq<Seq<char>>,
) -> (out: (nat, Seq<Seq<char>>))
    requires
        is_real(tree),
    ensures
        walk_on(
            skip_excluded,
            (WalkView { pending: rest.push((item, tree)), visited }),
            out.0,
        ) == (WalkView { pending: rest, visited: visited + out.1 }),
        forall|file: Seq<char>| #[trigger]
            out.1.contains(file) <==> holds_file(skip_excluded, item, tree, file),
        in_path_order(out.1),
    decreases tree, 0nat,
{
    let start = WalkView { pending: rest.push((item, tree)), visited };
    let empty = Seq::<Seq<char>>::empty();
    assert(start.pending.drop_last() == rest);
    assert(start.pending.last() == (item, tree));
    let next = walk_once(skip_excluded, start);
    assert(walk_on(skip_excluded, next, 0) == next);
    assert(walk_on(skip_excluded, start, 1) == next);
    match step_for(skip_excluded, item.1, kind_of(tree)) {
        WalkStep::Visit => {
            let files = seq![item.0];
            assert(visited.push(item.0) == visited + files);
            assert forall|file: Seq<char>| #[trigger] files.contains(file) <==> holds_file(
                skip_excluded,
                item,
                tree,
                file,
            ) by {
                assert(leads_to_file(skip_excluded, item.1, tree, empty));
                assert(chain_path(item.0, empty) == item.0);
                assert(files[0] == item.0);
            }
            (1, files)
        },
        WalkStep::Pass => {
            assert(visited + empty == visited);
            assert forall|file: Seq<char>| #[trigger] empty.contains(file) <==> holds_file(
                skip_excluded,
                item,
                tree,
                file,
            ) by {}
            (1, empty)
        },
        WalkStep::Descend => {
            let entries = tree->Folder_0;
            let waiting = listed(item.0, entries);
            assert(waiting.take(entries.len() as int) == waiting);
            let (steps, files) = lemma_walk_through_entries(
                skip_excluded,
                rest,
                item.0,
                entries,
                entries.len(),
                visited,
            );
            lemma_walk_goes_on(skip_excluded, start, 1, steps);
            assert forall|file: Seq<char>| #[trigger] files.contains(file) <==> holds_file(
                skip_excluded,
                item,
                tree,
                file,
            ) by {
                lemma_folder_holds(skip_excluded, item, entries, file);
                lemma_held_in_any_order(skip_excluded, item.0, entries, file);
            }
            (1 + steps, files)
        },
    }
}

/// The entries in the order of their names hold what the entries hold.
proof fn lemma_held_in_any_order(
    skip_excluded: bool,
    folder: Seq<char>,
    entries: Seq<(Seq<char>, Tree)>,
    file: Seq<char>,
)
    requires
        is_real(Tree::Folder(entries)),
    ensures
        (exists|m: int| held_at(skip_excluded, folder, entries, m, file)) <==> exists|i: int|
            entry_holds(skip_excluded, folder, entries, i, file),
{
    let names = names_of(entries);
    let sorted = sorted_texts(names);
    law_sorting_keeps_the_texts(names);
    if exists|m: int| held_at(skip_excluded, folder, entries, m, file) {
        let m = choose|m: int| held_at(skip_excluded, folder, entries, m, file);
        let i = lemma_place_of_name(entries, m);
        assert(entry_holds(skip_excluded, folder, entries, i, file));
    }
    if exists|i: int| entry_holds(skip_excluded, folder, entries, i, file) {
        let i = choose|i: int| entry_holds(skip_excluded, folder, entries, i, file);
        assert(names[i] == entries[i].0);
        assert(names.contains(entries[i].0));
        assert(sorted.contains(entries[i].0));
        let m = choose|m: int| 0 <= m < sorted.len() && sorted[m] == entries[i].0;
        let k = lemma_place_of_name(entries, m);
        assert(names[k] == names[i]);
        assert(held_at(skip_excluded, folder, entries, m, file));
    }
}

/// Walking through the last entries that wait of a folder takes in exactly their files, in order.
proof fn lemma_walk_through_entries(
    skip_excluded: bool,
    rest: Seq<((Seq<char>, Seq<char>), Tree)>,
    folder: Seq<char>,
    entries: Seq<(Seq<char>, Tree)>,
    count: nat,
    visited: Seq<Seq<char>>,
) -> (out: (nat, Seq<Seq<char>>))
    requires
        is_real(Tree::Folder(entries)),
        count <= entries.len(),
    ensures
        walk_on(
            skip_excluded,
            (WalkView { pending: rest + listed(folder, entries).take(count as int), visited }),
            out.0,
        ) == (WalkView { pending: rest, visited: visited + out.1 }),
        forall|file: Seq<char>| #[trigger]
            out.1.contains(file) <==> exists|m: int|
                entries.len() - count <= m && #[trigger] held_at(
                    skip_excluded,
                    folder,
                    entries,
                    m,
                    file,
                ),
        in_path_order(out.1),
    decreases entries, count,
{
    let waiting = listed(folder, entries);
    let names = names_of(entries);
    let sorted = sorted_texts(names);
    law_sorting_keeps_the_texts(names);
    let empty = Seq::<Seq<char>>::empty();
    let from = entries.len() - count;
    if count == 0 {
        assert(rest + waiting.take(0) == rest);
        assert(visited + empty == visited);
        (0, empty)
    } else {
        let start = WalkView { pending: rest + waiting.take(count as int), visited };
        let name = sorted[from];
        let item = (path_join(folder, name), name);
        let i = lemma_place_of_name(entries, from);
        let tree = entries[i].1;
        assert(is_name(entries[i].0) && is_real(tree));
        lemma_entry_components(folder, name);
        let others = rest + waiting.take(count - 1);
        assert(waiting[count - 1] == (item, tree));
        assert(start.pending == others.push((item, tree)));
        let (first_steps, first) = lemma_walk_through_entry(
            skip_excluded,
            others,
            item,
            tree,
            visited,
        );
        let (more_steps, more) = lemma_walk_through_entries(
            skip_excluded,
            rest,
            folder,
            entries,
            (count - 1) as nat,
            visited + first,
        );
        lemma_walk_goes_on(skip_excluded, start, first_steps, more_steps);
        let files = first + more;
        assert(visited + first + more == visited + files);
        assert forall|file: Seq<char>| #[trigger] files.contains(file) <==> exists|m: int|
            from <= m && #[trigger] held_at(skip_excluded, folder, entries, m, file) by {
            if files.contains(file) {
                let k = files.index_of(file);
                if k < first.len() {
                    assert(first[k] == file);
                    assert(first.contains(file));
                    assert(held_at(skip_excluded, folder, entries, from, file));
                } else {
                    assert(more[k - first.len()] == file);
                    assert(more.contains(file));
                    let m = choose|m: int|
                        from + 1 <= m && #[trigger] held_at(skip_excluded, folder, entries, m, file);
                    assert(held_at(skip_excluded, folder, entries, m, file));
                }
            }
            if exists|m: int|
                from <= m && #[trigger] held_at(skip_excluded, folder, entries, m, file) {
                let m = choose|m: int|
                    from <= m && #[trigger] held_at(skip_excluded, folder, entries, m, file);
                if m == from {
                    assert(first.contains(file));
                    let k = first.index_of(file);
                    assert(files[k] == file);
                } else {
                    assert(held_at(skip_excluded, folder, entries, m, file));
                    assert(more.contains(file));
                    let k = more.index_of(file);
                    assert(files[first.len() + k] == file);
                }
            }
        }
        assert forall|a: int, b: int| 0 <= a < b < files.len() implies path_before(
            components(#[trigger] files[a]),
            components(#[trigger] files[b]),
        ) by {
            if b < first.len() {
                assert(first[a] == files[a] && first[b] == files[b]);
            } else if a >= first.len() {
                assert(more[a - first.len()] == files[a] && more[b - first.len()] == files[b]);
            } else {
                assert(first[a] == files[a] && more[b - first.len()] == files[b]);
                assert(first.contains(files[a]) && more.contains(files[b]));
                let m = choose|m: int|
                    from + 1 <= m && #[trigger] held_at(skip_excluded, folder, entries, m, files[b]);
                lemma_entries_are_in_order(
                    skip_excluded,
                    folder,
                    entries,
                    from,
                    m,
                    files[a],
                    files[b],
                );
            }
        }
        (first_steps + more_steps, files)
    }
}

/// The files of an entry come before those of an entry with a later name.
proof fn lemma_entries_are_in_order(
    skip_excluded: bool,
    folder: Seq<char>,
    entries: Seq<(Seq<char>, Tree)>,
    a: int,
    b: int,
    first: Seq<char>,
    second: Seq<char>,
)
    requires
        is_real(Tree::Folder(entries)),
        0 <= a < b < entries.len(),
        held_at(skip_excluded, folder, entries, a, first),
        held_at(skip_excluded, folder, entries, b, second),
    ensures
        path_before(components(first), components(second)),
{
    let names = names_of(entries);
    let sorted = sorted_texts(names);
    law_different_texts_ascend(names);
    let base = components(folder);
    let left = lemma_components_below(skip_excluded, folder, entries, a, first);
    let right = lemma_components_below(skip_excluded, folder, entries, b, second);
    let front = base.push(sorted[a]) + left;
    let back = base.push(sorted[b]) + right;
    assert(front.take(base.len() as int) == base && back.take(base.len() as int) == base);
    assert(front[base.len() as int] == sorted[a] && back[base.len() as int] == sorted[b]);
    lemma_first_difference_decides(front, back, base.len() as int);
}

/// The components of a file below an entry of a folder start with those of the entry.
proof fn lemma_components_below(
    skip_excluded: bool,
    folder: Seq<char>,
    entries: Seq<(Seq<char>, Tree)>,
    m: int,
    file: Seq<char>,
) -> (chain: Seq<Seq<char>>)
    requires
        is_real(Tree::Folder(entries)),
        held_at(skip_excluded, folder, entries, m, file),
    ensures
        components(file) == components(folder).push(sorted_texts(names_of(entries))[m]) + chain,
{
    let name = sorted_texts(names_of(entries))[m];
    let i = lemma_place_of_name(entries, m);
    assert(is_name(entries[i].0) && is_real(entries[i].1));
    lemma_entry_components(folder, name);
    let path = path_join(folder, name);
    let chain = choose|chain: Seq<Seq<char>>| #[trigger]
        leads_to_file(skip_excluded, name, entries[i].1, chain) && chain_path(path, chain) == file;
    lemma_chain_components(skip_excluded, path, name, entries[i].1, chain);
    chain
}

/// Whether a walk is over and has visited every file below a folder that it is to take in, no other
/// and none twice, in ascending order of paths.
pub open spec fn is_full_walk(
    skip_excluded: bool,
    folder: Seq<char>,
    entries: Seq<(Seq<char>, Tree)>,
    walk: WalkView,
) -> bool {
    &&& walk.pending.len() == 0
    &&& forall|file: Seq<char>| #[trigger]
        walk.visited.contains(file) <==> exists|i: int|
            entry_holds(skip_excluded, folder, entries, i, file)
    &&& in_path_order(walk.visited)
    &&& walk.visited.no_duplicates()
}

/// A walk through a folder comes to an end, and has then visited every file below the folder outside
/// skipped folders, no other and none twice, in ascending order of paths.
pub proof fn law_walk_visits_every_file_once(
    skip_excluded: bool,
    folder: Seq<char>,
    entries: Seq<(Seq<char>, Tree)>,
)
    requires
        is_real(Tree::Folder(entries)),
    ensures
        exists|steps: nat|
            is_full_walk(
                skip_excluded,
                folder,
                entries,
                #[trigger] walk_on(
                    skip_excluded,
                    (WalkView { pending: listed(folder, entries), visited: Seq::empty() }),
                    steps,
                ),
            ),
{
    let none = Seq::<((Seq<char>, Seq<char>), Tree)>::empty();
    let waiting = listed(folder, entries);
    let start = WalkView { pending: waiting, visited: Seq::empty() };
    assert(none + waiting.take(entries.len() as int) == waiting);
    let (steps, files) = lemma_walk_through_entries(
        skip_excluded,
        none,
        folder,
        entries,
        entries.len(),
        Seq::empty(),
    );
    assert(Seq::<Seq<char>>::empty() + files == files);
    let end = walk_on(skip_excluded, start, steps);
    assert forall|file: Seq<char>| #[trigger] end.visited.contains(file) <==> exists|i: int|
        entry_holds(skip_excluded, folder, entries, i, file) by {
        lemma_held_in_any_order(skip_excluded, folder, entries, file);
    }
    assert forall|i: int, j: int| 0 <= i < j < files.len() implies files[i] != files[j] by {
        assert(path_before(components(files[i]), components(files[j])));
        lemma_path_not_before_itself(components(files[i]));
    }
    assert(is_full_walk(skip_excluded, folder, entries, end));
}

/// Whether following `chain` from an entry leads to a folder without entering a skipped folder, and
/// the folder is not skipped itself.
pub open spec fn leads_to_folder(
    skip_excluded: bool,
    name: Seq<char>,
    tree: Tree,
    chain: Seq<Seq<char>>,
) -> bool
    decreases chain.len(),
{
    &&& tree is Folder && !(skip_excluded && excluded(name))
    &&& chain.len() == 0 || exists|i: int|
        0 <= i < tree->Folder_0.len() && (#[trigger] tree->Folder_0[i]).0 == chain[0]
            && leads_to_folder(
            skip_excluded,
            chain[0],
            tree->Folder_0[i].1,
            chain.drop_first(),
        )
}

/// Whether a walk has come to a folder, and is about to enter it.
pub open spec fn comes_to_folder(skip_excluded: bool, walk: WalkView, folder: Seq<char>) -> bool {
    &&& walk.pending.len() > 0
    &&& walk.pending.last().0.0 == folder
    &&& step_for(skip_excluded, walk.pending.last().0.1, kind_of(walk.pending.last().1))
        == WalkStep::Descend
}

/// A walk comes past the entries of a folder, one after the other.
proof fn lemma_walk_past_entries(
    skip_excluded: bool,
    rest: Seq<((Seq<char>, Seq<char>), Tree)>,
    folder: Seq<char>,
    entries: Seq<(Seq<char>, Tree)>,
    count: nat,
    left: nat,
    visited: Seq<Seq<char>>,
) -> (out: (nat, Seq<Seq<char>>))
    requires
        is_real(Tree::Folder(entries)),
        left <= count <= entries.len(),
    ensures
        walk_on(
            skip_excluded,
            (WalkView { pending: rest + listed(folder, entries).take(count as int), visited }),
            out.0,
        ) == (WalkView {
            pending: rest + listed(folder, entries).take(left as int),
            visited: visited + out.1,
        }),
    decreases count,
{
    let waiting = listed(folder, entries);
    let start = WalkView { pending: rest + waiting.take(count as int), visited };
    if count == left {
        assert(visited + Seq::<Seq<char>>::empty() == visited);
        (0, Seq::empty())
    } else {
        let from = entries.len() - count;
        let i = lemma_place_of_name(entries, from);
        let name = entries[i].0;
        let item = (path_join(folder, name), name);
        assert(is_real(entries[i].1));
        let others = rest + waiting.take(count - 1);
        law_sorting_keeps_the_texts(names_of(entries));
        assert(waiting[count - 1] == (item, entries[i].1));
        assert(start.pending == others.push((item, entries[i].1)));
        let (first_steps, first) = lemma_walk_through_entry(
            skip_excluded,
            others,
            item,
            entries[i].1,
            visited,
        );
        let (more_steps, more) = lemma_walk_past_entries(
            skip_excluded,
            rest,
            folder,
            entries,
            (count - 1) as nat,
            left,
            visited + first,
        );
        lemma_walk_goes_on(skip_excluded, start, first_steps, more_steps);
        assert(visited + first + more == visited + (first + more));
        (first_steps + more_steps, first + more)
    }
}

/// A walk that waits with the entries of a folder comes to every folder below them.
proof fn lemma_walk_comes_to_folder(
    skip_excluded: bool,
    rest: Seq<((Seq<char>, Seq<char>), Tree)>,
    folder: Seq<char>,
    entries: Seq<(Seq<char>, Tree)>,
    visited: Seq<Seq<char>>,
    chain: Seq<Seq<char>>,
    i: int,
) -> (steps: nat)
    requires
        is_real(Tree::Folder(entries)),
        chain.len() > 0,
        0 <= i < entries.len(),
        entries[i].0 == chain[0],
        leads_to_folder(skip_excluded, chain[0], entries[i].1, chain.drop_first()),
    ensures
        comes_to_folder(
            skip_excluded,
            walk_on(
                skip_excluded,
                (WalkView { pending: rest + listed(folder, entries), visited }),
                steps,
            ),
            chain_path(folder, chain),
        ),
    decreases chain.len(),
{
    let names = names_of(entries);
    let sorted = sorted_texts(names);
    let waiting = listed(folder, entries);
    let start = WalkView { pending: rest + waiting, visited };
    let name = chain[0];
    law_sorting_keeps_the_texts(names);
    assert(names[i] == name);
    assert(names.contains(name));
    assert(sorted.contains(name));
    let m = choose|m: int| 0 <= m < sorted.len() && sorted[m] == name;
    let k = lemma_place_of_name(entries, m);
    assert(names[k] == names[i]);
    let left = (entries.len() - m) as nat;
    let tree = entries[i].1;
    let item = (path_join(folder, name), name);
    assert(is_real(tree));
    assert(waiting.take(entries.len() as int) == waiting);
    assert(waiting[left - 1] == (item, tree));
    let (past, seen) = lemma_walk_past_entries(
        skip_excluded,
        rest,
        folder,
        entries,
        entries.len(),
        left,
        visited,
    );
    let there = walk_on(skip_excluded, start, past);
    let before = rest + waiting.take(left - 1);
    assert(there.pending == before.push((item, tree)));
    let deeper = chain.drop_first();
    if deeper.len() == 0 {
        assert(chain_path(item.0, deeper) == item.0);
        past
    } else {
        let inner = tree->Folder_0;
        let j = choose|j: int|
            0 <= j < inner.len() && (#[trigger] inner[j]).0 == deeper[0] && leads_to_folder(
                skip_excluded,
                deeper[0],
                inner[j].1,
                deeper.drop_first(),
            );
        assert(there.pending.drop_last() == before);
        let next = walk_once(skip_excluded, there);
        assert(next == (WalkView {
            pending: before + listed(item.0, inner),
            visited: there.visited,
        }));
        assert(walk_on(skip_excluded, next, 0) == next);
        assert(walk_on(skip_excluded, there, 1) == next);
        let more = lemma_walk_comes_to_folder(
            skip_excluded,
            before,
            item.0,
            inner,
            there.visited,
            deeper,
            j,
        );
        lemma_walk_goes_on(skip_excluded, there, 1, more);
        lemma_walk_goes_on(skip_excluded, start, past, 1 + more);
        past + (1 + more)
    }
}

/// A walk through a folder enters every folder below it that is neither skipped nor lies in a skipped
/// one, empty folders too. So a copy, which skips none, makes every folder anew.
pub proof fn law_walk_enters_every_folder(
    skip_excluded: bool,
    folder: Seq<char>,
    entries: Seq<(Seq<char>, Tree)>,
    chain: Seq<Seq<char>>,
)
    requires
        is_real(Tree::Folder(entries)),
        chain.len() > 0,
        exists|i: int|
            0 <= i < entries.len() && (#[trigger] entries[i]).0 == chain[0] && leads_to_folder(
                skip_excluded,
                chain[0],
                entries[i].1,
                chain.drop_first(),
            ),
    ensures
        exists|steps: nat|
            comes_to_folder(
                skip_excluded,
                #[trigger] walk_on(
                    skip_excluded,
                    (WalkView { pending: listed(folder, entries), visited: Seq::empty() }),
                    steps,
                ),
                chain_path(folder, chain),
            ),
{
    let none = Seq::<((Seq<char>, Seq<char>), Tree)>::empty();
    let i = choose|i: int|
        0 <= i < entries.len() && (#[trigger] entries[i]).0 == chain[0] && leads_to_folder(
            skip_excluded,
            chain[0],
            entries[i].1,
            chain.drop_first(),
        );
    assert(none + listed(folder, entries) == listed(folder, entries));
    let steps = lemma_walk_comes_to_folder(
        skip_excluded,
        none,
        folder,
        entries,
        Seq::empty(),
        chain,
        i,
    );
    assert(comes_to_folder(
        skip_excluded,
        walk_on(
            skip_excluded,
            (WalkView { pending: listed(folder, entries), visited: Seq::empty() }),
            steps,
        ),
        chain_path(folder, chain),
    ));
}

/// A copied file has the relative path in the copy that it has in the folder that was copied.
pub proof fn law_copy_keeps_relative_paths(
    root: Seq<char>,
    destination: Seq<char>,
    path: Seq<char>,
)
    requires
        lies_below(root, path),
    ensures
        copied_to(root, destination, path) is Some,
        relative_to(destination, copied_to(root, destination, path)->0) == relative_to(root, path),
{
    law_relative_paths_are_plain(root, path);
    law_relative_path_of_join(destination, relative_to(root, path)->0);
}

} // verus!
