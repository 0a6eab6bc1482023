//! Which files differ between the fresh and the production index.

use crate::index::{lemma_ascending_entries_count, lemma_map_of, FileEntry, FileIndex};
use crate::order::{is_stable_order, sorts_before, stable_order};
use crate::state::State;
use crate::text::{lex_less, views};
use vstd::prelude::*;

verus! {

/// How a file of one index differs from the other index.
#[derive(Debug, Clone, Copy, PartialEq, Eq, Structural)]
pub enum ChangeKind {
    New,
    Updated,
    Deleted,
}

/// A file that differs, under its relative path.
#[derive(Debug)]
pub struct Change {
    pub path: String,
    pub kind: ChangeKind,
}

impl View for Change {
    type V = (Seq<char>, ChangeKind);

    open spec fn view(&self) -> (Seq<char>, ChangeKind) {
        (self.path@, self.kind)
    }
}

/// How the file under `path` differs, if it does. Files that only production has count when
/// deletions are asked for.
pub open spec fn change_of(
    fresh: Map<Seq<char>, FileEntry>,
    production: Map<Seq<char>, FileEntry>,
    include_deleted: bool,
    path: Seq<char>,
) -> Option<ChangeKind> {
    if fresh.contains_key(path) {
        if !production.contains_key(path) {
            Some(ChangeKind::New)
        } else if fresh[path] != production[path] {
            Some(ChangeKind::Updated)
        } else {
            None
        }
    } else if production.contains_key(path) && include_deleted {
        Some(ChangeKind::Deleted)
    } else {
        None
    }
}

/// Whether a list holds every file that differs, with how it differs, in ascending order of paths.
pub open spec fn is_change_list(
    fresh: Map<Seq<char>, FileEntry>,
    production: Map<Seq<char>, FileEntry>,
    include_deleted: bool,
    changes: Seq<(Seq<char>, ChangeKind)>,
) -> bool {
    &&& forall|i: int, j: int|
        0 <= i < j < changes.len() ==> lex_less((#[trigger] changes[i]).0, (
        #[trigger] changes[j]).0)
    &&& forall|i: int|
        0 <= i < changes.len() ==> change_of(
            fresh,
            production,
            include_deleted,
            (#[trigger] changes[i]).0,
        ) == Some(changes[i].1)
    &&& forall|path: Seq<char>|
        (#[trigger] change_of(fresh, production, include_deleted, path)) is Some ==> exists|i: int|
            0 <= i < changes.len() && (#[trigger] changes[i]).0 == path
}

/// The files that differ, in ascending order of paths.
pub open spec fn changes_of(
    fresh: Map<Seq<char>, FileEntry>,
    production: Map<Seq<char>, FileEntry>,
    include_deleted: bool,
) -> Seq<(Seq<char>, ChangeKind)> {
    choose|changes: Seq<(Seq<char>, ChangeKind)>|
        is_change_list(fresh, production, include_deleted, changes)
}

/// Collects the files that are new or updated, in ascending order of paths.
fn fresh_changes(fresh: &FileIndex, production: &FileIndex) -> (changes: Vec<Change>)
    requires
        fresh.wf(),
        production.wf(),
    ensures
        is_change_list(fresh@, production@, false, views(changes@)),
{
    let ghost list = fresh.listing();
    let count: usize = fresh.len();
    let mut changes: Vec<Change> = Vec::new();
    proof {
        lemma_map_of(list);
        lemma_ascending_entries_count(list);
    }
    for i in 0..count
        invariant
            fresh.wf(),
            production.wf(),
            list == fresh.listing(),
            count == list.len(),
            forall|k: int|
                0 <= k < list.len() ==> fresh@.contains_key((#[trigger] list[k]).0)
                    && fresh@[list[k].0] == list[k].1,
            forall|k: int, m: int|
                0 <= k < m < changes@.len() ==> lex_less(
                    (#[trigger] changes@[k]).path@,
                    (#[trigger] changes@[m]).path@,
                ),
            forall|k: int, m: int|
                0 <= k < changes@.len() && i <= m < list.len() ==> lex_less(
                    (#[trigger] changes@[k]).path@,
                    (#[trigger] list[m]).0,
                ),
            forall|k: int|
                0 <= k < changes@.len() ==> change_of(
                    fresh@,
                    production@,
                    false,
                    (#[trigger] changes@[k]).path@,
                ) == Some(changes@[k].kind),
            forall|k: int|
                0 <= k < i && change_of(fresh@, production@, false, (#[trigger] list[k]).0) is Some
                    ==> exists|m: int|
                    0 <= m < changes@.len() && (#[trigger] changes@[m]).path@ == list[k].0,
    {
        let ghost before = changes@;
        let path = fresh.path_at(i);
        let entry = fresh.entry_at(i);
        let kind: Option<ChangeKind> = match production.get(path.as_str()) {
            None => Some(ChangeKind::New),
            Some(other) => if other != entry {
                Some(ChangeKind::Updated)
            } else {
                None
            },
        };
        assert(fresh@.contains_key(list[i as int].0));
        assert(kind == change_of(fresh@, production@, false, path@));
        if let Some(found) = kind {
            changes.push(Change { path: path.clone(), kind: found });
            assert(changes@[before.len() as int].path@ == list[i as int].0);
        }
        assert forall|k: int|
            0 <= k < i + 1 && change_of(fresh@, production@, false, (#[trigger] list[k]).0)
                is Some implies exists|m: int|
            0 <= m < changes@.len() && (#[trigger] changes@[m]).path@ == list[k].0 by {
            if k < i {
                let m = choose|m: int|
                    0 <= m < before.len() && (#[trigger] before[m]).path@ == list[k].0;
                assert(changes@[m] == before[m]);
            } else {
                assert(changes@[before.len() as int].path@ == list[i as int].0);
            }
        }
    }
    let ghost seen = views(changes@);
    proof {
        assert forall|path: Seq<char>| (#[trigger] change_of(
            fresh@,
            production@,
            false,
            path,
        )) is Some implies exists|i: int|
            0 <= i < seen.len() && (#[trigger] seen[i]).0 == path by {
            let k = choose|k: int|
                0 <= k < list.len() && (#[trigger] list[k]).0 == path && list[k].1 == fresh@[path];
            let m = choose|m: int|
                0 <= m < changes@.len() && (#[trigger] changes@[m]).path@ == list[k].0;
            assert(seen[m].0 == path);
        }
    }
    changes
}

/// Collects the files that only production has, in ascending order of paths.
fn missing_files(fresh: &FileIndex, production: &FileIndex) -> (changes: Vec<Change>)
    requires
        fresh.wf(),
        production.wf(),
    ensures
        forall|i: int, j: int|
            0 <= i < j < changes@.len() ==> lex_less(
                (#[trigger] changes@[i]).path@,
                (#[trigger] changes@[j]).path@,
            ),
        forall|i: int|
            0 <= i < changes@.len() ==> !fresh@.contains_key((#[trigger] changes@[i]).path@)
                && production@.contains_key(changes@[i].path@) && changes@[i].kind
                == ChangeKind::Deleted,
        forall|path: Seq<char>| #[trigger]
            production@.contains_key(path) && !fresh@.contains_key(path) ==> exists|i: int|
                0 <= i < changes@.len() && (#[trigger] changes@[i]).path@ == path,
{
    let ghost list = production.listing();
    let count: usize = production.len();
    let mut changes: Vec<Change> = Vec::new();
    proof {
        lemma_map_of(list);
    }
    for i in 0..count
        invariant
            fresh.wf(),
            production.wf(),
            list == production.listing(),
            count == list.len(),
            forall|k: int|
                0 <= k < list.len() ==> production@.contains_key((#[trigger] list[k]).0),
            forall|k: int, m: int|
                0 <= k < m < changes@.len() ==> lex_less(
                    (#[trigger] changes@[k]).path@,
                    (#[trigger] changes@[m]).path@,
                ),
            forall|k: int, m: int|
                0 <= k < changes@.len() && i <= m < list.len() ==> lex_less(
                    (#[trigger] changes@[k]).path@,
                    (#[trigger] list[m]).0,
                ),
            forall|k: int|
                0 <= k < changes@.len() ==> !fresh@.contains_key((#[trigger] changes@[k]).path@)
                    && production@.contains_key(changes@[k].path@) && changes@[k].kind
                    == ChangeKind::Deleted,
            forall|k: int|
                0 <= k < i && !fresh@.contains_key((#[trigger] list[k]).0) ==> exists|m: int|
                    0 <= m < changes@.len() && (#[trigger] changes@[m]).path@ == list[k].0,
    {
        let ghost before = changes@;
        let path = production.path_at(i);
        assert(production@.contains_key(list[i as int].0));
        if fresh.get(path.as_str()).is_none() {
            changes.push(Change { path: path.clone(), kind: ChangeKind::Deleted });
            assert(changes@[before.len() as int].path@ == list[i as int].0);
        }
        assert forall|k: int| 0 <= k < i + 1 && !fresh@.contains_key((#[trigger] list[k]).0) implies
            exists|m: int|
            0 <= m < changes@.len() && (#[trigger] changes@[m]).path@ == list[k].0 by {
            if k < i {
                let m = choose|m: int|
                    0 <= m < before.len() && (#[trigger] before[m]).path@ == list[k].0;
                assert(changes@[m] == before[m]);
            } else {
                assert(changes@[before.len() as int].path@ == list[i as int].0);
            }
        }
    }
    assert forall|path: Seq<char>| #[trigger]
        production@.contains_key(path) && !fresh@.contains_key(path) implies exists|i: int|
        0 <= i < changes@.len() && (#[trigger] changes@[i]).path@ == path by {
        let k = choose|k: int|
            0 <= k < list.len() && (#[trigger] list[k]).0 == path && list[k].1 == production@[path];
        assert(!fresh@.contains_key(list[k].0));
    }
    changes
}

/// Lists the files that differ, in ascending order of paths.
pub fn compare_indexes(state: &State, include_deleted: bool) -> (changes: Vec<Change>)
    requires
        state.wf(),
    ensures
        is_change_list(state@.fresh, state@.production, include_deleted, views(changes@)),
        views(changes@) == changes_of(state@.fresh, state@.production, include_deleted),
{
    let fresh = &state.fresh;
    let production = &state.production;
    let mut changes = fresh_changes(fresh, production);
    if !include_deleted {
        proof {
            lemma_the_changes(fresh@, production@, false, views(changes@));
        }
        return changes;
    }
    let ghost first = changes@;
    let mut missing = missing_files(fresh, production);
    let ghost second = missing@;
    changes.append(&mut missing);
    let ghost all = changes@;
    assert(all == first + second);
    let mut keys: Vec<String> = Vec::new();
    for i in 0..changes.len()
        invariant
            keys@.len() == i,
            forall|k: int| 0 <= k < i ==> (#[trigger] keys@[k])@ == changes@[k].path@,
    {
        keys.push(changes[i].path.clone());
    }
    let order = stable_order(keys.as_slice());
    let mut sorted: Vec<Change> = Vec::new();
    for i in 0..order.len()
        invariant
            keys@.len() == changes@.len(),
            is_stable_order(views(keys@), order@),
            sorted@.len() == i,
            forall|k: int|
                0 <= k < i ==> (#[trigger] sorted@[k])@ == changes@[order@[k] as int]@,
    {
        let change = &changes[order[i]];
        sorted.push(Change { path: change.path.clone(), kind: change.kind });
    }
    proof {
        assert forall|path: Seq<char>| #[trigger]
            production@.contains_key(path) && !fresh@.contains_key(path) implies exists|i: int|
            0 <= i < views(second).len() && (#[trigger] views(second)[i]).0 == path by {
            let i = choose|i: int| 0 <= i < second.len() && (#[trigger] second[i]).path@ == path;
            assert(views(second)[i].0 == path);
        }
        lemma_sorted_changes(
            fresh@,
            production@,
            views(first),
            views(second),
            views(keys@),
            order@,
            views(sorted@),
        );
        lemma_the_changes(fresh@, production@, true, views(sorted@));
    }
    sorted
}

/// New and updated files together with missing files, sorted by path, make a full change list.
proof fn lemma_sorted_changes(
    fresh: Map<Seq<char>, FileEntry>,
    production: Map<Seq<char>, FileEntry>,
    first: Seq<(Seq<char>, ChangeKind)>,
    second: Seq<(Seq<char>, ChangeKind)>,
    keys: Seq<Seq<char>>,
    order: Seq<usize>,
    sorted: Seq<(Seq<char>, ChangeKind)>,
)
    requires
        is_change_list(fresh, production, false, first),
        forall|i: int, j: int|
            0 <= i < j < second.len() ==> lex_less((#[trigger] second[i]).0, (
            #[trigger] second[j]).0),
        forall|i: int|
            0 <= i < second.len() ==> !fresh.contains_key((#[trigger] second[i]).0)
                && production.contains_key(second[i].0) && second[i].1 == ChangeKind::Deleted,
        forall|path: Seq<char>| #[trigger]
            production.contains_key(path) && !fresh.contains_key(path) ==> exists|i: int|
                0 <= i < second.len() && (#[trigger] second[i]).0 == path,
        keys.len() == first.len() + second.len(),
        forall|i: int| 0 <= i < keys.len() ==> #[trigger] keys[i] == (first + second)[i].0,
        keys.len() <= usize::MAX,
        is_stable_order(keys, order),
        sorted.len() == order.len(),
        forall|i: int|
            0 <= i < sorted.len() ==> #[trigger] sorted[i] == (first + second)[order[i] as int],
    ensures
        is_change_list(fresh, production, true, sorted),
{
    let all = first + second;
    assert forall|i: int| 0 <= i < first.len() implies fresh.contains_key((#[trigger] first[i]).0)
        && change_of(fresh, production, true, first[i].0) == Some(first[i].1) by {
        assert(change_of(fresh, production, false, first[i].0) == Some(first[i].1));
    }
    assert forall|i: int, j: int| 0 <= i < j < all.len() implies (#[trigger] all[i]).0 != (
    #[trigger] all[j]).0 by {
        crate::text::lemma_lex_irreflexive(all[i].0);
        if j < first.len() {
            assert(lex_less(first[i].0, first[j].0));
        } else if i >= first.len() {
            assert(lex_less(second[i - first.len()].0, second[j - first.len()].0));
        } else {
            assert(fresh.contains_key(first[i].0));
            assert(!fresh.contains_key(second[j - first.len()].0));
        }
    }
    assert forall|i: int, j: int| 0 <= i < j < sorted.len() implies lex_less(
        (#[trigger] sorted[i]).0,
        (#[trigger] sorted[j]).0,
    ) by {
        let a = order[i] as int;
        let b = order[j] as int;
        assert(sorts_before(keys, a, b));
        if keys[a] == keys[b] {
            assert(all[a].0 == all[b].0);
        }
        assert(keys[a] == all[a].0 && keys[b] == all[b].0);
    }
    assert forall|i: int| 0 <= i < sorted.len() implies change_of(
        fresh,
        production,
        true,
        (#[trigger] sorted[i]).0,
    ) == Some(sorted[i].1) by {
        let a = order[i] as int;
        if a < first.len() {
            assert(all[a] == first[a]);
        } else {
            assert(all[a] == second[a - first.len()]);
        }
    }
    assert forall|path: Seq<char>| (#[trigger] change_of(
        fresh,
        production,
        true,
        path,
    )) is Some implies exists|i: int| 0 <= i < sorted.len() && (#[trigger] sorted[i]).0 == path by {
        let a = if fresh.contains_key(path) {
            assert(change_of(fresh, production, false, path) is Some);
            let i = choose|i: int| 0 <= i < first.len() && (#[trigger] first[i]).0 == path;
            i
        } else {
            let i = choose|i: int| 0 <= i < second.len() && (#[trigger] second[i]).0 == path;
            first.len() + i
        };
        assert(all[a].0 == path);
        assert(order.contains(a as usize));
        let i = choose|i: int| 0 <= i < order.len() && order[i] == a as usize;
        assert(sorted[i].0 == path);
    }
}

/// There is only one list of changes.
pub proof fn law_change_list_is_unique(
    fresh: Map<Seq<char>, FileEntry>,
    production: Map<Seq<char>, FileEntry>,
    include_deleted: bool,
    first: Seq<(Seq<char>, ChangeKind)>,
    second: Seq<(Seq<char>, ChangeKind)>,
)
    requires
        is_change_list(fresh, production, include_deleted, first),
        is_change_list(fresh, production, include_deleted, second),
    ensures
        first == second,
{
    assert forall|i: int| 0 <= i < first.len() && i < second.len() implies first[i] == second[i] by {
        lemma_change_lists_agree(fresh, production, include_deleted, first, second, i);
    }
    lemma_no_longer_list(fresh, production, include_deleted, first, second);
    lemma_no_longer_list(fresh, production, include_deleted, second, first);
}

/// A list of changes is the list of changes.
pub proof fn lemma_the_changes(
    fresh: Map<Seq<char>, FileEntry>,
    production: Map<Seq<char>, FileEntry>,
    include_deleted: bool,
    changes: Seq<(Seq<char>, ChangeKind)>,
)
    requires
        is_change_list(fresh, production, include_deleted, changes),
    ensures
        changes == changes_of(fresh, production, include_deleted),
{
    law_change_list_is_unique(
        fresh,
        production,
        include_deleted,
        changes,
        changes_of(fresh, production, include_deleted),
    );
}

proof fn lemma_no_longer_list(
    fresh: Map<Seq<char>, FileEntry>,
    production: Map<Seq<char>, FileEntry>,
    include_deleted: bool,
    short: Seq<(Seq<char>, ChangeKind)>,
    long: Seq<(Seq<char>, ChangeKind)>,
)
    requires
        is_change_list(fresh, production, include_deleted, short),
        is_change_list(fresh, production, include_deleted, long),
    ensures
        long.len() <= short.len(),
{
    if short.len() < long.len() {
        let n = short.len() as int;
        assert(change_of(fresh, production, include_deleted, long[n].0) is Some);
        let p = choose|p: int| 0 <= p < short.len() && (#[trigger] short[p]).0 == long[n].0;
        lemma_change_lists_agree(fresh, production, include_deleted, short, long, p);
        assert(lex_less(long[p].0, long[n].0));
        crate::text::lemma_lex_irreflexive(long[n].0);
    }
}

proof fn lemma_change_lists_agree(
    fresh: Map<Seq<char>, FileEntry>,
    production: Map<Seq<char>, FileEntry>,
    include_deleted: bool,
    first: Seq<(Seq<char>, ChangeKind)>,
    second: Seq<(Seq<char>, ChangeKind)>,
    i: int,
)
    requires
        is_change_list(fresh, production, include_deleted, first),
        is_change_list(fresh, production, include_deleted, second),
        0 <= i < first.len(),
        i < second.len(),
    ensures
        first[i] == second[i],
    decreases i,
{
    assert(change_of(fresh, production, include_deleted, first[i].0) is Some);
    assert(change_of(fresh, production, include_deleted, second[i].0) is Some);
    let p = choose|p: int| 0 <= p < second.len() && (#[trigger] second[p]).0 == first[i].0;
    let q = choose|q: int| 0 <= q < first.len() && (#[trigger] first[q]).0 == second[i].0;
    crate::text::lemma_lex_irreflexive(first[i].0);
    crate::text::lemma_lex_irreflexive(second[i].0);
    if p < i {
        lemma_change_lists_agree(fresh, production, include_deleted, first, second, p);
        assert(lex_less(first[p].0, first[i].0));
    } else if q < i {
        lemma_change_lists_agree(fresh, production, include_deleted, first, second, q);
        assert(lex_less(second[q].0, second[i].0));
    } else if p > i && q > i {
        assert(lex_less(second[i].0, second[p].0));
        assert(lex_less(first[i].0, first[q].0));
        crate::text::lemma_lex_transitive(first[i].0, second[i].0, first[i].0);
    } else if p > i {
        assert(first[i].0 == second[i].0);
    }
}

/// Whether a list has a path under a kind.
pub open spec fn lists(
    changes: Seq<(Seq<char>, ChangeKind)>,
    path: Seq<char>,
    kind: ChangeKind,
) -> bool {
    exists|i: int| 0 <= i < changes.len() && #[trigger] changes[i] == (path, kind)
}

/// A comparison lists a file as new exactly when only the fresh index holds it, as updated exactly when
/// both hold it with different entries, and as deleted exactly when only the production index holds
/// it and deletions are asked for. No file is listed twice, and the paths ascend.
pub proof fn law_changes_are_the_differences(
    fresh: Map<Seq<char>, FileEntry>,
    production: Map<Seq<char>, FileEntry>,
    include_deleted: bool,
    changes: Seq<(Seq<char>, ChangeKind)>,
    path: Seq<char>,
)
    requires
        is_change_list(fresh, production, include_deleted, changes),
    ensures
        ({
            let found = changes_of(fresh, production, include_deleted);
            &&& lists(found, path, ChangeKind::New) <==> fresh.contains_key(path)
                && !production.contains_key(path)
            &&& lists(found, path, ChangeKind::Updated) <==> fresh.contains_key(path)
                && production.contains_key(path) && fresh[path] != production[path]
            &&& lists(found, path, ChangeKind::Deleted) <==> include_deleted
                && !fresh.contains_key(path) && production.contains_key(path)
            &&& forall|i: int, j: int|
                0 <= i < j < found.len() ==> (#[trigger] found[i]).0 != (#[trigger] found[j]).0
                    && lex_less(found[i].0, found[j].0)
        }),
{
    lemma_the_changes(fresh, production, include_deleted, changes);
    assert(change_of(fresh, production, include_deleted, path) is Some ==> exists|i: int|
        0 <= i < changes.len() && (#[trigger] changes[i]).0 == path);
    if change_of(fresh, production, include_deleted, path) is Some {
        let i = choose|i: int| 0 <= i < changes.len() && (#[trigger] changes[i]).0 == path;
        assert(change_of(fresh, production, include_deleted, changes[i].0) == Some(changes[i].1));
        assert(changes[i] == (path, changes[i].1));
        assert(lists(changes, path, changes[i].1));
    }
    assert forall|i: int, j: int| 0 <= i < j < changes.len() implies (#[trigger] changes[i]).0 != (
    #[trigger] changes[j]).0 by {
        assert(lex_less(changes[i].0, changes[j].0));
        crate::text::lemma_lex_irreflexive(changes[i].0);
    }
}

} // verus!
