//! Paths as text, with `/` between their components. Paths that a system writes in another form are
//! brought into this one before they come here.

use crate::text::{joined, join_texts, split_on, split_text, views};
use vstd::prelude::*;
use vstd::string::StringExecFns;

verus! {

/// Whether a piece between two separators is a component of its own. Empty pieces and `.` are not.
pub open spec fn counts(piece: Seq<char>) -> bool {
    piece.len() > 0 && piece != seq!['.']
}

/// The pieces that count.
pub open spec fn counting(pieces: Seq<Seq<char>>) -> Seq<Seq<char>>
    decreases pieces.len(),
{
    if pieces.len() == 0 {
        Seq::empty()
    } else {
        let rest = counting(pieces.drop_last());
        if counts(pieces.last()) {
            rest.push(pieces.last())
        } else {
            rest
        }
    }
}

/// The component that a path starts with besides its counting pieces: `/` for an absolute path,
/// `.` for one that begins with the current folder.
pub open spec fn lead(path: Seq<char>) -> Seq<Seq<char>> {
    if path.len() > 0 && path[0] == '/' {
        seq![seq!['/']]
    } else if split_on(path, '/')[0] == seq!['.'] {
        seq![seq!['.']]
    } else {
        Seq::empty()
    }
}

/// The components of a path.
pub open spec fn components(path: Seq<char>) -> Seq<Seq<char>> {
    lead(path) + counting(split_on(path, '/'))
}

/// The path of `tail` below `base`. An absolute `tail` replaces `base`.
pub open spec fn path_join(base: Seq<char>, tail: Seq<char>) -> Seq<char> {
    if tail.len() > 0 && tail[0] == '/' {
        tail
    } else if base.len() == 0 || base.last() == '/' {
        base + tail
    } else {
        base.push('/') + tail
    }
}

/// The components of `path` below `root`, or `None` when it does not lie there.
pub open spec fn components_below(root: Seq<char>, path: Seq<char>) -> Option<Seq<Seq<char>>> {
    let base = components(root);
    let all = components(path);
    if base.len() <= all.len() && all.take(base.len() as int) == base {
        Some(all.skip(base.len() as int))
    } else {
        None
    }
}

/// `path` relative to `root`, with `/` between its components.
pub open spec fn relative_to(root: Seq<char>, path: Seq<char>) -> Option<Seq<char>> {
    match components_below(root, path) {
        Some(parts) => Some(joined(parts, seq!['/'])),
        None => None,
    }
}

/// Whether a path has a parent folder.
pub open spec fn has_parent(path: Seq<char>) -> bool {
    components(path).len() > 0 && components(path) != seq![seq!['/']]
}

/// Whether `parent` is the start of `path` that names its parent folder: the shortest start with
/// all the components of `path` but the last.
pub open spec fn is_parent_of(parent: Seq<char>, path: Seq<char>) -> bool {
    &&& parent.len() <= path.len()
    &&& parent == path.take(parent.len() as int)
    &&& components(parent) == components(path).drop_last()
    &&& forall|n: int|
        0 <= n < parent.len() ==> components(#[trigger] path.take(n)) != components(
            path,
        ).drop_last()
}

/// The parent folder of a path.
pub open spec fn parent_of(path: Seq<char>) -> Option<Seq<char>> {
    if has_parent(path) {
        Some(choose|parent: Seq<char>| is_parent_of(parent, path))
    } else {
        None
    }
}

/// A path has at most one parent folder.
proof fn lemma_parent_is_unique(first: Seq<char>, second: Seq<char>, path: Seq<char>)
    requires
        is_parent_of(first, path),
        is_parent_of(second, path),
    ensures
        first == second,
{
    if first.len() < second.len() {
        assert(components(path.take(first.len() as int)) == components(path).drop_last());
    } else if second.len() < first.len() {
        assert(components(path.take(second.len() as int)) == components(path).drop_last());
    }
}

fn counting_pieces(path: &str) -> (pieces: Vec<String>)
    ensures
        views(pieces@) == counting(split_on(path@, '/')),
{
    let all = split_text(path, '/');
    let mut pieces: Vec<String> = Vec::new();
    let mut dot = String::new();
    dot.push('.');
    assert(dot@ == seq!['.']);
    assert(views(all@).take(0) == Seq::<Seq<char>>::empty());
    for i in 0..all.len()
        invariant
            dot@ == seq!['.'],
            views(pieces@) == counting(views(all@).take(i as int)),
    {
        let ghost before = views(pieces@);
        assert(views(all@).take(i + 1).drop_last() == views(all@).take(i as int));
        let piece = &all[i];
        if !piece.as_str().is_empty() && *piece != dot {
            pieces.push(piece.clone());
            assert(views(pieces@) == before.push(piece@));
        }
    }
    assert(views(all@).take(all@.len() as int) == views(all@));
    pieces
}

/// Lists the components of a path.
pub fn path_components(path: &str) -> (parts: Vec<String>)
    ensures
        views(parts@) == components(path@),
{
    let chars = crate::text::chars_of(path);
    let mut parts: Vec<String> = Vec::new();
    let mut first = String::new();
    if chars.len() > 0 && chars[0] == '/' {
        first.push('/');
        assert(first@ == seq!['/']);
        parts.push(first);
    } else {
        first.push('.');
        assert(first@ == seq!['.']);
        let pieces = split_text(path, '/');
        assert(views(pieces@).len() > 0) by {
            lemma_split_is_never_empty(path@);
        }
        assert(views(pieces@)[0] == pieces@[0]@);
        if pieces[0] == first {
            parts.push(first);
        }
    }
    assert(views(parts@) == lead(path@));
    let mut rest = counting_pieces(path);
    let ghost tail = views(rest@);
    let ghost head = views(parts@);
    parts.append(&mut rest);
    assert(views(parts@) == head + tail);
    parts
}

proof fn lemma_split_is_never_empty(path: Seq<char>)
    ensures
        split_on(path, '/').len() > 0,
    decreases path.len(),
{
    if path.len() > 0 {
        lemma_split_is_never_empty(path.drop_last());
    }
}

/// Puts a path below another.
pub fn join_paths(base: &str, tail: &str) -> (path: String)
    ensures
        path@ == path_join(base@, tail@),
{
    let base_chars = crate::text::chars_of(base);
    let tail_chars = crate::text::chars_of(tail);
    if tail_chars.len() > 0 && tail_chars[0] == '/' {
        tail.to_owned()
    } else if base_chars.len() == 0 || base_chars[base_chars.len() - 1] == '/' {
        base.to_owned().concat(tail)
    } else {
        let mut path = base.to_owned();
        path.push('/');
        path.concat(tail)
    }
}

/// Whether two lists of texts are equal.
fn same_texts(a: &Vec<String>, b: &Vec<String>, count: usize) -> (same: bool)
    requires
        count <= a@.len(),
        count <= b@.len(),
    ensures
        same == (views(a@).take(count as int) == views(b@).take(count as int)),
{
    for i in 0..count
        invariant
            count <= a@.len(),
            count <= b@.len(),
            forall|k: int| 0 <= k < i ==> views(a@)[k] == views(b@)[k],
    {
        if a[i] != b[i] {
            assert(views(a@).take(count as int)[i as int] == a@[i as int]@);
            assert(views(b@).take(count as int)[i as int] == b@[i as int]@);
            return false;
        }
    }
    assert(views(a@).take(count as int) =~= views(b@).take(count as int));
    true
}

/// Whether two paths have the same components.
pub fn same_path(a: &str, b: &str) -> (same: bool)
    ensures
        same == (components(a@) == components(b@)),
{
    let left = path_components(a);
    let right = path_components(b);
    if left.len() != right.len() {
        return false;
    }
    assert(views(left@).take(left@.len() as int) == views(left@));
    assert(views(right@).take(left@.len() as int) == views(right@));
    same_texts(&left, &right, left.len())
}

/// The path of a file relative to a root, with `/` between its components. `None` when the file
/// does not lie below the root.
pub fn strip_root(root: &str, path: &str) -> (relative: Option<String>)
    ensures
        crate::text::opt_view(relative) == relative_to(root@, path@),
{
    let base = path_components(root);
    let all = path_components(path);
    if base.len() > all.len() {
        return None;
    }
    assert(views(base@).take(base@.len() as int) == views(base@));
    if !same_texts(&base, &all, base.len()) {
        return None;
    }
    let mut parts: Vec<String> = Vec::new();
    for i in base.len()..all.len()
        invariant
            base@.len() <= all@.len(),
            views(parts@) == views(all@).subrange(base@.len() as int, i as int),
    {
        let ghost before = views(parts@);
        parts.push(all[i].clone());
        assert(views(parts@) == before.push(all@[i as int]@));
        assert(views(parts@) == views(all@).subrange(base@.len() as int, i + 1));
    }
    assert(views(parts@) == views(all@).skip(base@.len() as int));
    let mut slash = String::new();
    slash.push('/');
    assert(slash@ == seq!['/']);
    Some(join_texts(parts.as_slice(), slash.as_str()))
}

/// One more character at the end either leaves the components as they are, changes only the last
/// of them, or starts a new one.
proof fn lemma_components_of_longer_path(path: Seq<char>, ch: char)
    requires
        has_parent(path.push(ch)),
    ensures
        ({
            let before = components(path);
            let after = components(path.push(ch));
            ||| after == before
            ||| (before.len() > 0 && before != seq![seq!['/']] && after.drop_last()
                == before.drop_last())
            ||| after.drop_last() == before
        }),
{
    let longer = path.push(ch);
    let pieces = split_on(path, '/');
    let grown = split_on(longer, '/');
    assert(longer.drop_last() == path);
    lemma_split_is_never_empty(path);
    let open = pieces.last();
    let done = counting(pieces.drop_last());
    if path.len() == 0 {
        assert(pieces == seq![Seq::<char>::empty()]);
        assert(pieces.drop_last() == Seq::<Seq<char>>::empty());
        assert(components(path) == Seq::<Seq<char>>::empty());
        if ch == '/' {
            assert(grown.drop_last() == pieces);
            assert(components(longer) == seq![seq!['/']]);
        } else {
            assert(grown == seq![seq![ch]]) by {
                assert(Seq::<char>::empty().push(ch) == seq![ch]);
            }
            assert(grown.drop_last() == Seq::<Seq<char>>::empty());
            assert(components(longer).drop_last() == components(path));
        }
    } else {
        assert(longer[0] == path[0]);
        if ch == '/' {
            assert(grown.drop_last() == pieces);
            assert(grown[0] == pieces[0]);
            assert(lead(longer) == lead(path));
            assert(components(longer) == components(path));
        } else {
            assert(grown.drop_last() == pieces.drop_last());
            assert(grown.last() == open.push(ch));
            if pieces.len() > 1 {
                assert(grown[0] == pieces[0]);
                assert(lead(longer) == lead(path));
                if counts(open) {
                    assert(components(path) == lead(path) + done.push(open));
                    assert(components(path).drop_last() == lead(path) + done);
                    assert(components(path).len() > 0);
                    if components(path) == seq![seq!['/']] {
                        lemma_pieces_hold_no_separator(path, pieces.len() - 1);
                        assert(components(path).last() == open);
                        assert(open[0] == '/');
                    }
                    if counts(open.push(ch)) {
                        assert(components(longer).drop_last() == lead(path) + done);
                    } else {
                        assert(open.push(ch).len() > 1);
                    }
                } else {
                    assert(components(path) == lead(path) + done);
                    if counts(open.push(ch)) {
                        assert(components(longer) == (lead(path) + done).push(open.push(ch)));
                        assert(components(longer).drop_last() == components(path));
                    } else {
                        assert(components(longer) == components(path));
                    }
                }
            } else {
                assert(pieces.drop_last() == Seq::<Seq<char>>::empty());
                assert(done == Seq::<Seq<char>>::empty());
                assert(pieces == seq![open]);
                assert(grown == seq![open.push(ch)]);
                lemma_single_piece(path);
                assert(components(longer).len() == 1) by {
                    assert(open.push(ch).len() > 1);
                    assert(open.push(ch) != seq!['.']);
                    assert(counting(grown) == done.push(open.push(ch)));
                    assert(longer[0] != '/');
                }
                assert(components(path).len() == 1) by {
                    if open == seq!['.'] {
                        assert(counting(pieces) == done);
                    } else {
                        assert(counting(pieces) == done.push(open));
                    }
                }
                assert(components(longer).drop_last() == components(path).drop_last());
                assert(components(path)[0] == open);
                assert(components(path)[0][0] != '/');
            }
        }
    }
}

/// A path without a separator is its own only piece.
proof fn lemma_single_piece(path: Seq<char>)
    requires
        split_on(path, '/').len() == 1,
    ensures
        split_on(path, '/')[0] == path,
        path.len() > 0 ==> path[0] != '/',
    decreases path.len(),
{
    if path.len() > 0 {
        lemma_split_is_never_empty(path.drop_last());
        lemma_single_piece(path.drop_last());
        assert(path == path.drop_last().push(path.last()));
    }
}

proof fn lemma_pieces_hold_no_separator(path: Seq<char>, k: int)
    requires
        0 <= k < split_on(path, '/').len(),
    ensures
        !split_on(path, '/')[k].contains('/'),
    decreases path.len(),
{
    if path.len() > 0 {
        let pieces = split_on(path.drop_last(), '/');
        lemma_split_is_never_empty(path.drop_last());
        if k < pieces.len() {
            lemma_pieces_hold_no_separator(path.drop_last(), k);
        }
        let piece = split_on(path, '/')[k];
        if path.last() != '/' && k == pieces.len() - 1 {
            assert forall|i: int| 0 <= i < piece.len() implies piece[i] != '/' by {
                if i < piece.len() - 1 {
                    assert(piece[i] == pieces[k][i]);
                }
            }
        }
    }
}

/// A path with a parent has a start that names it.
proof fn lemma_parent_exists(path: Seq<char>)
    requires
        has_parent(path),
    ensures
        exists|n: int|
            0 <= n <= path.len() && components(#[trigger] path.take(n)) == components(
                path,
            ).drop_last(),
    decreases path.len(),
{
    if path.len() == 0 {
        assert(split_on(path, '/').drop_last() == Seq::<Seq<char>>::empty());
        assert(split_on(path, '/')[0].len() == 0);
        assert(seq!['.'].len() == 1);
        assert(counting(split_on(path, '/').drop_last()) == Seq::<Seq<char>>::empty());
        assert(components(path) == Seq::<Seq<char>>::empty());
    } else {
        let shorter = path.drop_last();
        assert(path == shorter.push(path.last()));
        lemma_components_of_longer_path(shorter, path.last());
        let target = components(path).drop_last();
        if target == components(shorter) {
            assert(path.take(shorter.len() as int) == shorter);
        } else {
            lemma_parent_exists(shorter);
            let n = choose|n: int|
                0 <= n <= shorter.len() && components(#[trigger] shorter.take(n)) == components(
                    shorter,
                ).drop_last();
            assert(path.take(n) == shorter.take(n));
        }
    }
}

/// The parent folder of a path has all its components but the last.
pub proof fn lemma_parent_components(path: Seq<char>)
    requires
        has_parent(path),
    ensures
        is_parent_of(parent_of(path)->0, path),
        components(parent_of(path)->0) == components(path).drop_last(),
{
    lemma_parent_exists(path);
    let target = components(path).drop_last();
    let n = choose|n: int|
        0 <= n <= path.len() && components(#[trigger] path.take(n)) == target;
    lemma_shortest_start(path, target, n);
}

/// If some start of a path has the components `target`, there is a shortest one.
proof fn lemma_shortest_start(path: Seq<char>, target: Seq<Seq<char>>, n: int)
    requires
        0 <= n <= path.len(),
        components(path.take(n)) == target,
        target == components(path).drop_last(),
    ensures
        exists|parent: Seq<char>| is_parent_of(parent, path),
    decreases n,
{
    if exists|k: int| 0 <= k < n && components(#[trigger] path.take(k)) == target {
        let k = choose|k: int| 0 <= k < n && components(#[trigger] path.take(k)) == target;
        lemma_shortest_start(path, target, k);
    } else {
        assert(is_parent_of(path.take(n), path));
    }
}

/// The parent folder of a path, or `None` for a root folder and for the empty path.
pub fn parent_path(path: &str) -> (parent: Option<String>)
    ensures
        crate::text::opt_view(parent) == parent_of(path@),
        parent is Some ==> is_parent_of(parent->0@, path@),
{
    let parts = path_components(path);
    let chars = crate::text::chars_of(path);
    if parts.len() == 0 {
        return None;
    }
    let mut slash = String::new();
    slash.push('/');
    assert(slash@ == seq!['/']);
    if parts.len() == 1 && parts[0] == slash {
        assert(components(path@) == seq![seq!['/']]) by {
            assert(views(parts@)[0] == slash@);
        }
        return None;
    }
    assert(has_parent(path@)) by {
        if components(path@) == seq![seq!['/']] {
            assert(views(parts@)[0] == parts@[0]@);
        }
    }
    let ghost target = components(path@).drop_last();
    let length: usize = chars.len();
    let mut start = String::new();
    let mut n: usize = 0;
    assert(path@.take(0) == start@);
    proof {
        lemma_parent_exists(path@);
    }
    loop
        invariant
            n <= length,
            length == path@.len(),
            chars@ == path@,
            start@ == path@.take(n as int),
            parts@.len() > 0,
            views(parts@) == components(path@),
            target == components(path@).drop_last(),
            has_parent(path@),
            exists|k: int|
                0 <= k <= path@.len() && components(#[trigger] path@.take(k)) == target,
            forall|k: int| 0 <= k < n ==> components(#[trigger] path@.take(k)) != target,
        decreases path@.len() - n,
    {
        let found = path_components(start.as_str());
        if found.len() == parts.len() - 1 {
            assert(views(found@).take(found@.len() as int) == views(found@));
            assert(views(parts@).take(found@.len() as int) == target);
            if same_texts(&found, &parts, found.len()) {
                assert(is_parent_of(start@, path@));
                proof {
                    let folder = choose|folder: Seq<char>| is_parent_of(folder, path@);
                    lemma_parent_is_unique(start@, folder, path@);
                }
                return Some(start);
            }
        }
        assert(components(path@.take(n as int)) != target) by {
            assert(target.len() == parts@.len() - 1);
        }
        assert(n < path@.len()) by {
            if n == path@.len() {
                let k = choose|k: int|
                    0 <= k <= path@.len() && components(#[trigger] path@.take(k)) == target;
                assert(k == n);
            }
        }
        start.push(chars[n]);
        n += 1;
        assert(start@ == path@.take(n as int));
    }
}

proof fn lemma_counting_of_both(a: Seq<Seq<char>>, b: Seq<Seq<char>>)
    ensures
        counting(a + b) == counting(a) + counting(b),
    decreases b.len(),
{
    if b.len() == 0 {
        assert(a + b == a);
        assert(counting(a) + counting(b) == counting(a));
    } else {
        lemma_counting_of_both(a, b.drop_last());
        assert((a + b).drop_last() == a + b.drop_last());
        assert((a + b).last() == b.last());
        assert(counting(a + b) == counting(a) + counting(b));
    }
}

/// Splitting at a separator in the middle splits the two parts on their own.
proof fn lemma_split_around_separator(a: Seq<char>, b: Seq<char>)
    ensures
        split_on(a.push('/') + b, '/') == split_on(a, '/') + split_on(b, '/'),
    decreases b.len(),
{
    let all = a.push('/') + b;
    let left = split_on(a, '/');
    if b.len() == 0 {
        assert(all == a.push('/'));
        assert(all.drop_last() == a);
        assert(left + split_on(b, '/') == left.push(Seq::empty()));
    } else {
        lemma_split_around_separator(a, b.drop_last());
        lemma_split_is_never_empty(b.drop_last());
        assert(all.drop_last() == a.push('/') + b.drop_last());
        let right = split_on(b.drop_last(), '/');
        if b.last() == '/' {
            assert((left + right).push(Seq::empty()) == left + right.push(Seq::empty()));
        } else {
            assert((left + right).last() == right.last());
            assert((left + right).drop_last() == left + right.drop_last());
            assert((left + right.drop_last()).push(right.last().push(b.last())) == left
                + right.drop_last().push(right.last().push(b.last())));
        }
    }
}

/// The components of a path put below another are those of both, one after the other.
pub proof fn law_components_of_join(base: Seq<char>, tail: Seq<char>)
    requires
        lead(tail) == Seq::<Seq<char>>::empty(),
    ensures
        components(path_join(base, tail)) == components(base) + components(tail),
{
    assert(tail.len() == 0 || tail[0] != '/') by {
        if tail.len() > 0 && tail[0] == '/' {
            assert(lead(tail).len() == 1);
        }
    }
    if base.len() == 0 {
        lemma_no_components(base);
        assert(path_join(base, tail) == tail);
        assert(components(base) + components(tail) == components(tail));
    } else {
        lemma_components_below_a_path(base, tail);
    }
}

/// The empty path has no components.
proof fn lemma_no_components(path: Seq<char>)
    requires
        path.len() == 0,
    ensures
        components(path) == Seq::<Seq<char>>::empty(),
        lead(path) == Seq::<Seq<char>>::empty(),
{
    let empty = split_on(path, '/');
    assert(empty.drop_last() == Seq::<Seq<char>>::empty());
    assert(counting(empty.drop_last()) == Seq::<Seq<char>>::empty());
    assert(empty[0].len() == 0);
    assert(seq!['.'].len() == 1);
}

proof fn lemma_components_below_a_path(base: Seq<char>, tail: Seq<char>)
    requires
        base.len() > 0,
        lead(tail) == Seq::<Seq<char>>::empty(),
        tail.len() == 0 || tail[0] != '/',
    ensures
        components(path_join(base, tail)) == components(base) + components(tail),
{
    let path = path_join(base, tail);
    let stem = if base.last() == '/' {
        base.drop_last()
    } else {
        base
    };
    if base.last() == '/' {
        assert(base == stem.push('/'));
    }
    assert(path == stem.push('/') + tail);
    lemma_split_around_separator(stem, tail);
    lemma_counting_of_both(split_on(stem, '/'), split_on(tail, '/'));
    lemma_split_is_never_empty(stem);
    if base.last() == '/' {
        lemma_split_around_separator(stem, Seq::empty());
        assert(stem.push('/') + Seq::<char>::empty() == base);
        lemma_counting_of_both(split_on(stem, '/'), split_on(Seq::<char>::empty(), '/'));
        assert(counting(split_on(Seq::<char>::empty(), '/')) == Seq::<Seq<char>>::empty()) by {
            let empty = split_on(Seq::<char>::empty(), '/');
            assert(empty.drop_last() == Seq::<Seq<char>>::empty());
            assert(counting(empty.drop_last()) == Seq::<Seq<char>>::empty());
        }
        assert(counting(split_on(base, '/')) == counting(split_on(stem, '/')));
        assert(split_on(base, '/')[0] == split_on(stem, '/')[0]);
    }
    assert(path[0] == base[0]);
    assert(split_on(path, '/')[0] == split_on(base, '/')[0]);
    assert(lead(path) == lead(base));
    assert(components(path) == lead(base) + counting(split_on(base, '/')) + counting(
        split_on(tail, '/'),
    ));
}

/// Joining parts that hold no separator and splitting again gives the parts back.
proof fn lemma_split_of_joined(parts: Seq<Seq<char>>)
    requires
        parts.len() > 0,
        forall|k: int| 0 <= k < parts.len() ==> !(#[trigger] parts[k]).contains('/'),
    ensures
        split_on(joined(parts, seq!['/']), '/') == parts,
    decreases parts.len(),
{
    let last = parts.last();
    lemma_split_without_separator(last);
    if parts.len() == 1 {
        assert(parts == seq![last]);
    } else {
        let front = parts.drop_last();
        assert forall|k: int| 0 <= k < front.len() implies !(#[trigger] front[k]).contains(
            '/',
        ) by {
            assert(front[k] == parts[k]);
        }
        lemma_split_of_joined(front);
        lemma_split_around_separator(joined(front, seq!['/']), last);
        assert(joined(front, seq!['/']) + seq!['/'] + last == joined(front, seq!['/']).push('/')
            + last);
        assert(front + seq![last] == parts);
    }
}

proof fn lemma_split_without_separator(text: Seq<char>)
    requires
        !text.contains('/'),
    ensures
        split_on(text, '/') == seq![text],
    decreases text.len(),
{
    if text.len() > 0 {
        let shorter = text.drop_last();
        assert forall|i: int| 0 <= i < shorter.len() implies shorter[i] != '/' by {
            assert(text.contains(text[i]));
        }
        lemma_split_without_separator(shorter);
        assert(text.contains(text.last()));
        assert(split_on(text, '/') == seq![shorter.push(text.last())]);
        assert(shorter.push(text.last()) == text);
    } else {
        assert(text == Seq::<char>::empty());
    }
}

proof fn lemma_counting_pieces_count(pieces: Seq<Seq<char>>, k: int)
    requires
        forall|m: int| 0 <= m < pieces.len() ==> !(#[trigger] pieces[m]).contains('/'),
        0 <= k < counting(pieces).len(),
    ensures
        counts(counting(pieces)[k]),
        !counting(pieces)[k].contains('/'),
    decreases pieces.len(),
{
    let rest = counting(pieces.drop_last());
    if k < rest.len() {
        assert forall|m: int| 0 <= m < pieces.drop_last().len() implies !(#[trigger]
        pieces.drop_last()[m]).contains('/') by {
            assert(pieces.drop_last()[m] == pieces[m]);
        }
        lemma_counting_pieces_count(pieces.drop_last(), k);
    }
}

proof fn lemma_counting_keeps_all(pieces: Seq<Seq<char>>)
    requires
        forall|m: int| 0 <= m < pieces.len() ==> counts(#[trigger] pieces[m]),
    ensures
        counting(pieces) == pieces,
    decreases pieces.len(),
{
    if pieces.len() > 0 {
        lemma_counting_keeps_all(pieces.drop_last());
        assert(pieces == pieces.drop_last().push(pieces.last()));
    }
}

/// The relative path of a file, put below the root again, names the same file.
pub proof fn law_relative_path_leads_back(root: Seq<char>, path: Seq<char>)
    requires
        relative_to(root, path) is Some,
    ensures
        components(path_join(root, relative_to(root, path)->0)) == components(path),
{
    let base = components(root);
    let parts = components_below(root, path)->0;
    let tail = joined(parts, seq!['/']);
    if root.len() == 0 {
        lemma_no_components(root);
        assert(parts == components(path));
        lemma_components_joined_again(path);
        assert(path_join(root, tail) == tail);
    } else if base.len() == 0 {
        lemma_paths_have_components(root);
    } else {
        lemma_parts_below(root, path);
        lemma_components_of_joined(parts);
        law_components_of_join(root, tail);
        assert(base + parts == components(path)) by {
            assert(components(path) == components(path).take(base.len() as int) + components(
                path,
            ).skip(base.len() as int));
        }
    }
}

/// A path that is not empty has a component.
proof fn lemma_paths_have_components(path: Seq<char>)
    requires
        path.len() > 0,
    ensures
        components(path).len() > 0,
{
    let pieces = split_on(path, '/');
    lemma_split_is_never_empty(path);
    if path[0] != '/' && pieces[0] != seq!['.'] {
        lemma_first_piece(path);
        lemma_counting_has_first(pieces);
    }
}

/// The first piece of a path that does not start with a separator is not empty.
proof fn lemma_first_piece(path: Seq<char>)
    requires
        path.len() > 0,
        path[0] != '/',
    ensures
        split_on(path, '/')[0].len() > 0,
    decreases path.len(),
{
    let shorter = path.drop_last();
    lemma_split_is_never_empty(shorter);
    if shorter.len() > 0 {
        assert(shorter[0] == path[0]);
        lemma_first_piece(shorter);
    } else {
        assert(split_on(shorter, '/') == seq![Seq::<char>::empty()]);
        assert(path.last() == path[0]);
    }
}

/// A first piece that counts is kept.
proof fn lemma_counting_has_first(pieces: Seq<Seq<char>>)
    requires
        pieces.len() > 0,
        counts(pieces[0]),
    ensures
        counting(pieces).len() > 0,
    decreases pieces.len(),
{
    if pieces.len() > 1 {
        lemma_counting_has_first(pieces.drop_last());
    }
}

/// Components that count and hold no separator are those of their joined path.
proof fn lemma_components_of_joined(parts: Seq<Seq<char>>)
    requires
        forall|k: int|
            0 <= k < parts.len() ==> counts(#[trigger] parts[k]) && !parts[k].contains('/'),
    ensures
        lead(joined(parts, seq!['/'])) == Seq::<Seq<char>>::empty(),
        components(joined(parts, seq!['/'])) == parts,
{
    let tail = joined(parts, seq!['/']);
    if parts.len() > 0 {
        lemma_split_of_joined(parts);
        lemma_counting_keeps_all(parts);
        assert(lead(tail) == Seq::<Seq<char>>::empty()) by {
            assert(counts(parts[0]));
            if tail.len() > 0 && tail[0] == '/' {
                lemma_split_starts_with_empty(tail);
            }
        }
        assert(components(tail) == parts);
    } else {
        lemma_no_components(tail);
    }
}

/// The first of several parts stands in front of the others, joined.
proof fn lemma_joined_from_the_front(first: Seq<char>, others: Seq<Seq<char>>)
    requires
        others.len() > 0,
    ensures
        joined(seq![first] + others, seq!['/']) == first.push('/') + joined(others, seq!['/']),
    decreases others.len(),
{
    let all = seq![first] + others;
    assert(all.drop_last() == seq![first] + others.drop_last());
    if others.len() == 1 {
        assert(all.drop_last() == seq![first]);
        assert(joined(seq![first], seq!['/']) == first);
        assert(all.last() == others[0] && others == seq![others[0]]);
        assert(joined(all, seq!['/']) == first + seq!['/'] + others[0]);
        assert(first + seq!['/'] + others[0] == first.push('/') + others[0]);
    } else {
        let front = joined(others.drop_last(), seq!['/']);
        lemma_joined_from_the_front(first, others.drop_last());
        assert(joined(all, seq!['/']) == first.push('/') + front + seq!['/'] + others.last());
        assert(first.push('/') + front + seq!['/'] + others.last() == first.push('/') + (front
            + seq!['/'] + others.last()));
    }
}

/// The components of a path, joined again, name the same path.
proof fn lemma_components_joined_again(path: Seq<char>)
    ensures
        components(joined(components(path), seq!['/'])) == components(path),
{
    let start = lead(path);
    let rest = counting(split_on(path, '/'));
    let text = joined(components(path), seq!['/']);
    assert forall|k: int| 0 <= k < rest.len() implies counts(#[trigger] rest[k])
        && !rest[k].contains('/') by {
        let pieces = split_on(path, '/');
        assert forall|m: int| 0 <= m < pieces.len() implies !(#[trigger] pieces[m]).contains(
            '/',
        ) by {
            lemma_pieces_hold_no_separator(path, m);
        }
        lemma_counting_pieces_count(pieces, k);
    }
    if start.len() == 0 {
        assert(components(path) == rest);
        lemma_components_of_joined(rest);
    } else if path.len() > 0 && path[0] == '/' {
        let slash = seq!['/'];
        let none = Seq::<char>::empty();
        assert(slash == none.push('/') + none);
        lemma_split_around_separator(none, none);
        assert(split_on(none, '/') == seq![none]);
        assert(split_on(slash, '/') == seq![none, none]);
        assert(split_on(slash, '/').drop_last() == seq![none]);
        assert(seq![none].drop_last() == Seq::<Seq<char>>::empty());
        assert(counting(seq![none].drop_last()) == Seq::<Seq<char>>::empty());
        assert(counting(seq![none]) == Seq::<Seq<char>>::empty());
        assert(counting(split_on(slash, '/')) == Seq::<Seq<char>>::empty());
        if rest.len() == 0 {
            assert(components(path) == seq![slash]);
            assert(text == slash);
            assert(components(slash) == seq![slash]);
        } else {
            let tail = joined(rest, seq!['/']);
            assert(components(path) == seq![slash] + rest);
            lemma_joined_from_the_front(slash, rest);
            assert(text == slash.push('/') + tail);
            lemma_split_around_separator(slash, tail);
            lemma_split_of_joined(rest);
            lemma_counting_keeps_all(rest);
            lemma_counting_of_both(split_on(slash, '/'), rest);
            assert(text[0] == '/');
            assert(counting(split_on(text, '/')) == rest);
        }
    } else {
        let dot = seq!['.'];
        let all = components(path);
        assert(all == seq![dot] + rest);
        assert forall|k: int| 0 <= k < all.len() implies !(#[trigger] all[k]).contains('/') by {
            if k > 0 {
                assert(all[k] == rest[k - 1]);
            }
        }
        lemma_split_of_joined(all);
        lemma_counting_keeps_all(rest);
        lemma_counting_of_both(seq![dot], rest);
        assert(seq![dot].drop_last() == Seq::<Seq<char>>::empty());
        assert(counting(seq![dot].drop_last()) == Seq::<Seq<char>>::empty());
        assert(counting(seq![dot]) == Seq::<Seq<char>>::empty());
        assert(counting(all) == rest);
        assert(text.len() > 0 ==> text[0] != '/') by {
            if text.len() > 0 && text[0] == '/' {
                lemma_split_starts_with_empty(text);
                assert(split_on(text, '/')[0] == dot);
            }
        }
    }
}

/// An absolute path has an empty first piece.
proof fn lemma_split_starts_with_empty(path: Seq<char>)
    requires
        path.len() > 0,
        path[0] == '/',
    ensures
        split_on(path, '/')[0].len() == 0,
{
    let rest = path.drop_first();
    assert(path == Seq::<char>::empty().push('/') + rest);
    lemma_split_around_separator(Seq::empty(), rest);
    assert(split_on(Seq::<char>::empty(), '/') == seq![Seq::<char>::empty()]);
}

/// Whether a relative path is written as an index writes it: one `/` between components and nothing
/// that does not count.
pub open spec fn is_plain(relative: Seq<char>) -> bool {
    counting(split_on(relative, '/')) == split_on(relative, '/')
}

/// A file put below a root under a plain relative path has that relative path.
pub proof fn law_relative_path_of_join(root: Seq<char>, relative: Seq<char>)
    requires
        is_plain(relative),
    ensures
        relative_to(root, path_join(root, relative)) == Some(relative),
{
    let pieces = split_on(relative, '/');
    lemma_split_is_never_empty(relative);
    assert(lead(relative) == Seq::<Seq<char>>::empty()) by {
        if relative.len() > 0 && relative[0] == '/' {
            lemma_split_starts_with_empty(relative);
            lemma_counting_drops(pieces, 0);
        } else if pieces[0] == seq!['.'] {
            lemma_counting_drops(pieces, 0);
        }
    }
    law_components_of_join(root, relative);
    let base = components(root);
    assert((base + pieces).take(base.len() as int) == base);
    assert((base + pieces).skip(base.len() as int) == pieces);
    lemma_joined_of_split(relative);
}

proof fn lemma_counting_is_shorter(pieces: Seq<Seq<char>>)
    ensures
        counting(pieces).len() <= pieces.len(),
    decreases pieces.len(),
{
    if pieces.len() > 0 {
        lemma_counting_is_shorter(pieces.drop_last());
    }
}

proof fn lemma_counting_drops(pieces: Seq<Seq<char>>, k: int)
    requires
        0 <= k < pieces.len(),
        !counts(pieces[k]),
    ensures
        counting(pieces).len() < pieces.len(),
    decreases pieces.len(),
{
    lemma_counting_is_shorter(pieces.drop_last());
    if k < pieces.len() - 1 {
        lemma_counting_drops(pieces.drop_last(), k);
    }
}

/// Splitting a text and joining the pieces again gives the text back.
proof fn lemma_joined_of_split(text: Seq<char>)
    ensures
        joined(split_on(text, '/'), seq!['/']) == text,
    decreases text.len(),
{
    let pieces = split_on(text, '/');
    if text.len() > 0 {
        let shorter = text.drop_last();
        let before = split_on(shorter, '/');
        lemma_joined_of_split(shorter);
        lemma_split_is_never_empty(shorter);
        if text.last() == '/' {
            assert(pieces.drop_last() == before);
            assert(joined(pieces, seq!['/']) == shorter + seq!['/'] + Seq::<char>::empty());
        } else {
            assert(pieces.drop_last() == before.drop_last());
            if before.len() > 1 {
                assert(joined(before, seq!['/']) == joined(before.drop_last(), seq!['/'])
                    + seq!['/'] + before.last());
                assert(joined(pieces, seq!['/']) == joined(before.drop_last(), seq!['/'])
                    + seq!['/'] + before.last().push(text.last()));
            } else {
                assert(pieces == seq![before[0].push(text.last())]);
            }
        }
        assert(shorter.push(text.last()) == text);
        assert(joined(pieces, seq!['/']) == shorter.push(text.last()));
    } else {
        assert(text == Seq::<char>::empty());
    }
}

/// A name without a separator is a component of its own.
pub proof fn lemma_single_component(name: Seq<char>)
    requires
        counts(name),
        !name.contains('/'),
    ensures
        lead(name) == Seq::<Seq<char>>::empty(),
        components(name) == seq![name],
{
    lemma_split_without_separator(name);
    let pieces = split_on(name, '/');
    assert(pieces.drop_last() == Seq::<Seq<char>>::empty());
    assert(counting(pieces.drop_last()) == Seq::<Seq<char>>::empty());
    assert(lead(name) == Seq::<Seq<char>>::empty()) by {
        assert(name.contains(name[0]));
    }
    assert(components(name) == seq![name]);
}

/// The parent folder of an entry of a folder is that folder.
pub proof fn law_parent_of_entry(folder: Seq<char>, name: Seq<char>, parent: Seq<char>)
    requires
        counts(name),
        !name.contains('/'),
        is_parent_of(parent, path_join(folder, name)),
    ensures
        components(parent) == components(folder),
{
    lemma_single_component(name);
    law_components_of_join(folder, name);
    assert((components(folder) + seq![name]).drop_last() == components(folder));
}

/// Whether a path lies properly below a root. Below the empty root lie the paths that start with a
/// name.
pub open spec fn lies_below(root: Seq<char>, path: Seq<char>) -> bool {
    &&& relative_to(root, path) is Some
    &&& components(path).len() > components(root).len()
    &&& components(root).len() > 0 || lead(path).len() == 0
}

/// The relative path of a file that lies properly below a root is plain.
pub proof fn law_relative_paths_are_plain(root: Seq<char>, path: Seq<char>)
    requires
        lies_below(root, path),
    ensures
        is_plain(relative_to(root, path)->0),
{
    let parts = components_below(root, path)->0;
    lemma_parts_below(root, path);
    lemma_split_of_joined(parts);
    lemma_counting_keeps_all(parts);
}

/// The components of a path below a root all count, and none holds a separator.
proof fn lemma_parts_below(root: Seq<char>, path: Seq<char>)
    requires
        components(root).len() > 0 || lead(path).len() == 0,
        relative_to(root, path) is Some,
    ensures
        ({
            let parts = components_below(root, path)->0;
            forall|k: int|
                0 <= k < parts.len() ==> counts(#[trigger] parts[k]) && !parts[k].contains('/')
        }),
{
    let base = components(root);
    let parts = components_below(root, path)->0;
    let pieces = split_on(path, '/');
    assert forall|k: int| 0 <= k < parts.len() implies counts(#[trigger] parts[k])
        && !parts[k].contains('/') by {
        assert(parts[k] == components(path)[base.len() + k]);
        assert(lead(path).len() <= 1);
        assert forall|m: int| 0 <= m < pieces.len() implies !(#[trigger] pieces[m]).contains(
            '/',
        ) by {
            lemma_pieces_hold_no_separator(path, m);
        }
        lemma_counting_pieces_count(pieces, base.len() + k - lead(path).len());
    }
}

/// The components of a path written with single separators are the names in it, one by one, and `/`
/// in front of them where the path is absolute. Only empty names and `.` do not count; `..` does.
pub proof fn law_components_are_the_written_names(names: Seq<Seq<char>>)
    requires
        names.len() > 0,
        forall|k: int|
            0 <= k < names.len() ==> (#[trigger] names[k]).len() > 0 && names[k] != seq!['.']
                && !names[k].contains('/'),
    ensures
        components(joined(names, seq!['/'])) == names,
        components(seq!['/'] + joined(names, seq!['/'])) == seq![seq!['/']] + names,
        components(joined(names, seq!['/']) + seq!['/']) == names,
        components(seq!['.', '/'] + joined(names, seq!['/'])) == seq![seq!['.']] + names,
        components(Seq::empty()) == Seq::<Seq<char>>::empty(),
        components(seq!['/']) == seq![seq!['/']],
{
    let none = Seq::<char>::empty();
    let slash = seq!['/'];
    let dot = seq!['.'];
    let text = joined(names, slash);
    lemma_components_of_joined(names);
    lemma_split_of_joined(names);
    lemma_counting_keeps_all(names);
    lemma_no_components(none);
    assert(split_on(none, '/') == seq![none]);
    assert(counting(seq![none]) == Seq::<Seq<char>>::empty()) by {
        assert(seq![none].drop_last() == Seq::<Seq<char>>::empty());
        assert(counting(seq![none].drop_last()) == Seq::<Seq<char>>::empty());
    }
    // An absolute path.
    let absolute = slash + text;
    lemma_split_around_separator(none, text);
    assert(none.push('/') + text == absolute);
    lemma_counting_of_both(seq![none], names);
    assert(counting(seq![none]) + names == names);
    assert(absolute[0] == '/');
    // A path that ends with a separator.
    let ended = text + slash;
    lemma_split_around_separator(text, none);
    assert(text.push('/') + none == ended);
    lemma_counting_of_both(names, seq![none]);
    assert(names + counting(seq![none]) == names);
    assert((names + seq![none])[0] == names[0]);
    assert(text.len() > 0 && text[0] != '/') by {
        if text.len() == 0 {
            assert(split_on(text, '/') == seq![Seq::<char>::empty()]);
            assert(names[0].len() == 0);
        } else if text[0] == '/' {
            lemma_split_starts_with_empty(text);
            assert(names[0].len() == 0);
        }
    }
    assert(ended[0] == text[0]);
    assert(lead(ended) == Seq::<Seq<char>>::empty());
    // A path that starts with the current folder.
    let here = seq!['.', '/'] + text;
    lemma_split_without_separator(dot);
    lemma_split_around_separator(dot, text);
    assert(dot.push('/') + text == here);
    lemma_counting_of_both(seq![dot], names);
    assert(counting(seq![dot]) == Seq::<Seq<char>>::empty()) by {
        assert(seq![dot].drop_last() == Seq::<Seq<char>>::empty());
        assert(counting(seq![dot].drop_last()) == Seq::<Seq<char>>::empty());
    }
    assert(counting(seq![dot]) + names == names);
    assert((seq![dot] + names)[0] == dot);
    assert(here[0] == '.');
    // The root.
    lemma_split_around_separator(none, none);
    assert(none.push('/') + none == slash);
    lemma_counting_of_both(seq![none], seq![none]);
    assert(counting(seq![none]) + counting(seq![none]) == Seq::<Seq<char>>::empty());
    assert(lead(slash) == seq![slash]);
    assert(components(slash) == seq![slash]);
}

/// Repeated separators and `.` between separators do not matter.
pub proof fn law_redundant_separators_do_not_matter(before: Seq<char>, after: Seq<char>)
    requires
        before.len() > 0,
    ensures
        components(before + seq!['/', '/'] + after) == components(before + seq!['/'] + after),
        components(before + seq!['/', '.', '/'] + after) == components(
            before + seq!['/'] + after,
        ),
{
    let none = Seq::<char>::empty();
    let dot = seq!['.'];
    let short = before + seq!['/'] + after;
    let doubled = before + seq!['/', '/'] + after;
    let dotted = before + seq!['/', '.', '/'] + after;
    lemma_split_is_never_empty(before);
    lemma_split_around_separator(before, after);
    assert(short == before.push('/') + after);
    lemma_split_around_separator(before, none.push('/') + after);
    lemma_split_around_separator(none, after);
    assert(doubled == before.push('/') + (none.push('/') + after));
    lemma_split_without_separator(dot);
    lemma_split_around_separator(before, dot.push('/') + after);
    lemma_split_around_separator(dot, after);
    assert(dotted == before.push('/') + (dot.push('/') + after));
    let first = split_on(before, '/');
    let last = split_on(after, '/');
    assert(split_on(none, '/') == seq![none]);
    lemma_counting_of_both(first, last);
    lemma_counting_of_both(first, seq![none] + last);
    lemma_counting_of_both(seq![none], last);
    lemma_counting_of_both(first, seq![dot] + last);
    lemma_counting_of_both(seq![dot], last);
    assert(counting(seq![none]) == Seq::<Seq<char>>::empty()) by {
        assert(seq![none].drop_last() == Seq::<Seq<char>>::empty());
        assert(counting(seq![none].drop_last()) == Seq::<Seq<char>>::empty());
    }
    assert(counting(seq![dot]) == Seq::<Seq<char>>::empty()) by {
        assert(seq![dot].drop_last() == Seq::<Seq<char>>::empty());
        assert(counting(seq![dot].drop_last()) == Seq::<Seq<char>>::empty());
    }
    assert(counting(seq![none]) + counting(last) == counting(last));
    assert(counting(seq![dot]) + counting(last) == counting(last));
    assert(short[0] == before[0] && doubled[0] == before[0] && dotted[0] == before[0]);
    assert(split_on(short, '/')[0] == first[0]);
    assert(split_on(doubled, '/')[0] == first[0]);
    assert(split_on(dotted, '/')[0] == first[0]);
    assert(lead(doubled) == lead(short));
    assert(lead(dotted) == lead(short));
}

/// Joining puts one separator between a folder and a relative path, and takes an absolute path as it
/// is.
pub proof fn law_join_puts_one_separator(base: Seq<char>, tail: Seq<char>)
    ensures
        ({
            let absolute = tail.len() > 0 && tail[0] == '/';
            let ended = base.len() == 0 || base[base.len() - 1] == '/';
            &&& absolute ==> path_join(base, tail) == tail
            &&& !absolute && !ended ==> path_join(base, tail) == base + seq!['/'] + tail
            &&& !absolute && ended ==> path_join(base, tail) == base + tail
        }),
{
    assert(base.push('/') + tail == base + seq!['/'] + tail);
}

/// A path has a relative path below a root exactly when the components of the root start its own.
pub proof fn law_paths_below_start_with_the_root(root: Seq<char>, path: Seq<char>)
    ensures
        relative_to(root, path) is Some <==> components(root).len() <= components(path).len()
            && forall|k: int|
            0 <= k < components(root).len() ==> components(path)[k] == #[trigger] components(
                root,
            )[k],
{
    let base = components(root);
    let all = components(path);
    if base.len() <= all.len() && forall|k: int|
        0 <= k < base.len() ==> all[k] == #[trigger] base[k] {
        assert(all.take(base.len() as int) == base);
    }
    if base.len() <= all.len() && all.take(base.len() as int) == base {
        assert forall|k: int| 0 <= k < base.len() implies all[k] == #[trigger] base[k] by {
            assert(all.take(base.len() as int)[k] == all[k]);
        }
    }
}

/// A path has a parent unless it is empty or the root, and the parent is a start of the path without
/// its last component.
pub proof fn law_parent_lacks_the_last_component(path: Seq<char>)
    ensures
        parent_of(path) is None <==> components(path).len() == 0 || components(path) == seq![
            seq!['/'],
        ],
        parent_of(path) is Some ==> {
            let parent = parent_of(path)->0;
            &&& parent.len() <= path.len()
            &&& path.take(parent.len() as int) == parent
            &&& components(parent) == components(path).drop_last()
        },
{
    if has_parent(path) {
        lemma_parent_components(path);
    }
}

} // verus!
