//! A project: its folders, its indexes, and the records that keep it.

use crate::error::{ErrorView, UpxtoError};
use crate::index::{FileEntry, FileIndex};
use crate::text::{copy_text, opt_view};
use vstd::prelude::*;

verus! {

/// The name of the project that is used when none is chosen.
pub const DEFAULT_PROJECT: &'static str = "default";

/// Everything that is known of a project.
#[derive(Debug)]
pub struct State {
    pub project_name: Option<String>,
    pub left_dir: Option<String>,
    pub right_dir: Option<String>,
    pub production_root: Option<String>,
    pub fresh_root: Option<String>,
    pub production: FileIndex,
    pub fresh: FileIndex,
}

/// A project as texts and maps.
#[verifier::ext_equal]
pub struct StateView {
    pub project_name: Option<Seq<char>>,
    pub left_dir: Option<Seq<char>>,
    pub right_dir: Option<Seq<char>>,
    pub production_root: Option<Seq<char>>,
    pub fresh_root: Option<Seq<char>>,
    pub production: Map<Seq<char>, FileEntry>,
    pub fresh: Map<Seq<char>, FileEntry>,
}

impl View for State {
    type V = StateView;

    open spec fn view(&self) -> StateView {
        StateView {
            project_name: opt_view(self.project_name),
            left_dir: opt_view(self.left_dir),
            right_dir: opt_view(self.right_dir),
            production_root: opt_view(self.production_root),
            fresh_root: opt_view(self.fresh_root),
            production: self.production@,
            fresh: self.fresh@,
        }
    }
}

/// A project of which nothing is known yet.
pub open spec fn empty_state() -> StateView {
    StateView {
        project_name: None,
        left_dir: None,
        right_dir: None,
        production_root: None,
        fresh_root: None,
        production: Map::empty(),
        fresh: Map::empty(),
    }
}

impl Default for State {
    fn default() -> (state: State)
        ensures
            state.wf(),
            state@ == empty_state(),
    {
        State {
            project_name: None,
            left_dir: None,
            right_dir: None,
            production_root: None,
            fresh_root: None,
            production: FileIndex::new(),
            fresh: FileIndex::new(),
        }
    }
}

impl State {
    /// Both indexes are in order.
    pub open spec fn wf(&self) -> bool {
        self.production.wf() && self.fresh.wf()
    }

    /// A copy to start another project with.
    pub fn clone_for_project(&self) -> (copy: State)
        requires
            self.wf(),
        ensures
            copy.wf(),
            copy@ == self@,
    {
        State {
            project_name: copy_text(&self.project_name),
            left_dir: copy_text(&self.left_dir),
            right_dir: copy_text(&self.right_dir),
            production_root: copy_text(&self.production_root),
            fresh_root: copy_text(&self.fresh_root),
            production: self.production.duplicate(),
            fresh: self.fresh.duplicate(),
        }
    }
}

/// The project that was stored, or an empty one.
pub fn load_state(stored: Option<State>) -> (state: State)
    requires
        stored is Some ==> stored->0.wf(),
    ensures
        state.wf(),
        state@ == (match stored {
            Some(found) => found@,
            None => empty_state(),
        }),
{
    match stored {
        Some(found) => found,
        None => State::default(),
    }
}

/// Checks that both folders are indexed. Production is asked for first.
pub fn ensure_indexes(state: &State) -> (checked: Result<(), UpxtoError>)
    ensures
        match checked {
            Ok(()) => state@.production_root is Some && state@.fresh_root is Some,
            Err(error) => {
                ||| state@.production_root is None && error@ == ErrorView::ProductionNotIndexed
                ||| state@.production_root is Some && state@.fresh_root is None && error@
                    == ErrorView::FreshNotIndexed
            },
        },
{
    if state.production_root.is_none() {
        return Err(UpxtoError::ProductionNotIndexed);
    }
    if state.fresh_root.is_none() {
        return Err(UpxtoError::FreshNotIndexed);
    }
    Ok(())
}

/// Whether a project name may hold a character.
pub open spec fn safe_char(ch: char) -> bool {
    ||| 'a' <= ch <= 'z'
    ||| 'A' <= ch <= 'Z'
    ||| '0' <= ch <= '9'
    ||| ch == '-'
    ||| ch == '_'
}

/// A project name with `_` for everything that it may not hold.
pub open spec fn sanitized(name: Seq<char>) -> Seq<char> {
    if name.len() == 0 {
        DEFAULT_PROJECT@
    } else {
        Seq::new(
            name.len(),
            |i: int|
                if safe_char(name[i]) {
                    name[i]
                } else {
                    '_'
                },
        )
    }
}

/// Makes a project name out of what was typed.
pub fn sanitize_project_name(project_name: &str) -> (name: String)
    ensures
        name@ == sanitized(project_name@),
{
    if project_name.is_empty() {
        return DEFAULT_PROJECT.to_owned();
    }
    let chars = crate::text::chars_of(project_name);
    let mut name = String::new();
    for i in 0..chars.len()
        invariant
            chars@ == project_name@,
            project_name@.len() > 0,
            name@ == sanitized(project_name@).take(i as int),
    {
        let ch = chars[i];
        if ('a' <= ch && ch <= 'z') || ('A' <= ch && ch <= 'Z') || ('0' <= ch && ch <= '9') || ch
            == '-' || ch == '_' {
            name.push(ch);
        } else {
            name.push('_');
        }
        assert(name@ == sanitized(project_name@).take(i + 1));
    }
    assert(sanitized(project_name@).take(project_name@.len() as int) == sanitized(project_name@));
    name
}

/// A project name holds safe characters only, and sanitizing it again changes nothing.
pub proof fn law_sanitized_names_are_safe(name: Seq<char>)
    ensures
        sanitized(name).len() > 0,
        forall|i: int| 0 <= i < sanitized(name).len() ==> safe_char(#[trigger] sanitized(name)[i]),
        sanitized(sanitized(name)) == sanitized(name),
{
    reveal_strlit("default");
    let safe = sanitized(name);
    assert forall|i: int| 0 <= i < safe.len() implies safe_char(#[trigger] safe[i]) by {
        if name.len() == 0 {
            assert(safe[0] == 'd' && safe[1] == 'e' && safe[2] == 'f' && safe[3] == 'a' && safe[4]
                == 'u' && safe[5] == 'l' && safe[6] == 't');
        }
    }
    assert(sanitized(safe) == safe);
}

/// A project name keeps ASCII letters, digits, `-` and `_` where they stand, and has `_` in place of
/// every other character. An empty name becomes `default`.
pub proof fn law_sanitized_names_keep_letters_and_digits(name: Seq<char>, k: int)
    requires
        0 <= k < name.len(),
    ensures
        sanitized(Seq::empty()) == seq!['d', 'e', 'f', 'a', 'u', 'l', 't'],
        sanitized(name).len() == name.len(),
        ({
            let code = name[k] as int;
            let kept = 48 <= code <= 57 || 65 <= code <= 90 || 97 <= code <= 122 || code == 45
                || code == 95;
            sanitized(name)[k] == if kept {
                name[k]
            } else {
                '_'
            }
        }),
{
    reveal_strlit("default");
    assert("default"@ == seq!['d', 'e', 'f', 'a', 'u', 'l', 't']);
}

/// A project of which nothing is known has no name, no folders and no files.
pub proof fn law_empty_project_knows_nothing(path: Seq<char>)
    ensures
        empty_state().project_name is None,
        empty_state().left_dir is None,
        empty_state().right_dir is None,
        empty_state().production_root is None,
        empty_state().fresh_root is None,
        !empty_state().production.contains_key(path),
        !empty_state().fresh.contains_key(path),
{
}

} // verus!
