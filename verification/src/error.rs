//! What can go wrong, and how it is reported.

use vstd::prelude::*;
use vstd::string::StringExecFns;

verus! {

/// The reasons for which the library refuses a request.
#[derive(Debug)]
pub enum UpxtoError {
    /// A command-line argument that is not known.
    UnknownArgument(String),
    /// An option that stands last but needs a value.
    MissingValue(String),
    /// Production is needed but not indexed.
    ProductionNotIndexed,
    /// The fresh folder is needed but not indexed.
    FreshNotIndexed,
    /// There is no production folder to back up.
    NothingToBackUp,
    /// There is no production folder to back up from the panels.
    NothingToBackUpHere,
    /// A file does not lie below the folder that is indexed.
    OutsideRoot,
    /// A file size does not fit in its stored form.
    SizeOutOfRange,
    /// A selected row has no file in the fresh folder.
    NoFreshFile,
    /// The fresh folder is not known.
    FreshRootMissing,
    /// The production folder is not known.
    ProductionRootMissing,
    /// A folder is needed but the path leads to something else.
    NotADirectory(String),
}

/// What an error says.
pub enum ErrorView {
    UnknownArgument(Seq<char>),
    MissingValue(Seq<char>),
    ProductionNotIndexed,
    FreshNotIndexed,
    NothingToBackUp,
    NothingToBackUpHere,
    OutsideRoot,
    SizeOutOfRange,
    NoFreshFile,
    FreshRootMissing,
    ProductionRootMissing,
    NotADirectory(Seq<char>),
}

impl View for UpxtoError {
    type V = ErrorView;

    open spec fn view(&self) -> ErrorView {
        match self {
            UpxtoError::UnknownArgument(argument) => ErrorView::UnknownArgument(argument@),
            UpxtoError::MissingValue(option) => ErrorView::MissingValue(option@),
            UpxtoError::ProductionNotIndexed => ErrorView::ProductionNotIndexed,
            UpxtoError::FreshNotIndexed => ErrorView::FreshNotIndexed,
            UpxtoError::NothingToBackUp => ErrorView::NothingToBackUp,
            UpxtoError::NothingToBackUpHere => ErrorView::NothingToBackUpHere,
            UpxtoError::OutsideRoot => ErrorView::OutsideRoot,
            UpxtoError::SizeOutOfRange => ErrorView::SizeOutOfRange,
            UpxtoError::NoFreshFile => ErrorView::NoFreshFile,
            UpxtoError::FreshRootMissing => ErrorView::FreshRootMissing,
            UpxtoError::ProductionRootMissing => ErrorView::ProductionRootMissing,
            UpxtoError::NotADirectory(path) => ErrorView::NotADirectory(path@),
        }
    }
}

/// The text that reports an error.
pub open spec fn error_text(error: ErrorView) -> Seq<char> {
    match error {
        ErrorView::UnknownArgument(argument) => "unknown argument: "@ + argument,
        ErrorView::MissingValue(option) => option + " requires a folder or file path"@,
        ErrorView::ProductionNotIndexed => {
            "production is not indexed yet; run --index-production <folder>"@
        },
        ErrorView::FreshNotIndexed => {
            "fresh folder is not indexed yet; run --index-fresh <folder>"@
        },
        ErrorView::NothingToBackUp => {
            "production root is not indexed yet; run --index-production <folder> first"@
        },
        ErrorView::NothingToBackUpHere => "production root is not indexed yet"@,
        ErrorView::OutsideRoot => "prefix not found"@,
        ErrorView::SizeOutOfRange => "out of range integral type conversion attempted"@,
        ErrorView::NoFreshFile => "selected row does not exist in fresh folder"@,
        ErrorView::FreshRootMissing => "fresh root is missing"@,
        ErrorView::ProductionRootMissing => "production root is missing"@,
        ErrorView::NotADirectory(path) => "not a directory: "@ + path,
    }
}

impl UpxtoError {
    /// Reports the error.
    pub fn message(&self) -> (text: String)
        ensures
            text@ == error_text(self@),
    {
        match self {
            UpxtoError::UnknownArgument(argument) => "unknown argument: ".to_owned().concat(
                argument.as_str(),
            ),
            UpxtoError::MissingValue(option) => option.as_str().to_owned().concat(
                " requires a folder or file path",
            ),
            UpxtoError::ProductionNotIndexed => {
                "production is not indexed yet; run --index-production <folder>".to_owned()
            },
            UpxtoError::FreshNotIndexed => {
                "fresh folder is not indexed yet; run --index-fresh <folder>".to_owned()
            },
            UpxtoError::NothingToBackUp => {
                "production root is not indexed yet; run --index-production <folder> first".to_owned()
            },
            UpxtoError::NothingToBackUpHere => "production root is not indexed yet".to_owned(),
            UpxtoError::OutsideRoot => "prefix not found".to_owned(),
            UpxtoError::SizeOutOfRange => {
                "out of range integral type conversion attempted".to_owned()
            },
            UpxtoError::NoFreshFile => "selected row does not exist in fresh folder".to_owned(),
            UpxtoError::FreshRootMissing => "fresh root is missing".to_owned(),
            UpxtoError::ProductionRootMissing => "production root is missing".to_owned(),
            UpxtoError::NotADirectory(path) => "not a directory: ".to_owned().concat(
                path.as_str(),
            ),
        }
    }
}

/// Whether a text holds another from a place on.
pub open spec fn stands_at(text: Seq<char>, part: Seq<char>, start: int) -> bool {
    &&& 0 <= start <= text.len() - part.len()
    &&& text.subrange(start, start + part.len()) == part
}

/// A report names the argument, the option or the path that it is about.
pub proof fn law_reports_name_their_subject(name: Seq<char>)
    ensures
        exists|start: int|
            stands_at(error_text(ErrorView::UnknownArgument(name)), name, start),
        exists|start: int| stands_at(error_text(ErrorView::MissingValue(name)), name, start),
        exists|start: int| stands_at(error_text(ErrorView::NotADirectory(name)), name, start),
{
    let unknown = "unknown argument: "@;
    let missing = " requires a folder or file path"@;
    let folder = "not a directory: "@;
    let first = unknown.len() as int;
    let third = folder.len() as int;
    assert((unknown + name).subrange(first, first + name.len()) == name);
    assert((name + missing).subrange(0, 0int + name.len()) == name);
    assert((folder + name).subrange(third, third + name.len()) == name);
    assert(stands_at(error_text(ErrorView::UnknownArgument(name)), name, first));
    assert(stands_at(error_text(ErrorView::MissingValue(name)), name, 0));
    assert(stands_at(error_text(ErrorView::NotADirectory(name)), name, third));
}

} // verus!
