//! The work on a project: indexing its folders, backing up, copying and deploying, and what is
//! reported of it.

use crate::compare::{
    change_of, changes_of, compare_indexes, is_change_list, lemma_the_changes, ChangeKind,
};
use crate::deploy::{
    after_step, after_steps, apply_changes, change_report, copy_changes_quiet, copy_step, count_of,
    law_deploy_brings_production_up_to_date, law_update_brings_production_up_to_date, quiet_copies,
    report_lines, update_plan, UpdateStep,
};
use crate::error::{ErrorView, UpxtoError};
use crate::index::{FileEntry, FileIndex};
use crate::panel::{row_of, FileStatus, TuiRow, TuiRowView};
use crate::path::{
    components, counts, is_plain, join_paths, law_components_of_join, law_relative_path_of_join,
    lemma_single_component, path_join,
};
use crate::state::{ensure_indexes, State, StateView};
use crate::text::{
    all_white, contains_char, decimal, decimal_text, join_texts, joined,
    law_decimal_notation_reads_back, law_trimming_takes_off_the_surrounding_white_space, opt_view,
    trim, trimmed, views, white_space,
};
use vstd::prelude::*;
use vstd::string::StringExecFns;

verus! {

/// The project with a new index of its fresh folder.
pub open spec fn with_fresh(
    state: StateView,
    root: Seq<char>,
    files: Map<Seq<char>, FileEntry>,
) -> StateView {
    StateView { fresh_root: Some(root), fresh: files, ..state }
}

/// The project with a new index of its production folder.
pub open spec fn with_production(
    state: StateView,
    root: Seq<char>,
    files: Map<Seq<char>, FileEntry>,
) -> StateView {
    StateView { production_root: Some(root), production: files, ..state }
}

/// A report on an indexed folder.
pub open spec fn indexed_text(start: Seq<char>, count: nat, root: Seq<char>) -> Seq<char> {
    start + decimal(count) + " files from "@ + root
}

/// Reports on an indexed folder.
fn index_report(start: &str, count: usize, root: &str) -> (text: String)
    ensures
        text@ == indexed_text(start@, count as nat, root@),
{
    start.to_owned().concat(decimal_text(count as u64).as_str()).concat(" files from ").concat(
        root,
    )
}

/// Takes the files of a folder as the production index.
pub fn index_production(state: &mut State, root: String, files: FileIndex) -> (report: String)
    requires
        old(state).wf(),
        files.wf(),
    ensures
        final(state).wf(),
        final(state)@ == with_production(old(state)@, root@, files@),
        report@ == indexed_text("Indexed production: "@, files@.len(), root@),
{
    let report = index_report("Indexed production: ", files.len(), root.as_str());
    state.production_root = Some(root);
    state.production = files;
    report
}

/// Takes the files of a folder as the fresh index.
pub fn index_fresh(state: &mut State, root: String, files: FileIndex) -> (report: String)
    requires
        old(state).wf(),
        files.wf(),
    ensures
        final(state).wf(),
        final(state)@ == with_fresh(old(state)@, root@, files@),
        report@ == indexed_text("Indexed fresh: "@, files@.len(), root@),
{
    let report = index_report("Indexed fresh: ", files.len(), root.as_str());
    state.fresh_root = Some(root);
    state.fresh = files;
    report
}

/// Takes the folder of the left panel as the fresh folder.
pub fn index_left_as_fresh(state: &mut State, root: String, files: FileIndex) -> (report: String)
    requires
        old(state).wf(),
        files.wf(),
    ensures
        final(state).wf(),
        final(state)@ == (StateView {
            left_dir: Some(root@),
            ..with_fresh(old(state)@, root@, files@)
        }),
        report@ == indexed_text("Ctrl+A indexed fresh: "@, files@.len(), root@),
{
    let report = index_report("Ctrl+A indexed fresh: ", files.len(), root.as_str());
    state.left_dir = Some(root.clone());
    state.fresh_root = Some(root);
    state.fresh = files;
    report
}

/// Takes the folder of the right panel as the production folder.
pub fn index_right_as_production(state: &mut State, root: String, files: FileIndex) -> (report:
    String)
    requires
        old(state).wf(),
        files.wf(),
    ensures
        final(state).wf(),
        final(state)@ == (StateView {
            right_dir: Some(root@),
            ..with_production(old(state)@, root@, files@)
        }),
        report@ == indexed_text("Ctrl+S indexed production: "@, files@.len(), root@),
{
    let report = index_report("Ctrl+S indexed production: ", files.len(), root.as_str());
    state.right_dir = Some(root.clone());
    state.production_root = Some(root);
    state.production = files;
    report
}

/// The parts of a report on both indexes.
pub open spec fn index_parts(state: StateView) -> Seq<Seq<char>> {
    let fresh = if state.fresh_root is Some {
        seq!["fresh "@ + decimal(state.fresh.len()) + " files"@]
    } else {
        Seq::empty()
    };
    let production = if state.production_root is Some {
        seq!["production "@ + decimal(state.production.len()) + " files"@]
    } else {
        Seq::empty()
    };
    fresh + production
}

/// A report on both indexes.
pub open spec fn reindex_summary(state: StateView) -> Seq<char> {
    if index_parts(state).len() == 0 {
        "no indexed roots yet"@
    } else {
        "reindexed "@ + joined(index_parts(state), ", "@)
    }
}

/// What indexing a folder again brought: its files, or why it failed.
#[derive(Debug)]
pub enum Scan {
    Files(FileIndex),
    Failed(String),
}

impl Scan {
    /// The files are in order.
    pub open spec fn wf(&self) -> bool {
        match self {
            Scan::Files(files) => files.wf(),
            Scan::Failed(_) => true,
        }
    }
}

/// The project after its fresh folder was indexed again, if it has one.
pub open spec fn fresh_again(state: StateView, scan: Option<Scan>) -> StateView {
    match scan {
        Some(Scan::Files(files)) => if state.fresh_root is Some {
            StateView { fresh: files@, ..state }
        } else {
            state
        },
        _ => state,
    }
}

/// The project after its production folder was indexed again, if it has one.
pub open spec fn production_again(state: StateView, scan: Option<Scan>) -> StateView {
    match scan {
        Some(Scan::Files(files)) => if state.production_root is Some {
            StateView { production: files@, ..state }
        } else {
            state
        },
        _ => state,
    }
}

/// Why indexing a folder again failed.
pub open spec fn scan_error(root: Option<Seq<char>>, scan: Option<Scan>) -> Option<Seq<char>> {
    match (root, scan) {
        (Some(_), Some(Scan::Failed(error))) => Some(error@),
        _ => None,
    }
}

/// Takes over what indexing the known folders again brought, the fresh folder first. A failure there
/// leaves production as it was, and production need not be indexed again then.
pub fn reindex_existing_roots(
    state: &mut State,
    fresh: Option<Scan>,
    production: Option<Scan>,
) -> (summary: Result<String, String>)
    requires
        old(state).wf(),
        fresh is Some ==> fresh->0.wf(),
        production is Some ==> production->0.wf(),
        old(state)@.fresh_root is Some ==> fresh is Some,
        old(state)@.production_root is Some && scan_error(old(state)@.fresh_root, fresh) is None
            ==> production is Some,
    ensures
        final(state).wf(),
        match scan_error(old(state)@.fresh_root, fresh) {
            Some(error) => final(state)@ == old(state)@ && summary is Err && summary->Err_0@
                == error,
            None => {
                let half = fresh_again(old(state)@, fresh);
                match scan_error(half.production_root, production) {
                    Some(error) => final(state)@ == half && summary is Err && summary->Err_0@
                        == error,
                    None => final(state)@ == production_again(half, production) && summary is Ok
                        && summary->Ok_0@ == reindex_summary(final(state)@),
                }
            },
        },
{
    let mut parts: Vec<String> = Vec::new();
    if state.fresh_root.is_some() {
        match fresh {
            Some(Scan::Files(files)) => {
                parts.push(
                    "fresh ".to_owned().concat(decimal_text(files.len() as u64).as_str()).concat(
                        " files",
                    ),
                );
                state.fresh = files;
            },
            Some(Scan::Failed(error)) => {
                return Err(error);
            },
            None => {},
        }
    }
    if state.production_root.is_some() {
        match production {
            Some(Scan::Files(files)) => {
                parts.push(
                    "production ".to_owned().concat(
                        decimal_text(files.len() as u64).as_str(),
                    ).concat(" files"),
                );
                state.production = files;
            },
            Some(Scan::Failed(error)) => {
                return Err(error);
            },
            None => {},
        }
    }
    assert(views(parts@) == index_parts(state@));
    if parts.len() == 0 {
        Ok("no indexed roots yet".to_owned())
    } else {
        Ok("reindexed ".to_owned().concat(join_texts(parts.as_slice(), ", ").as_str()))
    }
}

/// The mistake of asking for a comparison before both folders are indexed.
pub open spec fn missing_index(state: StateView) -> Option<ErrorView> {
    if state.production_root is None {
        Some(ErrorView::ProductionNotIndexed)
    } else if state.fresh_root is None {
        Some(ErrorView::FreshNotIndexed)
    } else {
        None
    }
}

/// Reports how the fresh folder differs from production.
pub fn show_changes(state: &State, include_deleted: bool) -> (lines: Result<
    Vec<String>,
    UpxtoError,
>)
    requires
        state.wf(),
    ensures
        match lines {
            Ok(report) => missing_index(state@) is None && views(report@) == report_lines(
                changes_of(state@.fresh, state@.production, include_deleted),
            ),
            Err(error) => missing_index(state@) == Some(error@),
        },
{
    ensure_indexes(state)?;
    let changes = compare_indexes(state, include_deleted);
    Ok(change_report(changes.as_slice()))
}

/// Plans the update of production from the fresh folder.
pub fn update_production(state: &State, delete_missing: bool, dry_run: bool) -> (steps: Result<
    Vec<UpdateStep>,
    UpxtoError,
>)
    requires
        state.wf(),
    ensures
        match steps {
            Ok(plan) => missing_index(state@) is None && views(plan@) == update_plan(
                changes_of(state@.fresh, state@.production, delete_missing),
                state@.production_root->0,
                state@.fresh_root->0,
                delete_missing,
                dry_run,
            ),
            Err(error) => missing_index(state@) == Some(error@),
        },
{
    ensure_indexes(state)?;
    match (&state.production_root, &state.fresh_root) {
        (Some(production_root), Some(fresh_root)) => {
            let changes = compare_indexes(state, delete_missing);
            Ok(
                apply_changes(
                    changes.as_slice(),
                    production_root.as_str(),
                    fresh_root.as_str(),
                    delete_missing,
                    dry_run,
                ),
            )
        },
        (None, _) => Err(UpxtoError::ProductionNotIndexed),
        (_, None) => Err(UpxtoError::FreshNotIndexed),
    }
}

/// What is reported once production was indexed again after an update.
pub const REFRESHED: &'static str = "Production index refreshed after update.";

/// Takes over the index of production after an update.
pub fn refresh_production(state: &mut State, files: FileIndex) -> (report: String)
    requires
        old(state).wf(),
        files.wf(),
    ensures
        final(state).wf(),
        final(state)@ == (StateView { production: files@, ..old(state)@ }),
        report@ == REFRESHED@,
{
    state.production = files;
    REFRESHED.to_owned()
}

/// The folder for backups unless another is named.
pub const BACKUP_DIR: &'static str = ".upxto/backups";

/// Names the folder for backups.
pub fn default_backup_dir() -> (folder: String)
    ensures
        folder@ == BACKUP_DIR@,
{
    BACKUP_DIR.to_owned()
}

/// Writes a time, given in seconds, as it stands in the name of a backup.
pub fn timestamp(seconds: u64) -> (text: String)
    ensures
        text@ == decimal(seconds as nat),
{
    decimal_text(seconds)
}

/// The folder that a backup goes to.
pub open spec fn backup_target(backup_dir: Option<Seq<char>>, seconds: nat) -> Seq<char> {
    path_join(
        match backup_dir {
            Some(folder) => folder,
            None => BACKUP_DIR@,
        },
        "production-"@ + decimal(seconds),
    )
}

/// Which folder to copy where.
#[derive(Debug)]
pub struct BackupPlan {
    pub source: String,
    pub target: String,
}

/// Names the folder that a backup goes to.
fn backup_path(backup_dir: &Option<String>, seconds: u64) -> (path: String)
    ensures
        path@ == backup_target(opt_view(*backup_dir), seconds as nat),
{
    let root = match backup_dir {
        Some(folder) => folder.clone(),
        None => default_backup_dir(),
    };
    let name = "production-".to_owned().concat(timestamp(seconds).as_str());
    join_paths(root.as_str(), name.as_str())
}

/// Plans a backup of production on the command line.
pub fn backup_production(state: &State, backup_dir: &Option<String>, seconds: u64) -> (plan: Result<
    BackupPlan,
    UpxtoError,
>)
    ensures
        match plan {
            Ok(found) => state@.production_root == Some(found.source@) && found.target@
                == backup_target(opt_view(*backup_dir), seconds as nat),
            Err(error) => state@.production_root is None && error@ == ErrorView::NothingToBackUp,
        },
{
    match &state.production_root {
        Some(root) => Ok(
            BackupPlan { source: root.clone(), target: backup_path(backup_dir, seconds) },
        ),
        None => Err(UpxtoError::NothingToBackUp),
    }
}

/// Reports a backup made on the command line.
pub fn backed_up_report(target: &str) -> (text: String)
    ensures
        text@ == "Backed up production to "@ + target@,
{
    "Backed up production to ".to_owned().concat(target)
}

/// Plans a backup of production from the panels.
pub fn backup_production_from_tui(state: &State, backup_dir: &Option<String>, seconds: u64) -> (plan:
    Result<BackupPlan, UpxtoError>)
    ensures
        match plan {
            Ok(found) => state@.production_root == Some(found.source@) && found.target@
                == backup_target(opt_view(*backup_dir), seconds as nat),
            Err(error) => state@.production_root is None && error@
                == ErrorView::NothingToBackUpHere,
        },
{
    match &state.production_root {
        Some(root) => Ok(
            BackupPlan { source: root.clone(), target: backup_path(backup_dir, seconds) },
        ),
        None => Err(UpxtoError::NothingToBackUpHere),
    }
}

/// A report on a backup from the panels and on the indexing after it.
pub open spec fn backup_text(target: Seq<char>, reindexed: Result<Seq<char>, Seq<char>>) -> Seq<
    char,
> {
    "F8 backup created: "@ + target + match reindexed {
        Ok(summary) => "; "@ + summary,
        Err(error) => "; reindex failed: "@ + error,
    }
}

/// Reports on a backup from the panels and on the indexing after it.
pub fn backup_report(target: &str, reindexed: &Result<String, String>) -> (text: String)
    ensures
        text@ == backup_text(
            target@,
            match *reindexed {
                Ok(summary) => Ok(summary@),
                Err(error) => Err(error@),
            },
        ),
{
    let start = "F8 backup created: ".to_owned().concat(target);
    let text = match reindexed {
        Ok(summary) => start.concat("; ").concat(summary.as_str()),
        Err(error) => start.concat("; reindex failed: ").concat(error.as_str()),
    };
    assert(text@ == backup_text(
        target@,
        match *reindexed {
            Ok(summary) => Ok(summary@),
            Err(error) => Err(error@),
        },
    ));
    text
}

/// What to copy when all new and updated files are deployed.
#[derive(Debug)]
pub struct DeployPlan {
    pub count: usize,
    pub steps: Vec<UpdateStep>,
}

/// Without deletions, all changes are new or updated files.
proof fn lemma_all_are_copied(
    fresh: Map<Seq<char>, FileEntry>,
    production: Map<Seq<char>, FileEntry>,
    changes: Seq<(Seq<char>, ChangeKind)>,
    count: nat,
)
    requires
        is_change_list(fresh, production, false, changes),
        count <= changes.len(),
    ensures
        count_of(changes.take(count as int), ChangeKind::New) + count_of(
            changes.take(count as int),
            ChangeKind::Updated,
        ) == count,
    decreases count,
{
    if count > 0 {
        lemma_all_are_copied(fresh, production, changes, (count - 1) as nat);
        assert(changes.take(count as int).drop_last() == changes.take(count - 1));
        assert(changes.take(count as int).last() == changes[count - 1]);
    }
}

/// Plans the deployment of all new and updated files.
pub fn deploy_updates_from_tui(state: &State) -> (plan: Result<DeployPlan, UpxtoError>)
    requires
        state.wf(),
    ensures
        match plan {
            Ok(found) => {
                let changes = changes_of(state@.fresh, state@.production, false);
                &&& missing_index(state@) is None
                &&& found.count == count_of(changes, ChangeKind::New) + count_of(
                    changes,
                    ChangeKind::Updated,
                )
                &&& views(found.steps@) == quiet_copies(
                    changes,
                    state@.production_root->0,
                    state@.fresh_root->0,
                )
            },
            Err(error) => missing_index(state@) == Some(error@),
        },
{
    ensure_indexes(state)?;
    match (&state.production_root, &state.fresh_root) {
        (Some(production_root), Some(fresh_root)) => {
            let changes = compare_indexes(state, false);
            let count: usize = changes.len();
            proof {
                let all = views(changes@);
                lemma_all_are_copied(state@.fresh, state@.production, all, count as nat);
                assert(all.take(count as int) == all);
            }
            let steps = copy_changes_quiet(
                changes.as_slice(),
                production_root.as_str(),
                fresh_root.as_str(),
            );
            Ok(DeployPlan { count, steps })
        },
        (None, _) => Err(UpxtoError::ProductionNotIndexed),
        (_, None) => Err(UpxtoError::FreshNotIndexed),
    }
}

/// After a deployment, when both folders are indexed again, nothing is left to deploy: as many files
/// as differed were copied, the fresh index is as before, and so is every file that only production
/// has.
pub proof fn law_deployment_leaves_nothing_to_deploy(
    state: StateView,
    changes: Seq<(Seq<char>, ChangeKind)>,
)
    requires
        is_change_list(state.fresh, state.production, false, changes),
        forall|path: Seq<char>| #[trigger] state.fresh.contains_key(path) ==> is_plain(path),
        state.production_root is Some,
        state.fresh_root is Some,
    ensures
        ({
            let steps = quiet_copies(
                changes,
                state.production_root->0,
                state.fresh_root->0,
            );
            let after = after_steps(
                steps,
                state.production_root->0,
                state.fresh_root->0,
                state.fresh,
                state.production,
            );
            &&& changes == changes_of(state.fresh, state.production, false)
            &&& count_of(changes, ChangeKind::New) + count_of(changes, ChangeKind::Updated)
                == changes.len()
            &&& steps.len() == changes.len()
            &&& changes_of(state.fresh, after, false) == Seq::<(Seq<char>, ChangeKind)>::empty()
            &&& forall|path: Seq<char>|
                #[trigger] state.production.contains_key(path) && !state.fresh.contains_key(path)
                    ==> after.contains_key(path) && after[path] == state.production[path]
        }),
{
    let production_root = state.production_root->0;
    let fresh_root = state.fresh_root->0;
    assert forall|i: int| 0 <= i < changes.len() implies is_plain((#[trigger] changes[i]).0) by {
        assert(change_of(state.fresh, state.production, false, changes[i].0) == Some(
            changes[i].1,
        ));
    }
    law_deploy_brings_production_up_to_date(
        state.fresh,
        state.production,
        changes,
        production_root,
        fresh_root,
    );
    let after = after_steps(
        quiet_copies(changes, production_root, fresh_root),
        production_root,
        fresh_root,
        state.fresh,
        state.production,
    );
    lemma_the_changes(state.fresh, state.production, false, changes);
    lemma_the_changes(state.fresh, after, false, Seq::empty());
    lemma_all_are_copied(state.fresh, state.production, changes, changes.len());
    assert(changes.take(changes.len() as int) == changes);
    lemma_one_copy_each(changes, production_root, fresh_root);
}

/// Changes without deletions have one copy each.
proof fn lemma_one_copy_each(
    changes: Seq<(Seq<char>, ChangeKind)>,
    production_root: Seq<char>,
    fresh_root: Seq<char>,
)
    ensures
        quiet_copies(changes, production_root, fresh_root).len() == changes.len() - count_of(
            changes,
            ChangeKind::Deleted,
        ),
        count_of(changes, ChangeKind::New) + count_of(changes, ChangeKind::Updated) + count_of(
            changes,
            ChangeKind::Deleted,
        ) == changes.len(),
    decreases changes.len(),
{
    if changes.len() > 0 {
        lemma_one_copy_each(changes.drop_last(), production_root, fresh_root);
    }
}

/// The name of a function key.
pub open spec fn function_key(number: u8) -> Seq<char> {
    "F"@ + decimal(number as nat)
}

/// A report on a deployment that the function key `key` started.
pub open spec fn deployed_text(key: u8, count: nat, summary: Seq<char>) -> Seq<char> {
    function_key(key) + " deployed "@ + decimal(count) + " new/updated files; "@ + summary
}

/// Reports on a deployment.
pub fn deployed_report(key: u8, count: usize, summary: &str) -> (text: String)
    ensures
        text@ == deployed_text(key, count as nat, summary@),
{
    "F".to_owned().concat(decimal_text(key as u64).as_str()).concat(" deployed ").concat(
        decimal_text(count as u64).as_str(),
    ).concat(" new/updated files; ").concat(summary)
}

/// What to do about the selected file when it is to be copied.
#[derive(Debug)]
pub enum CopyPlan {
    /// Only say something.
    Say(String),
    /// Copy a file that production does not have.
    Copy { path: String, source: String, target: String },
}

/// A copy plan with its texts.
pub enum CopyPlanView {
    Say(Seq<char>),
    Copy { path: Seq<char>, source: Seq<char>, target: Seq<char> },
}

impl View for CopyPlan {
    type V = CopyPlanView;

    open spec fn view(&self) -> CopyPlanView {
        match self {
            CopyPlan::Say(text) => CopyPlanView::Say(text@),
            CopyPlan::Copy { path, source, target } => CopyPlanView::Copy {
                path: path@,
                source: source@,
                target: target@,
            },
        }
    }
}

/// What happens to the selected file: only new files are copied.
pub open spec fn copy_plan(state: StateView, row: Option<TuiRowView>) -> Result<
    CopyPlanView,
    ErrorView,
> {
    match row {
        None => Ok(CopyPlanView::Say("F5: no file selected"@)),
        Some(found) => if found.status != FileStatus::New {
            Ok(
                CopyPlanView::Say(
                    "F5: only NEW files are copied; updated files are inspect-only for now"@,
                ),
            )
        } else if found.fresh_path is None {
            Err(ErrorView::NoFreshFile)
        } else if state.fresh_root is None {
            Err(ErrorView::FreshRootMissing)
        } else if state.production_root is None {
            Err(ErrorView::ProductionRootMissing)
        } else {
            let path = found.fresh_path->0;
            Ok(
                CopyPlanView::Copy {
                    path,
                    source: path_join(state.fresh_root->0, path),
                    target: path_join(state.production_root->0, path),
                },
            )
        },
    }
}

/// Decides what to do about the selected file when it is to be copied.
pub fn copy_selected_new_file(state: &State, row: Option<&TuiRow>) -> (plan: Result<
    CopyPlan,
    UpxtoError,
>)
    ensures
        (match plan {
            Ok(found) => Ok(found@),
            Err(error) => Err(error@),
        }) == copy_plan(
            state@,
            match row {
                Some(found) => Some(found@),
                None => None,
            },
        ),
{
    let selected = match row {
        Some(found) => found,
        None => {
            return Ok(CopyPlan::Say("F5: no file selected".to_owned()));
        },
    };
    if selected.status != FileStatus::New {
        return Ok(
            CopyPlan::Say(
                "F5: only NEW files are copied; updated files are inspect-only for now".to_owned(),
            ),
        );
    }
    let path = match &selected.fresh_path {
        Some(found) => found,
        None => {
            return Err(UpxtoError::NoFreshFile);
        },
    };
    let fresh_root = match &state.fresh_root {
        Some(found) => found,
        None => {
            return Err(UpxtoError::FreshRootMissing);
        },
    };
    let production_root = match &state.production_root {
        Some(found) => found,
        None => {
            return Err(UpxtoError::ProductionRootMissing);
        },
    };
    Ok(
        CopyPlan::Copy {
            path: path.clone(),
            source: join_paths(fresh_root.as_str(), path.as_str()),
            target: join_paths(production_root.as_str(), path.as_str()),
        },
    )
}

/// A new file is copied to where production has it under the same relative path, and is the same on
/// both sides afterwards. Nothing else changes.
pub proof fn law_copied_file_is_the_same_afterwards(state: StateView, path: Seq<char>)
    requires
        state.fresh.contains_key(path),
        !state.production.contains_key(path),
        state.fresh_root is Some,
        state.production_root is Some,
        is_plain(path),
    ensures
        ({
            let copy = copy_step(path, state.production_root->0, state.fresh_root->0);
            let after = after_step(
                copy,
                state.production_root->0,
                state.fresh_root->0,
                state.fresh,
                state.production,
            );
            let copied = StateView { production: after, ..state };
            &&& copy_plan(state, row_of(state, path)) == Ok::<CopyPlanView, ErrorView>(
                CopyPlanView::Copy { path, source: copy->source, target: copy->Copy_target },
            )
            &&& row_of(copied, path) is Some && row_of(copied, path)->0.status == FileStatus::Same
            &&& after.remove(path) == state.production
        }),
{
    law_relative_path_of_join(state.production_root->0, path);
    law_relative_path_of_join(state.fresh_root->0, path);
    let after = state.production.insert(path, state.fresh[path]);
    assert(after.remove(path) == state.production);
}

/// Reports on a copied file.
pub fn copied_report(path: &str, summary: &str) -> (text: String)
    ensures
        text@ == "F5 copied new file: "@ + path@ + "; "@ + summary@,
{
    "F5 copied new file: ".to_owned().concat(path).concat("; ").concat(summary)
}

/// What to do about a folder name that was typed.
#[derive(Debug)]
pub enum FolderPlan {
    /// Only say something.
    Say(String),
    /// Create a folder.
    Create(String),
}

/// A folder plan with its texts.
pub enum FolderPlanView {
    Say(Seq<char>),
    Create(Seq<char>),
}

impl View for FolderPlan {
    type V = FolderPlanView;

    open spec fn view(&self) -> FolderPlanView {
        match self {
            FolderPlan::Say(text) => FolderPlanView::Say(text@),
            FolderPlan::Create(path) => FolderPlanView::Create(path@),
        }
    }
}

/// What happens with a folder name: a blank one cancels, and a path is refused.
pub open spec fn folder_plan(current_dir: Seq<char>, typed: Option<Seq<char>>) -> FolderPlanView {
    match typed {
        None => FolderPlanView::Say("F9 mkdir cancelled"@),
        Some(text) => {
            let name = trimmed(text);
            if name.len() == 0 {
                FolderPlanView::Say("F9 mkdir cancelled"@)
            } else if name.contains('/') || name.contains('\\') {
                FolderPlanView::Say("F9 mkdir: use a single folder name, not a path"@)
            } else {
                FolderPlanView::Create(path_join(current_dir, name))
            }
        },
    }
}

/// Decides what to do about a folder name that was typed.
pub fn mkdir_in_active_panel(current_dir: &str, typed: Option<String>) -> (plan: FolderPlan)
    ensures
        plan@ == folder_plan(current_dir@, opt_view(typed)),
{
    let name = match typed {
        Some(text) => trim(text.as_str()),
        None => {
            return FolderPlan::Say("F9 mkdir cancelled".to_owned());
        },
    };
    if name.as_str().is_empty() {
        return FolderPlan::Say("F9 mkdir cancelled".to_owned());
    }
    if contains_char(name.as_str(), '/') || contains_char(name.as_str(), '\\') {
        return FolderPlan::Say("F9 mkdir: use a single folder name, not a path".to_owned());
    }
    FolderPlan::Create(join_paths(current_dir, name.as_str()))
}

/// A folder is created directly in the folder that the panel shows, unless the name is that of the
/// folder itself.
pub proof fn law_created_folder_lies_in_the_panel(current_dir: Seq<char>, typed: Seq<char>)
    requires
        folder_plan(current_dir, Some(typed)) is Create,
        trimmed(typed) != seq!['.'],
    ensures
        components(folder_plan(current_dir, Some(typed))->Create_0) == components(
            current_dir,
        ).push(trimmed(typed)),
{
    let name = trimmed(typed);
    lemma_single_component(name);
    law_components_of_join(current_dir, name);
    assert(components(current_dir) + seq![name] == components(current_dir).push(name));
}

/// Reports on a folder that was created.
pub fn folder_report(path: &str, summary: &str) -> (text: String)
    ensures
        text@ == "F9 created "@ + path@ + "; "@ + summary@,
{
    "F9 created ".to_owned().concat(path).concat("; ").concat(summary)
}

/// The work that a key can start and that can fail.
#[derive(Debug, Clone, Copy, PartialEq, Eq, Structural)]
pub enum Task {
    IndexFresh,
    IndexProduction,
    CopyFile,
    BackUp,
    MakeFolder,
    /// Deployment, started by the function key with this number.
    Deploy(u8),
}

/// A report on work that failed.
pub open spec fn failure_text(task: Task, error: Seq<char>) -> Seq<char> {
    match task {
        Task::IndexFresh => "Ctrl+A failed: "@ + error,
        Task::IndexProduction => "Ctrl+S failed: "@ + error,
        Task::CopyFile => "F5 failed: "@ + error,
        Task::BackUp => "F8 backup failed: "@ + error,
        Task::MakeFolder => "F9 mkdir failed: "@ + error,
        Task::Deploy(key) => function_key(key) + " update failed: "@ + error,
    }
}

/// Reports on work that failed.
pub fn failure_report(task: Task, error: &str) -> (text: String)
    ensures
        text@ == failure_text(task, error@),
{
    match task {
        Task::IndexFresh => "Ctrl+A failed: ".to_owned().concat(error),
        Task::IndexProduction => "Ctrl+S failed: ".to_owned().concat(error),
        Task::CopyFile => "F5 failed: ".to_owned().concat(error),
        Task::BackUp => "F8 backup failed: ".to_owned().concat(error),
        Task::MakeFolder => "F9 mkdir failed: ".to_owned().concat(error),
        Task::Deploy(key) => "F".to_owned().concat(decimal_text(key as u64).as_str()).concat(
            " update failed: ",
        ).concat(error),
    }
}

/// Tells whether both panels are to be read anew once a task has succeeded.
pub fn refreshes_panels(task: Task) -> (refreshes: bool)
    ensures
        refreshes == (task is CopyFile || task is Deploy),
{
    match task {
        Task::CopyFile | Task::Deploy(_) => true,
        Task::IndexFresh | Task::IndexProduction | Task::BackUp | Task::MakeFolder => false,
    }
}

/// Says what is being done while a task runs.
pub fn progress_text(task: Task) -> (text: &'static str)
    ensures
        text@ == (match task {
            Task::IndexFresh => "Indexing fresh folder..."@,
            Task::IndexProduction => "Indexing production folder..."@,
            Task::CopyFile => "Copying file and reindexing..."@,
            Task::BackUp => "Backing up production..."@,
            Task::MakeFolder => "Creating folder and reindexing..."@,
            Task::Deploy(_) => "Deploying new and changed files..."@,
        }),
{
    match task {
        Task::IndexFresh => "Indexing fresh folder...",
        Task::IndexProduction => "Indexing production folder...",
        Task::CopyFile => "Copying file and reindexing...",
        Task::BackUp => "Backing up production...",
        Task::MakeFolder => "Creating folder and reindexing...",
        Task::Deploy(_) => "Deploying new and changed files...",
    }
}

/// Indexing one folder sets its root and its files and leaves everything else of the project as it
/// was, the other index above all.
pub proof fn law_indexing_one_side_leaves_the_other(
    state: StateView,
    root: Seq<char>,
    files: Map<Seq<char>, FileEntry>,
)
    ensures
        with_fresh(state, root, files).fresh_root == Some(root),
        with_fresh(state, root, files).fresh == files,
        with_fresh(state, root, files).production_root == state.production_root,
        with_fresh(state, root, files).production == state.production,
        with_fresh(state, root, files).project_name == state.project_name,
        with_fresh(state, root, files).left_dir == state.left_dir,
        with_fresh(state, root, files).right_dir == state.right_dir,
        with_production(state, root, files).production_root == Some(root),
        with_production(state, root, files).production == files,
        with_production(state, root, files).fresh_root == state.fresh_root,
        with_production(state, root, files).fresh == state.fresh,
        with_production(state, root, files).project_name == state.project_name,
        with_production(state, root, files).left_dir == state.left_dir,
        with_production(state, root, files).right_dir == state.right_dir,
{
}

/// Indexing again brings the files that were found into the index of a known folder and changes
/// nothing else. What could not be read, and a folder that is not known, leave the project alone.
pub proof fn law_indexing_again_brings_the_found_files(
    state: StateView,
    files: FileIndex,
    error: String,
)
    ensures
        ({
            let found = Some(Scan::Files(files));
            let failed = Some(Scan::Failed(error));
            &&& state.fresh_root is Some ==> fresh_again(state, found) == (StateView {
                fresh: files@,
                ..state
            })
            &&& state.fresh_root is None ==> fresh_again(state, found) == state
            &&& fresh_again(state, failed) == state
            &&& fresh_again(state, None) == state
            &&& state.production_root is Some ==> production_again(state, found) == (StateView {
                production: files@,
                ..state
            })
            &&& state.production_root is None ==> production_again(state, found) == state
            &&& production_again(state, failed) == state
            &&& production_again(state, None) == state
            &&& forall|root: Option<Seq<char>>| #[trigger] scan_error(root, found) is None
            &&& forall|root: Seq<char>| #[trigger] scan_error(Some(root), failed) == Some(error@)
            &&& scan_error(None, failed) is None
        }),
{
}

/// The report after indexing again counts the files of every known folder, the fresh one first.
pub proof fn law_reindex_summary_counts_known_folders(state: StateView)
    ensures
        ({
            let fresh = "fresh "@ + decimal(state.fresh.len()) + " files"@;
            let production = "production "@ + decimal(state.production.len()) + " files"@;
            let summary = reindex_summary(state);
            &&& state.fresh_root is Some && state.production_root is Some ==> summary
                == "reindexed "@ + (fresh + ", "@ + production)
            &&& state.fresh_root is Some && state.production_root is None ==> summary
                == "reindexed "@ + fresh
            &&& state.fresh_root is None && state.production_root is Some ==> summary
                == "reindexed "@ + production
            &&& state.fresh_root is None && state.production_root is None ==> summary
                == "no indexed roots yet"@
        }),
{
    let parts = index_parts(state);
    let fresh = "fresh "@ + decimal(state.fresh.len()) + " files"@;
    let production = "production "@ + decimal(state.production.len()) + " files"@;
    if state.fresh_root is Some && state.production_root is Some {
        assert(parts == seq![fresh, production]);
        assert(parts.drop_last() == seq![fresh]);
        assert(joined(parts.drop_last(), ", "@) == fresh);
    } else if state.fresh_root is Some {
        assert(parts == seq![fresh]);
    } else if state.production_root is Some {
        assert(parts == seq![production]);
    }
}

/// Work on both folders is refused exactly when one of them is not indexed, production being named
/// first.
pub proof fn law_both_folders_have_to_be_indexed(state: StateView)
    ensures
        missing_index(state) is None <==> state.production_root is Some && state.fresh_root is Some,
        state.production_root is None ==> missing_index(state) == Some(
            ErrorView::ProductionNotIndexed,
        ),
        state.production_root is Some && state.fresh_root is None ==> missing_index(state) == Some(
            ErrorView::FreshNotIndexed,
        ),
{
}

/// An update of a project, carried out, leaves no file new or updated, and with deletion leaves
/// production with exactly the fresh files.
pub proof fn law_update_makes_production_follow(
    state: StateView,
    changes: Seq<(Seq<char>, ChangeKind)>,
    delete_missing: bool,
)
    requires
        is_change_list(state.fresh, state.production, delete_missing, changes),
        forall|path: Seq<char>| #[trigger] state.fresh.contains_key(path) ==> is_plain(path),
        forall|path: Seq<char>| #[trigger] state.production.contains_key(path) ==> is_plain(path),
        state.production_root is Some,
        state.fresh_root is Some,
    ensures
        ({
            let after = after_steps(
                update_plan(
                    changes_of(state.fresh, state.production, delete_missing),
                    state.production_root->0,
                    state.fresh_root->0,
                    delete_missing,
                    false,
                ),
                state.production_root->0,
                state.fresh_root->0,
                state.fresh,
                state.production,
            );
            &&& delete_missing ==> after == state.fresh
            &&& forall|path: Seq<char>| #[trigger]
                state.fresh.contains_key(path) ==> after.contains_key(path) && after[path]
                    == state.fresh[path]
            &&& !delete_missing ==> forall|path: Seq<char>|
                #[trigger] state.production.contains_key(path) && !state.fresh.contains_key(path)
                    ==> after.contains_key(path) && after[path] == state.production[path]
        }),
{
    let production_root = state.production_root->0;
    let fresh_root = state.fresh_root->0;
    assert forall|i: int| 0 <= i < changes.len() implies is_plain((#[trigger] changes[i]).0) by {
        assert(change_of(state.fresh, state.production, delete_missing, changes[i].0) == Some(
            changes[i].1,
        ));
    }
    lemma_the_changes(state.fresh, state.production, delete_missing, changes);
    law_update_brings_production_up_to_date(
        state.fresh,
        state.production,
        changes,
        production_root,
        fresh_root,
        delete_missing,
    );
    let after = after_steps(
        update_plan(changes, production_root, fresh_root, delete_missing, false),
        production_root,
        fresh_root,
        state.fresh,
        state.production,
    );
    assert forall|path: Seq<char>| #[trigger]
        state.fresh.contains_key(path) implies after.contains_key(path) && after[path]
        == state.fresh[path] by {
        assert(change_of(state.fresh, after, delete_missing, path) is None);
    }
    if !delete_missing {
        assert forall|path: Seq<char>| #[trigger]
            state.production.contains_key(path) && !state.fresh.contains_key(
                path,
            ) implies after.contains_key(path) && after[path] == state.production[path] by {
            assert(after.contains_key(path) || !after.contains_key(path));
            assert(after[path] == after[path]);
        }
    }
}

/// A backup goes to a folder of its own directly in the folder for backups, and backups of different
/// seconds go to different folders.
pub proof fn law_each_backup_has_its_folder(
    backup_dir: Option<Seq<char>>,
    seconds: nat,
    other: nat,
)
    ensures
        ({
            let folder = if backup_dir is Some {
                backup_dir->0
            } else {
                ".upxto/backups"@
            };
            &&& components(backup_target(backup_dir, seconds)) == components(folder).push(
                "production-"@ + decimal(seconds),
            )
            &&& seconds != other ==> components(backup_target(backup_dir, seconds)) != components(
                backup_target(backup_dir, other),
            )
        }),
{
    let folder = match backup_dir {
        Some(folder) => folder,
        None => BACKUP_DIR@,
    };
    lemma_backup_name(folder, seconds);
    lemma_backup_name(folder, other);
    let first = components(backup_target(backup_dir, seconds));
    let second = components(backup_target(backup_dir, other));
    if seconds != other && first == second {
        let start = "production-"@;
        assert(first.last() == start + decimal(seconds));
        assert(second.last() == start + decimal(other));
        assert((start + decimal(seconds)).skip(start.len() as int) == decimal(seconds));
        assert((start + decimal(other)).skip(start.len() as int) == decimal(other));
        law_decimal_notation_reads_back(seconds);
        law_decimal_notation_reads_back(other);
    }
}

/// The name of a backup is one component below the folder for backups.
proof fn lemma_backup_name(folder: Seq<char>, seconds: nat)
    ensures
        components(path_join(folder, "production-"@ + decimal(seconds))) == components(folder).push(
            "production-"@ + decimal(seconds),
        ),
{
    let name = "production-"@ + decimal(seconds);
    reveal_strlit("production-");
    law_decimal_notation_reads_back(seconds);
    assert(name[0] == 'p' && name[1] == 'r');
    assert(counts(name)) by {
        assert(name != seq!['.']);
    }
    assert(!name.contains('/')) by {
        assert forall|i: int| 0 <= i < name.len() implies name[i] != '/' by {
            if i >= 11 {
                assert(name[i] == decimal(seconds)[i - 11]);
            }
        }
    }
    lemma_single_component(name);
    law_components_of_join(folder, name);
    assert(components(folder) + seq![name] == components(folder).push(name));
}

/// F5 copies a file exactly when the fresh index holds it and the production index does not, to the
/// same place below the production folder. Every other file it leaves alone, and says so.
pub proof fn law_only_new_files_are_copied(state: StateView, path: Seq<char>)
    requires
        state.fresh_root is Some,
        state.production_root is Some,
        state.fresh.contains_key(path) || state.production.contains_key(path),
    ensures
        ({
            let plan = copy_plan(state, row_of(state, path));
            &&& plan is Ok
            &&& plan->Ok_0 is Copy <==> state.fresh.contains_key(path)
                && !state.production.contains_key(path)
            &&& plan->Ok_0 is Copy ==> plan->Ok_0 == (CopyPlanView::Copy {
                path,
                source: path_join(state.fresh_root->0, path),
                target: path_join(state.production_root->0, path),
            })
            &&& plan->Ok_0 !is Copy ==> plan->Ok_0 == CopyPlanView::Say(
                "F5: only NEW files are copied; updated files are inspect-only for now"@,
            )
        }),
{
}

/// Without a file nothing is copied, and a new file is not copied where one of the two folders is
/// unknown.
pub proof fn law_nothing_is_copied_without_both_folders(state: StateView, path: Seq<char>)
    requires
        state.fresh.contains_key(path),
        !state.production.contains_key(path),
    ensures
        copy_plan(state, None) == Ok::<CopyPlanView, ErrorView>(
            CopyPlanView::Say("F5: no file selected"@),
        ),
        state.fresh_root is None ==> copy_plan(state, row_of(state, path)) == Err::<
            CopyPlanView,
            ErrorView,
        >(ErrorView::FreshRootMissing),
        state.fresh_root is Some && state.production_root is None ==> copy_plan(
            state,
            row_of(state, path),
        ) == Err::<CopyPlanView, ErrorView>(ErrorView::ProductionRootMissing),
{
}

/// A folder is created for every name without a separator, with the white space around it taken off.
/// A name with a separator is refused, and a blank one or none at all creates nothing.
pub proof fn law_typed_name_creates_one_folder(
    current_dir: Seq<char>,
    before: Seq<char>,
    name: Seq<char>,
    after: Seq<char>,
)
    requires
        all_white(before),
        all_white(after),
        name.len() > 0 ==> !white_space(name[0]) && !white_space(name.last()),
    ensures
        ({
            let plan = folder_plan(current_dir, Some(before + name + after));
            let is_path = exists|i: int|
                0 <= i < name.len() && (#[trigger] name[i] == '/' || name[i] == '\\');
            &&& name.len() == 0 ==> plan == FolderPlanView::Say("F9 mkdir cancelled"@)
            &&& is_path ==> plan == FolderPlanView::Say(
                "F9 mkdir: use a single folder name, not a path"@,
            )
            &&& name.len() > 0 && !is_path ==> plan == FolderPlanView::Create(
                path_join(current_dir, name),
            )
            &&& folder_plan(current_dir, None) == FolderPlanView::Say("F9 mkdir cancelled"@)
        }),
{
    law_trimming_takes_off_the_surrounding_white_space(before, name, after);
    if name.contains('/') {
        let i = name.index_of('/');
        assert(name[i] == '/');
    }
    if name.contains('\\') {
        let i = name.index_of('\\');
        assert(name[i] == '\\');
    }
}

/// The report of a failure names the key that started the work and ends with the error.
pub proof fn law_failures_are_reported_with_their_error(error: Seq<char>, key: u8)
    ensures
        failure_text(Task::IndexFresh, error) == "Ctrl+A failed: "@ + error,
        failure_text(Task::IndexProduction, error) == "Ctrl+S failed: "@ + error,
        failure_text(Task::CopyFile, error) == "F5 failed: "@ + error,
        failure_text(Task::BackUp, error) == "F8 backup failed: "@ + error,
        failure_text(Task::MakeFolder, error) == "F9 mkdir failed: "@ + error,
        failure_text(Task::Deploy(key), error) == seq!['F'] + decimal(key as nat)
            + " update failed: "@ + error,
{
    reveal_strlit("F");
    assert("F"@ == seq!['F']);
}

/// Reports give the numbers and names of what was done.
pub proof fn law_reports_tell_what_was_done(
    start: Seq<char>,
    count: nat,
    name: Seq<char>,
    text: Seq<char>,
    key: u8,
)
    ensures
        indexed_text(start, count, name) == start + decimal(count) + " files from "@ + name,
        deployed_text(key, count, text) == seq!['F'] + decimal(key as nat) + " deployed "@
            + decimal(count) + " new/updated files; "@ + text,
        backup_text(name, Ok(text)) == "F8 backup created: "@ + name + ("; "@ + text),
        backup_text(name, Err(text)) == "F8 backup created: "@ + name + ("; reindex failed: "@
            + text),
{
    reveal_strlit("F");
    assert("F"@ == seq!['F']);
}

} // verus!
