//! What to report, copy and remove so that production follows the fresh folder.

use crate::compare::{change_of, is_change_list, Change, ChangeKind};
use crate::index::FileEntry;
use crate::path::{
    components, has_parent, is_plain, join_paths, parent_of, parent_path, path_join, relative_to, same_path,
};
use crate::text::{decimal, decimal_text, lex_less, opt_view, views};
use vstd::prelude::*;
use vstd::string::StringExecFns;

verus! {

/// How many changes are of a kind.
pub open spec fn count_of(changes: Seq<(Seq<char>, ChangeKind)>, kind: ChangeKind) -> nat
    decreases changes.len(),
{
    if changes.len() == 0 {
        0
    } else {
        count_of(changes.drop_last(), kind) + if changes.last().1 == kind {
            1nat
        } else {
            0nat
        }
    }
}

/// The column in which a report names the kind of a change.
pub open spec fn kind_label(kind: ChangeKind) -> Seq<char> {
    match kind {
        ChangeKind::New => "NEW     "@,
        ChangeKind::Updated => "UPDATE  "@,
        ChangeKind::Deleted => "DELETE  "@,
    }
}

/// The last line of a report.
pub open spec fn summary_line(changes: Seq<(Seq<char>, ChangeKind)>) -> Seq<char> {
    "\nSummary: "@ + decimal(count_of(changes, ChangeKind::New)) + " new, "@ + decimal(
        count_of(changes, ChangeKind::Updated),
    ) + " updated, "@ + decimal(count_of(changes, ChangeKind::Deleted)) + " deleted"@
}

/// The lines that report changes.
pub open spec fn report_lines(changes: Seq<(Seq<char>, ChangeKind)>) -> Seq<Seq<char>> {
    if changes.len() == 0 {
        seq!["No new or updated files found."@]
    } else {
        Seq::new(changes.len(), |i: int| kind_label(changes[i].1) + changes[i].0).push(
            summary_line(changes),
        )
    }
}

/// Reports changes, one line for each and a summary.
pub fn change_report(changes: &[Change]) -> (lines: Vec<String>)
    ensures
        views(lines@) == report_lines(views(changes@)),
{
    let ghost all = views(changes@);
    let mut lines: Vec<String> = Vec::new();
    if changes.len() == 0 {
        lines.push("No new or updated files found.".to_owned());
        assert(views(lines@) == report_lines(all));
        return lines;
    }
    let mut new_count: usize = 0;
    let mut updated_count: usize = 0;
    let mut deleted_count: usize = 0;
    for i in 0..changes.len()
        invariant
            all == views(changes@),
            new_count == count_of(all.take(i as int), ChangeKind::New),
            updated_count == count_of(all.take(i as int), ChangeKind::Updated),
            deleted_count == count_of(all.take(i as int), ChangeKind::Deleted),
            new_count <= i,
            updated_count <= i,
            deleted_count <= i,
            views(lines@) == Seq::new(i as nat, |k: int| kind_label(all[k].1) + all[k].0),
    {
        let change = &changes[i];
        let ghost before = views(lines@);
        assert(all[i as int] == change@);
        assert(all.take(i + 1).drop_last() == all.take(i as int));
        let label = match change.kind {
            ChangeKind::New => {
                new_count += 1;
                "NEW     "
            },
            ChangeKind::Updated => {
                updated_count += 1;
                "UPDATE  "
            },
            ChangeKind::Deleted => {
                deleted_count += 1;
                "DELETE  "
            },
        };
        lines.push(label.to_owned().concat(change.path.as_str()));
        assert(views(lines@) == before.push(kind_label(change.kind) + change.path@));
        assert(views(lines@) == Seq::new(
            (i + 1) as nat,
            |k: int| kind_label(all[k].1) + all[k].0,
        ));
    }
    assert(all.take(all.len() as int) == all);
    let ghost before = views(lines@);
    let summary = "\nSummary: ".to_owned().concat(decimal_text(new_count as u64).as_str()).concat(
        " new, ",
    ).concat(decimal_text(updated_count as u64).as_str()).concat(" updated, ").concat(
        decimal_text(deleted_count as u64).as_str(),
    ).concat(" deleted");
    lines.push(summary);
    assert(views(lines@) == before.push(summary_line(all)));
    lines
}

/// One step of bringing production up to date.
#[derive(Debug)]
pub enum UpdateStep {
    /// Report a line.
    Say(String),
    /// Copy a file, after making the folder that it goes to.
    Copy { source: String, target: String },
    /// Remove a file, and then the folders that this leaves empty.
    Remove { target: String },
}

/// A step with its texts.
pub enum UpdateStepView {
    Say(Seq<char>),
    Copy { source: Seq<char>, target: Seq<char> },
    Remove { target: Seq<char> },
}

impl View for UpdateStep {
    type V = UpdateStepView;

    open spec fn view(&self) -> UpdateStepView {
        match self {
            UpdateStep::Say(line) => UpdateStepView::Say(line@),
            UpdateStep::Copy { source, target } => UpdateStepView::Copy {
                source: source@,
                target: target@,
            },
            UpdateStep::Remove { target } => UpdateStepView::Remove { target: target@ },
        }
    }
}

/// The copy of one changed file.
pub open spec fn copy_step(
    path: Seq<char>,
    production_root: Seq<char>,
    fresh_root: Seq<char>,
) -> UpdateStepView {
    UpdateStepView::Copy {
        source: path_join(fresh_root, path),
        target: path_join(production_root, path),
    }
}

/// The line that announces what is done, or would be done, with a file.
pub open spec fn announcement(doing: Seq<char>, path: Seq<char>) -> UpdateStepView {
    UpdateStepView::Say(doing + " "@ + path)
}

/// The steps for one change. A dry run only announces them.
pub open spec fn steps_for(
    change: (Seq<char>, ChangeKind),
    production_root: Seq<char>,
    fresh_root: Seq<char>,
    delete_missing: bool,
    dry_run: bool,
) -> Seq<UpdateStepView> {
    match change.1 {
        ChangeKind::New | ChangeKind::Updated => if dry_run {
            seq![announcement("WOULD COPY"@, change.0)]
        } else {
            seq![
                announcement("COPY      "@, change.0),
                copy_step(change.0, production_root, fresh_root),
            ]
        },
        ChangeKind::Deleted => if !delete_missing {
            Seq::empty()
        } else if dry_run {
            seq![announcement("WOULD DEL "@, change.0)]
        } else {
            seq![
                announcement("DELETE    "@, change.0),
                UpdateStepView::Remove { target: path_join(production_root, change.0) },
            ]
        },
    }
}

/// The steps for all changes, in their order.
pub open spec fn all_steps(
    changes: Seq<(Seq<char>, ChangeKind)>,
    production_root: Seq<char>,
    fresh_root: Seq<char>,
    delete_missing: bool,
    dry_run: bool,
) -> Seq<UpdateStepView>
    decreases changes.len(),
{
    if changes.len() == 0 {
        Seq::empty()
    } else {
        all_steps(
            changes.drop_last(),
            production_root,
            fresh_root,
            delete_missing,
            dry_run,
        ) + steps_for(changes.last(), production_root, fresh_root, delete_missing, dry_run)
    }
}

/// The whole plan for an update.
pub open spec fn update_plan(
    changes: Seq<(Seq<char>, ChangeKind)>,
    production_root: Seq<char>,
    fresh_root: Seq<char>,
    delete_missing: bool,
    dry_run: bool,
) -> Seq<UpdateStepView> {
    if changes.len() == 0 {
        seq![UpdateStepView::Say("Nothing to update."@)]
    } else {
        all_steps(changes, production_root, fresh_root, delete_missing, dry_run)
    }
}

/// Announces a step.
fn announce(doing: &str, path: &str) -> (step: UpdateStep)
    ensures
        step@ == announcement(doing@, path@),
{
    UpdateStep::Say(doing.to_owned().concat(" ").concat(path))
}

/// Plans the update of production: which lines to report, which files to copy and which to remove.
pub fn apply_changes(
    changes: &[Change],
    production_root: &str,
    fresh_root: &str,
    delete_missing: bool,
    dry_run: bool,
) -> (steps: Vec<UpdateStep>)
    ensures
        views(steps@) == update_plan(
            views(changes@),
            production_root@,
            fresh_root@,
            delete_missing,
            dry_run,
        ),
{
    let ghost all = views(changes@);
    let mut steps: Vec<UpdateStep> = Vec::new();
    if changes.len() == 0 {
        steps.push(UpdateStep::Say("Nothing to update.".to_owned()));
        assert(views(steps@) == update_plan(
            all,
            production_root@,
            fresh_root@,
            delete_missing,
            dry_run,
        ));
        return steps;
    }
    for i in 0..changes.len()
        invariant
            all == views(changes@),
            views(steps@) == all_steps(
                all.take(i as int),
                production_root@,
                fresh_root@,
                delete_missing,
                dry_run,
            ),
    {
        let change = &changes[i];
        let path = change.path.as_str();
        let ghost before = views(steps@);
        assert(all[i as int] == change@);
        assert(all.take(i + 1).drop_last() == all.take(i as int));
        match change.kind {
            ChangeKind::New | ChangeKind::Updated => {
                if dry_run {
                    steps.push(announce("WOULD COPY", path));
                } else {
                    steps.push(announce("COPY      ", path));
                    steps.push(
                        UpdateStep::Copy {
                            source: join_paths(fresh_root, path),
                            target: join_paths(production_root, path),
                        },
                    );
                }
            },
            ChangeKind::Deleted => {
                if delete_missing {
                    if dry_run {
                        steps.push(announce("WOULD DEL ", path));
                    } else {
                        steps.push(announce("DELETE    ", path));
                        steps.push(
                            UpdateStep::Remove { target: join_paths(production_root, path) },
                        );
                    }
                }
            },
        }
        assert(views(steps@) == before + steps_for(
            change@,
            production_root@,
            fresh_root@,
            delete_missing,
            dry_run,
        ));
    }
    assert(all.take(all.len() as int) == all);
    steps
}

/// The copies for the new and updated files, without reports.
pub open spec fn quiet_copies(
    changes: Seq<(Seq<char>, ChangeKind)>,
    production_root: Seq<char>,
    fresh_root: Seq<char>,
) -> Seq<UpdateStepView>
    decreases changes.len(),
{
    if changes.len() == 0 {
        Seq::empty()
    } else {
        let rest = quiet_copies(changes.drop_last(), production_root, fresh_root);
        if changes.last().1 == ChangeKind::Deleted {
            rest
        } else {
            rest.push(copy_step(changes.last().0, production_root, fresh_root))
        }
    }
}

/// Plans the copies of the new and updated files, without reports.
pub fn copy_changes_quiet(
    changes: &[Change],
    production_root: &str,
    fresh_root: &str,
) -> (steps: Vec<UpdateStep>)
    ensures
        views(steps@) == quiet_copies(views(changes@), production_root@, fresh_root@),
{
    let ghost all = views(changes@);
    let mut steps: Vec<UpdateStep> = Vec::new();
    for i in 0..changes.len()
        invariant
            all == views(changes@),
            views(steps@) == quiet_copies(all.take(i as int), production_root@, fresh_root@),
    {
        let change = &changes[i];
        let ghost before = views(steps@);
        assert(all[i as int] == change@);
        assert(all.take(i + 1).drop_last() == all.take(i as int));
        if change.kind != ChangeKind::Deleted {
            steps.push(
                UpdateStep::Copy {
                    source: join_paths(fresh_root, change.path.as_str()),
                    target: join_paths(production_root, change.path.as_str()),
                },
            );
            assert(views(steps@) == before.push(
                copy_step(change.path@, production_root@, fresh_root@),
            ));
        }
    }
    assert(all.take(all.len() as int) == all);
    steps
}

/// The production index once a step is done: a copy brings the entry of its source, a removal takes
/// the entry away, a report changes nothing.
pub open spec fn after_step(
    step: UpdateStepView,
    production_root: Seq<char>,
    fresh_root: Seq<char>,
    fresh: Map<Seq<char>, FileEntry>,
    production: Map<Seq<char>, FileEntry>,
) -> Map<Seq<char>, FileEntry> {
    match step {
        UpdateStepView::Say(_) => production,
        UpdateStepView::Copy { source, target } => production.insert(
            relative_to(production_root, target)->0,
            fresh[relative_to(fresh_root, source)->0],
        ),
        UpdateStepView::Remove { target } => production.remove(
            relative_to(production_root, target)->0,
        ),
    }
}

/// The production index once all steps are done, one after the other.
pub open spec fn after_steps(
    steps: Seq<UpdateStepView>,
    production_root: Seq<char>,
    fresh_root: Seq<char>,
    fresh: Map<Seq<char>, FileEntry>,
    production: Map<Seq<char>, FileEntry>,
) -> Map<Seq<char>, FileEntry>
    decreases steps.len(),
{
    if steps.len() == 0 {
        production
    } else {
        after_step(
            steps.last(),
            production_root,
            fresh_root,
            fresh,
            after_steps(steps.drop_last(), production_root, fresh_root, fresh, production),
        )
    }
}

/// Whether all changed files have plain relative paths, as indexes write them.
pub open spec fn plain_paths(changes: Seq<(Seq<char>, ChangeKind)>) -> bool {
    forall|i: int| 0 <= i < changes.len() ==> is_plain((#[trigger] changes[i]).0)
}

proof fn lemma_after_both(
    first: Seq<UpdateStepView>,
    second: Seq<UpdateStepView>,
    production_root: Seq<char>,
    fresh_root: Seq<char>,
    fresh: Map<Seq<char>, FileEntry>,
    production: Map<Seq<char>, FileEntry>,
)
    ensures
        after_steps(first + second, production_root, fresh_root, fresh, production) == after_steps(
            second,
            production_root,
            fresh_root,
            fresh,
            after_steps(first, production_root, fresh_root, fresh, production),
        ),
    decreases second.len(),
{
    if second.len() == 0 {
        assert(first + second == first);
    } else {
        assert((first + second).drop_last() == first + second.drop_last());
        assert((first + second).last() == second.last());
        lemma_after_both(
            first,
            second.drop_last(),
            production_root,
            fresh_root,
            fresh,
            production,
        );
    }
}

/// Whether no change is about a path.
spec fn untouched(changes: Seq<(Seq<char>, ChangeKind)>, path: Seq<char>) -> bool {
    forall|i: int| 0 <= i < changes.len() ==> (#[trigger] changes[i]).0 != path
}

/// What the steps for the first changes leave: the changed files as planned, all others as before.
proof fn lemma_after_changes(
    changes: Seq<(Seq<char>, ChangeKind)>,
    production_root: Seq<char>,
    fresh_root: Seq<char>,
    fresh: Map<Seq<char>, FileEntry>,
    production: Map<Seq<char>, FileEntry>,
    delete_missing: bool,
)
    requires
        plain_paths(changes),
        forall|i: int, j: int|
            0 <= i < j < changes.len() ==> lex_less((#[trigger] changes[i]).0, (
            #[trigger] changes[j]).0),
    ensures
        ({
            let after = after_steps(
                all_steps(changes, production_root, fresh_root, delete_missing, false),
                production_root,
                fresh_root,
                fresh,
                production,
            );
            &&& forall|i: int|
                #![trigger changes[i]]
                0 <= i < changes.len() ==> if changes[i].1 != ChangeKind::Deleted {
                    after.contains_key(changes[i].0) && after[changes[i].0] == fresh[changes[i].0]
                } else if delete_missing {
                    !after.contains_key(changes[i].0)
                } else {
                    after.contains_key(changes[i].0) == production.contains_key(changes[i].0)
                        && after[changes[i].0] == production[changes[i].0]
                }
            &&& forall|path: Seq<char>| #[trigger]
                untouched(changes, path) ==> after.contains_key(path) == production.contains_key(
                    path,
                ) && after[path] == production[path]
        }),
    decreases changes.len(),
{
    let after = after_steps(
        all_steps(changes, production_root, fresh_root, delete_missing, false),
        production_root,
        fresh_root,
        fresh,
        production,
    );
    if changes.len() > 0 {
        let front = changes.drop_last();
        let last = changes.last();
        assert forall|i: int, j: int| 0 <= i < j < front.len() implies lex_less(
            (#[trigger] front[i]).0,
            (#[trigger] front[j]).0,
        ) by {
            assert(front[i] == changes[i] && front[j] == changes[j]);
        }
        assert forall|i: int| 0 <= i < front.len() implies is_plain((#[trigger] front[i]).0) by {
            assert(front[i] == changes[i]);
        }
        lemma_after_changes(front, production_root, fresh_root, fresh, production, delete_missing);
        let earlier = all_steps(front, production_root, fresh_root, delete_missing, false);
        let steps = steps_for(last, production_root, fresh_root, delete_missing, false);
        let middle = after_steps(earlier, production_root, fresh_root, fresh, production);
        lemma_after_both(earlier, steps, production_root, fresh_root, fresh, production);
        assert(is_plain(changes[changes.len() - 1].0));
        crate::path::law_relative_path_of_join(production_root, last.0);
        crate::path::law_relative_path_of_join(fresh_root, last.0);
        lemma_after_one_change(
            last,
            production_root,
            fresh_root,
            fresh,
            middle,
            delete_missing,
        );
        assert forall|i: int| 0 <= i < front.len() implies (#[trigger] changes[i]).0 != last.0 by {
            assert(lex_less(changes[i].0, changes[changes.len() - 1].0));
            crate::text::lemma_lex_irreflexive(last.0);
        }
        assert forall|i: int| #![trigger changes[i]] 0 <= i < changes.len() implies if changes[i].1
            != ChangeKind::Deleted {
            after.contains_key(changes[i].0) && after[changes[i].0] == fresh[changes[i].0]
        } else if delete_missing {
            !after.contains_key(changes[i].0)
        } else {
            after.contains_key(changes[i].0) == production.contains_key(changes[i].0)
                && after[changes[i].0] == production[changes[i].0]
        } by {
            if i < front.len() {
                assert(front[i] == changes[i]);
            } else {
                assert forall|k: int| 0 <= k < front.len() implies (#[trigger] front[k]).0
                    != last.0 by {
                    assert(front[k] == changes[k]);
                }
                assert(untouched(front, last.0));
            }
        }
        assert forall|path: Seq<char>| #[trigger] untouched(changes, path) implies (
        after.contains_key(path) == production.contains_key(path) && after[path]
            == production[path]) by {
            assert forall|k: int| 0 <= k < front.len() implies (#[trigger] front[k]).0 != path by {
                assert(front[k] == changes[k]);
            }
            assert(untouched(front, path));
            assert(changes[changes.len() - 1].0 != path);
        }
    } else {
        assert(after == production);
    }
}

/// What the steps for one change do to the production index.
proof fn lemma_after_one_change(
    change: (Seq<char>, ChangeKind),
    production_root: Seq<char>,
    fresh_root: Seq<char>,
    fresh: Map<Seq<char>, FileEntry>,
    production: Map<Seq<char>, FileEntry>,
    delete_missing: bool,
)
    requires
        relative_to(production_root, path_join(production_root, change.0)) == Some(change.0),
        relative_to(fresh_root, path_join(fresh_root, change.0)) == Some(change.0),
    ensures
        after_steps(
            steps_for(change, production_root, fresh_root, delete_missing, false),
            production_root,
            fresh_root,
            fresh,
            production,
        ) == (if change.1 != ChangeKind::Deleted {
            production.insert(change.0, fresh[change.0])
        } else if delete_missing {
            production.remove(change.0)
        } else {
            production
        }),
{
    let steps = steps_for(change, production_root, fresh_root, delete_missing, false);
    if steps.len() == 2 {
        let first = steps.drop_last();
        assert(first.len() == 1);
        assert(first.last() == steps[0]);
        assert(first.drop_last() == Seq::<UpdateStepView>::empty());
        assert(after_steps(
            first.drop_last(),
            production_root,
            fresh_root,
            fresh,
            production,
        ) == production);
        assert(after_steps(first, production_root, fresh_root, fresh, production) == production);
        assert(steps.last() == steps[1]);
    }
}

/// Carrying out the plan for the changes that a comparison lists leaves nothing new or updated, and
/// files that only production has stay as they are. When missing files are to be deleted, production
/// ends up with exactly the fresh files.
pub proof fn law_update_brings_production_up_to_date(
    fresh: Map<Seq<char>, FileEntry>,
    production: Map<Seq<char>, FileEntry>,
    changes: Seq<(Seq<char>, ChangeKind)>,
    production_root: Seq<char>,
    fresh_root: Seq<char>,
    delete_missing: bool,
)
    requires
        is_change_list(fresh, production, delete_missing, changes),
        plain_paths(changes),
    ensures
        ({
            let after = after_steps(
                update_plan(changes, production_root, fresh_root, delete_missing, false),
                production_root,
                fresh_root,
                fresh,
                production,
            );
            &&& forall|path: Seq<char>| #[trigger]
                change_of(fresh, after, delete_missing, path) is None
            &&& delete_missing ==> after == fresh
            &&& !delete_missing ==> forall|path: Seq<char>| #[trigger]
                after.contains_key(path) && !fresh.contains_key(path)
                    <==> production.contains_key(path) && !fresh.contains_key(path)
            &&& !delete_missing ==> forall|path: Seq<char>|
                production.contains_key(path) && !fresh.contains_key(path) ==> #[trigger] after[path]
                    == production[path]
        }),
{
    let plan = update_plan(changes, production_root, fresh_root, delete_missing, false);
    let after = after_steps(plan, production_root, fresh_root, fresh, production);
    lemma_after_changes(changes, production_root, fresh_root, fresh, production, delete_missing);
    if changes.len() == 0 {
        assert(plan.drop_last() == Seq::<UpdateStepView>::empty());
        assert(after_steps(
            plan.drop_last(),
            production_root,
            fresh_root,
            fresh,
            production,
        ) == production);
        assert(all_steps(changes, production_root, fresh_root, delete_missing, false) == Seq::<
            UpdateStepView,
        >::empty());
    }
    assert forall|path: Seq<char>|
        ({
            let kind = change_of(fresh, production, delete_missing, path);
            &&& (#[trigger] after.contains_key(path)) == (if kind == Some(ChangeKind::Deleted) {
                false
            } else {
                fresh.contains_key(path) || production.contains_key(path)
            })
            &&& fresh.contains_key(path) ==> after[path] == fresh[path]
            &&& !fresh.contains_key(path) && kind is None ==> after[path] == production[path]
        }) by {
        let kind = change_of(fresh, production, delete_missing, path);
        if kind is Some {
            let i = choose|i: int| 0 <= i < changes.len() && (#[trigger] changes[i]).0 == path;
            assert(change_of(fresh, production, delete_missing, changes[i].0) == Some(
                changes[i].1,
            ));
        } else {
            assert forall|i: int| 0 <= i < changes.len() implies (#[trigger] changes[i]).0
                != path by {
                assert(change_of(fresh, production, delete_missing, changes[i].0) == Some(
                    changes[i].1,
                ));
            }
            assert(untouched(changes, path));
        }
    }
    assert forall|path: Seq<char>| #[trigger]
        change_of(fresh, after, delete_missing, path) is None by {
        assert(after.contains_key(path) || !after.contains_key(path));
    }
    if delete_missing {
        assert(after =~= fresh);
    } else {
        assert forall|path: Seq<char>|
            production.contains_key(path) && !fresh.contains_key(path) implies #[trigger] after[path]
            == production[path] by {
            assert(after.contains_key(path));
        }
    }
}

/// A dry run only reports: it copies and removes nothing.
pub proof fn law_dry_run_changes_nothing(
    changes: Seq<(Seq<char>, ChangeKind)>,
    production_root: Seq<char>,
    fresh_root: Seq<char>,
    delete_missing: bool,
)
    ensures
        forall|i: int|
            0 <= i < update_plan(
                changes,
                production_root,
                fresh_root,
                delete_missing,
                true,
            ).len() ==> (#[trigger] update_plan(
                changes,
                production_root,
                fresh_root,
                delete_missing,
                true,
            )[i]) is Say,
    decreases changes.len(),
{
    if changes.len() > 0 {
        let front = changes.drop_last();
        law_dry_run_changes_nothing(front, production_root, fresh_root, delete_missing);
        let plan = update_plan(changes, production_root, fresh_root, delete_missing, true);
        let earlier = all_steps(front, production_root, fresh_root, delete_missing, true);
        let steps = steps_for(changes.last(), production_root, fresh_root, delete_missing, true);
        assert(plan == earlier + steps);
        assert forall|i: int| 0 <= i < plan.len() implies (#[trigger] plan[i]) is Say by {
            if i < earlier.len() {
                assert(plan[i] == earlier[i]);
                assert(earlier[i] == update_plan(
                    front,
                    production_root,
                    fresh_root,
                    delete_missing,
                    true,
                )[i]);
            } else {
                assert(plan[i] == steps[i - earlier.len()]);
            }
        }
    }
}

/// Without leave to delete, no plan removes a file.
pub proof fn law_nothing_is_removed_unasked(
    changes: Seq<(Seq<char>, ChangeKind)>,
    production_root: Seq<char>,
    fresh_root: Seq<char>,
    dry_run: bool,
)
    ensures
        forall|i: int|
            0 <= i < update_plan(
                changes,
                production_root,
                fresh_root,
                false,
                dry_run,
            ).len() ==> !((#[trigger] update_plan(
                changes,
                production_root,
                fresh_root,
                false,
                dry_run,
            )[i]) is Remove),
    decreases changes.len(),
{
    if changes.len() > 0 {
        let front = changes.drop_last();
        law_nothing_is_removed_unasked(front, production_root, fresh_root, dry_run);
        let plan = update_plan(changes, production_root, fresh_root, false, dry_run);
        let earlier = all_steps(front, production_root, fresh_root, false, dry_run);
        let steps = steps_for(changes.last(), production_root, fresh_root, false, dry_run);
        assert(plan == earlier + steps);
        assert forall|i: int| 0 <= i < plan.len() implies !((#[trigger] plan[i]) is Remove) by {
            if i < earlier.len() {
                assert(plan[i] == earlier[i]);
                assert(earlier[i] == update_plan(
                    front,
                    production_root,
                    fresh_root,
                    false,
                    dry_run,
                )[i]);
            } else {
                assert(plan[i] == steps[i - earlier.len()]);
            }
        }
    }
}

proof fn lemma_quiet_copies_do_the_same(
    changes: Seq<(Seq<char>, ChangeKind)>,
    production_root: Seq<char>,
    fresh_root: Seq<char>,
    fresh: Map<Seq<char>, FileEntry>,
    production: Map<Seq<char>, FileEntry>,
)
    ensures
        after_steps(
            quiet_copies(changes, production_root, fresh_root),
            production_root,
            fresh_root,
            fresh,
            production,
        ) == after_steps(
            all_steps(changes, production_root, fresh_root, false, false),
            production_root,
            fresh_root,
            fresh,
            production,
        ),
    decreases changes.len(),
{
    if changes.len() > 0 {
        let front = changes.drop_last();
        lemma_quiet_copies_do_the_same(front, production_root, fresh_root, fresh, production);
        let earlier = all_steps(front, production_root, fresh_root, false, false);
        let steps = steps_for(changes.last(), production_root, fresh_root, false, false);
        let all = all_steps(changes, production_root, fresh_root, false, false);
        let quiet = quiet_copies(changes, production_root, fresh_root);
        if changes.last().1 == ChangeKind::Deleted {
            assert(all == earlier);
        } else {
            let said = earlier.push(steps[0]);
            assert(all == said.push(steps[1]));
            assert(all.drop_last() == said);
            assert(said.drop_last() == earlier);
            assert(said.last() is Say);
            assert(after_steps(said, production_root, fresh_root, fresh, production) == after_steps(
                earlier,
                production_root,
                fresh_root,
                fresh,
                production,
            ));
            assert(quiet.drop_last() == quiet_copies(front, production_root, fresh_root));
            assert(quiet.last() == all.last());
        }
    }
}

/// Deploying the new and updated files that a comparison lists leaves nothing new or updated, and
/// keeps every file that only production has.
pub proof fn law_deploy_brings_production_up_to_date(
    fresh: Map<Seq<char>, FileEntry>,
    production: Map<Seq<char>, FileEntry>,
    changes: Seq<(Seq<char>, ChangeKind)>,
    production_root: Seq<char>,
    fresh_root: Seq<char>,
)
    requires
        is_change_list(fresh, production, false, changes),
        plain_paths(changes),
    ensures
        ({
            let after = after_steps(
                quiet_copies(changes, production_root, fresh_root),
                production_root,
                fresh_root,
                fresh,
                production,
            );
            &&& forall|path: Seq<char>| #[trigger] change_of(fresh, after, false, path) is None
            &&& forall|path: Seq<char>|
                #[trigger] production.contains_key(path) && !fresh.contains_key(path)
                    ==> after.contains_key(path) && after[path] == production[path]
        }),
{
    law_update_brings_production_up_to_date(
        fresh,
        production,
        changes,
        production_root,
        fresh_root,
        false,
    );
    lemma_quiet_copies_do_the_same(changes, production_root, fresh_root, fresh, production);
    let plan = update_plan(changes, production_root, fresh_root, false, false);
    let after = after_steps(plan, production_root, fresh_root, fresh, production);
    if changes.len() == 0 {
        assert(plan.drop_last() == Seq::<UpdateStepView>::empty());
        assert(after_steps(
            plan.drop_last(),
            production_root,
            fresh_root,
            fresh,
            production,
        ) == production);
        assert(after == production);
    }
    assert forall|path: Seq<char>| #[trigger]
        production.contains_key(path) && !fresh.contains_key(path) implies after.contains_key(path)
        && after[path] == production[path] by {
        assert(after.contains_key(path) || !after.contains_key(path));
        assert(after[path] == after[path]);
    }
}

/// Whether a step copies the file under `path`, which is new or differs.
pub open spec fn copies_changed_file(
    step: UpdateStepView,
    path: Seq<char>,
    production_root: Seq<char>,
    fresh_root: Seq<char>,
    fresh: Map<Seq<char>, FileEntry>,
    production: Map<Seq<char>, FileEntry>,
) -> bool {
    &&& step == copy_step(path, production_root, fresh_root)
    &&& fresh.contains_key(path)
    &&& !production.contains_key(path) || production[path] != fresh[path]
}

/// Whether a step copies the file of a change that is no deletion.
spec fn copies_change(
    step: UpdateStepView,
    changes: Seq<(Seq<char>, ChangeKind)>,
    i: int,
    production_root: Seq<char>,
    fresh_root: Seq<char>,
) -> bool {
    0 <= i < changes.len() && changes[i].1 != ChangeKind::Deleted && step == copy_step(
        changes[i].0,
        production_root,
        fresh_root,
    )
}

proof fn lemma_copies_come_from_changes(
    changes: Seq<(Seq<char>, ChangeKind)>,
    production_root: Seq<char>,
    fresh_root: Seq<char>,
    delete_missing: bool,
    dry_run: bool,
    k: int,
)
    requires
        0 <= k < all_steps(changes, production_root, fresh_root, delete_missing, dry_run).len(),
        all_steps(changes, production_root, fresh_root, delete_missing, dry_run)[k] is Copy,
    ensures
        exists|i: int|
            copies_change(
                all_steps(changes, production_root, fresh_root, delete_missing, dry_run)[k],
                changes,
                i,
                production_root,
                fresh_root,
            ),
    decreases changes.len(),
{
    let front = changes.drop_last();
    let earlier = all_steps(front, production_root, fresh_root, delete_missing, dry_run);
    let step = all_steps(changes, production_root, fresh_root, delete_missing, dry_run)[k];
    if k < earlier.len() {
        assert(earlier[k] == step);
        lemma_copies_come_from_changes(
            front,
            production_root,
            fresh_root,
            delete_missing,
            dry_run,
            k,
        );
        let i = choose|i: int| copies_change(step, front, i, production_root, fresh_root);
        assert(copies_change(step, changes, i, production_root, fresh_root));
    } else {
        let steps = steps_for(
            changes.last(),
            production_root,
            fresh_root,
            delete_missing,
            dry_run,
        );
        assert(steps[k - earlier.len()] == step);
        assert(copies_change(step, changes, changes.len() - 1, production_root, fresh_root));
    }
}

/// An update copies nothing but files that are new or differ.
pub proof fn law_only_changed_files_are_copied(
    fresh: Map<Seq<char>, FileEntry>,
    production: Map<Seq<char>, FileEntry>,
    include_deleted: bool,
    changes: Seq<(Seq<char>, ChangeKind)>,
    production_root: Seq<char>,
    fresh_root: Seq<char>,
    delete_missing: bool,
    dry_run: bool,
)
    requires
        is_change_list(fresh, production, include_deleted, changes),
    ensures
        ({
            let plan = update_plan(changes, production_root, fresh_root, delete_missing, dry_run);
            forall|k: int|
                0 <= k < plan.len() && (#[trigger] plan[k]) is Copy ==> exists|path: Seq<char>|
                    copies_changed_file(
                        plan[k],
                        path,
                        production_root,
                        fresh_root,
                        fresh,
                        production,
                    )
        }),
{
    let plan = update_plan(changes, production_root, fresh_root, delete_missing, dry_run);
    assert forall|k: int| 0 <= k < plan.len() && (#[trigger] plan[k]) is Copy implies exists|
        path: Seq<char>,
    |
        copies_changed_file(plan[k], path, production_root, fresh_root, fresh, production) by {
        lemma_copies_come_from_changes(
            changes,
            production_root,
            fresh_root,
            delete_missing,
            dry_run,
            k,
        );
        let i = choose|i: int| copies_change(plan[k], changes, i, production_root, fresh_root);
        assert(change_of(fresh, production, include_deleted, changes[i].0) == Some(changes[i].1));
        assert(copies_changed_file(
            plan[k],
            changes[i].0,
            production_root,
            fresh_root,
            fresh,
            production,
        ));
    }
}

/// A deployment consists of copies of files that are new or differ.
pub proof fn law_only_changed_files_are_deployed(
    fresh: Map<Seq<char>, FileEntry>,
    production: Map<Seq<char>, FileEntry>,
    include_deleted: bool,
    changes: Seq<(Seq<char>, ChangeKind)>,
    production_root: Seq<char>,
    fresh_root: Seq<char>,
)
    requires
        forall|i: int|
            0 <= i < changes.len() ==> change_of(
                fresh,
                production,
                include_deleted,
                (#[trigger] changes[i]).0,
            ) == Some(changes[i].1),
    ensures
        ({
            let plan = quiet_copies(changes, production_root, fresh_root);
            forall|k: int|
                0 <= k < plan.len() ==> (#[trigger] plan[k]) is Copy && exists|path: Seq<char>|
                    copies_changed_file(
                        plan[k],
                        path,
                        production_root,
                        fresh_root,
                        fresh,
                        production,
                    )
        }),
    decreases changes.len(),
{
    if changes.len() > 0 {
        let front = changes.drop_last();
        law_only_changed_files_are_deployed(
            fresh,
            production,
            include_deleted,
            front,
            production_root,
            fresh_root,
        );
        let earlier = quiet_copies(front, production_root, fresh_root);
        let plan = quiet_copies(changes, production_root, fresh_root);
        assert forall|k: int| 0 <= k < plan.len() implies (#[trigger] plan[k]) is Copy && exists|
            path: Seq<char>,
        |
            copies_changed_file(
                plan[k],
                path,
                production_root,
                fresh_root,
                fresh,
                production,
            ) by {
            if k < earlier.len() {
                assert(earlier[k] == plan[k]);
            } else {
                assert(changes[changes.len() - 1] == changes.last());
                assert(copies_changed_file(
                    plan[k],
                    changes.last().0,
                    production_root,
                    fresh_root,
                    fresh,
                    production,
                ));
            }
        }
    }
}

/// How an attempt to remove a folder ended.
#[derive(Debug, Clone, Copy, PartialEq, Eq, Structural)]
pub enum RemovalOutcome {
    Removed,
    NotEmpty,
    NotFound,
    Failed,
}

/// What to do next about folders that a removed file may have left empty.
#[derive(Debug)]
pub enum RemovalStep {
    /// Try to remove a folder, which succeeds only when it is empty.
    Try(String),
    /// Nothing is left to do.
    Done,
    /// Give up with the error that occurred.
    Fail,
}

/// A removal step with its texts.
pub enum RemovalStepView {
    Try(Seq<char>),
    Done,
    Fail,
}

impl View for RemovalStep {
    type V = RemovalStepView;

    open spec fn view(&self) -> RemovalStepView {
        match self {
            RemovalStep::Try(folder) => RemovalStepView::Try(folder@),
            RemovalStep::Done => RemovalStepView::Done,
            RemovalStep::Fail => RemovalStepView::Fail,
        }
    }
}

/// The step for a folder: it is tried unless it is the one to stop at.
pub open spec fn removal_of(folder: Option<Seq<char>>, stop_at: Seq<char>) -> RemovalStepView {
    match folder {
        Some(path) => if components(path) == components(stop_at) {
            RemovalStepView::Done
        } else {
            RemovalStepView::Try(path)
        },
        None => RemovalStepView::Done,
    }
}

/// The step after a folder was tried.
pub open spec fn removal_after(
    folder: Seq<char>,
    outcome: RemovalOutcome,
    stop_at: Seq<char>,
) -> RemovalStepView {
    match outcome {
        RemovalOutcome::Removed => removal_of(parent_of(folder), stop_at),
        RemovalOutcome::NotEmpty | RemovalOutcome::NotFound => RemovalStepView::Done,
        RemovalOutcome::Failed => RemovalStepView::Fail,
    }
}

/// Starts removing empty folders from `folder` upwards, short of `stop_at`.
pub fn remove_empty_parents(folder: Option<String>, stop_at: &str) -> (step: RemovalStep)
    ensures
        step@ == removal_of(opt_view(folder), stop_at@),
{
    match folder {
        Some(path) => if same_path(path.as_str(), stop_at) {
            RemovalStep::Done
        } else {
            RemovalStep::Try(path)
        },
        None => RemovalStep::Done,
    }
}

/// Goes on after a folder was tried. Each folder tried next is further up.
pub fn after_removal(folder: &str, outcome: RemovalOutcome, stop_at: &str) -> (step: RemovalStep)
    ensures
        step@ == removal_after(folder@, outcome, stop_at@),
        step@ is Try ==> components(step@->Try_0).len() < components(folder@).len(),
{
    match outcome {
        RemovalOutcome::Removed => remove_empty_parents(parent_path(folder), stop_at),
        RemovalOutcome::NotEmpty | RemovalOutcome::NotFound => RemovalStep::Done,
        RemovalOutcome::Failed => RemovalStep::Fail,
    }
}

/// Whether `inner` is `outer` or lies below it.
pub open spec fn lies_within(inner: Seq<char>, outer: Seq<char>) -> bool {
    components(outer).len() <= components(inner).len() && components(inner).take(
        components(outer).len() as int,
    ) == components(outer)
}

/// Removing empty folders never touches the folder to stop at, nor anything outside it: every folder
/// that is tried lies properly within it, and so does every one that is tried after it.
pub proof fn law_removal_stays_inside(
    folder: Seq<char>,
    stop_at: Seq<char>,
    outcome: RemovalOutcome,
)
    requires
        lies_within(folder, stop_at),
    ensures
        removal_of(Some(folder), stop_at) is Try ==> components(folder).len() > components(
            stop_at,
        ).len(),
        components(folder).len() > components(stop_at).len() && removal_after(
            folder,
            outcome,
            stop_at,
        ) is Try ==> {
            let next = removal_after(folder, outcome, stop_at)->Try_0;
            lies_within(next, stop_at) && components(next).len() > components(stop_at).len()
        },
{
    let base = components(stop_at);
    let parts = components(folder);
    if parts.len() == base.len() {
        assert(parts.take(base.len() as int) == parts);
    }
    if parts.len() > base.len() && removal_after(folder, outcome, stop_at) is Try {
        let next = removal_after(folder, outcome, stop_at)->Try_0;
        crate::path::lemma_parent_components(folder);
        assert(components(next) == parts.drop_last());
        assert(parts.drop_last().take(base.len() as int) == base);
        if components(next).len() == base.len() {
            assert(components(next) == base);
        }
    }
}

/// An update goes through the changes one after another: the plan for two lists of changes is the
/// plan for the first and then that for the second.
pub proof fn law_changes_are_updated_in_order(
    first: Seq<(Seq<char>, ChangeKind)>,
    second: Seq<(Seq<char>, ChangeKind)>,
    production_root: Seq<char>,
    fresh_root: Seq<char>,
    delete_missing: bool,
    dry_run: bool,
)
    requires
        first.len() > 0,
        second.len() > 0,
    ensures
        update_plan(first + second, production_root, fresh_root, delete_missing, dry_run)
            == update_plan(first, production_root, fresh_root, delete_missing, dry_run)
            + update_plan(second, production_root, fresh_root, delete_missing, dry_run),
        quiet_copies(first + second, production_root, fresh_root) == quiet_copies(
            first,
            production_root,
            fresh_root,
        ) + quiet_copies(second, production_root, fresh_root),
    decreases second.len(),
{
    let all = first + second;
    let front = second.drop_last();
    assert(all.last() == second.last());
    assert(all.drop_last() == first + front);
    let done = all_steps(first, production_root, fresh_root, delete_missing, dry_run);
    let copied = quiet_copies(first, production_root, fresh_root);
    let last = steps_for(second.last(), production_root, fresh_root, delete_missing, dry_run);
    if front.len() == 0 {
        assert(first + front == first);
        assert(all_steps(front, production_root, fresh_root, delete_missing, dry_run) + last
            == last);
        assert(quiet_copies(front, production_root, fresh_root) == Seq::<UpdateStepView>::empty());
        assert(copied + quiet_copies(second, production_root, fresh_root) == quiet_copies(
            all,
            production_root,
            fresh_root,
        ));
    } else {
        law_changes_are_updated_in_order(
            first,
            front,
            production_root,
            fresh_root,
            delete_missing,
            dry_run,
        );
        let later = all_steps(front, production_root, fresh_root, delete_missing, dry_run);
        assert(done + later + last == done + (later + last));
        let others = quiet_copies(front, production_root, fresh_root);
        assert(copied + quiet_copies(second, production_root, fresh_root) == quiet_copies(
            all,
            production_root,
            fresh_root,
        ));
    }
}

/// What an update does with one file: a new or updated one is announced and copied from the fresh
/// folder to the same place in production, one that only production has is announced and removed
/// where deletion is asked for. A dry run says what would be done and does not do it. Without changes
/// it says that there is nothing to do.
pub proof fn law_one_change_is_announced_and_done(
    path: Seq<char>,
    kind: ChangeKind,
    production_root: Seq<char>,
    fresh_root: Seq<char>,
    delete_missing: bool,
    dry_run: bool,
)
    requires
        kind != ChangeKind::Deleted,
    ensures
        ({
            let source = path_join(fresh_root, path);
            let target = path_join(production_root, path);
            let changed = |wet: bool|
                update_plan(seq![(path, kind)], production_root, fresh_root, delete_missing, !wet);
            let missing = |asked: bool, wet: bool|
                update_plan(
                    seq![(path, ChangeKind::Deleted)],
                    production_root,
                    fresh_root,
                    asked,
                    !wet,
                );
            &&& changed(true) == seq![
                UpdateStepView::Say("COPY      "@ + seq![' '] + path),
                UpdateStepView::Copy { source, target },
            ]
            &&& changed(false) == seq![UpdateStepView::Say("WOULD COPY"@ + seq![' '] + path)]
            &&& missing(true, true) == seq![
                UpdateStepView::Say("DELETE    "@ + seq![' '] + path),
                UpdateStepView::Remove { target },
            ]
            &&& missing(true, false) == seq![UpdateStepView::Say("WOULD DEL "@ + seq![' '] + path)]
            &&& missing(false, true) == Seq::<UpdateStepView>::empty()
            &&& missing(false, false) == Seq::<UpdateStepView>::empty()
            &&& quiet_copies(seq![(path, kind)], production_root, fresh_root) == seq![
                UpdateStepView::Copy { source, target },
            ]
            &&& quiet_copies(seq![(path, ChangeKind::Deleted)], production_root, fresh_root)
                == Seq::<UpdateStepView>::empty()
            &&& update_plan(Seq::empty(), production_root, fresh_root, delete_missing, dry_run)
                == seq![UpdateStepView::Say("Nothing to update."@)]
            &&& quiet_copies(Seq::empty(), production_root, fresh_root) == Seq::<
                UpdateStepView,
            >::empty()
        }),
{
    reveal_strlit(" ");
    assert(" "@ == seq![' ']);
    let nothing = Seq::<(Seq<char>, ChangeKind)>::empty();
    let none = Seq::<UpdateStepView>::empty();
    let changed = seq![(path, kind)];
    let missing = seq![(path, ChangeKind::Deleted)];
    assert(changed.drop_last() == nothing && changed.last() == (path, kind));
    assert(missing.drop_last() == nothing && missing.last() == (path, ChangeKind::Deleted));
    assert forall|asked: bool, dry: bool| #[trigger]
        all_steps(nothing, production_root, fresh_root, asked, dry) == none by {}
    assert forall|asked: bool, dry: bool|
        {
            &&& #[trigger] all_steps(changed, production_root, fresh_root, asked, dry) == steps_for(
                (path, kind),
                production_root,
                fresh_root,
                asked,
                dry,
            )
            &&& all_steps(missing, production_root, fresh_root, asked, dry) == steps_for(
                (path, ChangeKind::Deleted),
                production_root,
                fresh_root,
                asked,
                dry,
            )
        } by {
        assert(all_steps(nothing, production_root, fresh_root, asked, dry) == none);
        let one = steps_for((path, kind), production_root, fresh_root, asked, dry);
        let other = steps_for((path, ChangeKind::Deleted), production_root, fresh_root, asked, dry);
        assert(none + one == one);
        assert(none + other == other);
    }
    assert(all_steps(changed, production_root, fresh_root, delete_missing, true).len() == 1);
    assert(all_steps(changed, production_root, fresh_root, true, true).len() == 1);
    assert(all_steps(changed, production_root, fresh_root, true, false).len() == 2);
    assert(all_steps(changed, production_root, fresh_root, false, true).len() == 1);
    assert(all_steps(changed, production_root, fresh_root, false, false).len() == 2);
    assert(quiet_copies(nothing, production_root, fresh_root) == none);
}

/// The changes of a kind.
pub open spec fn changes_of_kind(
    changes: Seq<(Seq<char>, ChangeKind)>,
    kind: ChangeKind,
) -> Seq<(Seq<char>, ChangeKind)> {
    changes.filter(|change: (Seq<char>, ChangeKind)| change.1 == kind)
}

/// A report has one line for each change, in their order, with how the file differs and its path. Its
/// last line says how many files are new, updated and deleted. Without changes it says so.
pub proof fn law_report_names_every_change(changes: Seq<(Seq<char>, ChangeKind)>, k: int)
    requires
        0 <= k < changes.len(),
    ensures
        ({
            let lines = report_lines(changes);
            let number = |kind: ChangeKind| decimal(changes_of_kind(changes, kind).len());
            &&& lines.len() == changes.len() + 1
            &&& lines[k] == (match changes[k].1 {
                ChangeKind::New => "NEW     "@,
                ChangeKind::Updated => "UPDATE  "@,
                ChangeKind::Deleted => "DELETE  "@,
            }) + changes[k].0
            &&& lines.last() == "\nSummary: "@ + number(ChangeKind::New) + " new, "@ + number(
                ChangeKind::Updated,
            ) + " updated, "@ + number(ChangeKind::Deleted) + " deleted"@
            &&& report_lines(Seq::empty()) == seq!["No new or updated files found."@]
        }),
{
    lemma_count_is_that_of_the_kind(changes, ChangeKind::New);
    lemma_count_is_that_of_the_kind(changes, ChangeKind::Updated);
    lemma_count_is_that_of_the_kind(changes, ChangeKind::Deleted);
}

/// The count of a kind is the number of changes of that kind.
proof fn lemma_count_is_that_of_the_kind(changes: Seq<(Seq<char>, ChangeKind)>, kind: ChangeKind)
    ensures
        count_of(changes, kind) == changes_of_kind(changes, kind).len(),
    decreases changes.len(),
{
    reveal(Seq::filter);
    if changes.len() > 0 {
        lemma_count_is_that_of_the_kind(changes.drop_last(), kind);
    }
}

/// Removing empty folders goes on upwards as long as folders turn out empty: after a folder is
/// removed the one around it is tried, unless it is the one to stop at. A folder that is not empty,
/// or is gone, ends the work, and an error is passed on.
pub proof fn law_empty_folders_are_removed_upwards(folder: Seq<char>, stop_at: Seq<char>)
    ensures
        removal_of(None, stop_at) is Done,
        components(folder) != components(stop_at) ==> removal_of(Some(folder), stop_at)
            == RemovalStepView::Try(folder),
        components(folder) == components(stop_at) ==> removal_of(Some(folder), stop_at) is Done,
        removal_after(folder, RemovalOutcome::NotEmpty, stop_at) is Done,
        removal_after(folder, RemovalOutcome::NotFound, stop_at) is Done,
        removal_after(folder, RemovalOutcome::Failed, stop_at) is Fail,
        ({
            let step = removal_after(folder, RemovalOutcome::Removed, stop_at);
            if components(folder).len() == 0 || components(folder) == seq![seq!['/']]
                || components(folder).drop_last() == components(stop_at) {
                step is Done
            } else {
                step is Try && components(step->Try_0) == components(folder).drop_last()
            }
        }),
{
    if has_parent(folder) {
        crate::path::lemma_parent_components(folder);
    }
}

} // verus!
