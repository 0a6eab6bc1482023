//! The command line: its options, and the stages of work that they ask for.

use crate::error::{ErrorView, UpxtoError};
use crate::text::{opt_view, same_text, views};
use vstd::prelude::*;

verus! {

/// Where projects are kept unless another file is named.
pub const DEFAULT_DB_FILE: &'static str = ".upxto/upxto.db";

/// What the help option prints.
pub const USAGE: &'static str =
    "UPXTO - compare and update a production folder from a fresh folder

Usage:
  upxto --tui
  upxto --index-production <folder>
  upxto --index-fresh <folder>
  upxto --show-changes
  upxto --index-production <folder> --index-fresh <folder> --tui
  upxto --backup-production
  upxto --update-production

Common workflow:
  upxto --tui

Inside TUI:
  Type or load a project name
  Press L at project prompt to list saved projects
  Navigate left panel to fresh folder, press Ctrl+A
  Navigate right panel to production folder, press Ctrl+S
  Use F3 diff, F5 copy selected new file, F6 update, F9 mkdir

Options:
  --tui                      Open project-aware two-panel folder browser
  --apply                    Alias for --update-production
  --dry-run                  Show what would be copied/deleted
  --delete-missing           Treat files absent from fresh as deletions
  --state <file>             SQLite database path, default .upxto/upxto.db
  --backup-dir <folder>      Backup destination, default .upxto/backups
  -h, --help                 Show help

Default excludes:
  .git, .upxto, __pycache__, .pytest_cache, .mypy_cache, node_modules,
  target, venv, .venv
";

/// Gives the text that the help option prints.
pub fn help_text() -> (text: &'static str)
    ensures
        text@ == USAGE@,
{
    USAGE
}

/// What the command line asks for.
#[derive(Debug)]
pub struct Config {
    pub index_production: Option<String>,
    pub index_fresh: Option<String>,
    pub show_changes: bool,
    pub backup_production: bool,
    pub update_production: bool,
    pub tui: bool,
    pub dry_run: bool,
    pub delete_missing: bool,
    pub state_file: String,
    pub backup_dir: Option<String>,
    pub help: bool,
}

/// A configuration as text.
#[verifier::ext_equal]
pub struct ConfigView {
    pub index_production: Option<Seq<char>>,
    pub index_fresh: Option<Seq<char>>,
    pub show_changes: bool,
    pub backup_production: bool,
    pub update_production: bool,
    pub tui: bool,
    pub dry_run: bool,
    pub delete_missing: bool,
    pub state_file: Seq<char>,
    pub backup_dir: Option<Seq<char>>,
    pub help: bool,
}

impl View for Config {
    type V = ConfigView;

    open spec fn view(&self) -> ConfigView {
        ConfigView {
            index_production: opt_view(self.index_production),
            index_fresh: opt_view(self.index_fresh),
            show_changes: self.show_changes,
            backup_production: self.backup_production,
            update_production: self.update_production,
            tui: self.tui,
            dry_run: self.dry_run,
            delete_missing: self.delete_missing,
            state_file: self.state_file@,
            backup_dir: opt_view(self.backup_dir),
            help: self.help,
        }
    }
}

/// A configuration that asks for nothing and names no file.
pub open spec fn empty_config() -> ConfigView {
    ConfigView {
        index_production: None,
        index_fresh: None,
        show_changes: false,
        backup_production: false,
        update_production: false,
        tui: false,
        dry_run: false,
        delete_missing: false,
        state_file: Seq::empty(),
        backup_dir: None,
        help: false,
    }
}

/// The configuration of an empty command line.
pub open spec fn default_config() -> ConfigView {
    ConfigView { state_file: DEFAULT_DB_FILE@, ..empty_config() }
}

impl Default for Config {
    fn default() -> (config: Config)
        ensures
            config@ == empty_config(),
    {
        Config {
            index_production: None,
            index_fresh: None,
            show_changes: false,
            backup_production: false,
            update_production: false,
            tui: false,
            dry_run: false,
            delete_missing: false,
            state_file: String::new(),
            backup_dir: None,
            help: false,
        }
    }
}

/// The options of the command line.
#[derive(Debug, Clone, Copy, PartialEq, Eq, Structural)]
pub enum CliOption {
    IndexProduction,
    IndexFresh,
    ShowChanges,
    Tui,
    BackupProduction,
    UpdateProduction,
    DryRun,
    DeleteMissing,
    StateFile,
    BackupDir,
    Help,
}

/// The option that an argument names.
pub open spec fn option_named(argument: Seq<char>) -> Option<CliOption> {
    if argument == "--index-production"@ {
        Some(CliOption::IndexProduction)
    } else if argument == "--index-fresh"@ {
        Some(CliOption::IndexFresh)
    } else if argument == "--show-changes"@ {
        Some(CliOption::ShowChanges)
    } else if argument == "--tui"@ {
        Some(CliOption::Tui)
    } else if argument == "--backup-production"@ {
        Some(CliOption::BackupProduction)
    } else if argument == "--update-production"@ || argument == "--apply"@ {
        Some(CliOption::UpdateProduction)
    } else if argument == "--dry-run"@ {
        Some(CliOption::DryRun)
    } else if argument == "--delete-missing"@ {
        Some(CliOption::DeleteMissing)
    } else if argument == "--state"@ {
        Some(CliOption::StateFile)
    } else if argument == "--backup-dir"@ {
        Some(CliOption::BackupDir)
    } else if argument == "-h"@ || argument == "--help"@ {
        Some(CliOption::Help)
    } else {
        None
    }
}

/// Finds the option that an argument names.
fn find_option(argument: &str) -> (option: Option<CliOption>)
    ensures
        option == option_named(argument@),
{
    if same_text(argument, "--index-production") {
        Some(CliOption::IndexProduction)
    } else if same_text(argument, "--index-fresh") {
        Some(CliOption::IndexFresh)
    } else if same_text(argument, "--show-changes") {
        Some(CliOption::ShowChanges)
    } else if same_text(argument, "--tui") {
        Some(CliOption::Tui)
    } else if same_text(argument, "--backup-production") {
        Some(CliOption::BackupProduction)
    } else if same_text(argument, "--update-production") || same_text(argument, "--apply") {
        Some(CliOption::UpdateProduction)
    } else if same_text(argument, "--dry-run") {
        Some(CliOption::DryRun)
    } else if same_text(argument, "--delete-missing") {
        Some(CliOption::DeleteMissing)
    } else if same_text(argument, "--state") {
        Some(CliOption::StateFile)
    } else if same_text(argument, "--backup-dir") {
        Some(CliOption::BackupDir)
    } else if same_text(argument, "-h") || same_text(argument, "--help") {
        Some(CliOption::Help)
    } else {
        None
    }
}

/// Whether the argument after an option belongs to it.
pub open spec fn takes_value(option: CliOption) -> bool {
    option == CliOption::IndexProduction || option == CliOption::IndexFresh || option
        == CliOption::StateFile || option == CliOption::BackupDir
}

/// The configuration with an option added. Options that take a value are given it.
pub open spec fn with_option(
    config: ConfigView,
    option: CliOption,
    value: Seq<char>,
) -> ConfigView {
    match option {
        CliOption::IndexProduction => ConfigView { index_production: Some(value), ..config },
        CliOption::IndexFresh => ConfigView { index_fresh: Some(value), ..config },
        CliOption::ShowChanges => ConfigView { show_changes: true, ..config },
        CliOption::Tui => ConfigView { tui: true, ..config },
        CliOption::BackupProduction => ConfigView { backup_production: true, ..config },
        CliOption::UpdateProduction => ConfigView { update_production: true, ..config },
        CliOption::DryRun => ConfigView { dry_run: true, ..config },
        CliOption::DeleteMissing => ConfigView { delete_missing: true, ..config },
        CliOption::StateFile => ConfigView { state_file: value, ..config },
        CliOption::BackupDir => ConfigView { backup_dir: Some(value), ..config },
        CliOption::Help => ConfigView { help: true, ..config },
    }
}

/// What arguments add to a configuration, or the first mistake in them.
pub open spec fn parsed(config: ConfigView, arguments: Seq<Seq<char>>) -> Result<
    ConfigView,
    ErrorView,
>
    decreases arguments.len(),
{
    if arguments.len() == 0 {
        Ok(config)
    } else {
        match option_named(arguments[0]) {
            None => Err(ErrorView::UnknownArgument(arguments[0])),
            Some(option) => if !takes_value(option) {
                parsed(with_option(config, option, Seq::empty()), arguments.skip(1))
            } else if arguments.len() == 1 {
                Err(ErrorView::MissingValue(arguments[0]))
            } else {
                parsed(with_option(config, option, arguments[1]), arguments.skip(2))
            },
        }
    }
}

/// The value of an option: the argument at `place`.
pub fn next_path(arguments: &[String], place: usize, option: &str) -> (path: Result<
    String,
    UpxtoError,
>)
    ensures
        match path {
            Ok(text) => place < arguments@.len() && text@ == arguments@[place as int]@,
            Err(error) => place >= arguments@.len() && error@ == ErrorView::MissingValue(option@),
        },
{
    if place < arguments.len() {
        Ok(arguments[place].clone())
    } else {
        Err(UpxtoError::MissingValue(option.to_owned()))
    }
}

/// Reads the command line.
pub fn parse_args(arguments: &[String]) -> (config: Result<Config, UpxtoError>)
    ensures
        match config {
            Ok(found) => parsed(default_config(), views(arguments@)) == Ok::<
                ConfigView,
                ErrorView,
            >(found@),
            Err(error) => parsed(default_config(), views(arguments@)) == Err::<
                ConfigView,
                ErrorView,
            >(error@),
        },
{
    let ghost all = views(arguments@);
    let mut config = Config::default();
    config.state_file = DEFAULT_DB_FILE.to_owned();
    let mut place: usize = 0;
    assert(all.skip(0) == all);
    while place < arguments.len()
        invariant
            all == views(arguments@),
            place <= arguments@.len(),
            parsed(config@, all.skip(place as int)) == parsed(default_config(), all),
        decreases arguments@.len() - place,
    {
        let argument = arguments[place].as_str();
        assert(all.skip(place as int)[0] == argument@);
        assert(all.skip(place as int).skip(1) == all.skip(place + 1));
        let option = match find_option(argument) {
            Some(found) => found,
            None => {
                return Err(UpxtoError::UnknownArgument(argument.to_owned()));
            },
        };
        place += 1;
        let ghost before = config@;
        match option {
            CliOption::ShowChanges => {
                config.show_changes = true;
            },
            CliOption::Tui => {
                config.tui = true;
            },
            CliOption::BackupProduction => {
                config.backup_production = true;
            },
            CliOption::UpdateProduction => {
                config.update_production = true;
            },
            CliOption::DryRun => {
                config.dry_run = true;
            },
            CliOption::DeleteMissing => {
                config.delete_missing = true;
            },
            CliOption::Help => {
                config.help = true;
            },
            CliOption::IndexProduction | CliOption::IndexFresh | CliOption::StateFile
            | CliOption::BackupDir => {
                let value = next_path(arguments, place, argument)?;
                assert(all.skip(place - 1)[1] == value@);
                assert(all.skip(place - 1).skip(2) == all.skip(place + 1));
                place += 1;
                if option == CliOption::IndexProduction {
                    config.index_production = Some(value);
                } else if option == CliOption::IndexFresh {
                    config.index_fresh = Some(value);
                } else if option == CliOption::StateFile {
                    config.state_file = value;
                } else {
                    config.backup_dir = Some(value);
                }
            },
        }
    }
    assert(all.skip(all.len() as int).len() == 0);
    Ok(config)
}

/// Whether a configuration asks for no work at all.
pub open spec fn asks_nothing(config: ConfigView) -> bool {
    config.index_production is None && config.index_fresh is None && !config.show_changes
        && !config.tui && !config.backup_production && !config.update_production
}

/// Tells whether there is nothing to do.
pub fn no_actions(config: &Config) -> (nothing: bool)
    ensures
        nothing == asks_nothing(config@),
{
    config.index_production.is_none() && config.index_fresh.is_none() && !config.show_changes
        && !config.tui && !config.backup_production && !config.update_production
}

/// A stage of work.
#[derive(Debug)]
pub enum Stage {
    Help,
    IndexProduction(String),
    IndexFresh(String),
    ShowChanges,
    Tui,
    BackupProduction,
    UpdateProduction,
}

/// A stage with its folder as text.
pub enum StageView {
    Help,
    IndexProduction(Seq<char>),
    IndexFresh(Seq<char>),
    ShowChanges,
    Tui,
    BackupProduction,
    UpdateProduction,
}

impl View for Stage {
    type V = StageView;

    open spec fn view(&self) -> StageView {
        match self {
            Stage::Help => StageView::Help,
            Stage::IndexProduction(folder) => StageView::IndexProduction(folder@),
            Stage::IndexFresh(folder) => StageView::IndexFresh(folder@),
            Stage::ShowChanges => StageView::ShowChanges,
            Stage::Tui => StageView::Tui,
            Stage::BackupProduction => StageView::BackupProduction,
            Stage::UpdateProduction => StageView::UpdateProduction,
        }
    }
}

/// One stage if it is wanted, else none.
pub open spec fn stage_if(wanted: bool, stage: StageView) -> Seq<StageView> {
    if wanted {
        seq![stage]
    } else {
        Seq::empty()
    }
}

/// The stages that a configuration asks for, in their order. Asking for help, or for nothing, gives
/// the help text alone.
pub open spec fn stages_of(config: ConfigView) -> Seq<StageView> {
    if config.help || asks_nothing(config) {
        seq![StageView::Help]
    } else {
        stage_if(
            config.index_production is Some,
            StageView::IndexProduction(config.index_production->0),
        ) + stage_if(config.index_fresh is Some, StageView::IndexFresh(config.index_fresh->0))
            + stage_if(config.show_changes, StageView::ShowChanges) + stage_if(
            config.tui,
            StageView::Tui,
        ) + stage_if(config.backup_production, StageView::BackupProduction) + stage_if(
            config.update_production,
            StageView::UpdateProduction,
        )
    }
}

/// Adds a stage at the end.
fn push_stage(stages: &mut Vec<Stage>, stage: Stage)
    ensures
        views(final(stages)@) == views(old(stages)@).push(stage@),
{
    let ghost before = views(stages@);
    let ghost added = stage@;
    stages.push(stage);
    assert(views(stages@) == before.push(added));
}

/// Lists the stages of work.
pub fn plan_stages(config: &Config) -> (stages: Vec<Stage>)
    ensures
        views(stages@) == stages_of(config@),
{
    let mut stages: Vec<Stage> = Vec::new();
    if config.help || no_actions(config) {
        stages.push(Stage::Help);
        assert(views(stages@) == stages_of(config@));
        return stages;
    }
    if let Some(folder) = &config.index_production {
        push_stage(&mut stages, Stage::IndexProduction(folder.clone()));
    }
    let ghost first = views(stages@);
    assert(first == stage_if(
        config@.index_production is Some,
        StageView::IndexProduction(config@.index_production->0),
    ));
    if let Some(folder) = &config.index_fresh {
        push_stage(&mut stages, Stage::IndexFresh(folder.clone()));
    }
    let ghost second = views(stages@);
    assert(second == first + stage_if(
        config@.index_fresh is Some,
        StageView::IndexFresh(config@.index_fresh->0),
    ));
    if config.show_changes {
        push_stage(&mut stages, Stage::ShowChanges);
    }
    let ghost third = views(stages@);
    assert(third == second + stage_if(config@.show_changes, StageView::ShowChanges));
    if config.tui {
        push_stage(&mut stages, Stage::Tui);
    }
    let ghost fourth = views(stages@);
    assert(fourth == third + stage_if(config@.tui, StageView::Tui));
    if config.backup_production {
        push_stage(&mut stages, Stage::BackupProduction);
    }
    let ghost fifth = views(stages@);
    assert(fifth == fourth + stage_if(config@.backup_production, StageView::BackupProduction));
    if config.update_production {
        push_stage(&mut stages, Stage::UpdateProduction);
    }
    assert(views(stages@) == fifth + stage_if(
        config@.update_production,
        StageView::UpdateProduction,
    ));
    stages
}

/// Tells whether production is indexed and the project saved again after an update. A dry run has
/// changed nothing, so it is followed by neither.
pub fn refreshes_index(config: &Config) -> (refreshes: bool)
    ensures
        refreshes == !config@.dry_run,
{
    !config.dry_run
}

/// Which option each name stands for.
proof fn lemma_option_names()
    ensures
        option_named("--index-production"@) == Some(CliOption::IndexProduction),
        option_named("--index-fresh"@) == Some(CliOption::IndexFresh),
        option_named("--show-changes"@) == Some(CliOption::ShowChanges),
        option_named("--tui"@) == Some(CliOption::Tui),
        option_named("--backup-production"@) == Some(CliOption::BackupProduction),
        option_named("--update-production"@) == Some(CliOption::UpdateProduction),
        option_named("--apply"@) == Some(CliOption::UpdateProduction),
        option_named("--dry-run"@) == Some(CliOption::DryRun),
        option_named("--delete-missing"@) == Some(CliOption::DeleteMissing),
        option_named("--state"@) == Some(CliOption::StateFile),
        option_named("--backup-dir"@) == Some(CliOption::BackupDir),
        option_named("-h"@) == Some(CliOption::Help),
        option_named("--help"@) == Some(CliOption::Help),
{
    reveal_strlit("--index-production");
    reveal_strlit("--index-fresh");
    reveal_strlit("--show-changes");
    reveal_strlit("--tui");
    reveal_strlit("--backup-production");
    reveal_strlit("--update-production");
    reveal_strlit("--apply");
    reveal_strlit("--dry-run");
    reveal_strlit("--delete-missing");
    reveal_strlit("--state");
    reveal_strlit("--backup-dir");
    reveal_strlit("-h");
    reveal_strlit("--help");
    assert("--index-production"@.len() == 18);
    assert("--index-fresh"@.len() == 13);
    assert("--show-changes"@.len() == 14);
    assert("--tui"@.len() == 5);
    assert("--backup-production"@.len() == 19);
    assert("--update-production"@.len() == 19);
    assert("--apply"@.len() == 7);
    assert("--dry-run"@.len() == 9);
    assert("--delete-missing"@.len() == 16);
    assert("--state"@.len() == 7);
    assert("--backup-dir"@.len() == 12);
    assert("-h"@.len() == 2);
    assert("--help"@.len() == 6);
    assert("--backup-production"@[2] != "--update-production"@[2]);
    assert("--apply"@[2] != "--state"@[2]);
}

/// The names of the options.
pub open spec fn option_names() -> Seq<Seq<char>> {
    seq![
        "--index-production"@,
        "--index-fresh"@,
        "--show-changes"@,
        "--tui"@,
        "--backup-production"@,
        "--update-production"@,
        "--apply"@,
        "--dry-run"@,
        "--delete-missing"@,
        "--state"@,
        "--backup-dir"@,
        "-h"@,
        "--help"@,
    ]
}

/// What one argument alone, and one argument with a value, add to a configuration.
proof fn lemma_one_argument(config: ConfigView, argument: Seq<char>, value: Seq<char>)
    ensures
        match option_named(argument) {
            None => parsed(config, seq![argument]) == Err::<ConfigView, ErrorView>(
                ErrorView::UnknownArgument(argument),
            ),
            Some(option) => if takes_value(option) {
                parsed(config, seq![argument]) == Err::<ConfigView, ErrorView>(
                    ErrorView::MissingValue(argument),
                ) && parsed(config, seq![argument, value]) == Ok::<ConfigView, ErrorView>(
                    with_option(config, option, value),
                )
            } else {
                parsed(config, seq![argument]) == Ok::<ConfigView, ErrorView>(
                    with_option(config, option, Seq::empty()),
                )
            },
        },
{
    let alone = seq![argument];
    let both = seq![argument, value];
    assert(alone[0] == argument && both[0] == argument && both[1] == value);
    assert(alone.skip(1) == Seq::<Seq<char>>::empty());
    assert(both.skip(2) == Seq::<Seq<char>>::empty());
    reveal_with_fuel(parsed, 2);
}

/// Every option sets its own field and no other: a flag by its name alone, an option with a value by
/// its name and the value. A name without its value is refused, and so is every other argument.
pub proof fn law_each_option_sets_its_own_field(
    config: ConfigView,
    value: Seq<char>,
    other: Seq<char>,
)
    ensures
        parsed(config, Seq::empty()) == Ok::<ConfigView, ErrorView>(config),
        parsed(config, seq!["--show-changes"@]) == Ok::<ConfigView, ErrorView>(
            ConfigView { show_changes: true, ..config },
        ),
        parsed(config, seq!["--tui"@]) == Ok::<ConfigView, ErrorView>(
            ConfigView { tui: true, ..config },
        ),
        parsed(config, seq!["--backup-production"@]) == Ok::<ConfigView, ErrorView>(
            ConfigView { backup_production: true, ..config },
        ),
        parsed(config, seq!["--update-production"@]) == Ok::<ConfigView, ErrorView>(
            ConfigView { update_production: true, ..config },
        ),
        parsed(config, seq!["--apply"@]) == Ok::<ConfigView, ErrorView>(
            ConfigView { update_production: true, ..config },
        ),
        parsed(config, seq!["--dry-run"@]) == Ok::<ConfigView, ErrorView>(
            ConfigView { dry_run: true, ..config },
        ),
        parsed(config, seq!["--delete-missing"@]) == Ok::<ConfigView, ErrorView>(
            ConfigView { delete_missing: true, ..config },
        ),
        parsed(config, seq!["-h"@]) == Ok::<ConfigView, ErrorView>(
            ConfigView { help: true, ..config },
        ),
        parsed(config, seq!["--help"@]) == Ok::<ConfigView, ErrorView>(
            ConfigView { help: true, ..config },
        ),
        parsed(config, seq!["--index-production"@, value]) == Ok::<ConfigView, ErrorView>(
            ConfigView { index_production: Some(value), ..config },
        ),
        parsed(config, seq!["--index-production"@]) == Err::<ConfigView, ErrorView>(
            ErrorView::MissingValue("--index-production"@),
        ),
        parsed(config, seq!["--index-fresh"@, value]) == Ok::<ConfigView, ErrorView>(
            ConfigView { index_fresh: Some(value), ..config },
        ),
        parsed(config, seq!["--index-fresh"@]) == Err::<ConfigView, ErrorView>(
            ErrorView::MissingValue("--index-fresh"@),
        ),
        parsed(config, seq!["--state"@, value]) == Ok::<ConfigView, ErrorView>(
            ConfigView { state_file: value, ..config },
        ),
        parsed(config, seq!["--state"@]) == Err::<ConfigView, ErrorView>(
            ErrorView::MissingValue("--state"@),
        ),
        parsed(config, seq!["--backup-dir"@, value]) == Ok::<ConfigView, ErrorView>(
            ConfigView { backup_dir: Some(value), ..config },
        ),
        parsed(config, seq!["--backup-dir"@]) == Err::<ConfigView, ErrorView>(
            ErrorView::MissingValue("--backup-dir"@),
        ),
        !option_names().contains(other) ==> parsed(config, seq![other]) == Err::<
            ConfigView,
            ErrorView,
        >(ErrorView::UnknownArgument(other)),
{
    lemma_option_names();
    lemma_one_argument(config, "--show-changes"@, value);
    lemma_one_argument(config, "--tui"@, value);
    lemma_one_argument(config, "--backup-production"@, value);
    lemma_one_argument(config, "--update-production"@, value);
    lemma_one_argument(config, "--apply"@, value);
    lemma_one_argument(config, "--dry-run"@, value);
    lemma_one_argument(config, "--delete-missing"@, value);
    lemma_one_argument(config, "-h"@, value);
    lemma_one_argument(config, "--help"@, value);
    lemma_one_argument(config, "--index-production"@, value);
    lemma_one_argument(config, "--index-fresh"@, value);
    lemma_one_argument(config, "--state"@, value);
    lemma_one_argument(config, "--backup-dir"@, value);
    lemma_one_argument(config, other, value);
    if !option_names().contains(other) {
        let names = option_names();
        assert(names[0] == "--index-production"@ && names.contains(names[0]));
        assert(names[1] == "--index-fresh"@ && names.contains(names[1]));
        assert(names[2] == "--show-changes"@ && names.contains(names[2]));
        assert(names[3] == "--tui"@ && names.contains(names[3]));
        assert(names[4] == "--backup-production"@ && names.contains(names[4]));
        assert(names[5] == "--update-production"@ && names.contains(names[5]));
        assert(names[6] == "--apply"@ && names.contains(names[6]));
        assert(names[7] == "--dry-run"@ && names.contains(names[7]));
        assert(names[8] == "--delete-missing"@ && names.contains(names[8]));
        assert(names[9] == "--state"@ && names.contains(names[9]));
        assert(names[10] == "--backup-dir"@ && names.contains(names[10]));
        assert(names[11] == "-h"@ && names.contains(names[11]));
        assert(names[12] == "--help"@ && names.contains(names[12]));
    }
}

/// Arguments are read one after another: what follows is read as if the configuration so far were the
/// one to start with, and the first unknown argument is the one that is reported.
pub proof fn law_arguments_are_read_in_order(
    config: ConfigView,
    first: Seq<Seq<char>>,
    second: Seq<Seq<char>>,
)
    ensures
        match parsed(config, first) {
            Ok(read) => parsed(config, first + second) == parsed(read, second),
            Err(ErrorView::UnknownArgument(argument)) => parsed(config, first + second) == Err::<
                ConfigView,
                ErrorView,
            >(ErrorView::UnknownArgument(argument)),
            Err(_) => true,
        },
    decreases first.len(),
{
    let all = first + second;
    if first.len() == 0 {
        assert(all == second);
    } else {
        assert(all[0] == first[0]);
        match option_named(first[0]) {
            None => {},
            Some(option) => {
                if !takes_value(option) {
                    assert(all.skip(1) == first.skip(1) + second);
                    law_arguments_are_read_in_order(
                        with_option(config, option, Seq::empty()),
                        first.skip(1),
                        second,
                    );
                } else if first.len() > 1 {
                    assert(all[1] == first[1]);
                    assert(all.skip(2) == first.skip(2) + second);
                    law_arguments_are_read_in_order(
                        with_option(config, option, first[1]),
                        first.skip(2),
                        second,
                    );
                }
            },
        }
    }
}

/// Nothing is asked for without its name: a field is as before unless an argument names it. So files
/// are deleted only where deletion is named.
pub proof fn law_nothing_is_asked_for_unnamed(config: ConfigView, arguments: Seq<Seq<char>>)
    requires
        parsed(config, arguments) is Ok,
    ensures
        ({
            let read = parsed(config, arguments)->Ok_0;
            &&& !arguments.contains("--index-production"@) ==> read.index_production
                == config.index_production
            &&& !arguments.contains("--index-fresh"@) ==> read.index_fresh
                == config.index_fresh
            &&& !arguments.contains("--show-changes"@) ==> read.show_changes
                == config.show_changes
            &&& !arguments.contains("--tui"@) ==> read.tui
                == config.tui
            &&& !arguments.contains("--backup-production"@) ==> read.backup_production
                == config.backup_production
            &&& !arguments.contains("--update-production"@) && !arguments.contains("--apply"@) ==> read.update_production
                == config.update_production
            &&& !arguments.contains("--dry-run"@) ==> read.dry_run
                == config.dry_run
            &&& !arguments.contains("--delete-missing"@) ==> read.delete_missing
                == config.delete_missing
            &&& !arguments.contains("--state"@) ==> read.state_file
                == config.state_file
            &&& !arguments.contains("--backup-dir"@) ==> read.backup_dir
                == config.backup_dir
            &&& !arguments.contains("-h"@) && !arguments.contains("--help"@) ==> read.help
                == config.help
        }),
    decreases arguments.len(),
{
    if arguments.len() > 0 {
        let used: int = if takes_value(option_named(arguments[0])->0) {
            2
        } else {
            1
        };
        let rest = arguments.skip(used);
        let value = if used == 2 {
            arguments[1]
        } else {
            Seq::empty()
        };
        let next = with_option(config, option_named(arguments[0])->0, value);
        law_nothing_is_asked_for_unnamed(next, rest);
        assert forall|name: Seq<char>| #[trigger] rest.contains(name) implies arguments.contains(
            name,
        ) by {
            let k = rest.index_of(name);
            assert(arguments[used + k] == name);
        }
        assert(arguments.contains(arguments[0]));
    }
}

/// An empty command line names the default database and asks for nothing, least of all for deletion.
pub proof fn law_nothing_is_asked_for_by_default()
    ensures
        parsed(default_config(), Seq::empty()) == Ok::<ConfigView, ErrorView>(
            ConfigView {
                index_production: None,
                index_fresh: None,
                show_changes: false,
                backup_production: false,
                update_production: false,
                tui: false,
                dry_run: false,
                delete_missing: false,
                state_file: ".upxto/upxto.db"@,
                backup_dir: None,
                help: false,
            },
        ),
{
}

/// Whether a stage comes before another, where both are to be run.
pub open spec fn runs_before(stages: Seq<StageView>, first: StageView, second: StageView) -> bool {
    forall|i: int, j: int|
        0 <= i < stages.len() && 0 <= j < stages.len() && #[trigger] stages[i] == first
            && #[trigger] stages[j] == second ==> i < j
}

/// Where help is asked for, or nothing at all, help is the only stage. Else a stage is run, and once,
/// exactly when it is asked for; folders are indexed before anything is compared, and production is
/// backed up before it is updated, which comes last.
pub proof fn law_stages_are_what_is_asked_for(config: ConfigView, p: Seq<char>, f: Seq<char>)
    ensures
        ({
            let stages = stages_of(config);
            let helps = config.help || (config.index_production is None && config.index_fresh
                is None && !config.show_changes && !config.tui && !config.backup_production
                && !config.update_production);
            &&& helps ==> stages == seq![StageView::Help]
            &&& !helps ==> {
                &&& stages.no_duplicates()
                &&& !stages.contains(StageView::Help)
                &&& stages.contains(StageView::IndexProduction(p)) <==> config.index_production
                    == Some(p)
                &&& stages.contains(StageView::IndexFresh(f)) <==> config.index_fresh == Some(f)
                &&& stages.contains(StageView::ShowChanges) <==> config.show_changes
                &&& stages.contains(StageView::Tui) <==> config.tui
                &&& stages.contains(StageView::BackupProduction) <==> config.backup_production
                &&& stages.contains(StageView::UpdateProduction) <==> config.update_production
                &&& runs_before(stages, StageView::IndexProduction(p), StageView::IndexFresh(f))
                &&& runs_before(stages, StageView::IndexFresh(f), StageView::ShowChanges)
                &&& runs_before(stages, StageView::IndexProduction(p), StageView::ShowChanges)
                &&& runs_before(stages, StageView::IndexFresh(f), StageView::UpdateProduction)
                &&& runs_before(
                    stages,
                    StageView::IndexProduction(p),
                    StageView::UpdateProduction,
                )
                &&& runs_before(stages, StageView::ShowChanges, StageView::Tui)
                &&& runs_before(stages, StageView::ShowChanges, StageView::UpdateProduction)
                &&& runs_before(stages, StageView::Tui, StageView::BackupProduction)
                &&& runs_before(stages, StageView::BackupProduction, StageView::UpdateProduction)
                &&& runs_before(stages, StageView::Tui, StageView::UpdateProduction)
            }
        }),
{
    if !(config.help || asks_nothing(config)) {
        let stages = stages_of(config);
        let index_production = StageView::IndexProduction(p);
        let index_fresh = StageView::IndexFresh(f);
        lemma_stages(config);
        lemma_order_is_kept(stages, index_production, index_fresh);
        lemma_order_is_kept(stages, index_fresh, StageView::ShowChanges);
        lemma_order_is_kept(stages, index_production, StageView::ShowChanges);
        lemma_order_is_kept(stages, index_fresh, StageView::UpdateProduction);
        lemma_order_is_kept(stages, index_production, StageView::UpdateProduction);
        lemma_order_is_kept(stages, StageView::ShowChanges, StageView::Tui);
        lemma_order_is_kept(stages, StageView::ShowChanges, StageView::UpdateProduction);
        lemma_order_is_kept(stages, StageView::Tui, StageView::BackupProduction);
        lemma_order_is_kept(stages, StageView::BackupProduction, StageView::UpdateProduction);
        lemma_order_is_kept(stages, StageView::Tui, StageView::UpdateProduction);
        assert(stage_is_wanted(config, index_production) <==> stages.contains(index_production));
        assert(stage_is_wanted(config, index_fresh) <==> stages.contains(index_fresh));
        assert(!stages.contains(StageView::Help));
    }
}

/// Whether a stage is asked for.
spec fn stage_is_wanted(config: ConfigView, stage: StageView) -> bool {
    match stage {
        StageView::IndexProduction(folder) => config.index_production == Some(folder),
        StageView::IndexFresh(folder) => config.index_fresh == Some(folder),
        StageView::ShowChanges => config.show_changes,
        StageView::Tui => config.tui,
        StageView::BackupProduction => config.backup_production,
        StageView::UpdateProduction => config.update_production,
        StageView::Help => false,
    }
}

/// How far on the list a stage stands.
spec fn stage_rank(stage: StageView) -> int {
    match stage {
        StageView::IndexProduction(_) => 0,
        StageView::IndexFresh(_) => 1,
        StageView::ShowChanges => 2,
        StageView::Tui => 3,
        StageView::BackupProduction => 4,
        StageView::UpdateProduction => 5,
        StageView::Help => 6,
    }
}

/// Whether stages stand in their order, all of them before a place on the list.
spec fn stages_in_order(stages: Seq<StageView>, end: int) -> bool {
    &&& forall|i: int|
        0 <= i < stages.len() ==> stage_rank(#[trigger] stages[i]) < end
    &&& forall|i: int, j: int|
        0 <= i < j < stages.len() ==> stage_rank(#[trigger] stages[i]) < stage_rank(
            #[trigger] stages[j],
        )
}

/// A wanted stage that comes later joins the others at the end.
proof fn lemma_stage_is_added(stages: Seq<StageView>, wanted: bool, stage: StageView)
    requires
        stages_in_order(stages, stage_rank(stage)),
    ensures
        stages_in_order(stages + stage_if(wanted, stage), stage_rank(stage) + 1),
        forall|other: StageView| #[trigger]
            (stages + stage_if(wanted, stage)).contains(other) <==> stages.contains(other) || (
            wanted && other == stage),
{
    let all = stages + stage_if(wanted, stage);
    assert forall|other: StageView| #[trigger] all.contains(other) <==> stages.contains(other) || (
    wanted && other == stage) by {
        if stages.contains(other) {
            let k = stages.index_of(other);
            assert(all[k] == other);
        }
        if wanted {
            assert(all[stages.len() as int] == stage);
        }
    }
}

/// The stages are the wanted ones, in their order.
proof fn lemma_stages(config: ConfigView)
    requires
        !(config.help || asks_nothing(config)),
    ensures
        stages_in_order(stages_of(config), 6),
        forall|stage: StageView| #[trigger]
            stages_of(config).contains(stage) <==> stage_is_wanted(config, stage),
{
    let none = Seq::<StageView>::empty();
    let first = stage_if(
        config.index_production is Some,
        StageView::IndexProduction(config.index_production->0),
    );
    assert(none + first == first);
    lemma_stage_is_added(
        none,
        config.index_production is Some,
        StageView::IndexProduction(config.index_production->0),
    );
    let fresh = StageView::IndexFresh(config.index_fresh->0);
    lemma_stage_is_added(first, config.index_fresh is Some, fresh);
    let second = first + stage_if(config.index_fresh is Some, fresh);
    lemma_stage_is_added(second, config.show_changes, StageView::ShowChanges);
    let third = second + stage_if(config.show_changes, StageView::ShowChanges);
    lemma_stage_is_added(third, config.tui, StageView::Tui);
    let fourth = third + stage_if(config.tui, StageView::Tui);
    lemma_stage_is_added(fourth, config.backup_production, StageView::BackupProduction);
    let fifth = fourth + stage_if(config.backup_production, StageView::BackupProduction);
    lemma_stage_is_added(fifth, config.update_production, StageView::UpdateProduction);
    let stages = fifth + stage_if(config.update_production, StageView::UpdateProduction);
    assert(stages == stages_of(config));
    assert forall|stage: StageView| #[trigger]
        stages_of(config).contains(stage) <==> stage_is_wanted(config, stage) by {
        assert(!none.contains(stage));
        assert(first == none + first);
        assert(first.contains(stage) <==> (config.index_production is Some && stage
            == StageView::IndexProduction(config.index_production->0)));
        assert(second.contains(stage) <==> first.contains(stage) || (config.index_fresh is Some
            && stage == fresh));
        assert(third.contains(stage) <==> second.contains(stage) || (config.show_changes && stage
            == StageView::ShowChanges));
        assert(fourth.contains(stage) <==> third.contains(stage) || (config.tui && stage
            == StageView::Tui));
        assert(fifth.contains(stage) <==> fourth.contains(stage) || (config.backup_production
            && stage == StageView::BackupProduction));
    }
}

/// A stage that stands earlier on the list is run before one that stands later.
proof fn lemma_order_is_kept(stages: Seq<StageView>, first: StageView, second: StageView)
    requires
        stages_in_order(stages, 6),
        stage_rank(first) < stage_rank(second),
    ensures
        runs_before(stages, first, second),
        stages.no_duplicates(),
{
    assert forall|i: int, j: int|
        0 <= i < stages.len() && 0 <= j < stages.len() && #[trigger] stages[i] == first
            && #[trigger] stages[j] == second implies i < j by {
        if j < i {
            assert(stage_rank(stages[j]) < stage_rank(stages[i]));
        }
    }
    assert forall|i: int, j: int|
        0 <= i < stages.len() && 0 <= j < stages.len() && i != j implies stages[i]
        != stages[j] by {
        assert(i < j || j < i);
    }
}

} // verus!
