//! The command-line grammar of `box`.
//!
//! ```text
//! box [-v|--verbose] <COMMAND>
//!   workspace|ws add <NAME> [--repo <R>]... [--preset <P>] [--strategy <S>] [--no-fetch]
//!   workspace|ws list|ls [-q|--quiet]
//!   workspace|ws remove|rm [NAME] [-a|--all] [--older-than <AGE>]
//!   workspace|ws switch|sw <NAME>
//!   repo add|remove|rm <REPO>... [--workspace <W> | --preset <P>]
//!   repo list|ls [--workspace <W> | --preset <P>]
//!   source add <SRC> | remove|rm <NAME> | list|ls
//!   preset add|update <NAME> --repo <R>... | remove|rm <NAME> | list|ls
//!   rebase <BRANCH> --workspace <W> --repo <R>
//!   upgrade
//!   config zsh|bash
//! ```
//!
//! `-v/--verbose` and `-h/--help` are accepted at every level, and `help`
//! wherever a subcommand is expected. Options may come before, after or
//! between positionals; `--long=value` is accepted for options with a
//! value; short flags may be grouped (`-av`); `--` ends option parsing.
//! An option that takes one value may be given once. `BOX_VERBOSE`
//! (`true`/`false`) stands in for an absent `--verbose`, and
//! `BOX_STRATEGY` for an absent `--strategy`, whose default is `worktree`.
use vstd::prelude::*;
use crate::strset::strs;
use crate::text::{chars_of, copy_str, str_eq, string_of_range};

verus! {

// ---------------------------------------------------------------------------
// Parsed command line
// ---------------------------------------------------------------------------

/// A parsed command line.
#[derive(Debug)]
pub struct Cli {
    /// Show detailed output
    pub verbose: bool,
    pub command: Option<Commands>,
}

#[derive(Debug)]
pub enum Commands {
    /// Manage workspaces (create, list, switch, remove)
    Workspace { action: WorkspaceAction },
    /// Manage repos within a workspace or preset
    Repo { action: RepoAction },
    /// Manage registered sources (upstream git repos)
    Source { action: SourceAction },
    /// Manage presets
    Preset { action: PresetAction },
    /// Fetch origin and rebase a workspace repo onto another branch
    Rebase(RebaseArgs),
    /// Self-update to the latest version
    Upgrade,
    /// Output shell configuration
    Config { shell: ConfigShell },
}

#[derive(Debug)]
pub enum WorkspaceAction {
    Add(CreateArgs),
    List(ListArgs),
    Remove(RemoveArgs),
    Switch { name: String },
}

#[derive(Debug)]
pub enum RepoAction {
    Add(RepoEditArgs),
    Remove(RepoEditArgs),
    List(RepoListArgs),
}

#[derive(Debug)]
pub enum SourceAction {
    Add { src: String },
    Remove { name: String },
    List,
}

#[derive(Debug)]
pub enum PresetAction {
    Add { name: String, repo: Vec<String> },
    Update { name: String, repo: Vec<String> },
    Remove { name: String },
    List,
}

#[derive(Debug)]
pub struct CreateArgs {
    pub name: String,
    pub repo: Vec<String>,
    pub preset: Option<String>,
    pub strategy: String,
    pub no_fetch: bool,
}

#[derive(Debug)]
pub struct RepoEditArgs {
    pub repo: Vec<String>,
    pub workspace: Option<String>,
    pub preset: Option<String>,
}

#[derive(Debug)]
pub struct RepoListArgs {
    pub workspace: Option<String>,
    pub preset: Option<String>,
}

#[derive(Debug)]
pub struct RemoveArgs {
    pub name: Option<String>,
    pub all: bool,
    pub older_than: Option<String>,
}

#[derive(Debug)]
pub struct ListArgs {
    pub quiet: bool,
}

#[derive(Debug)]
pub struct RebaseArgs {
    pub branch: String,
    pub workspace: String,
    pub repo: String,
}

#[derive(Debug, Clone, Copy, PartialEq, Eq, Structural)]
pub enum ConfigShell {
    Zsh,
    Bash,
}

/// Why a command line was not accepted.
#[derive(Debug, Clone, Copy, PartialEq, Eq, Structural)]
pub enum CliError {
    /// Help was asked for (`-h`, `--help`, or `help` as a subcommand).
    Help,
    /// The argument at this position names no option of its command.
    UnknownArgument(usize),
    /// The word at this position names no subcommand.
    UnrecognizedSubcommand(usize),
    /// A flag at this position was given a value (`--all=x`).
    UnexpectedValue(usize),
    /// The option expects a value that was not given.
    MissingValue(Opt),
    /// An option given once already was given again at this position.
    RepeatedArgument(usize),
    /// The positional argument at this position has no place.
    UnexpectedArgument(usize),
    /// Two mutually exclusive arguments were both given.
    Conflict,
    /// A required argument is missing.
    MissingRequired,
    /// The command needs a subcommand.
    MissingSubcommand,
}

// ---------------------------------------------------------------------------
// Models
// ---------------------------------------------------------------------------

pub open spec fn opt_str(o: Option<String>) -> Option<Seq<char>> {
    match o {
        Some(s) => Some(s@),
        None => None,
    }
}

pub enum WorkspaceActionModel {
    Add { name: Seq<char>, repo: Seq<Seq<char>>, preset: Option<Seq<char>>, strategy: Seq<char>, no_fetch: bool },
    List { quiet: bool },
    Remove { name: Option<Seq<char>>, all: bool, older_than: Option<Seq<char>> },
    Switch { name: Seq<char> },
}

pub enum RepoActionModel {
    Add { repo: Seq<Seq<char>>, workspace: Option<Seq<char>>, preset: Option<Seq<char>> },
    Remove { repo: Seq<Seq<char>>, workspace: Option<Seq<char>>, preset: Option<Seq<char>> },
    List { workspace: Option<Seq<char>>, preset: Option<Seq<char>> },
}

pub enum SourceActionModel {
    Add { src: Seq<char> },
    Remove { name: Seq<char> },
    List,
}

pub enum PresetActionModel {
    Add { name: Seq<char>, repo: Seq<Seq<char>> },
    Update { name: Seq<char>, repo: Seq<Seq<char>> },
    Remove { name: Seq<char> },
    List,
}

pub enum CommandsModel {
    Workspace(WorkspaceActionModel),
    Repo(RepoActionModel),
    Source(SourceActionModel),
    Preset(PresetActionModel),
    Rebase { branch: Seq<char>, workspace: Seq<char>, repo: Seq<char> },
    Upgrade,
    Config(ConfigShell),
}

pub struct CliModel {
    pub verbose: bool,
    pub command: Option<CommandsModel>,
}

impl View for WorkspaceAction {
    type V = WorkspaceActionModel;

    open spec fn view(&self) -> WorkspaceActionModel {
        match self {
            WorkspaceAction::Add(a) => WorkspaceActionModel::Add {
                name: a.name@,
                repo: strs(a.repo@),
                preset: opt_str(a.preset),
                strategy: a.strategy@,
                no_fetch: a.no_fetch,
            },
            WorkspaceAction::List(a) => WorkspaceActionModel::List { quiet: a.quiet },
            WorkspaceAction::Remove(a) => WorkspaceActionModel::Remove {
                name: opt_str(a.name),
                all: a.all,
                older_than: opt_str(a.older_than),
            },
            WorkspaceAction::Switch { name } => WorkspaceActionModel::Switch { name: name@ },
        }
    }
}

impl View for RepoAction {
    type V = RepoActionModel;

    open spec fn view(&self) -> RepoActionModel {
        match self {
            RepoAction::Add(a) => RepoActionModel::Add {
                repo: strs(a.repo@),
                workspace: opt_str(a.workspace),
                preset: opt_str(a.preset),
            },
            RepoAction::Remove(a) => RepoActionModel::Remove {
                repo: strs(a.repo@),
                workspace: opt_str(a.workspace),
                preset: opt_str(a.preset),
            },
            RepoAction::List(a) => RepoActionModel::List {
                workspace: opt_str(a.workspace),
                preset: opt_str(a.preset),
            },
        }
    }
}

impl View for SourceAction {
    type V = SourceActionModel;

    open spec fn view(&self) -> SourceActionModel {
        match self {
            SourceAction::Add { src } => SourceActionModel::Add { src: src@ },
            SourceAction::Remove { name } => SourceActionModel::Remove { name: name@ },
            SourceAction::List => SourceActionModel::List,
        }
    }
}

impl View for PresetAction {
    type V = PresetActionModel;

    open spec fn view(&self) -> PresetActionModel {
        match self {
            PresetAction::Add { name, repo } => PresetActionModel::Add { name: name@, repo: strs(repo@) },
            PresetAction::Update { name, repo } => PresetActionModel::Update { name: name@, repo: strs(repo@) },
            PresetAction::Remove { name } => PresetActionModel::Remove { name: name@ },
            PresetAction::List => PresetActionModel::List,
        }
    }
}

impl View for Commands {
    type V = CommandsModel;

    open spec fn view(&self) -> CommandsModel {
        match self {
            Commands::Workspace { action } => CommandsModel::Workspace(action@),
            Commands::Repo { action } => CommandsModel::Repo(action@),
            Commands::Source { action } => CommandsModel::Source(action@),
            Commands::Preset { action } => CommandsModel::Preset(action@),
            Commands::Rebase(a) => CommandsModel::Rebase {
                branch: a.branch@,
                workspace: a.workspace@,
                repo: a.repo@,
            },
            Commands::Upgrade => CommandsModel::Upgrade,
            Commands::Config { shell } => CommandsModel::Config(*shell),
        }
    }
}

impl View for Cli {
    type V = CliModel;

    open spec fn view(&self) -> CliModel {
        CliModel {
            verbose: self.verbose,
            command: match self.command {
                Some(c) => Some(c@),
                None => None,
            },
        }
    }
}

// ---------------------------------------------------------------------------
// Grammar tables
// ---------------------------------------------------------------------------

/// The command whose arguments are being read.
#[derive(Debug, Clone, Copy, PartialEq, Eq, Structural)]
pub enum Level {
    Root,
    Workspace,
    WsAdd,
    WsList,
    WsRemove,
    WsSwitch,
    Repo,
    RepoAdd,
    RepoRemove,
    RepoList,
    Source,
    SourceAdd,
    SourceRemove,
    SourceList,
    Preset,
    PresetAdd,
    PresetUpdate,
    PresetRemove,
    PresetList,
    Rebase,
    Upgrade,
    Config,
    ConfigZsh,
    ConfigBash,
}

/// An option of some command.
#[derive(Debug, Clone, Copy, PartialEq, Eq, Structural)]
pub enum Opt {
    Verbose,
    Help,
    /// `--repo` that may be repeated
    RepoMany,
    /// `--repo` that may be given once
    RepoOnce,
    Preset,
    Strategy,
    NoFetch,
    Quiet,
    All,
    OlderThan,
    Workspace,
}

pub open spec fn takes_value(o: Opt) -> bool {
    match o {
        Opt::RepoMany | Opt::RepoOnce | Opt::Preset | Opt::Strategy | Opt::OlderThan | Opt::Workspace => true,
        _ => false,
    }
}

pub open spec fn has_subcommands(l: Level) -> bool {
    match l {
        Level::Root | Level::Workspace | Level::Repo | Level::Source | Level::Preset | Level::Config => true,
        _ => false,
    }
}

/// The subcommand of `l` named by `w`.
pub open spec fn spec_sub(l: Level, w: Seq<char>) -> Option<Level> {
    match l {
        Level::Root => if w == "workspace"@ || w == "ws"@ {
            Some(Level::Workspace)
        } else if w == "repo"@ {
            Some(Level::Repo)
        } else if w == "source"@ {
            Some(Level::Source)
        } else if w == "preset"@ {
            Some(Level::Preset)
        } else if w == "rebase"@ {
            Some(Level::Rebase)
        } else if w == "upgrade"@ {
            Some(Level::Upgrade)
        } else if w == "config"@ {
            Some(Level::Config)
        } else {
            None
        },
        Level::Workspace => if w == "add"@ {
            Some(Level::WsAdd)
        } else if w == "list"@ || w == "ls"@ {
            Some(Level::WsList)
        } else if w == "remove"@ || w == "rm"@ {
            Some(Level::WsRemove)
        } else if w == "switch"@ || w == "sw"@ {
            Some(Level::WsSwitch)
        } else {
            None
        },
        Level::Repo => if w == "add"@ {
            Some(Level::RepoAdd)
        } else if w == "remove"@ || w == "rm"@ {
            Some(Level::RepoRemove)
        } else if w == "list"@ || w == "ls"@ {
            Some(Level::RepoList)
        } else {
            None
        },
        Level::Source => if w == "add"@ {
            Some(Level::SourceAdd)
        } else if w == "remove"@ || w == "rm"@ {
            Some(Level::SourceRemove)
        } else if w == "list"@ || w == "ls"@ {
            Some(Level::SourceList)
        } else {
            None
        },
        Level::Preset => if w == "add"@ {
            Some(Level::PresetAdd)
        } else if w == "update"@ {
            Some(Level::PresetUpdate)
        } else if w == "remove"@ || w == "rm"@ {
            Some(Level::PresetRemove)
        } else if w == "list"@ || w == "ls"@ {
            Some(Level::PresetList)
        } else {
            None
        },
        Level::Config => if w == "zsh"@ {
            Some(Level::ConfigZsh)
        } else if w == "bash"@ {
            Some(Level::ConfigBash)
        } else {
            None
        },
        _ => None,
    }
}

/// How many positional arguments a command takes at most (`None`: any number).
pub open spec fn max_positionals(l: Level) -> Option<nat> {
    match l {
        Level::WsAdd | Level::WsRemove | Level::WsSwitch | Level::SourceAdd | Level::SourceRemove
        | Level::PresetAdd | Level::PresetUpdate | Level::PresetRemove | Level::Rebase => Some(1),
        Level::RepoAdd | Level::RepoRemove => None,
        _ => Some(0),
    }
}

/// The option of `l` called `--name`.
pub open spec fn spec_long(l: Level, name: Seq<char>) -> Option<Opt> {
    if name == "verbose"@ {
        Some(Opt::Verbose)
    } else if name == "help"@ {
        Some(Opt::Help)
    } else {
        match l {
            Level::WsAdd => if name == "repo"@ {
                Some(Opt::RepoMany)
            } else if name == "preset"@ {
                Some(Opt::Preset)
            } else if name == "strategy"@ {
                Some(Opt::Strategy)
            } else if name == "no-fetch"@ {
                Some(Opt::NoFetch)
            } else {
                None
            },
            Level::WsList => if name == "quiet"@ {
                Some(Opt::Quiet)
            } else {
                None
            },
            Level::WsRemove => if name == "all"@ {
                Some(Opt::All)
            } else if name == "older-than"@ {
                Some(Opt::OlderThan)
            } else {
                None
            },
            Level::RepoAdd | Level::RepoRemove | Level::RepoList => if name == "workspace"@ {
                Some(Opt::Workspace)
            } else if name == "preset"@ {
                Some(Opt::Preset)
            } else {
                None
            },
            Level::PresetAdd | Level::PresetUpdate => if name == "repo"@ {
                Some(Opt::RepoMany)
            } else {
                None
            },
            Level::Rebase => if name == "workspace"@ {
                Some(Opt::Workspace)
            } else if name == "repo"@ {
                Some(Opt::RepoOnce)
            } else {
                None
            },
            _ => None,
        }
    }
}

/// The option of `l` called `-c`.
pub open spec fn spec_short(l: Level, c: char) -> Option<Opt> {
    if c == 'v' {
        Some(Opt::Verbose)
    } else if c == 'h' {
        Some(Opt::Help)
    } else if c == 'q' && l == Level::WsList {
        Some(Opt::Quiet)
    } else if c == 'a' && l == Level::WsRemove {
        Some(Opt::All)
    } else {
        None
    }
}

// ---------------------------------------------------------------------------
// Scanning
// ---------------------------------------------------------------------------

/// What has been read so far.
pub struct ScanState {
    pub level: Level,
    pub pending: Option<Opt>,
    pub escaped: bool,
    pub verbose: bool,
    pub no_fetch: bool,
    pub quiet: bool,
    pub all: bool,
    pub positionals: Vec<String>,
    pub repos: Vec<String>,
    pub preset: Option<String>,
    pub strategy: Option<String>,
    pub workspace: Option<String>,
    pub older_than: Option<String>,
}

pub struct ScanModel {
    pub level: Level,
    pub pending: Option<Opt>,
    pub escaped: bool,
    pub verbose: bool,
    pub no_fetch: bool,
    pub quiet: bool,
    pub all: bool,
    pub positionals: Seq<Seq<char>>,
    pub repos: Seq<Seq<char>>,
    pub preset: Option<Seq<char>>,
    pub strategy: Option<Seq<char>>,
    pub workspace: Option<Seq<char>>,
    pub older_than: Option<Seq<char>>,
}

impl View for ScanState {
    type V = ScanModel;

    open spec fn view(&self) -> ScanModel {
        ScanModel {
            level: self.level,
            pending: self.pending,
            escaped: self.escaped,
            verbose: self.verbose,
            no_fetch: self.no_fetch,
            quiet: self.quiet,
            all: self.all,
            positionals: strs(self.positionals@),
            repos: strs(self.repos@),
            preset: opt_str(self.preset),
            strategy: opt_str(self.strategy),
            workspace: opt_str(self.workspace),
            older_than: opt_str(self.older_than),
        }
    }
}

pub open spec fn init_model() -> ScanModel {
    ScanModel {
        level: Level::Root,
        pending: None,
        escaped: false,
        verbose: false,
        no_fetch: false,
        quiet: false,
        all: false,
        positionals: Seq::empty(),
        repos: Seq::empty(),
        preset: None,
        strategy: None,
        workspace: None,
        older_than: None,
    }
}

/// Setting a flag.
pub open spec fn spec_flag(m: ScanModel, o: Opt, idx: nat) -> Result<ScanModel, CliError> {
    match o {
        Opt::Help => Err(CliError::Help),
        Opt::Verbose => if m.verbose {
            Err(CliError::RepeatedArgument(idx as usize))
        } else {
            Ok(ScanModel { verbose: true, ..m })
        },
        Opt::NoFetch => if m.no_fetch {
            Err(CliError::RepeatedArgument(idx as usize))
        } else {
            Ok(ScanModel { no_fetch: true, ..m })
        },
        Opt::Quiet => if m.quiet {
            Err(CliError::RepeatedArgument(idx as usize))
        } else {
            Ok(ScanModel { quiet: true, ..m })
        },
        Opt::All => if m.all {
            Err(CliError::RepeatedArgument(idx as usize))
        } else {
            Ok(ScanModel { all: true, ..m })
        },
        _ => Ok(ScanModel { pending: Some(o), ..m }),
    }
}

/// Giving option `o` the value `v`.
pub open spec fn spec_value(m: ScanModel, o: Opt, v: Seq<char>, idx: nat) -> Result<ScanModel, CliError> {
    let m = ScanModel { pending: None, ..m };
    match o {
        Opt::RepoMany => Ok(ScanModel { repos: m.repos.push(v), ..m }),
        Opt::RepoOnce => if m.repos.len() > 0 {
            Err(CliError::RepeatedArgument(idx as usize))
        } else {
            Ok(ScanModel { repos: m.repos.push(v), ..m })
        },
        Opt::Preset => if m.preset is Some {
            Err(CliError::RepeatedArgument(idx as usize))
        } else {
            Ok(ScanModel { preset: Some(v), ..m })
        },
        Opt::Strategy => if m.strategy is Some {
            Err(CliError::RepeatedArgument(idx as usize))
        } else {
            Ok(ScanModel { strategy: Some(v), ..m })
        },
        Opt::Workspace => if m.workspace is Some {
            Err(CliError::RepeatedArgument(idx as usize))
        } else {
            Ok(ScanModel { workspace: Some(v), ..m })
        },
        _ => if m.older_than is Some {
            Err(CliError::RepeatedArgument(idx as usize))
        } else {
            Ok(ScanModel { older_than: Some(v), ..m })
        },
    }
}

/// A word: a subcommand name where one is expected, else a positional.
pub open spec fn spec_word(m: ScanModel, t: Seq<char>, idx: nat) -> Result<ScanModel, CliError> {
    if has_subcommands(m.level) {
        if m.escaped {
            Err(CliError::UnexpectedArgument(idx as usize))
        } else if t == "help"@ {
            Err(CliError::Help)
        } else {
            match spec_sub(m.level, t) {
                Some(l) => Ok(ScanModel { level: l, ..m }),
                None => Err(CliError::UnrecognizedSubcommand(idx as usize)),
            }
        }
    } else {
        match max_positionals(m.level) {
            Some(k) => if m.positionals.len() >= k {
                Err(CliError::UnexpectedArgument(idx as usize))
            } else {
                Ok(ScanModel { positionals: m.positionals.push(t), ..m })
            },
            None => Ok(ScanModel { positionals: m.positionals.push(t), ..m }),
        }
    }
}

/// The first position at or after `i` where `s` holds `c`.
pub open spec fn find_char(s: Seq<char>, c: char, i: int) -> Option<int>
    decreases s.len() - i,
{
    if i < 0 || i >= s.len() {
        None
    } else if s[i] == c {
        Some(i)
    } else {
        find_char(s, c, i + 1)
    }
}

/// A `--name` or `--name=value` argument; `body` is what follows `--`.
pub open spec fn spec_long_arg(m: ScanModel, body: Seq<char>, idx: nat) -> Result<ScanModel, CliError> {
    match find_char(body, '=', 0) {
        Some(e) => match spec_long(m.level, body.take(e)) {
            None => Err(CliError::UnknownArgument(idx as usize)),
            Some(o) => if takes_value(o) {
                spec_value(m, o, body.skip(e + 1), idx)
            } else {
                Err(CliError::UnexpectedValue(idx as usize))
            },
        },
        None => match spec_long(m.level, body) {
            None => Err(CliError::UnknownArgument(idx as usize)),
            Some(o) => spec_flag(m, o, idx),
        },
    }
}

/// A group of short flags `-abc`; `cs` is what follows `-`.
pub open spec fn spec_shorts(m: ScanModel, cs: Seq<char>, idx: nat) -> Result<ScanModel, CliError>
    decreases cs.len(),
{
    if cs.len() == 0 {
        Ok(m)
    } else {
        match spec_short(m.level, cs[0]) {
            None => Err(CliError::UnknownArgument(idx as usize)),
            Some(o) => match spec_flag(m, o, idx) {
                Err(e) => Err(e),
                Ok(m2) => spec_shorts(m2, cs.drop_first(), idx),
            },
        }
    }
}

pub open spec fn is_escape(t: Seq<char>) -> bool {
    t.len() == 2 && t[0] == '-' && t[1] == '-'
}

pub open spec fn is_long(t: Seq<char>) -> bool {
    t.len() > 2 && t[0] == '-' && t[1] == '-'
}

pub open spec fn is_short(t: Seq<char>) -> bool {
    t.len() >= 2 && t[0] == '-' && t[1] != '-'
}

/// Reading the argument `t` found at position `idx`.
pub open spec fn spec_step(m: ScanModel, t: Seq<char>, idx: nat) -> Result<ScanModel, CliError> {
    if m.escaped {
        spec_word(m, t, idx)
    } else if is_escape(t) || is_long(t) || is_short(t) {
        match m.pending {
            Some(o) => Err(CliError::MissingValue(o)),
            None => if is_escape(t) {
                Ok(ScanModel { escaped: true, ..m })
            } else if is_long(t) {
                spec_long_arg(m, t.skip(2), idx)
            } else {
                spec_shorts(m, t.skip(1), idx)
            },
        }
    } else {
        match m.pending {
            Some(o) => spec_value(m, o, t, idx),
            None => spec_word(m, t, idx),
        }
    }
}

/// Reading the arguments from position `i` on.
pub open spec fn spec_scan(m: ScanModel, ts: Seq<Seq<char>>, i: int) -> Result<ScanModel, CliError>
    decreases ts.len() - i,
{
    if i < 0 || i >= ts.len() {
        Ok(m)
    } else {
        match spec_step(m, ts[i], i as nat) {
            Err(e) => Err(e),
            Ok(m2) => spec_scan(m2, ts, i + 1),
        }
    }
}

// ---------------------------------------------------------------------------
// Building the result
// ---------------------------------------------------------------------------

/// Whether output is verbose: with `-v`/`--verbose`, or whenever
/// `BOX_VERBOSE` is set.
pub open spec fn spec_verbose(m: ScanModel, env_verbose: Option<Seq<char>>) -> bool {
    m.verbose || env_verbose is Some
}

pub open spec fn first_or_none(s: Seq<Seq<char>>) -> Option<Seq<char>> {
    if s.len() > 0 {
        Some(s[0])
    } else {
        None
    }
}

/// The command selected by a finished scan.
pub open spec fn spec_command(m: ScanModel, env_strategy: Option<Seq<char>>) -> Result<Option<CommandsModel>, CliError> {
    let p = m.positionals;
    match m.level {
        Level::Root => Ok(None),
        Level::Workspace | Level::Repo | Level::Source | Level::Preset | Level::Config => Err(
            CliError::MissingSubcommand,
        ),
        Level::WsAdd => if m.repos.len() > 0 && m.preset is Some {
            Err(CliError::Conflict)
        } else if p.len() == 0 {
            Err(CliError::MissingRequired)
        } else {
            Ok(
                Some(
                    CommandsModel::Workspace(
                        WorkspaceActionModel::Add {
                            name: p[0],
                            repo: m.repos,
                            preset: m.preset,
                            strategy: match m.strategy {
                                Some(s) => s,
                                None => match env_strategy {
                                    Some(s) => s,
                                    None => "worktree"@,
                                },
                            },
                            no_fetch: m.no_fetch,
                        },
                    ),
                ),
            )
        },
        Level::WsList => Ok(Some(CommandsModel::Workspace(WorkspaceActionModel::List { quiet: m.quiet }))),
        Level::WsRemove => if (m.all && p.len() > 0) || (m.older_than is Some && (p.len() > 0 || m.all)) {
            Err(CliError::Conflict)
        } else {
            Ok(
                Some(
                    CommandsModel::Workspace(
                        WorkspaceActionModel::Remove { name: first_or_none(p), all: m.all, older_than: m.older_than },
                    ),
                ),
            )
        },
        Level::WsSwitch => if p.len() == 0 {
            Err(CliError::MissingRequired)
        } else {
            Ok(Some(CommandsModel::Workspace(WorkspaceActionModel::Switch { name: p[0] })))
        },
        Level::RepoAdd | Level::RepoRemove => if m.workspace is Some && m.preset is Some {
            Err(CliError::Conflict)
        } else if p.len() == 0 {
            Err(CliError::MissingRequired)
        } else if m.level == Level::RepoAdd {
            Ok(Some(CommandsModel::Repo(RepoActionModel::Add { repo: p, workspace: m.workspace, preset: m.preset })))
        } else {
            Ok(
                Some(
                    CommandsModel::Repo(RepoActionModel::Remove { repo: p, workspace: m.workspace, preset: m.preset }),
                ),
            )
        },
        Level::RepoList => if m.workspace is Some && m.preset is Some {
            Err(CliError::Conflict)
        } else {
            Ok(Some(CommandsModel::Repo(RepoActionModel::List { workspace: m.workspace, preset: m.preset })))
        },
        Level::SourceAdd => if p.len() == 0 {
            Err(CliError::MissingRequired)
        } else {
            Ok(Some(CommandsModel::Source(SourceActionModel::Add { src: p[0] })))
        },
        Level::SourceRemove => if p.len() == 0 {
            Err(CliError::MissingRequired)
        } else {
            Ok(Some(CommandsModel::Source(SourceActionModel::Remove { name: p[0] })))
        },
        Level::SourceList => Ok(Some(CommandsModel::Source(SourceActionModel::List))),
        Level::PresetAdd => if p.len() == 0 || m.repos.len() == 0 {
            Err(CliError::MissingRequired)
        } else {
            Ok(Some(CommandsModel::Preset(PresetActionModel::Add { name: p[0], repo: m.repos })))
        },
        Level::PresetUpdate => if p.len() == 0 || m.repos.len() == 0 {
            Err(CliError::MissingRequired)
        } else {
            Ok(Some(CommandsModel::Preset(PresetActionModel::Update { name: p[0], repo: m.repos })))
        },
        Level::PresetRemove => if p.len() == 0 {
            Err(CliError::MissingRequired)
        } else {
            Ok(Some(CommandsModel::Preset(PresetActionModel::Remove { name: p[0] })))
        },
        Level::PresetList => Ok(Some(CommandsModel::Preset(PresetActionModel::List))),
        Level::Rebase => if p.len() == 0 || m.workspace is None || m.repos.len() == 0 {
            Err(CliError::MissingRequired)
        } else {
            Ok(
                Some(
                    CommandsModel::Rebase { branch: p[0], workspace: m.workspace->Some_0, repo: m.repos[0] },
                ),
            )
        },
        Level::Upgrade => Ok(Some(CommandsModel::Upgrade)),
        Level::ConfigZsh => Ok(Some(CommandsModel::Config(ConfigShell::Zsh))),
        Level::ConfigBash => Ok(Some(CommandsModel::Config(ConfigShell::Bash))),
    }
}

/// The meaning of the argument list `ts` (without the program name).
pub open spec fn spec_parse(
    ts: Seq<Seq<char>>,
    env_verbose: Option<Seq<char>>,
    env_strategy: Option<Seq<char>>,
) -> Result<CliModel, CliError> {
    match spec_scan(init_model(), ts, 0) {
        Err(e) => Err(e),
        Ok(m) => match m.pending {
            Some(o) => Err(CliError::MissingValue(o)),
            None => match spec_command(m, env_strategy) {
                Err(e) => Err(e),
                Ok(c) => Ok(CliModel { verbose: spec_verbose(m, env_verbose), command: c }),
            },
        },
    }
}

// ---------------------------------------------------------------------------
// Executable parser
// ---------------------------------------------------------------------------

fn sub_lookup(l: Level, w: &str) -> (r: Option<Level>)
    ensures
        r == spec_sub(l, w@),
{
    match l {
        Level::Root => if str_eq(w, "workspace") || str_eq(w, "ws") {
            Some(Level::Workspace)
        } else if str_eq(w, "repo") {
            Some(Level::Repo)
        } else if str_eq(w, "source") {
            Some(Level::Source)
        } else if str_eq(w, "preset") {
            Some(Level::Preset)
        } else if str_eq(w, "rebase") {
            Some(Level::Rebase)
        } else if str_eq(w, "upgrade") {
            Some(Level::Upgrade)
        } else if str_eq(w, "config") {
            Some(Level::Config)
        } else {
            None
        },
        Level::Workspace => if str_eq(w, "add") {
            Some(Level::WsAdd)
        } else if str_eq(w, "list") || str_eq(w, "ls") {
            Some(Level::WsList)
        } else if str_eq(w, "remove") || str_eq(w, "rm") {
            Some(Level::WsRemove)
        } else if str_eq(w, "switch") || str_eq(w, "sw") {
            Some(Level::WsSwitch)
        } else {
            None
        },
        Level::Repo => if str_eq(w, "add") {
            Some(Level::RepoAdd)
        } else if str_eq(w, "remove") || str_eq(w, "rm") {
            Some(Level::RepoRemove)
        } else if str_eq(w, "list") || str_eq(w, "ls") {
            Some(Level::RepoList)
        } else {
            None
        },
        Level::Source => if str_eq(w, "add") {
            Some(Level::SourceAdd)
        } else if str_eq(w, "remove") || str_eq(w, "rm") {
            Some(Level::SourceRemove)
        } else if str_eq(w, "list") || str_eq(w, "ls") {
            Some(Level::SourceList)
        } else {
            None
        },
        Level::Preset => if str_eq(w, "add") {
            Some(Level::PresetAdd)
        } else if str_eq(w, "update") {
            Some(Level::PresetUpdate)
        } else if str_eq(w, "remove") || str_eq(w, "rm") {
            Some(Level::PresetRemove)
        } else if str_eq(w, "list") || str_eq(w, "ls") {
            Some(Level::PresetList)
        } else {
            None
        },
        Level::Config => if str_eq(w, "zsh") {
            Some(Level::ConfigZsh)
        } else if str_eq(w, "bash") {
            Some(Level::ConfigBash)
        } else {
            None
        },
        _ => None,
    }
}

fn long_lookup(l: Level, name: &str) -> (r: Option<Opt>)
    ensures
        r == spec_long(l, name@),
{
    if str_eq(name, "verbose") {
        Some(Opt::Verbose)
    } else if str_eq(name, "help") {
        Some(Opt::Help)
    } else {
        match l {
            Level::WsAdd => if str_eq(name, "repo") {
                Some(Opt::RepoMany)
            } else if str_eq(name, "preset") {
                Some(Opt::Preset)
            } else if str_eq(name, "strategy") {
                Some(Opt::Strategy)
            } else if str_eq(name, "no-fetch") {
                Some(Opt::NoFetch)
            } else {
                None
            },
            Level::WsList => if str_eq(name, "quiet") {
                Some(Opt::Quiet)
            } else {
                None
            },
            Level::WsRemove => if str_eq(name, "all") {
                Some(Opt::All)
            } else if str_eq(name, "older-than") {
                Some(Opt::OlderThan)
            } else {
                None
            },
            Level::RepoAdd | Level::RepoRemove | Level::RepoList => if str_eq(name, "workspace") {
                Some(Opt::Workspace)
            } else if str_eq(name, "preset") {
                Some(Opt::Preset)
            } else {
                None
            },
            Level::PresetAdd | Level::PresetUpdate => if str_eq(name, "repo") {
                Some(Opt::RepoMany)
            } else {
                None
            },
            Level::Rebase => if str_eq(name, "workspace") {
                Some(Opt::Workspace)
            } else if str_eq(name, "repo") {
                Some(Opt::RepoOnce)
            } else {
                None
            },
            _ => None,
        }
    }
}

fn short_lookup(l: Level, c: char) -> (r: Option<Opt>)
    ensures
        r == spec_short(l, c),
{
    if c == 'v' {
        Some(Opt::Verbose)
    } else if c == 'h' {
        Some(Opt::Help)
    } else if c == 'q' && l == Level::WsList {
        Some(Opt::Quiet)
    } else if c == 'a' && l == Level::WsRemove {
        Some(Opt::All)
    } else {
        None
    }
}

proof fn lemma_strs_push(v: Seq<String>, s: String)
    ensures
        strs(v.push(s)) == strs(v).push(s@),
{
    assert(strs(v.push(s)) =~= strs(v).push(s@));
}

fn flag(m: ScanState, o: Opt, idx: usize) -> (r: Result<ScanState, CliError>)
    ensures
        match spec_flag(m@, o, idx as nat) {
            Ok(m2) => r matches Ok(s) && s@ == m2,
            Err(e) => r == Err::<ScanState, CliError>(e),
        },
{
    let mut m = m;
    match o {
        Opt::Help => Err(CliError::Help),
        Opt::Verbose => if m.verbose {
            Err(CliError::RepeatedArgument(idx))
        } else {
            m.verbose = true;
            Ok(m)
        },
        Opt::NoFetch => if m.no_fetch {
            Err(CliError::RepeatedArgument(idx))
        } else {
            m.no_fetch = true;
            Ok(m)
        },
        Opt::Quiet => if m.quiet {
            Err(CliError::RepeatedArgument(idx))
        } else {
            m.quiet = true;
            Ok(m)
        },
        Opt::All => if m.all {
            Err(CliError::RepeatedArgument(idx))
        } else {
            m.all = true;
            Ok(m)
        },
        _ => {
            m.pending = Some(o);
            Ok(m)
        },
    }
}

fn value(m: ScanState, o: Opt, v: String, idx: usize) -> (r: Result<ScanState, CliError>)
    ensures
        match spec_value(m@, o, v@, idx as nat) {
            Ok(m2) => r matches Ok(s) && s@ == m2,
            Err(e) => r == Err::<ScanState, CliError>(e),
        },
{
    let mut m = m;
    m.pending = None;
    match o {
        Opt::RepoMany => {
            proof {
                lemma_strs_push(m.repos@, v);
            }
            m.repos.push(v);
            Ok(m)
        },
        Opt::RepoOnce => if m.repos.len() > 0 {
            Err(CliError::RepeatedArgument(idx))
        } else {
            proof {
                lemma_strs_push(m.repos@, v);
            }
            m.repos.push(v);
            Ok(m)
        },
        Opt::Preset => if m.preset.is_some() {
            Err(CliError::RepeatedArgument(idx))
        } else {
            m.preset = Some(v);
            Ok(m)
        },
        Opt::Strategy => if m.strategy.is_some() {
            Err(CliError::RepeatedArgument(idx))
        } else {
            m.strategy = Some(v);
            Ok(m)
        },
        Opt::Workspace => if m.workspace.is_some() {
            Err(CliError::RepeatedArgument(idx))
        } else {
            m.workspace = Some(v);
            Ok(m)
        },
        _ => if m.older_than.is_some() {
            Err(CliError::RepeatedArgument(idx))
        } else {
            m.older_than = Some(v);
            Ok(m)
        },
    }
}

fn word(m: ScanState, t: &String, idx: usize) -> (r: Result<ScanState, CliError>)
    ensures
        match spec_word(m@, t@, idx as nat) {
            Ok(m2) => r matches Ok(s) && s@ == m2,
            Err(e) => r == Err::<ScanState, CliError>(e),
        },
{
    let mut m = m;
    let has_sub = match m.level {
        Level::Root | Level::Workspace | Level::Repo | Level::Source | Level::Preset | Level::Config => true,
        _ => false,
    };
    if has_sub {
        if m.escaped {
            Err(CliError::UnexpectedArgument(idx))
        } else if str_eq(t.as_str(), "help") {
            Err(CliError::Help)
        } else {
            match sub_lookup(m.level, t.as_str()) {
                Some(l) => {
                    m.level = l;
                    Ok(m)
                },
                None => Err(CliError::UnrecognizedSubcommand(idx)),
            }
        }
    } else {
        let limit: Option<usize> = match m.level {
            Level::WsAdd | Level::WsRemove | Level::WsSwitch | Level::SourceAdd | Level::SourceRemove
            | Level::PresetAdd | Level::PresetUpdate | Level::PresetRemove | Level::Rebase => Some(1),
            Level::RepoAdd | Level::RepoRemove => None,
            _ => Some(0),
        };
        match limit {
            Some(k) => if m.positionals.len() >= k {
                Err(CliError::UnexpectedArgument(idx))
            } else {
                proof {
                    lemma_strs_push(m.positionals@, *t);
                }
                m.positionals.push(t.clone());
                Ok(m)
            },
            None => {
                proof {
                    lemma_strs_push(m.positionals@, *t);
                }
                m.positionals.push(t.clone());
                Ok(m)
            },
        }
    }
}

fn find_eq(v: &Vec<char>, from: usize) -> (r: Option<usize>)
    requires
        from <= v@.len(),
    ensures
        match r {
            Some(e) => find_char(v@, '=', from as int) == Some(e as int) && from <= e < v@.len(),
            None => find_char(v@, '=', from as int) is None,
        },
{
    let mut i = from;
    while i < v.len()
        invariant
            from <= i <= v@.len(),
            find_char(v@, '=', from as int) == find_char(v@, '=', i as int),
        decreases v@.len() - i,
    {
        if v[i] == '=' {
            return Some(i);
        }
        i = i + 1;
    }
    None
}

proof fn lemma_find_char_shift(s: Seq<char>, c: char, k: int, i: int)
    requires
        0 <= k <= s.len(),
        0 <= i,
    ensures
        match find_char(s, c, k + i) {
            Some(e) => find_char(s.skip(k), c, i) == Some(e - k),
            None => find_char(s.skip(k), c, i) is None,
        },
    decreases s.len() - k - i,
{
    if k + i < s.len() {
        assert(s.skip(k)[i] == s[k + i]);
        lemma_find_char_shift(s, c, k, i + 1);
    }
}

fn long_arg(m: ScanState, cs: &Vec<char>, idx: usize) -> (r: Result<ScanState, CliError>)
    requires
        cs@.len() > 2,
    ensures
        match spec_long_arg(m@, cs@.skip(2), idx as nat) {
            Ok(m2) => r matches Ok(s) && s@ == m2,
            Err(e) => r == Err::<ScanState, CliError>(e),
        },
{
    let ghost body = cs@.skip(2);
    proof {
        lemma_find_char_shift(cs@, '=', 2, 0);
    }
    match find_eq(cs, 2) {
        Some(e) => {
            assert(cs@.len() == cs.len());
            assert(find_char(cs@, '=', 2) == Some(e as int));
            assert(find_char(body, '=', 0) == Some((e - 2) as int));
            let name = string_of_range(cs.as_slice(), 2, e);
            assert(name@ =~= body.take(e - 2));
            match long_lookup(m.level, name.as_str()) {
                None => Err(CliError::UnknownArgument(idx)),
                Some(o) => {
                    let tv = match o {
                        Opt::RepoMany | Opt::RepoOnce | Opt::Preset | Opt::Strategy | Opt::OlderThan
                        | Opt::Workspace => true,
                        _ => false,
                    };
                    if tv {
                        let v = string_of_range(cs.as_slice(), e + 1, cs.len());
                        assert(v@ =~= body.skip(e - 2 + 1));
                        value(m, o, v, idx)
                    } else {
                        Err(CliError::UnexpectedValue(idx))
                    }
                },
            }
        },
        None => {
            assert(find_char(body, '=', 0) is None);
            let name = string_of_range(cs.as_slice(), 2, cs.len());
            assert(name@ =~= body);
            match long_lookup(m.level, name.as_str()) {
                None => Err(CliError::UnknownArgument(idx)),
                Some(o) => flag(m, o, idx),
            }
        },
    }
}

fn shorts_from(m: ScanState, cs: &Vec<char>, i: usize, idx: usize) -> (r: Result<ScanState, CliError>)
    requires
        i <= cs@.len(),
    ensures
        match spec_shorts(m@, cs@.skip(i as int), idx as nat) {
            Ok(m2) => r matches Ok(s) && s@ == m2,
            Err(e) => r == Err::<ScanState, CliError>(e),
        },
    decreases cs@.len() - i,
{
    if i >= cs.len() {
        return Ok(m);
    }
    assert(cs@.skip(i as int)[0] == cs@[i as int]);
    assert(cs@.skip(i as int).drop_first() =~= cs@.skip(i + 1));
    match short_lookup(m.level, cs[i]) {
        None => Err(CliError::UnknownArgument(idx)),
        Some(o) => match flag(m, o, idx) {
            Err(e) => Err(e),
            Ok(m2) => shorts_from(m2, cs, i + 1, idx),
        },
    }
}

fn step(m: ScanState, t: &String, idx: usize) -> (r: Result<ScanState, CliError>)
    ensures
        match spec_step(m@, t@, idx as nat) {
            Ok(m2) => r matches Ok(s) && s@ == m2,
            Err(e) => r == Err::<ScanState, CliError>(e),
        },
{
    let mut m = m;
    if m.escaped {
        return word(m, t, idx);
    }
    let cs = chars_of(t.as_str());
    let n = cs.len();
    let esc = n == 2 && cs[0] == '-' && cs[1] == '-';
    let lng = n > 2 && cs[0] == '-' && cs[1] == '-';
    let sht = n >= 2 && cs[0] == '-' && cs[1] != '-';
    if esc || lng || sht {
        match m.pending {
            Some(o) => Err(CliError::MissingValue(o)),
            None => if esc {
                m.escaped = true;
                Ok(m)
            } else if lng {
                long_arg(m, &cs, idx)
            } else {
                shorts_from(m, &cs, 1, idx)
            },
        }
    } else {
        match m.pending {
            Some(o) => value(m, o, t.clone(), idx),
            None => word(m, t, idx),
        }
    }
}

fn verbose_of(m: &ScanState, env_verbose: &Option<String>) -> (r: bool)
    ensures
        r == spec_verbose(m@, opt_str(*env_verbose)),
{
    m.verbose || env_verbose.is_some()
}

proof fn lemma_strs_len(v: Seq<String>)
    ensures
        strs(v).len() == v.len(),
        forall|i: int| 0 <= i < v.len() ==> #[trigger] strs(v)[i] == v[i]@,
{
}

fn take_first(v: Vec<String>) -> (r: String)
    requires
        v@.len() > 0,
    ensures
        r@ == strs(v@)[0],
{
    let mut v = v;
    proof {
        lemma_strs_len(v@);
    }
    v.swap_remove(0)
}

fn first_opt(v: Vec<String>) -> (r: Option<String>)
    ensures
        opt_str(r) == first_or_none(strs(v@)),
{
    proof {
        lemma_strs_len(v@);
    }
    if v.len() > 0 {
        Some(take_first(v))
    } else {
        None
    }
}

fn command_of(m: ScanState, env_strategy: Option<String>) -> (r: Result<Option<Commands>, CliError>)
    ensures
        match spec_command(m@, opt_str(env_strategy)) {
            Ok(c) => r matches Ok(c2) && match c2 {
                Some(x) => c == Some(x@),
                None => c is None,
            },
            Err(e) => r == Err::<Option<Commands>, CliError>(e),
        },
{
    proof {
        lemma_strs_len(m.positionals@);
        lemma_strs_len(m.repos@);
    }
    let np = m.positionals.len();
    match m.level {
        Level::Root => Ok(None),
        Level::Workspace | Level::Repo | Level::Source | Level::Preset | Level::Config => Err(
            CliError::MissingSubcommand,
        ),
        Level::WsAdd => if m.repos.len() > 0 && m.preset.is_some() {
            Err(CliError::Conflict)
        } else if np == 0 {
            Err(CliError::MissingRequired)
        } else {
            let strategy = match m.strategy {
                Some(s) => s,
                None => match env_strategy {
                    Some(s) => s,
                    None => copy_str("worktree"),
                },
            };
            let name = take_first(m.positionals);
            Ok(
                Some(
                    Commands::Workspace {
                        action: WorkspaceAction::Add(
                            CreateArgs { name, repo: m.repos, preset: m.preset, strategy, no_fetch: m.no_fetch },
                        ),
                    },
                ),
            )
        },
        Level::WsList => Ok(Some(Commands::Workspace { action: WorkspaceAction::List(ListArgs { quiet: m.quiet }) })),
        Level::WsRemove => if (m.all && np > 0) || (m.older_than.is_some() && (np > 0 || m.all)) {
            Err(CliError::Conflict)
        } else {
            let name = first_opt(m.positionals);
            Ok(
                Some(
                    Commands::Workspace {
                        action: WorkspaceAction::Remove(RemoveArgs { name, all: m.all, older_than: m.older_than }),
                    },
                ),
            )
        },
        Level::WsSwitch => if np == 0 {
            Err(CliError::MissingRequired)
        } else {
            let name = take_first(m.positionals);
            Ok(Some(Commands::Workspace { action: WorkspaceAction::Switch { name } }))
        },
        Level::RepoAdd | Level::RepoRemove => if m.workspace.is_some() && m.preset.is_some() {
            Err(CliError::Conflict)
        } else if np == 0 {
            Err(CliError::MissingRequired)
        } else {
            let args = RepoEditArgs { repo: m.positionals, workspace: m.workspace, preset: m.preset };
            if m.level == Level::RepoAdd {
                Ok(Some(Commands::Repo { action: RepoAction::Add(args) }))
            } else {
                Ok(Some(Commands::Repo { action: RepoAction::Remove(args) }))
            }
        },
        Level::RepoList => if m.workspace.is_some() && m.preset.is_some() {
            Err(CliError::Conflict)
        } else {
            Ok(
                Some(
                    Commands::Repo {
                        action: RepoAction::List(RepoListArgs { workspace: m.workspace, preset: m.preset }),
                    },
                ),
            )
        },
        Level::SourceAdd => if np == 0 {
            Err(CliError::MissingRequired)
        } else {
            let src = take_first(m.positionals);
            Ok(Some(Commands::Source { action: SourceAction::Add { src } }))
        },
        Level::SourceRemove => if np == 0 {
            Err(CliError::MissingRequired)
        } else {
            let name = take_first(m.positionals);
            Ok(Some(Commands::Source { action: SourceAction::Remove { name } }))
        },
        Level::SourceList => Ok(Some(Commands::Source { action: SourceAction::List })),
        Level::PresetAdd => if np == 0 || m.repos.len() == 0 {
            Err(CliError::MissingRequired)
        } else {
            let name = take_first(m.positionals);
            Ok(Some(Commands::Preset { action: PresetAction::Add { name, repo: m.repos } }))
        },
        Level::PresetUpdate => if np == 0 || m.repos.len() == 0 {
            Err(CliError::MissingRequired)
        } else {
            let name = take_first(m.positionals);
            Ok(Some(Commands::Preset { action: PresetAction::Update { name, repo: m.repos } }))
        },
        Level::PresetRemove => if np == 0 {
            Err(CliError::MissingRequired)
        } else {
            let name = take_first(m.positionals);
            Ok(Some(Commands::Preset { action: PresetAction::Remove { name } }))
        },
        Level::PresetList => Ok(Some(Commands::Preset { action: PresetAction::List })),
        Level::Rebase => if np == 0 || m.workspace.is_none() || m.repos.len() == 0 {
            Err(CliError::MissingRequired)
        } else {
            let branch = take_first(m.positionals);
            let repo = take_first(m.repos);
            let workspace = match m.workspace {
                Some(w) => w,
                None => copy_str(""),
            };
            Ok(Some(Commands::Rebase(RebaseArgs { branch, workspace, repo })))
        },
        Level::Upgrade => Ok(Some(Commands::Upgrade)),
        Level::ConfigZsh => Ok(Some(Commands::Config { shell: ConfigShell::Zsh })),
        Level::ConfigBash => Ok(Some(Commands::Config { shell: ConfigShell::Bash })),
    }
}

fn init_state() -> (s: ScanState)
    ensures
        s@ == init_model(),
{
    let s = ScanState {
        level: Level::Root,
        pending: None,
        escaped: false,
        verbose: false,
        no_fetch: false,
        quiet: false,
        all: false,
        positionals: Vec::new(),
        repos: Vec::new(),
        preset: None,
        strategy: None,
        workspace: None,
        older_than: None,
    };
    assert(s@.positionals =~= Seq::<Seq<char>>::empty());
    assert(s@.repos =~= Seq::<Seq<char>>::empty());
    s
}

/// Parses the arguments that follow the program name. `env_verbose` and
/// `env_strategy` are the values of `BOX_VERBOSE` and `BOX_STRATEGY`, if set.
pub fn parse_args(args: &Vec<String>, env_verbose: Option<String>, env_strategy: Option<String>) -> (r: Result<
    Cli,
    CliError,
>)
    ensures
        match spec_parse(strs(args@), opt_str(env_verbose), opt_str(env_strategy)) {
            Ok(c) => r matches Ok(cli) && cli@ == c,
            Err(e) => r == Err::<Cli, CliError>(e),
        },
{
    let ghost ts = strs(args@);
    proof {
        lemma_strs_len(args@);
    }
    let mut m = init_state();
    let mut i: usize = 0;
    while i < args.len()
        invariant
            i <= args@.len(),
            ts == strs(args@),
            ts.len() == args@.len(),
            spec_scan(init_model(), ts, 0) == spec_scan(m@, ts, i as int),
        decreases args@.len() - i,
    {
        assert(ts[i as int] == args@[i as int]@);
        match step(m, &args[i], i) {
            Err(e) => return Err(e),
            Ok(m2) => {
                m = m2;
            },
        }
        i = i + 1;
    }
    match m.pending {
        Some(o) => return Err(CliError::MissingValue(o)),
        None => {},
    }
    let verbose = verbose_of(&m, &env_verbose);
    match command_of(m, env_strategy) {
        Err(e) => Err(e),
        Ok(command) => Ok(Cli { verbose, command }),
    }
}

// ---------------------------------------------------------------------------
// Aliases
// ---------------------------------------------------------------------------

/// Reading the arguments from position `i` up to, not including, `k`.
pub open spec fn scan_range(m: ScanModel, ts: Seq<Seq<char>>, i: int, k: int) -> Result<ScanModel, CliError>
    decreases k - i,
{
    if i < 0 || i >= k || i >= ts.len() {
        Ok(m)
    } else {
        match spec_step(m, ts[i], i as nat) {
            Err(e) => Err(e),
            Ok(m2) => scan_range(m2, ts, i + 1, k),
        }
    }
}

proof fn lemma_scan_split(m: ScanModel, ts: Seq<Seq<char>>, i: int, k: int)
    requires
        0 <= i <= k <= ts.len(),
    ensures
        spec_scan(m, ts, i) == match scan_range(m, ts, i, k) {
            Err(e) => Err(e),
            Ok(m2) => spec_scan(m2, ts, k),
        },
    decreases k - i,
{
    if i < k {
        match spec_step(m, ts[i], i as nat) {
            Err(e) => {},
            Ok(m2) => {
                lemma_scan_split(m2, ts, i + 1, k);
            },
        }
    }
}

proof fn lemma_range_alike(m: ScanModel, ts1: Seq<Seq<char>>, ts2: Seq<Seq<char>>, i: int, k: int)
    requires
        0 <= i <= k <= ts1.len(),
        ts1.len() == ts2.len(),
        forall|j: int| i <= j < k ==> ts1[j] == ts2[j],
    ensures
        scan_range(m, ts1, i, k) == scan_range(m, ts2, i, k),
    decreases k - i,
{
    if i < k {
        match spec_step(m, ts1[i], i as nat) {
            Err(e) => {},
            Ok(m2) => {
                lemma_range_alike(m2, ts1, ts2, i + 1, k);
            },
        }
    }
}

proof fn lemma_scan_alike(m: ScanModel, ts1: Seq<Seq<char>>, ts2: Seq<Seq<char>>, i: int)
    requires
        0 <= i <= ts1.len(),
        ts1.len() == ts2.len(),
        forall|j: int| i <= j < ts1.len() ==> ts1[j] == ts2[j],
    ensures
        spec_scan(m, ts1, i) == spec_scan(m, ts2, i),
    decreases ts1.len() - i,
{
    if i < ts1.len() {
        match spec_step(m, ts1[i], i as nat) {
            Err(e) => {},
            Ok(m2) => {
                lemma_scan_alike(m2, ts1, ts2, i + 1);
            },
        }
    }
}

/// A subcommand's name is a word: not empty, not an option, not `help`.
proof fn lemma_subcommand_words(l: Level, w: Seq<char>)
    requires
        spec_sub(l, w) is Some,
    ensures
        w.len() > 0,
        w[0] != '-',
        w != "help"@,
{
    reveal_strlit("help");
    reveal_strlit("workspace");
    reveal_strlit("ws");
    reveal_strlit("repo");
    reveal_strlit("source");
    reveal_strlit("preset");
    reveal_strlit("rebase");
    reveal_strlit("upgrade");
    reveal_strlit("config");
    reveal_strlit("add");
    reveal_strlit("list");
    reveal_strlit("ls");
    reveal_strlit("remove");
    reveal_strlit("rm");
    reveal_strlit("switch");
    reveal_strlit("sw");
    reveal_strlit("update");
    reveal_strlit("zsh");
    reveal_strlit("bash");
    assert(w[0] != "help"@[0] || w[1] != "help"@[1]);
}

/// Where a subcommand is expected, two words that name the same one are
/// interchangeable: the command line reads the same with either. So the
/// aliases (see [`lemma_aliases_name_alike`]) parse as their full names.
pub proof fn lemma_same_subcommand_same_parse(
    ts1: Seq<Seq<char>>,
    ts2: Seq<Seq<char>>,
    k: int,
    env_verbose: Option<Seq<char>>,
    env_strategy: Option<Seq<char>>,
)
    requires
        ts1.len() == ts2.len(),
        0 <= k < ts1.len(),
        forall|j: int| 0 <= j < ts1.len() && j != k ==> ts1[j] == ts2[j],
        scan_range(init_model(), ts1, 0, k) matches Ok(m) && !m.escaped && m.pending is None && has_subcommands(
            m.level,
        ) && spec_sub(m.level, ts1[k]) is Some && spec_sub(m.level, ts1[k]) == spec_sub(m.level, ts2[k]),
    ensures
        spec_parse(ts1, env_verbose, env_strategy) == spec_parse(ts2, env_verbose, env_strategy),
{
    let m0 = init_model();
    lemma_range_alike(m0, ts1, ts2, 0, k);
    lemma_scan_split(m0, ts1, 0, k);
    lemma_scan_split(m0, ts2, 0, k);
    let m = scan_range(m0, ts1, 0, k)->Ok_0;
    lemma_subcommand_words(m.level, ts1[k]);
    lemma_subcommand_words(m.level, ts2[k]);
    assert(spec_step(m, ts1[k], k as nat) == spec_step(m, ts2[k], k as nat));
    match spec_step(m, ts1[k], k as nat) {
        Err(e) => {},
        Ok(m2) => {
            lemma_scan_alike(m2, ts1, ts2, k + 1);
        },
    }
    assert(spec_scan(m0, ts1, 0) == spec_scan(m0, ts2, 0));
}

/// The aliases name the same subcommands as their full names: `ws` is
/// `workspace`; within each group `ls` is `list` and `rm` is `remove`;
/// and `sw` is `switch`.
pub proof fn lemma_aliases_name_alike()
    ensures
        spec_sub(Level::Root, "ws"@) == spec_sub(Level::Root, "workspace"@),
        spec_sub(Level::Workspace, "ls"@) == spec_sub(Level::Workspace, "list"@),
        spec_sub(Level::Workspace, "rm"@) == spec_sub(Level::Workspace, "remove"@),
        spec_sub(Level::Workspace, "sw"@) == spec_sub(Level::Workspace, "switch"@),
        spec_sub(Level::Repo, "ls"@) == spec_sub(Level::Repo, "list"@),
        spec_sub(Level::Repo, "rm"@) == spec_sub(Level::Repo, "remove"@),
        spec_sub(Level::Source, "ls"@) == spec_sub(Level::Source, "list"@),
        spec_sub(Level::Source, "rm"@) == spec_sub(Level::Source, "remove"@),
        spec_sub(Level::Preset, "ls"@) == spec_sub(Level::Preset, "list"@),
        spec_sub(Level::Preset, "rm"@) == spec_sub(Level::Preset, "remove"@),
        spec_sub(Level::Root, "ws"@) is Some,
        spec_sub(Level::Workspace, "ls"@) is Some,
        spec_sub(Level::Workspace, "rm"@) is Some,
        spec_sub(Level::Workspace, "sw"@) is Some,
        spec_sub(Level::Repo, "ls"@) is Some,
        spec_sub(Level::Repo, "rm"@) is Some,
        spec_sub(Level::Source, "ls"@) is Some,
        spec_sub(Level::Source, "rm"@) is Some,
        spec_sub(Level::Preset, "ls"@) is Some,
        spec_sub(Level::Preset, "rm"@) is Some,
{
    reveal_strlit("workspace");
    reveal_strlit("ws");
    reveal_strlit("add");
    reveal_strlit("list");
    reveal_strlit("ls");
    reveal_strlit("remove");
    reveal_strlit("rm");
    reveal_strlit("switch");
    reveal_strlit("sw");
    reveal_strlit("update");
    assert("list"@.len() != "add"@.len() && "ls"@.len() != "add"@.len());
    assert("remove"@.len() != "add"@.len() && "rm"@.len() != "add"@.len());
    assert("remove"@.len() != "list"@.len() && "rm"@.len() != "list"@.len() && "rm"@[1] != "ls"@[1]);
    assert("remove"@.len() != "ls"@.len());
    assert("sw"@[0] != "ls"@[0] && "sw"@[0] != "rm"@[0] && "switch"@[0] != "remove"@[0]);
    assert("switch"@.len() != "list"@.len() && "sw"@.len() != "add"@.len() && "switch"@.len() != "add"@.len());
    assert("remove"@[0] != "update"@[0] && "rm"@.len() != "update"@.len() && "list"@.len() != "update"@.len());
    assert("ls"@.len() != "update"@.len() && "remove"@.len() != "ls"@.len());
}

} // verus!
