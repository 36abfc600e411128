//! What the user can ask for on the command line.

use crate::api::pairs;
use crate::error::{failure, ErrorView, TickError};
use crate::text::{
    decimal, is_listed, lemma_written_number_is_read, number, opt_text, read_number, same_text,
    texts,
};
use vstd::prelude::*;

verus! {

/// The command line.
#[derive(Debug)]
pub struct Cli {
    /// The command. Without one the browser is opened.
    pub command: Option<Command>,
}

/// A command.
#[derive(Debug)]
pub enum Command {
    /// Print the current Polaris auth state and account details.
    Account,
    /// List remote datasets available from Polaris.
    Catalog(RemoteListArgs),
    /// Send product feedback to the Polaris team.
    Feedback(FeedbackArgs),
    /// Store a Polaris API key from a secure prompt.
    Key,
    /// Sign in through the browser and store the returned API key.
    Login,
    /// List local snapshots under the configured root.
    List(LocalListArgs),
    /// Download missing snapshots for a dataset and time range.
    Download(DownloadArgs),
    /// Remove all local dataset state managed by Polaris.
    Reset(ResetArgs),
    /// Download and install the latest Polaris CLI release.
    Update(UpdateArgs),
}

/// A dataset and a range of time.
#[derive(Debug)]
pub struct DatasetArgs {
    pub exchange: String,
    pub asset: String,
    pub from: String,
    pub to: String,
    pub json: bool,
}

/// Which datasets on the server to list.
#[derive(Debug)]
pub struct RemoteListArgs {
    pub exchange: Option<String>,
    pub asset: Option<String>,
    pub search: Option<String>,
    pub limit: usize,
    pub json: bool,
}

/// A message to the makers.
#[derive(Debug)]
pub struct FeedbackArgs {
    pub message: String,
}

/// Which stored snapshots to list.
#[derive(Debug)]
pub struct LocalListArgs {
    pub exchange: Option<String>,
    pub asset: Option<String>,
    pub date: Option<String>,
    pub json: bool,
}

/// What to fetch.
#[derive(Debug)]
pub struct DownloadArgs {
    pub dataset: DatasetArgs,
    pub concurrency: Option<usize>,
}

/// How to tell what was removed.
#[derive(Debug)]
pub struct ResetArgs {
    pub json: bool,
}

/// What to install, and where.
#[derive(Debug)]
pub struct UpdateArgs {
    pub version: Option<String>,
    pub install_dir: Option<String>,
}

// ---------------------------------------------------------------------------
// The table of commands
// ---------------------------------------------------------------------------

/// What an argument is given as.
#[derive(Debug, Clone, Copy, PartialEq, Eq, Structural)]
pub enum ArgKind {
    Text,
    Number,
    Flag,
}

/// An argument of a command.
#[derive(Debug, Clone, Copy)]
pub struct ArgSpec {
    pub name: &'static str,
    pub kind: ArgKind,
    pub required: bool,
    /// Whether it is given by its place, and not by its name.
    pub positional: bool,
    pub default: Option<&'static str>,
}

/// A command with its arguments.
#[derive(Debug)]
pub struct CommandSpec {
    pub name: &'static str,
    pub about: &'static str,
    pub args: Vec<ArgSpec>,
}

/// An argument of a command.
pub struct ArgView {
    pub name: Seq<char>,
    pub kind: ArgKind,
    pub required: bool,
    pub positional: bool,
    pub default: Option<Seq<char>>,
}

/// A command with its arguments.
pub struct CommandSpecView {
    pub name: Seq<char>,
    pub about: Seq<char>,
    pub args: Seq<ArgView>,
}

impl View for ArgSpec {
    type V = ArgView;

    open spec fn view(&self) -> ArgView {
        ArgView {
            name: self.name@,
            kind: self.kind,
            required: self.required,
            positional: self.positional,
            default: match self.default {
                Some(text) => Some(text@),
                None => None,
            },
        }
    }
}

impl View for CommandSpec {
    type V = CommandSpecView;

    open spec fn view(&self) -> CommandSpecView {
        CommandSpecView {
            name: self.name@,
            about: self.about@,
            args: self.args@.map_values(|arg: ArgSpec| arg@),
        }
    }
}

/// The views of commands.
pub open spec fn spec_views(s: Seq<CommandSpec>) -> Seq<CommandSpecView> {
    s.map_values(|command: CommandSpec| command@)
}

/// A named argument that takes a text.
pub open spec fn text_arg(name: Seq<char>, required: bool) -> ArgView {
    ArgView { name, kind: ArgKind::Text, required, positional: false, default: None }
}

/// A named argument that takes a number.
pub open spec fn number_arg(name: Seq<char>, default: Option<Seq<char>>) -> ArgView {
    ArgView { name, kind: ArgKind::Number, required: false, positional: false, default }
}

/// A named argument that is given or not.
pub open spec fn flag_arg(name: Seq<char>) -> ArgView {
    ArgView { name, kind: ArgKind::Flag, required: false, positional: false, default: None }
}

/// The arguments of a command.
pub open spec fn args_of(command: Seq<char>) -> Seq<ArgView> {
    if command == "catalog"@ {
        seq![
            text_arg("exchange"@, false),
            text_arg("asset"@, false),
            text_arg("search"@, false),
            number_arg("limit"@, Some("100"@)),
            flag_arg("json"@),
        ]
    } else if command == "feedback"@ {
        seq![
            ArgView {
                name: "message"@,
                kind: ArgKind::Text,
                required: true,
                positional: true,
                default: None,
            },
        ]
    } else if command == "list"@ {
        seq![
            text_arg("exchange"@, false),
            text_arg("asset"@, false),
            text_arg("date"@, false),
            flag_arg("json"@),
        ]
    } else if command == "download"@ {
        seq![
            text_arg("exchange"@, true),
            text_arg("asset"@, true),
            text_arg("from"@, true),
            text_arg("to"@, true),
            flag_arg("json"@),
            number_arg("concurrency"@, None),
        ]
    } else if command == "reset"@ {
        seq![flag_arg("json"@)]
    } else if command == "update"@ {
        seq![text_arg("version"@, false), text_arg("install-dir"@, false)]
    } else {
        seq![]
    }
}

/// The commands with what they do, in the order in which they are listed.
pub open spec fn command_names() -> Seq<(Seq<char>, Seq<char>)> {
    seq![
        ("account"@, "Print the current Polaris auth state and account details"@),
        ("catalog"@, "List remote datasets available from Polaris"@),
        ("feedback"@, "Send product feedback to the Polaris team"@),
        ("key"@, "Store a Polaris API key from a secure prompt"@),
        ("login"@, "Sign in through the browser and store the returned API key"@),
        ("list"@, "List local snapshots under the configured root"@),
        ("download"@, "Download missing snapshots for a dataset and time range"@),
        ("reset"@, "Remove all local dataset state managed by Polaris"@),
        ("update"@, "Download and install the latest Polaris CLI release"@),
    ]
}

/// The table of commands.
pub open spec fn command_table() -> Seq<CommandSpecView> {
    command_names().map_values(
        |entry: (Seq<char>, Seq<char>)|
            CommandSpecView { name: entry.0, about: entry.1, args: args_of(entry.0) },
    )
}

/// What the program is called.
pub const PROGRAM_NAME: &'static str = "polaris";

/// What the program does.
pub const PROGRAM_ABOUT: &'static str = "Download Polaris market data snapshots";

/// What is said below the list of commands.
pub const PROGRAM_AFTER_HELP: &'static str =
    "Running `polaris` with no command opens the interactive dataset browser TUI.";

fn text_spec(name: &'static str, required: bool) -> (out: ArgSpec)
    ensures
        out@ == text_arg(name@, required),
{
    ArgSpec { name, kind: ArgKind::Text, required, positional: false, default: None }
}

fn flag_spec(name: &'static str) -> (out: ArgSpec)
    ensures
        out@ == flag_arg(name@),
{
    ArgSpec { name, kind: ArgKind::Flag, required: false, positional: false, default: None }
}

/// The arguments of a command.
fn argument_specs(command: &str) -> (out: Vec<ArgSpec>)
    ensures
        out@.map_values(|arg: ArgSpec| arg@) == args_of(command@),
{
    let mut out: Vec<ArgSpec> = Vec::new();
    if same_text(command, "catalog") {
        out.push(text_spec("exchange", false));
        out.push(text_spec("asset", false));
        out.push(text_spec("search", false));
        out.push(
            ArgSpec {
                name: "limit",
                kind: ArgKind::Number,
                required: false,
                positional: false,
                default: Some("100"),
            },
        );
        out.push(flag_spec("json"));
    } else if same_text(command, "feedback") {
        out.push(
            ArgSpec {
                name: "message",
                kind: ArgKind::Text,
                required: true,
                positional: true,
                default: None,
            },
        );
    } else if same_text(command, "list") {
        out.push(text_spec("exchange", false));
        out.push(text_spec("asset", false));
        out.push(text_spec("date", false));
        out.push(flag_spec("json"));
    } else if same_text(command, "download") {
        out.push(text_spec("exchange", true));
        out.push(text_spec("asset", true));
        out.push(text_spec("from", true));
        out.push(text_spec("to", true));
        out.push(flag_spec("json"));
        out.push(
            ArgSpec {
                name: "concurrency",
                kind: ArgKind::Number,
                required: false,
                positional: false,
                default: None,
            },
        );
    } else if same_text(command, "reset") {
        out.push(flag_spec("json"));
    } else if same_text(command, "update") {
        out.push(text_spec("version", false));
        out.push(text_spec("install-dir", false));
    }
    assert(out@.map_values(|arg: ArgSpec| arg@) =~= args_of(command@));
    out
}

/// Puts a command at the end of the table.
fn push_command(table: &mut Vec<CommandSpec>, name: &'static str, about: &'static str)
    ensures
        spec_views(final(table)@) == spec_views(old(table)@).push(
            CommandSpecView { name: name@, about: about@, args: args_of(name@) },
        ),
{
    table.push(CommandSpec { name, about, args: argument_specs(name) });
    assert(spec_views(table@) =~= spec_views(old(table)@).push(
        CommandSpecView { name: name@, about: about@, args: args_of(name@) },
    ));
}

/// The table of commands.
pub fn command_specs() -> (out: Vec<CommandSpec>)
    ensures
        spec_views(out@) == command_table(),
{
    let mut out: Vec<CommandSpec> = Vec::new();
    push_command(&mut out, "account", "Print the current Polaris auth state and account details");
    push_command(&mut out, "catalog", "List remote datasets available from Polaris");
    push_command(&mut out, "feedback", "Send product feedback to the Polaris team");
    push_command(&mut out, "key", "Store a Polaris API key from a secure prompt");
    push_command(
        &mut out,
        "login",
        "Sign in through the browser and store the returned API key",
    );
    push_command(&mut out, "list", "List local snapshots under the configured root");
    push_command(&mut out, "download", "Download missing snapshots for a dataset and time range");
    push_command(&mut out, "reset", "Remove all local dataset state managed by Polaris");
    push_command(&mut out, "update", "Download and install the latest Polaris CLI release");
    assert(spec_views(out@) =~= command_table());
    out
}

// ---------------------------------------------------------------------------
// Reading a command line
// ---------------------------------------------------------------------------

/// A command line that was taken apart: the name of the command, the arguments that have a value, and
/// the flags that are given.
#[derive(Debug)]
pub struct CommandLine {
    pub command: Option<String>,
    pub values: Vec<(String, String)>,
    pub flags: Vec<String>,
}

/// What a command asks for.
pub enum CommandView {
    Account,
    Catalog {
        exchange: Option<Seq<char>>,
        asset: Option<Seq<char>>,
        search: Option<Seq<char>>,
        limit: nat,
        json: bool,
    },
    Feedback { message: Seq<char> },
    Key,
    Login,
    List {
        exchange: Option<Seq<char>>,
        asset: Option<Seq<char>>,
        date: Option<Seq<char>>,
        json: bool,
    },
    Download {
        exchange: Seq<char>,
        asset: Seq<char>,
        from: Seq<char>,
        to: Seq<char>,
        json: bool,
        concurrency: Option<nat>,
    },
    Reset { json: bool },
    Update { version: Option<Seq<char>>, install_dir: Option<Seq<char>> },
}

impl View for Command {
    type V = CommandView;

    open spec fn view(&self) -> CommandView {
        match *self {
            Command::Account => CommandView::Account,
            Command::Catalog(args) => CommandView::Catalog {
                exchange: opt_text(args.exchange),
                asset: opt_text(args.asset),
                search: opt_text(args.search),
                limit: args.limit as nat,
                json: args.json,
            },
            Command::Feedback(args) => CommandView::Feedback { message: args.message@ },
            Command::Key => CommandView::Key,
            Command::Login => CommandView::Login,
            Command::List(args) => CommandView::List {
                exchange: opt_text(args.exchange),
                asset: opt_text(args.asset),
                date: opt_text(args.date),
                json: args.json,
            },
            Command::Download(args) => CommandView::Download {
                exchange: args.dataset.exchange@,
                asset: args.dataset.asset@,
                from: args.dataset.from@,
                to: args.dataset.to@,
                json: args.dataset.json,
                concurrency: match args.concurrency {
                    Some(n) => Some(n as nat),
                    None => None,
                },
            },
            Command::Reset(args) => CommandView::Reset { json: args.json },
            Command::Update(args) => CommandView::Update {
                version: opt_text(args.version),
                install_dir: opt_text(args.install_dir),
            },
        }
    }
}

impl CommandView {
    /// The name of the command.
    pub open spec fn name(self) -> Seq<char> {
        match self {
            CommandView::Account => "account"@,
            CommandView::Catalog { .. } => "catalog"@,
            CommandView::Feedback { .. } => "feedback"@,
            CommandView::Key => "key"@,
            CommandView::Login => "login"@,
            CommandView::List { .. } => "list"@,
            CommandView::Download { .. } => "download"@,
            CommandView::Reset { .. } => "reset"@,
            CommandView::Update { .. } => "update"@,
        }
    }
}

/// The first value of an argument.
pub open spec fn value_of(values: Seq<(Seq<char>, Seq<char>)>, name: Seq<char>) -> Option<Seq<char>>
    decreases values.len(),
{
    if values.len() == 0 {
        None
    } else if values[0].0 == name {
        Some(values[0].1)
    } else {
        value_of(values.drop_first(), name)
    }
}

/// A value that must be there.
pub open spec fn required_value(values: Seq<(Seq<char>, Seq<char>)>, name: Seq<char>) -> Result<
    Seq<char>,
    ErrorView,
> {
    match value_of(values, name) {
        Some(text) => Ok(text),
        None => Err(ErrorView::InvalidArgument("missing value for "@ + name)),
    }
}

/// A value that must be a number where it is there.
pub open spec fn number_value(values: Seq<(Seq<char>, Seq<char>)>, name: Seq<char>) -> Result<
    Option<nat>,
    ErrorView,
> {
    match value_of(values, name) {
        None => Ok(None),
        Some(text) => match number(text, usize::MAX as nat) {
            Some(n) => Ok(Some(n)),
            None => Err(ErrorView::InvalidArgument("invalid number for "@ + name)),
        },
    }
}

/// What a command asks for, or what is wrong with it.
pub open spec fn command_of(
    name: Seq<char>,
    values: Seq<(Seq<char>, Seq<char>)>,
    flags: Seq<Seq<char>>,
) -> Result<CommandView, ErrorView> {
    let json = flags.contains("json"@);
    if name == "account"@ {
        Ok(CommandView::Account)
    } else if name == "catalog"@ {
        match number_value(values, "limit"@) {
            Ok(limit) => Ok(
                CommandView::Catalog {
                    exchange: value_of(values, "exchange"@),
                    asset: value_of(values, "asset"@),
                    search: value_of(values, "search"@),
                    limit: match limit {
                        Some(n) => n,
                        None => 100,
                    },
                    json,
                },
            ),
            Err(error) => Err(error),
        }
    } else if name == "feedback"@ {
        match required_value(values, "message"@) {
            Ok(message) => Ok(CommandView::Feedback { message }),
            Err(error) => Err(error),
        }
    } else if name == "key"@ {
        Ok(CommandView::Key)
    } else if name == "login"@ {
        Ok(CommandView::Login)
    } else if name == "list"@ {
        Ok(
            CommandView::List {
                exchange: value_of(values, "exchange"@),
                asset: value_of(values, "asset"@),
                date: value_of(values, "date"@),
                json,
            },
        )
    } else if name == "download"@ {
        let exchange = required_value(values, "exchange"@);
        let asset = required_value(values, "asset"@);
        let from = required_value(values, "from"@);
        let to = required_value(values, "to"@);
        let concurrency = number_value(values, "concurrency"@);
        if exchange is Err {
            Err(exchange->Err_0)
        } else if asset is Err {
            Err(asset->Err_0)
        } else if from is Err {
            Err(from->Err_0)
        } else if to is Err {
            Err(to->Err_0)
        } else if concurrency is Err {
            Err(concurrency->Err_0)
        } else {
            Ok(
                CommandView::Download {
                    exchange: exchange->Ok_0,
                    asset: asset->Ok_0,
                    from: from->Ok_0,
                    to: to->Ok_0,
                    json,
                    concurrency: concurrency->Ok_0,
                },
            )
        }
    } else if name == "reset"@ {
        Ok(CommandView::Reset { json })
    } else if name == "update"@ {
        Ok(
            CommandView::Update {
                version: value_of(values, "version"@),
                install_dir: value_of(values, "install-dir"@),
            },
        )
    } else {
        Err(ErrorView::InvalidArgument("unknown command: "@ + name))
    }
}

impl CommandLine {
    /// The first value of an argument.
    fn value(&self, name: &str) -> (out: Option<String>)
        ensures
            opt_text(out) == value_of(pairs(self.values@), name@),
    {
        let ghost all = pairs(self.values@);
        assert(all.skip(0) =~= all);
        for i in 0..self.values.len()
            invariant
                all == pairs(self.values@),
                value_of(all, name@) == value_of(all.skip(i as int), name@),
        {
            let pair = &self.values[i];
            assert(all.skip(i as int)[0] == (pair.0@, pair.1@));
            assert(all.skip(i as int).drop_first() =~= all.skip(i + 1));
            if same_text(pair.0.as_str(), name) {
                return Some(pair.1.clone());
            }
        }
        None
    }

    /// A value that must be there.
    fn required(&self, name: &str) -> (out: Result<String, TickError>)
        ensures
            match required_value(pairs(self.values@), name@) {
                Ok(text) => out matches Ok(t) && t@ == text,
                Err(error) => failure(out) == Some(error),
            },
    {
        match self.value(name) {
            Some(text) => Ok(text),
            None => Err(TickError::invalid("missing value for ", name)),
        }
    }

    /// A value that must be a number where it is there.
    fn number(&self, name: &str) -> (out: Result<Option<usize>, TickError>)
        ensures
            match number_value(pairs(self.values@), name@) {
                Ok(Some(n)) => out matches Ok(Some(v)) && v == n,
                Ok(None) => out matches Ok(None),
                Err(error) => failure(out) == Some(error),
            },
    {
        match self.value(name) {
            None => Ok(None),
            Some(text) => match read_number(text.as_str(), usize::MAX as u64) {
                Some(n) => Ok(Some(n as usize)),
                None => Err(TickError::invalid("invalid number for ", name)),
            },
        }
    }

    /// The arguments of a download.
    fn download_args(&self, json: bool) -> (out: Result<DownloadArgs, TickError>)
        ensures
            ({
                let values = pairs(self.values@);
                let exchange = required_value(values, "exchange"@);
                let asset = required_value(values, "asset"@);
                let from = required_value(values, "from"@);
                let to = required_value(values, "to"@);
                let concurrency = number_value(values, "concurrency"@);
                match out {
                    Ok(args) => {
                        &&& exchange == Ok::<Seq<char>, ErrorView>(args.dataset.exchange@)
                        &&& asset == Ok::<Seq<char>, ErrorView>(args.dataset.asset@)
                        &&& from == Ok::<Seq<char>, ErrorView>(args.dataset.from@)
                        &&& to == Ok::<Seq<char>, ErrorView>(args.dataset.to@)
                        &&& args.dataset.json == json
                        &&& concurrency == Ok::<Option<nat>, ErrorView>(
                            match args.concurrency {
                                Some(n) => Some(n as nat),
                                None => None,
                            },
                        )
                    },
                    Err(error) => error@ == (if exchange is Err {
                        exchange->Err_0
                    } else if asset is Err {
                        asset->Err_0
                    } else if from is Err {
                        from->Err_0
                    } else if to is Err {
                        to->Err_0
                    } else {
                        concurrency->Err_0
                    }) && (exchange is Err || asset is Err || from is Err || to is Err
                        || concurrency is Err),
                }
            }),
    {
        let exchange = match self.required("exchange") {
            Ok(text) => text,
            Err(error) => {
                return Err(error);
            },
        };
        let asset = match self.required("asset") {
            Ok(text) => text,
            Err(error) => {
                return Err(error);
            },
        };
        let from = match self.required("from") {
            Ok(text) => text,
            Err(error) => {
                return Err(error);
            },
        };
        let to = match self.required("to") {
            Ok(text) => text,
            Err(error) => {
                return Err(error);
            },
        };
        let concurrency = match self.number("concurrency") {
            Ok(n) => n,
            Err(error) => {
                return Err(error);
            },
        };
        Ok(DownloadArgs { dataset: DatasetArgs { exchange, asset, from, to, json }, concurrency })
    }

    /// The command of this name.
    fn command(&self, name: &str) -> (out: Result<Command, TickError>)
        ensures
            match command_of(name@, pairs(self.values@), texts(self.flags@)) {
                Ok(view) => out matches Ok(command) && command@ == view,
                Err(error) => failure(out) == Some(error),
            },
    {
        let json = is_listed(&self.flags, "json");
        if same_text(name, "account") {
            Ok(Command::Account)
        } else if same_text(name, "catalog") {
            match self.number("limit") {
                Ok(limit) => Ok(
                    Command::Catalog(
                        RemoteListArgs {
                            exchange: self.value("exchange"),
                            asset: self.value("asset"),
                            search: self.value("search"),
                            limit: match limit {
                                Some(n) => n,
                                None => 100,
                            },
                            json,
                        },
                    ),
                ),
                Err(error) => Err(error),
            }
        } else if same_text(name, "feedback") {
            match self.required("message") {
                Ok(message) => Ok(Command::Feedback(FeedbackArgs { message })),
                Err(error) => Err(error),
            }
        } else if same_text(name, "key") {
            Ok(Command::Key)
        } else if same_text(name, "login") {
            Ok(Command::Login)
        } else if same_text(name, "list") {
            Ok(
                Command::List(
                    LocalListArgs {
                        exchange: self.value("exchange"),
                        asset: self.value("asset"),
                        date: self.value("date"),
                        json,
                    },
                ),
            )
        } else if same_text(name, "download") {
            match self.download_args(json) {
                Ok(args) => Ok(Command::Download(args)),
                Err(error) => Err(error),
            }
        } else if same_text(name, "reset") {
            Ok(Command::Reset(ResetArgs { json }))
        } else if same_text(name, "update") {
            Ok(
                Command::Update(
                    UpdateArgs {
                        version: self.value("version"),
                        install_dir: self.value("install-dir"),
                    },
                ),
            )
        } else {
            Err(TickError::invalid("unknown command: ", name))
        }
    }
}

impl Cli {
    /// What a command line that was taken apart asks for.
    pub fn from_command_line(line: &CommandLine) -> (out: Result<Cli, TickError>)
        ensures
            match line.command {
                None => out matches Ok(cli) && cli.command is None,
                Some(name) => match command_of(name@, pairs(line.values@), texts(line.flags@)) {
                    Ok(view) => out matches Ok(cli) && (cli.command matches Some(command)
                        && command@ == view),
                    Err(error) => failure(out) == Some(error),
                },
            },
    {
        match &line.command {
            None => Ok(Cli { command: None }),
            Some(name) => match line.command(name.as_str()) {
                Ok(command) => Ok(Cli { command: Some(command) }),
                Err(error) => Err(error),
            },
        }
    }
}

/// Whether values are those that the table asks of a command: what is required is there, and numbers
/// are numbers.
pub open spec fn fits_table(command: Seq<char>, values: Seq<(Seq<char>, Seq<char>)>) -> bool {
    let args = args_of(command);
    forall|i: int|
        0 <= i < args.len() ==> {
            let arg = #[trigger] args[i];
            &&& arg.required ==> value_of(values, arg.name) is Some
            &&& arg.kind == ArgKind::Number && value_of(values, arg.name) is Some ==> number(
                value_of(values, arg.name)->0,
                usize::MAX as nat,
            ) is Some
        }
}

/// Whatever the table lets through is a command, and the one that was named.
pub proof fn lemma_table_is_read(
    i: int,
    values: Seq<(Seq<char>, Seq<char>)>,
    flags: Seq<Seq<char>>,
)
    requires
        0 <= i < command_table().len(),
        fits_table(command_table()[i].name, values),
    ensures
        command_of(command_table()[i].name, values, flags) is Ok,
        command_of(command_table()[i].name, values, flags)->Ok_0.name() == command_table()[i].name,
{
    let name = command_table()[i].name;
    let args = args_of(name);
    assert(name == command_names()[i].0);
    if name == "catalog"@ {
        assert(args[3] == number_arg("limit"@, Some("100"@)));
    } else if name == "feedback"@ {
        assert(args[0].name == "message"@ && args[0].required);
    } else if name == "list"@ {
    } else if name == "download"@ {
        assert(args[0] == text_arg("exchange"@, true));
        assert(args[1] == text_arg("asset"@, true));
        assert(args[2] == text_arg("from"@, true));
        assert(args[3] == text_arg("to"@, true));
        assert(args[5] == number_arg("concurrency"@, None));
    }
}

// ---------------------------------------------------------------------------
// What becomes of the arguments
// ---------------------------------------------------------------------------

/// Whether an argument has this value: the first value that is given for it.
pub open spec fn has_value(line: CommandLine, name: Seq<char>, value: Seq<char>) -> bool {
    exists|k: int|
        {
            &&& 0 <= k < line.values@.len()
            &&& (#[trigger] line.values@[k]).0@ == name
            &&& line.values@[k].1@ == value
            &&& forall|j: int| 0 <= j < k ==> (#[trigger] line.values@[j]).0@ != name
        }
}

/// Whether a text is the value of an argument, where one is given for it, and no text is there where
/// none is.
pub open spec fn taken_from(text: Option<String>, line: CommandLine, name: Seq<char>) -> bool {
    match text {
        Some(value) => has_value(line, name, value@),
        None => forall|k: int| 0 <= k < line.values@.len() ==> (#[trigger] line.values@[k]).0@ != name,
    }
}

proof fn lemma_value_of(line: CommandLine, name: Seq<char>, from: int)
    requires
        0 <= from <= line.values@.len(),
        forall|j: int| 0 <= j < from ==> (#[trigger] line.values@[j]).0@ != name,
    ensures
        match value_of(pairs(line.values@).skip(from), name) {
            Some(value) => has_value(line, name, value),
            None => forall|k: int|
                0 <= k < line.values@.len() ==> (#[trigger] line.values@[k]).0@ != name,
        },
    decreases line.values@.len() - from,
{
    let rest = pairs(line.values@).skip(from);
    if from < line.values@.len() {
        let pair = line.values@[from];
        assert(rest[0] == (pair.0@, pair.1@));
        assert(rest.drop_first() =~= pairs(line.values@).skip(from + 1));
        if pair.0@ != name {
            lemma_value_of(line, name, from + 1);
        } else {
            assert(has_value(line, name, pair.1@));
        }
    }
}

proof fn lemma_value(line: CommandLine, name: Seq<char>)
    ensures
        match value_of(pairs(line.values@), name) {
            Some(value) => has_value(line, name, value),
            None => forall|k: int|
                0 <= k < line.values@.len() ==> (#[trigger] line.values@[k]).0@ != name,
        },
{
    assert(pairs(line.values@).skip(0) =~= pairs(line.values@));
    lemma_value_of(line, name, 0);
}

/// Without a command the browser is opened. With one, that command is done: the one that was named.
pub proof fn lemma_named_command_is_done(line: CommandLine, out: Result<Cli, TickError>)
    requires
        call_ensures(Cli::from_command_line, (&line,), out),
    ensures
        line.command is None ==> out is Ok && out->Ok_0.command is None,
        line.command matches Some(name) ==> (out matches Ok(cli) ==> (cli.command matches Some(
            command,
        ) && match command {
            Command::Account => name@ == "account"@,
            Command::Catalog(_) => name@ == "catalog"@,
            Command::Feedback(_) => name@ == "feedback"@,
            Command::Key => name@ == "key"@,
            Command::Login => name@ == "login"@,
            Command::List(_) => name@ == "list"@,
            Command::Download(_) => name@ == "download"@,
            Command::Reset(_) => name@ == "reset"@,
            Command::Update(_) => name@ == "update"@,
        })),
{
    if let Some(name) = line.command {
        if let Ok(view) = command_of(name@, pairs(line.values@), texts(line.flags@)) {
            assert(out->Ok_0.command->0@ == view);
        }
    }
}

/// The list of stored snapshots is narrowed to what the user gave.
pub proof fn lemma_list_arguments(line: CommandLine, out: Result<Cli, TickError>, args: LocalListArgs)
    requires
        call_ensures(Cli::from_command_line, (&line,), out),
        out matches Ok(cli) && cli.command == Some(Command::List(args)),
    ensures
        taken_from(args.exchange, line, "exchange"@),
        taken_from(args.asset, line, "asset"@),
        taken_from(args.date, line, "date"@),
        args.json <==> texts(line.flags@).contains("json"@),
{
    lemma_value(line, "exchange"@);
    lemma_value(line, "asset"@);
    lemma_value(line, "date"@);
    let name = line.command->0@;
    let view = command_of(name, pairs(line.values@), texts(line.flags@))->Ok_0;
    assert(out->Ok_0.command->0@ == view);
}

/// The list of datasets is narrowed to what the user gave. Its length is the number that the user
/// gave, or else a hundred.
pub proof fn lemma_catalog_arguments(
    line: CommandLine,
    out: Result<Cli, TickError>,
    args: RemoteListArgs,
    n: nat,
)
    requires
        call_ensures(Cli::from_command_line, (&line,), out),
        out matches Ok(cli) && cli.command == Some(Command::Catalog(args)),
    ensures
        taken_from(args.exchange, line, "exchange"@),
        taken_from(args.asset, line, "asset"@),
        taken_from(args.search, line, "search"@),
        args.json <==> texts(line.flags@).contains("json"@),
        (forall|k: int|
            0 <= k < line.values@.len() ==> (#[trigger] line.values@[k]).0@ != "limit"@)
            ==> args.limit == 100,
        has_value(line, "limit"@, decimal(n)) ==> args.limit == n,
{
    lemma_value(line, "exchange"@);
    lemma_value(line, "asset"@);
    lemma_value(line, "search"@);
    lemma_value(line, "limit"@);
    lemma_written_number_is_read(n, usize::MAX as nat);
    let name = line.command->0@;
    let view = command_of(name, pairs(line.values@), texts(line.flags@))->Ok_0;
    assert(out->Ok_0.command->0@ == view);
    if has_value(line, "limit"@, decimal(n)) {
        lemma_one_value(line, "limit"@, decimal(n));
    }
}

proof fn lemma_one_value(line: CommandLine, name: Seq<char>, value: Seq<char>)
    requires
        has_value(line, name, value),
    ensures
        value_of(pairs(line.values@), name) == Some(value),
{
    lemma_value(line, name);
    let k = choose|k: int|
        {
            &&& 0 <= k < line.values@.len()
            &&& (#[trigger] line.values@[k]).0@ == name
            &&& line.values@[k].1@ == value
            &&& forall|j: int| 0 <= j < k ==> (#[trigger] line.values@[j]).0@ != name
        };
    let found = value_of(pairs(line.values@), name)->0;
    let m = choose|m: int|
        {
            &&& 0 <= m < line.values@.len()
            &&& (#[trigger] line.values@[m]).0@ == name
            &&& line.values@[m].1@ == found
            &&& forall|j: int| 0 <= j < m ==> (#[trigger] line.values@[j]).0@ != name
        };
    if k < m {
        assert(line.values@[k].0@ != name);
    }
    if m < k {
        assert(line.values@[m].0@ != name);
    }
}

/// What is downloaded is what the user gave: the dataset, the range of time, and how many snapshots at
/// once, where that was given. All but the last must be given.
pub proof fn lemma_download_arguments(
    line: CommandLine,
    out: Result<Cli, TickError>,
    args: DownloadArgs,
    n: nat,
)
    requires
        call_ensures(Cli::from_command_line, (&line,), out),
        out matches Ok(cli) && cli.command == Some(Command::Download(args)),
    ensures
        has_value(line, "exchange"@, args.dataset.exchange@),
        has_value(line, "asset"@, args.dataset.asset@),
        has_value(line, "from"@, args.dataset.from@),
        has_value(line, "to"@, args.dataset.to@),
        args.dataset.json <==> texts(line.flags@).contains("json"@),
        args.concurrency is None <==> forall|k: int|
            0 <= k < line.values@.len() ==> (#[trigger] line.values@[k]).0@ != "concurrency"@,
        has_value(line, "concurrency"@, decimal(n)) ==> args.concurrency is Some
            && args.concurrency->0 == n,
{
    lemma_value(line, "exchange"@);
    lemma_value(line, "asset"@);
    lemma_value(line, "from"@);
    lemma_value(line, "to"@);
    lemma_value(line, "concurrency"@);
    lemma_written_number_is_read(n, usize::MAX as nat);
    let name = line.command->0@;
    let view = command_of(name, pairs(line.values@), texts(line.flags@))->Ok_0;
    assert(out->Ok_0.command->0@ == view);
    if has_value(line, "concurrency"@, decimal(n)) {
        lemma_one_value(line, "concurrency"@, decimal(n));
    }
}

} // verus!
