use polaris::cli::{
    command_specs, ArgKind, Cli, Command, CommandLine, PROGRAM_ABOUT, PROGRAM_AFTER_HELP,
    PROGRAM_NAME,
};

fn number(text: &str) -> Result<String, std::num::ParseIntError> {
    text.parse::<usize>().map(|_| text.to_string())
}

/// The program as clap knows it, after the table of commands.
fn program() -> clap::Command {
    let mut program = clap::Command::new(PROGRAM_NAME)
        .version("0.4.2")
        .about(PROGRAM_ABOUT)
        .after_help(PROGRAM_AFTER_HELP);
    for spec in command_specs() {
        let mut command = clap::Command::new(spec.name).about(spec.about);
        for arg in &spec.args {
            let mut known = clap::Arg::new(arg.name).required(arg.required);
            if !arg.positional {
                known = known.long(arg.name);
            }
            if let Some(default) = arg.default {
                known = known.default_value(default);
            }
            known = match arg.kind {
                ArgKind::Text => known,
                ArgKind::Number => known.value_parser(number),
                ArgKind::Flag => known.action(clap::ArgAction::SetTrue),
            };
            command = command.arg(known);
        }
        program = program.subcommand(command);
    }
    program
}

fn try_parse_from<const N: usize>(words: [&str; N]) -> Result<Cli, String> {
    let matches = program()
        .try_get_matches_from(words)
        .map_err(|error| error.to_string())?;
    let mut line = CommandLine { command: None, values: Vec::new(), flags: Vec::new() };
    if let Some((name, matches)) = matches.subcommand() {
        line.command = Some(name.to_string());
        for spec in command_specs().iter().filter(|spec| spec.name == name) {
            for arg in &spec.args {
                if arg.kind == ArgKind::Flag {
                    if matches.get_flag(arg.name) {
                        line.flags.push(arg.name.to_string());
                    }
                } else if let Some(value) = matches.get_one::<String>(arg.name) {
                    line.values.push((arg.name.to_string(), value.clone()));
                }
            }
        }
    }
    Cli::from_command_line(&line).map_err(|error| error.text())
}

#[test]
fn account_command_parses() {
    let cli = try_parse_from(["polaris", "account"]).expect("cli");
    assert!(matches!(cli.command, Some(Command::Account)));
}

#[test]
fn login_command_parses() {
    let cli = try_parse_from(["polaris", "login"]).expect("cli");
    assert!(matches!(cli.command, Some(Command::Login)));
}

#[test]
fn key_command_parses() {
    let cli = try_parse_from(["polaris", "key"]).expect("cli");
    assert!(matches!(cli.command, Some(Command::Key)));
}

#[test]
fn feedback_command_parses() {
    let cli = try_parse_from(["polaris", "feedback", "can you add this?"]).expect("cli");
    match cli.command {
        Some(Command::Feedback(args)) => assert_eq!(args.message, "can you add this?"),
        other => panic!("expected feedback command, got {other:?}"),
    }
}

#[test]
fn catalog_command_parses() {
    let cli = try_parse_from(["polaris", "catalog"]).expect("cli");
    assert!(matches!(cli.command, Some(Command::Catalog(_))));
}

#[test]
fn list_command_parses() {
    let cli = try_parse_from(["polaris", "list"]).expect("cli");
    assert!(matches!(cli.command, Some(Command::List(_))));
}

#[test]
fn download_command_parses() {
    let cli = try_parse_from([
        "polaris",
        "download",
        "--exchange",
        "aster",
        "--asset",
        "BTCUSDT",
        "--from",
        "2026-06-01T00:00:00Z",
        "--to",
        "2026-06-02T00:00:00Z",
    ])
    .expect("cli");
    assert!(matches!(cli.command, Some(Command::Download(_))));
}

#[test]
fn update_command_parses_with_optional_overrides() {
    let cli = try_parse_from([
        "polaris",
        "update",
        "--version",
        "v0.4.2",
        "--install-dir",
        "/tmp/polaris",
    ])
    .expect("cli");

    match cli.command {
        Some(Command::Update(args)) => {
            assert_eq!(args.version.as_deref(), Some("v0.4.2"));
            assert_eq!(args.install_dir.as_deref(), Some("/tmp/polaris"));
        }
        other => panic!("expected update command, got {other:?}"),
    }
}

#[test]
fn top_level_help_lists_command_descriptions() {
    let mut cmd = program();
    let help = cmd.render_help().to_string();

    assert!(
        help.contains("Running `polaris` with no command opens the interactive dataset browser TUI.")
    );
    assert!(help.contains("account   Print the current Polaris auth state and account details"));
    assert!(help.contains("catalog   List remote datasets available from Polaris"));
    assert!(help.contains("feedback  Send product feedback to the Polaris team"));
    assert!(help.contains("key       Store a Polaris API key from a secure prompt"));
    assert!(help.contains("login     Sign in through the browser and store the returned API key"));
    assert!(help.contains("list      List local snapshots under the configured root"));
    assert!(help.contains("download  Download missing snapshots for a dataset and time range"));
    assert!(help.contains("reset     Remove all local dataset state managed by Polaris"));
    assert!(help.contains("update    Download and install the latest Polaris CLI release"));
}

#[test]
fn arguments_have_values_and_defaults() {
    let cli = try_parse_from(["polaris"]).expect("cli");
    assert!(cli.command.is_none());
    match try_parse_from(["polaris", "catalog", "--search", "btc", "--json"]).expect("cli").command {
        Some(Command::Catalog(args)) => {
            assert_eq!(args.limit, 100);
            assert_eq!(args.search.as_deref(), Some("btc"));
            assert_eq!(args.exchange, None);
            assert!(args.json);
        }
        other => panic!("expected catalog command, got {other:?}"),
    }
    match try_parse_from(["polaris", "catalog", "--limit=25"]).expect("cli").command {
        Some(Command::Catalog(args)) => assert_eq!(args.limit, 25),
        other => panic!("expected catalog command, got {other:?}"),
    }
    match try_parse_from(["polaris", "list", "--date", "2026-06-01"]).expect("cli").command {
        Some(Command::List(args)) => {
            assert_eq!(args.date.as_deref(), Some("2026-06-01"));
            assert!(!args.json);
        }
        other => panic!("expected list command, got {other:?}"),
    }
    match try_parse_from(["polaris", "reset", "--json"]).expect("cli").command {
        Some(Command::Reset(args)) => assert!(args.json),
        other => panic!("expected reset command, got {other:?}"),
    }
    match try_parse_from([
        "polaris", "download", "--exchange", "a", "--asset", "b", "--from", "c", "--to", "d",
        "--concurrency", "8",
    ])
    .expect("cli")
    .command
    {
        Some(Command::Download(args)) => {
            assert_eq!(args.concurrency, Some(8));
            assert_eq!(args.dataset.exchange, "a");
            assert_eq!(args.dataset.asset, "b");
            assert_eq!(args.dataset.from, "c");
            assert_eq!(args.dataset.to, "d");
        }
        other => panic!("expected download command, got {other:?}"),
    }
    assert!(try_parse_from(["polaris", "download", "--exchange", "a"]).is_err());
    assert!(try_parse_from(["polaris", "catalog", "--limit", "many"]).is_err());
    assert!(try_parse_from(["polaris", "sell"]).is_err());
    assert!(try_parse_from(["polaris", "feedback"]).is_err());
}

#[test]
fn lines_that_do_not_fit_are_refused() {
    let line = |command: &str, values: &[(&str, &str)]| CommandLine {
        command: Some(command.into()),
        values: values
            .iter()
            .map(|(name, value)| (name.to_string(), value.to_string()))
            .collect(),
        flags: Vec::new(),
    };
    let told = |line: CommandLine| Cli::from_command_line(&line).unwrap_err().text();
    assert_eq!(told(line("sell", &[])), "unknown command: sell");
    assert_eq!(told(line("feedback", &[])), "missing value for message");
    assert_eq!(told(line("download", &[("exchange", "a")])), "missing value for asset");
    assert_eq!(told(line("catalog", &[("limit", "x")])), "invalid number for limit");
}
