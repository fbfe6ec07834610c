use cargo_limit::options::{ArgsError, Options};

fn options() -> Options {
    Options {
        cargo_args: Vec::new(),
        limit_messages: 0,
        time_limit_after_error: 1,
        ascending_messages_order: false,
        show_warnings_if_errors_exist: false,
        show_dependencies_warnings: false,
        open_in_external_application: String::new(),
        open_in_external_application_on_warnings: false,
        help: false,
        version: false,
        json_message_format: false,
        short_message_format: false,
    }
}

fn strings(v: &[&str]) -> Vec<String> {
    v.iter().map(|s| s.to_string()).collect()
}

fn run(args: &[&str], command: &str, tty: bool) -> (Options, Result<bool, ArgsError>) {
    let mut o = options();
    let r = o.process_args(&strings(args), command, tty);
    (o, r)
}

#[test]
fn plain_arguments_are_passed_on() {
    let (o, r) = run(&["/usr/bin/cargo", "run", "--cargo-argument", "other-cargo-argument"], "run", false);
    assert!(matches!(r, Ok(false)));
    assert_eq!(
        o.cargo_args,
        strings(&["run", "--cargo-argument", "other-cargo-argument", "--message-format=json", "--"])
    );
}

#[test]
fn program_arguments_follow_the_delimiter() {
    let (o, r) = run(&["/usr/bin/cargo", "run", "--", "program-argument"], "run", false);
    assert!(matches!(r, Ok(false)));
    assert_eq!(o.cargo_args, strings(&["run", "--message-format=json", "--", "program-argument"]));
}

#[test]
fn color_choice_picks_the_json_format() {
    let (o, _) = run(&["/usr/bin/cargo", "run", "--color=always"], "run", false);
    assert_eq!(o.cargo_args, strings(&["run", "--message-format=json-diagnostic-rendered-ansi", "--"]));
    let (o, _) = run(&["/usr/bin/cargo", "run", "--color", "never"], "run", true);
    assert_eq!(o.cargo_args, strings(&["run", "--message-format=json", "--"]));
    let (o, _) = run(&["/usr/bin/cargo", "run"], "run", true);
    assert_eq!(o.cargo_args, strings(&["run", "--message-format=json-diagnostic-rendered-ansi", "--"]));
}

#[test]
fn first_two_arguments_are_skipped() {
    let (o, _) = run(&["run", "--color=never"], "run", true);
    assert_eq!(o.cargo_args, strings(&["run", "--message-format=json-diagnostic-rendered-ansi", "--"]));
}

#[test]
fn explicit_message_formats() {
    let (o, _) = run(&["c", "build", "--message-format", "json"], "build", false);
    assert!(o.json_message_format);
    assert_eq!(o.cargo_args, strings(&["build", "--message-format", "json", "--"]));
    let (o, _) = run(&["c", "build", "--message-format=json-diagnostic-short"], "build", false);
    assert!(o.json_message_format);
    assert_eq!(o.cargo_args, strings(&["build", "--message-format=json-diagnostic-short", "--"]));
    let (o, _) = run(&["c", "build", "--message-format=short"], "build", false);
    assert!(o.short_message_format);
    assert_eq!(o.cargo_args, strings(&["build", "--message-format=json-diagnostic-short", "--"]));
    let (o, _) = run(&["c", "build", "--message-format=human"], "build", false);
    assert_eq!(o.cargo_args, strings(&["build", "--message-format=json", "--"]));
}

#[test]
fn help_and_version_are_recorded() {
    let (o, _) = run(&["c", "build", "-h", "--version"], "build", false);
    assert!(o.help && o.version);
    assert_eq!(o.cargo_args, strings(&["build", "-h", "--version", "--message-format=json", "--"]));
}

#[test]
fn bad_arguments_are_rejected() {
    assert!(matches!(run(&["c", "run", "--color"], "run", false).1, Err(ArgsError::MissingColorValue)));
    match run(&["c", "run", "--color=red"], "run", false).1 {
        Err(ArgsError::InvalidColor(c)) => assert_eq!(c, "red"),
        _ => panic!("expected an invalid color"),
    }
    assert!(matches!(
        run(&["c", "run", "--message-format"], "run", false).1,
        Err(ArgsError::MissingMessageFormatValue)
    ));
    match run(&["c", "run", "--message-format", "xml"], "run", false).1 {
        Err(ArgsError::InvalidMessageFormat(f)) => assert_eq!(f, "xml"),
        _ => panic!("expected an invalid format"),
    }
}

#[test]
fn tests_may_get_a_color_argument() {
    let (_, r) = run(&["c", "test"], "test", true);
    assert!(matches!(r, Ok(true)));
    let (_, r) = run(&["c", "test"], "test", false);
    assert!(matches!(r, Ok(false)));
    let (o, r) = run(&["c", "bench", "--", "--color=always"], "bench", true);
    assert!(matches!(r, Ok(false)));
    assert_eq!(
        o.cargo_args,
        strings(&["bench", "--message-format=json-diagnostic-rendered-ansi", "--", "--color=always"])
    );
    let (_, r) = run(&["c", "build"], "build", true);
    assert!(matches!(r, Ok(false)));
}

#[test]
fn color_argument_is_appended() {
    let mut o = options();
    o.add_color_arg("always");
    assert_eq!(o.cargo_args, strings(&["--color=always"]));
}

#[test]
fn validators() {
    assert!(Options::validate_color("auto").is_ok());
    assert!(Options::validate_color("always").is_ok());
    assert!(Options::validate_color("never").is_ok());
    assert!(Options::validate_color("Never").is_err());
    assert!(Options::validate_message_format("json-diagnostic-rendered-ansi").is_ok());
    assert!(Options::validate_message_format("jsonx").is_err());
}

#[test]
fn main_args_stop_at_the_delimiter() {
    let mut o = options();
    let mut color = "auto".to_string();
    let mut started = false;
    let r = o.process_main_args(&mut color, &strings(&["--color", "always", "x", "--", "y"]), &mut started);
    assert!(matches!(r, Ok(4)));
    assert!(started);
    assert_eq!(color, "always");
    assert_eq!(o.cargo_args, strings(&["x"]));
}

#[test]
fn parses_messages_unless_help_or_version() {
    let mut o = options();
    assert!(o.parses_messages());
    o.help = true;
    assert!(!o.parses_messages());
    o.help = false;
    o.version = true;
    assert!(!o.parses_messages());
}

fn assert_cargo_args(input: Vec<&str>, expected_cargo_args: Vec<&str>) {
    let mut options = options();
    let r = options.process_args(&strings(&input), "run", false);
    assert!(matches!(r, Ok(false)));
    assert_eq!(options.cargo_args, strings(&expected_cargo_args));
}

#[test]
fn process_args() {
    let cargo_bin = "/usr/bin/cargo";
    assert_cargo_args(vec![cargo_bin, "run"], vec!["run", "--message-format=json", "--"]);
    assert_cargo_args(
        vec![cargo_bin, "run", "--cargo-argument", "other-cargo-argument"],
        vec!["run", "--cargo-argument", "other-cargo-argument", "--message-format=json", "--"],
    );
    assert_cargo_args(
        vec![cargo_bin, "run", "program-argument"],
        vec!["run", "program-argument", "--message-format=json", "--"],
    );
    assert_cargo_args(
        vec![cargo_bin, "run", "--", "program-argument"],
        vec!["run", "--message-format=json", "--", "program-argument"],
    );
    assert_cargo_args(
        vec![cargo_bin, "run", "--color=always"],
        vec!["run", "--message-format=json-diagnostic-rendered-ansi", "--"],
    );
    assert_cargo_args(vec!["run", "--color=never"], vec!["run", "--message-format=json", "--"]);
    assert_cargo_args(
        vec![cargo_bin, "run", "--", "--color=always"],
        vec!["run", "--message-format=json", "--", "--color=always"],
    );
}
