use cargo_limit::cargo_toml::{CargoToml, Item};
use cargo_limit::editor::{
    editor_command_text, failed_to_connect_is_the_only_error, is_expected_expr_result,
    nvim_listen_address,
};
use cargo_limit::diagnostic::{Diagnostic, Level, Span};
use cargo_limit::flushing_writer::FlushingWriter;
use cargo_limit::models::{EditorData, Location};
use cargo_limit::options::{EnvVars, Options, OptionsError};
use cargo_limit::parsed_args::{ParsedArgs, ParsedArgsError};
use cargo_limit::text::{parse_bool, parse_usize, str_contains};

fn empty_env() -> EnvVars {
    EnvVars {
        time_limit: None,
        msg_limit: None,
        asc: None,
        force_warn: None,
        deps_warn: None,
        open: None,
        open_warn: None,
    }
}

#[test]
fn env_defaults_and_overrides() {
    let options = Options::from_vars_and_atty(&empty_env(), true).unwrap();
    assert_eq!(options.time_limit_after_error, 1);
    assert_eq!(options.limit_messages, 0);
    assert!(!options.ascending_messages_order);
    assert!(!options.show_warnings_if_errors_exist);
    assert!(!options.show_dependencies_warnings);
    assert_eq!(options.open_in_external_app, "");
    assert!(!options.open_in_external_app_on_warnings);
    assert!(options.terminal_supports_colors);

    let mut vars = empty_env();
    vars.time_limit = Some("30".to_string());
    vars.msg_limit = Some("7".to_string());
    vars.asc = Some("true".to_string());
    vars.force_warn = Some("false".to_string());
    vars.deps_warn = Some("true".to_string());
    vars.open = Some("my-editor".to_string());
    vars.open_warn = Some("true".to_string());
    let options = Options::from_vars_and_atty(&vars, false).unwrap();
    assert_eq!(options.time_limit_after_error, 30);
    assert_eq!(options.limit_messages, 7);
    assert!(options.ascending_messages_order);
    assert!(!options.show_warnings_if_errors_exist);
    assert!(options.show_dependencies_warnings);
    assert_eq!(options.open_in_external_app, "my-editor");
    assert!(options.open_in_external_app_on_warnings);
    assert!(!options.terminal_supports_colors);
}

#[test]
fn env_errors_name_the_variable() {
    let mut vars = empty_env();
    vars.msg_limit = Some("ten".to_string());
    match Options::from_vars_and_atty(&vars, true) {
        Err(OptionsError::InvalidEnvVar { name }) => assert_eq!(name, "CARGO_MSG_LIMIT"),
        other => panic!("unexpected result: {other:?}"),
    }

    let mut vars = empty_env();
    vars.asc = Some("yes".to_string());
    match Options::from_vars_and_atty(&vars, true) {
        Err(OptionsError::InvalidEnvVar { name }) => assert_eq!(name, "CARGO_ASC"),
        other => panic!("unexpected result: {other:?}"),
    }
}

#[test]
fn option_scan_errors() {
    let toml = CargoToml {
        test: Vec::new(),
        bench: Vec::new(),
    };
    let run = |args: Vec<&str>| {
        Options::default().process_args(
            "cargo-lrun".to_string(),
            args.into_iter().map(|a| a.to_string()).collect(),
            &toml,
        )
    };
    assert!(matches!(
        run(vec!["cargo-lrun", "--color"]),
        Err(OptionsError::MissingColorValue)
    ));
    match run(vec!["cargo-lrun", "--color=sometimes"]) {
        Err(OptionsError::InvalidColor { color }) => assert_eq!(color, "sometimes"),
        other => panic!("unexpected result: {other:?}"),
    }
    assert!(matches!(
        run(vec!["cargo-lrun", "--message-format"]),
        Err(OptionsError::MissingMessageFormatValue)
    ));
    match run(vec!["cargo-lrun", "--message-format=yaml"]) {
        Err(OptionsError::InvalidMessageFormat { format }) => assert_eq!(format, "yaml"),
        other => panic!("unexpected result: {other:?}"),
    }
    match Options::default().process_args("not-the-wrapper".to_string(), Vec::new(), &toml) {
        Err(OptionsError::InvalidSubcommand { executable }) => {
            assert_eq!(executable, "not-the-wrapper")
        }
        other => panic!("unexpected result: {other:?}"),
    }
}

#[test]
fn error_texts_describe_the_failure() {
    let e = OptionsError::InvalidColor {
        color: "sometimes".to_string(),
    };
    assert!(e.text().contains("sometimes"));
    let e = OptionsError::MissingColorValue;
    assert!(e.text().contains("--color"));
    let e = ParsedArgsError::InvalidLimit {
        value: "ten".to_string(),
    };
    assert!(e.text().contains("ten"));
}

#[test]
fn parsed_args_rebuilds_the_command_line() {
    let args = |list: Vec<&str>| -> Vec<String> {
        list.into_iter().map(|a| a.to_string()).collect()
    };

    let p = ParsedArgs::parse(args(vec![]), "build", false).unwrap();
    assert_eq!(
        p.cargo_args,
        vec![
            "build",
            "--color=auto",
            "--message-format=json-diagnostic-rendered-ansi",
            "--",
        ]
    );
    assert_eq!(p.limit_messages, 0);
    assert!(!p.help);

    let p = ParsedArgs::parse(
        args(vec!["--limit=5", "--asc", "--always-show-warnings", "ignored"]),
        "build",
        false,
    )
    .unwrap();
    assert_eq!(p.limit_messages, 5);
    assert!(p.ascending_messages_order);
    assert!(p.show_warnings_if_errors_exist);
    assert_eq!(
        p.cargo_args,
        vec![
            "build",
            "--color=auto",
            "--message-format=json-diagnostic-rendered-ansi",
            "--",
        ]
    );

    let p = ParsedArgs::parse(args(vec!["--color=never", "-h"]), "build", false).unwrap();
    assert!(p.help);
    assert_eq!(
        p.cargo_args,
        vec![
            "build",
            "-h",
            "--color=never",
            "--message-format=json",
            "--",
        ]
    );

    // program arguments follow the delimiter; a terminal test run
    // gets the colour workaround unless the program chose a colour
    let p = ParsedArgs::parse(args(vec!["--", "prog-arg"]), "test", true).unwrap();
    assert_eq!(
        p.cargo_args,
        vec![
            "test",
            "--color=auto",
            "--message-format=json-diagnostic-rendered-ansi",
            "--",
            "prog-arg",
            "--color=always",
        ]
    );
    let p = ParsedArgs::parse(args(vec!["--", "--color=never"]), "test", true).unwrap();
    assert_eq!(
        p.cargo_args,
        vec![
            "test",
            "--color=auto",
            "--message-format=json-diagnostic-rendered-ansi",
            "--",
            "--color=never",
        ]
    );
}

#[test]
fn parsed_args_errors() {
    let args = |list: Vec<&str>| -> Vec<String> {
        list.into_iter().map(|a| a.to_string()).collect()
    };
    assert!(matches!(
        ParsedArgs::parse(args(vec!["--color"]), "build", false),
        Err(ParsedArgsError::MissingColorValue)
    ));
    match ParsedArgs::parse(args(vec!["--color", "blue"]), "build", false) {
        Err(ParsedArgsError::InvalidColor { color }) => assert_eq!(color, "blue"),
        other => panic!("unexpected result: {other:?}"),
    }
    assert!(matches!(
        ParsedArgs::parse(args(vec!["--limit"]), "build", false),
        Err(ParsedArgsError::MissingLimitValue)
    ));
    match ParsedArgs::parse(args(vec!["--limit", "ten"]), "build", false) {
        Err(ParsedArgsError::InvalidLimit { value }) => assert_eq!(value, "ten"),
        other => panic!("unexpected result: {other:?}"),
    }
}

#[test]
fn numbers_and_booleans_parse_exactly() {
    assert_eq!(parse_usize("0"), Some(0));
    assert_eq!(parse_usize("123"), Some(123));
    assert_eq!(parse_usize(""), None);
    assert_eq!(parse_usize("12a"), None);
    assert_eq!(parse_usize("-1"), None);
    assert_eq!(parse_usize("99999999999999999999999999999"), None);
    assert_eq!(parse_bool("true"), Some(true));
    assert_eq!(parse_bool("false"), Some(false));
    assert_eq!(parse_bool("True"), None);
    assert_eq!(parse_bool(""), None);
}

#[test]
fn substring_search() {
    assert!(str_contains("aborting due to previous error; see above", "previous error"));
    assert!(!str_contains("all fine", "error"));
    assert!(str_contains("anything", ""));
    assert!(!str_contains("ab", "abc"));
}

#[test]
fn manifest_harness_checks() {
    let toml = CargoToml {
        test: vec![Item { harness: None }, Item { harness: Some(true) }],
        bench: vec![Item { harness: Some(false) }],
    };
    assert!(toml.all_tests_have_harness());
    assert!(!toml.all_benchmarks_have_harness());
    assert!(CargoToml::all_have_harness(&Vec::new()));
}

#[test]
fn location_resolves_relative_paths() {
    let span = Span {
        file_name: "src/lib.rs".to_string(),
        line_start: 4,
        column_start: 2,
        is_primary: true,
        text: vec!["let x = 1;".to_string()],
        expansion: None,
    };
    let diagnostic = Diagnostic {
        level: Level::Warning,
        message: "unused variable".to_string(),
        rendered: None,
        spans: Vec::new(),
    };
    let location = Location::new(&span, &diagnostic, "/proj");
    assert_eq!(location.path, "/proj/src/lib.rs");
    assert_eq!(location.line, 4);
    assert_eq!(location.column, 2);
    assert_eq!(location.text, "let x = 1;");
    assert_eq!(location.message, "unused variable");
    assert_eq!(location.level, Level::Warning);

    let absolute = Span {
        file_name: "/elsewhere/a.rs".to_string(),
        ..span
    };
    let location = Location::new(&absolute, &diagnostic, "/proj");
    assert_eq!(location.path, "/elsewhere/a.rs");
}

#[test]
fn editor_data_escapes_the_root() {
    let data = EditorData::new("/home/user/proj", Vec::new());
    assert_eq!(data.workspace_root, "/home/user/proj");
    assert_eq!(data.escaped_workspace_root(), "%home%user%proj");
    assert!(data.locations.is_empty());

    let windowsish = EditorData::new("C:\\code\\proj", Vec::new());
    assert_eq!(windowsish.escaped_workspace_root(), "C%%code%proj");
}

#[test]
fn message_format_follows_color_and_terminal() {
    let mut options = Options::default();
    assert_eq!(
        options.message_format("auto"),
        "--message-format=json-diagnostic-rendered-ansi"
    );
    options.terminal_supports_colors = false;
    assert_eq!(options.message_format("auto"), "--message-format=json");
    assert_eq!(
        options.message_format("always"),
        "--message-format=json-diagnostic-rendered-ansi"
    );
    assert_eq!(options.message_format("never"), "--message-format=json");
    options.json_message_format = true;
    assert_eq!(options.message_format("always"), "--message-format=json");
    options.short_message_format = true;
    assert_eq!(
        options.message_format("always"),
        "--message-format=json-diagnostic-short"
    );
}

#[test]
fn all_args_inserts_the_delimiter_when_needed() {
    let mut options = Options::default();
    options.cargo_args = vec!["run".to_string(), "-v".to_string()];
    assert_eq!(options.all_args(), vec!["run", "-v"]);
    options.args_after_app_args_delimiter = vec!["app-arg".to_string()];
    assert_eq!(options.all_args(), vec!["run", "-v", "--", "app-arg"]);
}

#[test]
fn editor_helper_decisions() {
    assert_eq!(
        editor_command_text("g:CargoLimitOpen", "{}"),
        "g:CargoLimitOpen({})"
    );
    assert_eq!(
        nvim_listen_address("alice", "%home%alice%proj"),
        "/tmp/nvim-cargo-limit-alice/%home%alice%proj"
    );
    assert!(is_expected_expr_result(&b"0".to_vec()));
    assert!(!is_expected_expr_result(&b"1".to_vec()));
    assert!(!is_expected_expr_result(&b"00".to_vec()));
    assert!(failed_to_connect_is_the_only_error(
        &b"E247: no connection\n".to_vec()
    ));
    assert!(!failed_to_connect_is_the_only_error(
        &b"E247: no connection\nE000: more\n".to_vec()
    ));
    assert!(!failed_to_connect_is_the_only_error(
        &b"E999: other\n".to_vec()
    ));
}

#[test]
fn flushing_writer_wraps_a_writer() {
    let writer = FlushingWriter::new(Vec::<u8>::new());
    assert!(writer.writer.is_empty());
}
