use anyhow::Result;
use cargo_limit::cargo_toml::{CargoToml, Item};
use cargo_limit::options::Options;
use std::path::Path;

const STUB_MINIMAL: &str = "minimal";
const STUB_CUSTOM_TEST_RUNNER: &str = "custom_test_runner";
const STUB_CUSTOM_BENCH_RUNNER: &str = "custom_bench_runner";

/// The manifest each stub project declares: the minimal one has no
/// explicit test or bench targets; the custom-runner ones replace the
/// default harness.
fn stub_manifest(stub: &str) -> CargoToml {
    match stub {
        STUB_MINIMAL => CargoToml {
            test: Vec::new(),
            bench: Vec::new(),
        },
        STUB_CUSTOM_TEST_RUNNER => CargoToml {
            test: vec![Item {
                harness: Some(false),
            }],
            bench: Vec::new(),
        },
        STUB_CUSTOM_BENCH_RUNNER => CargoToml {
            test: Vec::new(),
            bench: vec![Item {
                harness: Some(false),
            }],
        },
        _ => panic!("unknown stub"),
    }
}

fn to_string<'item>(
    iter: impl IntoIterator<Item = &'item str> + 'item,
) -> impl Iterator<Item = String> + 'item {
    iter.into_iter().map(|i| i.to_owned())
}

fn assert_cargo_args(
    input: Vec<&str>,
    expected_cargo_args: Vec<&str>,
    expected_args_after_app_args_delimiter: Vec<&str>,
    stub: &str,
) -> Result<()> {
    assert_options(
        input,
        expected_cargo_args,
        expected_args_after_app_args_delimiter,
        Default::default(),
        stub,
    )
}

fn assert_options(
    input: Vec<&str>,
    expected_cargo_args: Vec<&str>,
    expected_args_after_app_args_delimiter: Vec<&str>,
    expected_options: Options,
    stub: &str,
) -> Result<()> {
    let manifest = stub_manifest(stub);
    let options = Options::default()
        .process_args(
            input[0].to_owned(),
            to_string(input).collect(),
            &manifest,
        )
        .unwrap();

    let expected = Options {
        cargo_args: to_string(expected_cargo_args).collect(),
        args_after_app_args_delimiter: to_string(expected_args_after_app_args_delimiter)
            .collect(),
        ..expected_options
    };

    assert_eq!(options, expected);
    Ok(())
}

#[test]
fn options_smoke() -> Result<()> {
    assert_cargo_args(
        vec!["cargo-lrun", "--", "app-argument"],
        vec!["run", "--message-format=json-diagnostic-rendered-ansi"],
        vec!["app-argument"],
        STUB_MINIMAL,
    )?;

    assert_cargo_args(
        vec!["cargo-lrun", "-vvv", "--", "-c", "app-config.yml"],
        vec![
            "run",
            "--message-format=json-diagnostic-rendered-ansi",
            "-vvv",
        ],
        vec!["-c", "app-config.yml"],
        STUB_MINIMAL,
    )?;

    assert_cargo_args(
        vec!["cargo-lrun", "-p=app", "--", "-c", "app-config.yml"],
        vec![
            "run",
            "--message-format=json-diagnostic-rendered-ansi",
            "-p=app",
        ],
        vec!["-c", "app-config.yml"],
        STUB_MINIMAL,
    )?;

    assert_cargo_args(
        vec!["cargo-lrun", "-p", "app", "--", "-c", "app-config.yml"],
        vec![
            "run",
            "--message-format=json-diagnostic-rendered-ansi",
            "-p",
            "app",
        ],
        vec!["-c", "app-config.yml"],
        STUB_MINIMAL,
    )?;

    assert_options(
        vec!["cargo-lclippy", "--help"],
        vec![
            "clippy",
            "--message-format=json-diagnostic-rendered-ansi",
            "--help",
        ],
        vec![],
        Options {
            help: true,
            ..Options::default()
        },
        STUB_MINIMAL,
    )?;

    assert_options(
        vec!["cargo-lclippy", "--version"],
        vec![
            "clippy",
            "--message-format=json-diagnostic-rendered-ansi",
            "--version",
        ],
        vec![],
        Options {
            version: true,
            ..Options::default()
        },
        STUB_MINIMAL,
    )?;

    assert_options(
        vec!["cargo-lclippy", "-V"],
        vec![
            "clippy",
            "--message-format=json-diagnostic-rendered-ansi",
            "-V",
        ],
        vec![],
        Options {
            version: true,
            ..Options::default()
        },
        STUB_MINIMAL,
    )?;

    assert_cargo_args(
        vec!["cargo-ltest", "--", "--help"],
        vec!["test", "--message-format=json-diagnostic-rendered-ansi"],
        vec!["--help", "--color=always"],
        STUB_MINIMAL,
    )?;

    assert_cargo_args(
        vec!["cargo-lrun", "--verbose"],
        vec![
            "run",
            "--message-format=json-diagnostic-rendered-ansi",
            "--verbose",
        ],
        vec![],
        STUB_MINIMAL,
    )?;

    assert_cargo_args(
        vec!["cargo-lrun", "-v"],
        vec![
            "run",
            "--message-format=json-diagnostic-rendered-ansi",
            "-v",
        ],
        vec![],
        STUB_MINIMAL,
    )?;

    assert_cargo_args(
        vec!["cargo-lrun", "-vv"],
        vec![
            "run",
            "--message-format=json-diagnostic-rendered-ansi",
            "-vv",
        ],
        vec![],
        STUB_MINIMAL,
    )?;

    assert_cargo_args(
        vec!["cargo-lrun", "-v", "-v"],
        vec![
            "run",
            "--message-format=json-diagnostic-rendered-ansi",
            "-v",
            "-v",
        ],
        vec![],
        STUB_MINIMAL,
    )?;

    assert_cargo_args(
        vec!["cargo-lrun", "-v", "-v", "app-arg"],
        vec![
            "run",
            "--message-format=json-diagnostic-rendered-ansi",
            "-v",
            "-v",
            "app-arg",
        ],
        vec![],
        STUB_MINIMAL,
    )?;

    assert_options(
        vec![
            "cargo-lrun",
            "-v",
            "--message-format=short",
            "-v",
            "app-arg",
        ],
        vec![
            "run",
            "--message-format=json-diagnostic-short",
            "-v",
            "-v",
            "app-arg",
        ],
        vec![],
        Options {
            short_message_format: true,
            ..Options::default()
        },
        STUB_MINIMAL,
    )?;

    assert_cargo_args(
        vec![
            "cargo-lrun",
            "-v",
            "-v",
            "--message-format=human",
            "app-arg",
        ],
        vec![
            "run",
            "--message-format=json-diagnostic-rendered-ansi",
            "-v",
            "-v",
            "app-arg",
        ],
        vec![],
        STUB_MINIMAL,
    )?;

    assert_options(
        vec!["cargo-lrun", "-v", "-v", "--message-format=json", "app-arg"],
        vec!["run", "--message-format=json", "-v", "-v", "app-arg"],
        vec![],
        Options {
            json_message_format: true,
            ..Options::default()
        },
        STUB_MINIMAL,
    )?;

    Ok(())
}

#[test]
fn weird_args() -> Result<()> {
    assert_cargo_args(
        vec!["cargo-lrun", "app-arg"],
        vec![
            "run",
            "--message-format=json-diagnostic-rendered-ansi",
            "app-arg",
        ],
        vec![],
        STUB_MINIMAL,
    )?;
    assert_cargo_args(
        vec!["cargo-lrun", "-v", "-v", "-v", "app-arg"],
        vec![
            "run",
            "--message-format=json-diagnostic-rendered-ansi",
            "-v",
            "-v",
            "-v",
            "app-arg",
        ],
        vec![],
        STUB_MINIMAL,
    )?;
    Ok(())
}

#[test]
fn test_with_message_format() -> Result<()> {
    assert_options(
        vec!["cargo-ltest", "--message-format=json"],
        vec!["test", "--message-format=json"],
        vec!["--color=always"],
        Options {
            json_message_format: true,
            ..Options::default()
        },
        STUB_MINIMAL,
    )?;

    assert_options(
        vec!["cargo-ltest", "--message-format=short"],
        vec!["test", "--message-format=json-diagnostic-short"],
        vec!["--color=always"],
        Options {
            short_message_format: true,
            ..Options::default()
        },
        STUB_MINIMAL,
    )?;

    Ok(())
}

#[test]
fn run_with_color_args() -> Result<()> {
    assert_cargo_args(
        vec!["cargo-lrun", "--color=always"],
        vec!["run", "--message-format=json-diagnostic-rendered-ansi"],
        vec![],
        STUB_MINIMAL,
    )?;

    assert_cargo_args(
        vec!["cargo-lrun", "--color=never"],
        vec!["run", "--message-format=json"],
        vec![],
        STUB_MINIMAL,
    )?;

    assert_cargo_args(
        vec!["cargo-lrun", "--", "--color=always"],
        vec!["run", "--message-format=json-diagnostic-rendered-ansi"],
        vec!["--color=always"],
        STUB_MINIMAL,
    )?;

    Ok(())
}

#[test]
fn colored_testing_and_compiling_1() -> Result<()> {
    assert_cargo_args(
        vec!["cargo-ltest"],
        vec!["test", "--message-format=json-diagnostic-rendered-ansi"],
        vec!["--color=always"],
        STUB_MINIMAL,
    )?;
    Ok(())
}

#[test]
fn colored_testing_and_compiling_2() -> Result<()> {
    assert_cargo_args(
        vec!["cargo-ltest", "--color=always"],
        vec!["test", "--message-format=json-diagnostic-rendered-ansi"],
        vec!["--color=always"],
        STUB_MINIMAL,
    )?;
    Ok(())
}

#[test]
fn colored_testing_and_compiling_3() -> Result<()> {
    assert_cargo_args(
        vec!["cargo-ltest", "--", "--color=always"],
        vec!["test", "--message-format=json-diagnostic-rendered-ansi"],
        vec!["--color=always"],
        STUB_MINIMAL,
    )?;

    Ok(())
}

#[test]
fn colored_testing_and_monochrome_compiling_1() -> Result<()> {
    assert_cargo_args(
        vec!["cargo-ltest", "--color=never"],
        vec!["test", "--message-format=json"],
        vec!["--color=always"],
        STUB_MINIMAL,
    )?;
    Ok(())
}

#[test]
fn monochrome_testing_and_colored_compiling_1() -> Result<()> {
    assert_cargo_args(
        vec!["cargo-ltest", "--", "--color=never"],
        vec!["test", "--message-format=json-diagnostic-rendered-ansi"],
        vec!["--color=never"],
        STUB_MINIMAL,
    )?;
    Ok(())
}

#[test]
fn custom_runners_should_not_have_color_args() -> Result<()> {
    assert_cargo_args(
        vec!["cargo-ltest"],
        vec!["test", "--message-format=json-diagnostic-rendered-ansi"],
        vec![],
        STUB_CUSTOM_TEST_RUNNER,
    )?;

    assert_cargo_args(
        vec!["cargo-ltest", "--", "--runner-arg"],
        vec!["test", "--message-format=json-diagnostic-rendered-ansi"],
        vec!["--runner-arg"],
        STUB_CUSTOM_TEST_RUNNER,
    )?;

    assert_cargo_args(
        vec!["cargo-lbench"],
        vec!["bench", "--message-format=json-diagnostic-rendered-ansi"],
        vec![],
        STUB_CUSTOM_BENCH_RUNNER,
    )?;

    assert_options(
        vec!["cargo-lbench", "--help"],
        vec![
            "bench",
            "--message-format=json-diagnostic-rendered-ansi",
            "--help",
        ],
        vec![],
        Options {
            help: true,
            ..Options::default()
        },
        STUB_CUSTOM_BENCH_RUNNER,
    )?;

    Ok(())
}

#[test]
fn double_two_dashes() -> Result<()> {
    assert_cargo_args(
        vec!["cargo-lrun", "--", "--"],
        vec!["run", "--message-format=json-diagnostic-rendered-ansi"],
        vec!["--"],
        STUB_MINIMAL,
    )?;

    assert_cargo_args(
        vec!["cargo-lrun", "--", "--", "1"],
        vec!["run", "--message-format=json-diagnostic-rendered-ansi"],
        vec!["--", "1"],
        STUB_MINIMAL,
    )?;

    assert_cargo_args(
        vec!["cargo-lrun", "--", "-", "1", "2", "3"],
        vec!["run", "--message-format=json-diagnostic-rendered-ansi"],
        vec!["-", "1", "2", "3"],
        STUB_MINIMAL,
    )?;

    Ok(())
}

#[test]
fn app_args_without_two_dashes_splitter() -> Result<()> {
    assert_cargo_args(
        vec!["cargo-lrun", "app-argument"],
        vec![
            "run",
            "--message-format=json-diagnostic-rendered-ansi",
            "app-argument",
        ],
        vec![],
        STUB_MINIMAL,
    )?;

    assert_cargo_args(
        vec!["cargo-lrun", "-"],
        vec!["run", "--message-format=json-diagnostic-rendered-ansi", "-"],
        vec![],
        STUB_MINIMAL,
    )?;

    assert_cargo_args(
        vec!["cargo-lrun", "1", "2", "3"],
        vec![
            "run",
            "--message-format=json-diagnostic-rendered-ansi",
            "1",
            "2",
            "3",
        ],
        vec![],
        STUB_MINIMAL,
    )?;

    assert_cargo_args(
        vec!["cargo-lrun", "-", "1", "2", "3"],
        vec![
            "run",
            "--message-format=json-diagnostic-rendered-ansi",
            "-",
            "1",
            "2",
            "3",
        ],
        vec![],
        STUB_MINIMAL,
    )?;

    assert_cargo_args(
        vec!["cargo-lrun", "--verbose", "app-argument"],
        vec![
            "run",
            "--message-format=json-diagnostic-rendered-ansi",
            "--verbose",
            "app-argument",
        ],
        vec![],
        STUB_MINIMAL,
    )?;

    Ok(())
}

#[test]
fn parse_subcommand() -> Result<()> {
    assert_parse_subcommand(vec!["cargo-lrun"], "run", vec![])?;
    assert_parse_subcommand(vec!["cargo-lrun.exe"], "run", vec![])?;
    assert_parse_subcommand(
        vec!["cargo-lrun", "app-arg-1", "app-arg-2"],
        "run",
        vec!["app-arg-1", "app-arg-2"],
    )?;
    assert_parse_subcommand(
        vec!["relative/path/to/cargo-lrun", "app-arg"],
        "run",
        vec!["app-arg"],
    )?;
    assert_parse_subcommand(
        vec!["/full/path/to/cargo-lrun", "app-arg"],
        "run",
        vec!["app-arg"],
    )?;

    assert_parse_subcommand(
        vec!["cargo-lrun", "cargo-lrun", "app-arg"],
        "run",
        vec!["app-arg"],
    )?;

    assert_parse_subcommand(
        vec!["cargo-lrun", "cargo-lrun", "cargo-lrun", "app-arg"],
        "run",
        vec!["app-arg"],
    )?;

    assert_parse_subcommand(
        vec!["cargo-lrun", "cargo-ltest", "app-arg"],
        "run",
        vec!["cargo-ltest", "app-arg"],
    )?;

    Ok(())
}

fn assert_parse_subcommand(
    input: Vec<&str>,
    expected_subcommand: &str,
    expected_remaining_args: Vec<&str>,
) -> Result<()> {
    let subcommand = Path::new(input[0])
        .file_stem()
        .expect("invalid subcommand")
        .to_string_lossy()
        .to_string();
    let args: Vec<String> = to_string(input.into_iter().skip(1)).collect();
    let expected_remaining: Vec<String> = to_string(expected_remaining_args).collect();
    assert_eq!(
        Options::parse_subcommand(args, subcommand).unwrap(),
        ((expected_subcommand.to_owned(), expected_remaining))
    );
    Ok(())
}
