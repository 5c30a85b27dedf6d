use cargo_limit::diagnostic::{
    find_leaf_project_expansion, CompilerMessage, Diagnostic, Level, Span,
};
use cargo_limit::messages::{
    filter_cargo_errors, transform_and_process_messages, FilteredAndOrderedMessages, Messages,
    TransformedMessages,
};
use cargo_limit::options::Options;

const ROOT: &str = "/proj";

fn span(file: &str, line: usize, column: usize) -> Span {
    Span {
        file_name: file.to_string(),
        line_start: line,
        column_start: column,
        is_primary: true,
        text: vec![format!("source line of {file}")],
        expansion: None,
    }
}

fn message(level: Level, text: &str, spans: Vec<Span>, target: &str) -> CompilerMessage {
    CompilerMessage {
        message: Diagnostic {
            level,
            message: text.to_string(),
            rendered: Some(format!("{text}\n")),
            spans,
        },
        target_src_path: target.to_string(),
    }
}

fn default_options() -> Options {
    Options::default()
}

/// The worked scenario: one internal compiler error, a duplicated
/// error span, and a dependency warning, under a limit of two.
#[test]
fn ice_duplicate_errors_and_dependency_warning() {
    let mut messages = Messages::default();
    messages.internal_compiler_errors = vec![message(
        Level::Ice,
        "internal compiler error",
        vec![span("a.rs", 3, 1)],
        "/proj/src/lib.rs",
    )];
    messages.errors = vec![
        message(Level::Error, "first error", vec![span("b.rs", 10, 2)], "/proj/src/lib.rs"),
        message(Level::Error, "second error", vec![span("b.rs", 10, 2)], "/proj/src/lib.rs"),
    ];
    messages.non_errors = vec![message(
        Level::Warning,
        "dependency warning",
        vec![span("/dep/c.rs", 1, 1)],
        "/dep/c.rs",
    )];

    let mut options = default_options();
    options.limit_messages = 2;
    options.ascending_messages_order = false;
    options.show_warnings_if_errors_exist = false;
    options.show_dependencies_warnings = false;

    let t = TransformedMessages::transform(messages, &options, ROOT);

    // Two messages survive: the deduplicated b.rs error and the ICE,
    // project-first path order (a.rs before b.rs), then reversed for
    // display.
    assert_eq!(t.messages.len(), 2);
    assert_eq!(t.messages[0].message.message, "first error");
    assert_eq!(t.messages[1].message.message, "internal compiler error");

    // The locations keep the pre-reversal order and absolute paths.
    assert_eq!(t.locations_in_consistent_order.len(), 2);
    assert_eq!(t.locations_in_consistent_order[0].path, "/proj/a.rs");
    assert_eq!(t.locations_in_consistent_order[0].line, 3);
    assert_eq!(t.locations_in_consistent_order[0].column, 1);
    assert_eq!(t.locations_in_consistent_order[1].path, "/proj/b.rs");
    assert_eq!(t.locations_in_consistent_order[1].line, 10);
    assert_eq!(t.locations_in_consistent_order[1].column, 2);
}

#[test]
fn warnings_shown_only_without_errors() {
    let mut messages = Messages::default();
    messages.non_errors = vec![message(
        Level::Warning,
        "project warning",
        vec![span("w.rs", 5, 5)],
        "/proj/src/lib.rs",
    )];
    let options = default_options();
    let t = TransformedMessages::transform(messages, &options, ROOT);
    assert_eq!(t.messages.len(), 1);
    assert_eq!(t.messages[0].message.message, "project warning");

    let mut messages = Messages::default();
    messages.non_errors = vec![message(
        Level::Warning,
        "project warning",
        vec![span("w.rs", 5, 5)],
        "/proj/src/lib.rs",
    )];
    messages.errors = vec![message(
        Level::Error,
        "an error",
        vec![span("e.rs", 1, 1)],
        "/proj/src/lib.rs",
    )];
    let options = default_options();
    let t = TransformedMessages::transform(messages, &options, ROOT);
    assert_eq!(t.messages.len(), 1);
    assert_eq!(t.messages[0].message.message, "an error");
}

#[test]
fn forced_warnings_follow_errors() {
    let mut messages = Messages::default();
    messages.non_errors = vec![message(
        Level::Warning,
        "project warning",
        vec![span("w.rs", 5, 5)],
        "/proj/src/lib.rs",
    )];
    messages.errors = vec![message(
        Level::Error,
        "an error",
        vec![span("e.rs", 1, 1)],
        "/proj/src/lib.rs",
    )];
    let mut options = default_options();
    options.show_warnings_if_errors_exist = true;
    options.ascending_messages_order = true;
    let t = TransformedMessages::transform(messages, &options, ROOT);
    assert_eq!(t.messages.len(), 2);
    assert_eq!(t.messages[0].message.message, "an error");
    assert_eq!(t.messages[1].message.message, "project warning");
}

#[test]
fn project_messages_precede_dependency_messages() {
    let mut messages = Messages::default();
    messages.errors = vec![
        message(
            Level::Error,
            "dependency error",
            vec![span("/dep/d.rs", 1, 1)],
            "/dep/d.rs",
        ),
        message(Level::Error, "project error", vec![span("p.rs", 9, 9)], "/proj/src/lib.rs"),
    ];
    let mut options = default_options();
    options.ascending_messages_order = true;
    let t = TransformedMessages::transform(messages, &options, ROOT);
    assert_eq!(t.messages.len(), 2);
    assert_eq!(t.messages[0].message.message, "project error");
    assert_eq!(t.messages[1].message.message, "dependency error");
}

#[test]
fn limit_keeps_a_prefix_of_the_ordered_messages() {
    let mut messages = Messages::default();
    messages.errors = vec![
        message(Level::Error, "one", vec![span("a.rs", 1, 1)], "/proj/src/lib.rs"),
        message(Level::Error, "two", vec![span("b.rs", 1, 1)], "/proj/src/lib.rs"),
        message(Level::Error, "three", vec![span("c.rs", 1, 1)], "/proj/src/lib.rs"),
    ];
    let mut options = default_options();
    options.limit_messages = 2;
    options.ascending_messages_order = true;
    let t = TransformedMessages::transform(messages, &options, ROOT);
    assert_eq!(t.messages.len(), 2);
    assert_eq!(t.messages[0].message.message, "one");
    assert_eq!(t.messages[1].message.message, "two");
}

#[test]
fn zero_limit_keeps_everything() {
    let mut messages = Messages::default();
    messages.errors = vec![
        message(Level::Error, "one", vec![span("a.rs", 1, 1)], "/proj/src/lib.rs"),
        message(Level::Error, "two", vec![span("b.rs", 1, 1)], "/proj/src/lib.rs"),
        message(Level::Error, "three", vec![span("c.rs", 1, 1)], "/proj/src/lib.rs"),
    ];
    let mut options = default_options();
    options.limit_messages = 0;
    options.ascending_messages_order = true;
    let t = TransformedMessages::transform(messages, &options, ROOT);
    assert_eq!(t.messages.len(), 3);
}

#[test]
fn dependency_warnings_kept_on_request() {
    let dep_warning = || {
        message(
            Level::Warning,
            "dependency warning",
            vec![span("/dep/c.rs", 1, 1)],
            "/dep/c.rs",
        )
    };
    let mut messages = Messages::default();
    messages.non_errors = vec![dep_warning()];
    let options = default_options();
    let t = TransformedMessages::transform(messages, &options, ROOT);
    assert_eq!(t.messages.len(), 0);

    let mut messages = Messages::default();
    messages.non_errors = vec![dep_warning()];
    let mut options = default_options();
    options.show_dependencies_warnings = true;
    let t = TransformedMessages::transform(messages, &options, ROOT);
    assert_eq!(t.messages.len(), 1);
}

#[test]
fn expansion_chain_resolves_to_project_frame() {
    let dependency_span = Span {
        file_name: "/registry/macro.rs".to_string(),
        line_start: 100,
        column_start: 1,
        is_primary: true,
        text: vec![],
        expansion: Some(Box::new(Span {
            file_name: "src/main.rs".to_string(),
            line_start: 7,
            column_start: 3,
            is_primary: false,
            text: vec![],
            expansion: None,
        })),
    };
    let resolved = find_leaf_project_expansion(&dependency_span, ROOT);
    assert_eq!(resolved.file_name, "src/main.rs");
    assert_eq!(resolved.line_start, 7);

    let project_span = span("src/lib.rs", 2, 2);
    let resolved = find_leaf_project_expansion(&project_span, ROOT);
    assert_eq!(resolved.file_name, "src/lib.rs");
}

#[test]
fn locations_follow_warning_setting() {
    let warning = message(
        Level::Warning,
        "project warning",
        vec![span("w.rs", 5, 5)],
        "/proj/src/lib.rs",
    );
    let messages = vec![warning];
    let options = default_options();
    let locations =
        TransformedMessages::extract_locations_for_external_app(&messages, &options, ROOT);
    assert_eq!(locations.len(), 0);

    let mut options = default_options();
    options.open_in_external_app_on_warnings = true;
    let locations =
        TransformedMessages::extract_locations_for_external_app(&messages, &options, ROOT);
    assert_eq!(locations.len(), 1);
    assert_eq!(locations[0].path, "/proj/w.rs");
    assert_eq!(locations[0].message, "project warning");
}

#[test]
fn bare_rendered_notes_stand_in_for_spanless_errors() {
    let spanless = |text: &str| CompilerMessage {
        message: Diagnostic {
            level: Level::Error,
            message: text.to_string(),
            rendered: Some(format!("{text}\n")),
            spans: Vec::new(),
        },
        target_src_path: "/proj/src/lib.rs".to_string(),
    };
    let errors = vec![
        spanless("could not compile `a`"),
        spanless("could not compile `a`"),
        spanless("aborting due to previous error"),
    ];
    let kept = filter_cargo_errors(errors);
    assert_eq!(kept.len(), 1);
    assert_eq!(kept[0].message.message, "could not compile `a`");

    let only_abort = vec![spanless("aborting due to previous error")];
    let kept = filter_cargo_errors(only_abort);
    assert_eq!(kept.len(), 1);
    assert_eq!(kept[0].message.message, "aborting due to previous error");

    let mut messages = Messages::default();
    messages.errors = vec![spanless("could not compile `a`")];
    let filtered = FilteredAndOrderedMessages::filter(messages, &default_options(), ROOT);
    assert_eq!(filtered.errors.len(), 1);
    assert_eq!(filtered.warnings.len(), 0);
}

#[test]
fn transform_needs_a_workspace_root() {
    let messages = Messages::default();
    let options = default_options();
    assert!(transform_and_process_messages(messages, &options, None).is_none());

    let messages = Messages::default();
    assert!(transform_and_process_messages(messages, &options, Some(ROOT)).is_some());
}
