//! Configuration of one supervised build: the argument vector handed
//! to the build driver, and the knobs that drive the classifier and
//! the diagnostic transform.  Parsing starts from plain values (the
//! environment variables' texts, the terminal-capability bit, the
//! argument list) so that every decision in it is checked.

use vstd::prelude::*;
use crate::cargo_toml::CargoToml;
use crate::cargo_toml::spec_all_have_harness;
use crate::text::all_digits;
use crate::text::dec_val;
use crate::text::has_prefix;
use crate::text::parse_bool;
use crate::text::parse_usize;
use crate::text::str_eq;
use crate::text::str_skip;
use crate::text::str_starts_with;
use crate::text::string_views;
use crate::text::string_vec_eq;

verus! {

/// Everything the supervisor is configured by.  A zero
/// `time_limit_after_error` means "never kill"; a zero
/// `limit_messages` means "no limit".
#[derive(Debug)]
pub struct Options {
    pub cargo_args: Vec<String>,
    pub args_after_app_args_delimiter: Vec<String>,
    pub terminal_supports_colors: bool,
    pub limit_messages: usize,
    /// Seconds to let the build run on after the first error.
    pub time_limit_after_error: u64,
    pub ascending_messages_order: bool,
    pub show_warnings_if_errors_exist: bool,
    pub show_dependencies_warnings: bool,
    pub open_in_external_app: String,
    pub open_in_external_app_on_warnings: bool,
    pub help: bool,
    pub version: bool,
    pub json_message_format: bool,
    pub short_message_format: bool,
}

impl Default for Options {
    fn default() -> (r: Self)
        ensures
            r.cargo_args@ == Seq::<String>::empty(),
            r.args_after_app_args_delimiter@ == Seq::<String>::empty(),
            r.terminal_supports_colors == true,
            r.limit_messages == 0,
            r.time_limit_after_error == 1,
            r.ascending_messages_order == false,
            r.show_warnings_if_errors_exist == false,
            r.show_dependencies_warnings == false,
            r.open_in_external_app@ == Seq::<char>::empty(),
            r.open_in_external_app_on_warnings == false,
            r.help == false,
            r.version == false,
            r.json_message_format == false,
            r.short_message_format == false,
    {
        Options {
            cargo_args: Vec::new(),
            args_after_app_args_delimiter: Vec::new(),
            terminal_supports_colors: true,
            limit_messages: 0,
            time_limit_after_error: 1,
            ascending_messages_order: false,
            show_warnings_if_errors_exist: false,
            show_dependencies_warnings: false,
            open_in_external_app: String::new(),
            open_in_external_app_on_warnings: false,
            help: false,
            version: false,
            json_message_format: false,
            short_message_format: false,
        }
    }
}

impl Options {
    /// Two configurations mean the same thing: every field agrees,
    /// strings compared by their text.
    pub open spec fn equiv(self, other: Self) -> bool {
        &&& string_views(self.cargo_args@) == string_views(other.cargo_args@)
        &&& string_views(self.args_after_app_args_delimiter@) == string_views(
            other.args_after_app_args_delimiter@,
        )
        &&& self.terminal_supports_colors == other.terminal_supports_colors
        &&& self.limit_messages == other.limit_messages
        &&& self.time_limit_after_error == other.time_limit_after_error
        &&& self.ascending_messages_order == other.ascending_messages_order
        &&& self.show_warnings_if_errors_exist == other.show_warnings_if_errors_exist
        &&& self.show_dependencies_warnings == other.show_dependencies_warnings
        &&& self.open_in_external_app@ == other.open_in_external_app@
        &&& self.open_in_external_app_on_warnings == other.open_in_external_app_on_warnings
        &&& self.help == other.help
        &&& self.version == other.version
        &&& self.json_message_format == other.json_message_format
        &&& self.short_message_format == other.short_message_format
    }
}

impl PartialEq for Options {
    fn eq(&self, other: &Self) -> (r: bool) {
        string_vec_eq(&self.cargo_args, &other.cargo_args) && string_vec_eq(
            &self.args_after_app_args_delimiter,
            &other.args_after_app_args_delimiter,
        ) && self.terminal_supports_colors == other.terminal_supports_colors
            && self.limit_messages == other.limit_messages && self.time_limit_after_error
            == other.time_limit_after_error && self.ascending_messages_order
            == other.ascending_messages_order && self.show_warnings_if_errors_exist
            == other.show_warnings_if_errors_exist && self.show_dependencies_warnings
            == other.show_dependencies_warnings && self.open_in_external_app.eq(
            &other.open_in_external_app,
        ) && self.open_in_external_app_on_warnings == other.open_in_external_app_on_warnings
            && self.help == other.help && self.version == other.version
            && self.json_message_format == other.json_message_format
            && self.short_message_format == other.short_message_format
    }
}

impl vstd::std_specs::cmp::PartialEqSpecImpl for Options {
    open spec fn obeys_eq_spec() -> bool {
        true
    }

    open spec fn eq_spec(&self, other: &Options) -> bool {
        self.equiv(*other)
    }
}

/// Accepted values of the `--color` option.
pub open spec fn spec_valid_color(c: Seq<char>) -> bool {
    c == "auto"@ || c == "always"@ || c == "never"@
}

/// The message-format argument the build driver is given, decided by
/// explicit format requests, the `--color` choice and the terminal's
/// capability.
pub open spec fn spec_message_format(
    short: bool,
    json: bool,
    terminal_supports_colors: bool,
    color: Seq<char>,
) -> Seq<char> {
    if short {
        "--message-format=json-diagnostic-short"@
    } else if json {
        "--message-format=json"@
    } else if (color == "auto"@ && terminal_supports_colors) || color == "always"@ {
        "--message-format=json-diagnostic-rendered-ansi"@
    } else {
        "--message-format=json"@
    }
}

/// Accepted values of the `--message-format` option.
pub open spec fn spec_valid_message_format(f: Seq<char>) -> bool {
    f == "human"@ || f == "short"@ || f == "json"@ || f == "json-diagnostic-short"@ || f
        == "json-diagnostic-rendered-ansi"@
}

/// The reasons configuration parsing fails, each carrying the
/// offending text.
#[derive(Debug)]
pub enum OptionsError {
    /// `--color` came last with no value.
    MissingColorValue,
    InvalidColor { color: String },
    /// `--message-format` came last with no value.
    MissingMessageFormatValue,
    InvalidMessageFormat { format: String },
    /// The executable's name does not contain the subcommand prefix.
    InvalidSubcommand { executable: String },
    /// An environment variable held a value its type cannot read.
    InvalidEnvVar { name: String },
}

impl OptionsError {
    /// A plain description, for the boundary code to print.
    pub fn text(&self) -> String {
        match self {
            OptionsError::MissingColorValue => String::from_str(
                "the argument '--color <WHEN>' requires a value but none was supplied",
            ),
            OptionsError::InvalidColor { color } => {
                let mut s = String::from_str("argument for --color must be auto, always, or never (was ");
                s.append(color.as_str());
                s.append(")");
                s
            },
            OptionsError::MissingMessageFormatValue => String::from_str(
                "the argument '--message-format <FMT>' requires a value but none was supplied",
            ),
            OptionsError::InvalidMessageFormat { format } => {
                let mut s = String::from_str(
                    "argument for --message-format must be human, short, json, json-diagnostic-short, or json-diagnostic-rendered-ansi (was ",
                );
                s.append(format.as_str());
                s.append(")");
                s
            },
            OptionsError::InvalidSubcommand { executable } => {
                let mut s = String::from_str("invalid arguments: ");
                s.append(executable.as_str());
                s
            },
            OptionsError::InvalidEnvVar { name } => {
                let mut s = String::from_str("invalid ");
                s.append(name.as_str());
                s.append(" value");
                s
            },
        }
    }
}

impl Options {
    /// `Ok` exactly on the accepted `--color` values.
    pub fn validate_color(color: &str) -> (r: Result<(), OptionsError>)
        ensures
            r is Ok <==> spec_valid_color(color@),
            r matches Err(e) ==> e matches OptionsError::InvalidColor { color: c } && c@
                == color@,
    {
        if str_eq(color, "auto") || str_eq(color, "always") || str_eq(color, "never") {
            Ok(())
        } else {
            Err(OptionsError::InvalidColor { color: color.to_owned() })
        }
    }

    /// `Ok` exactly on the accepted `--message-format` values.
    pub fn validate_message_format(format: &str) -> (r: Result<(), OptionsError>)
        ensures
            r is Ok <==> spec_valid_message_format(format@),
            r matches Err(e) ==> e matches OptionsError::InvalidMessageFormat { format: f }
                && f@ == format@,
    {
        if str_eq(format, "human") || str_eq(format, "short") || str_eq(format, "json") || str_eq(
            format,
            "json-diagnostic-short",
        ) || str_eq(format, "json-diagnostic-rendered-ansi") {
            Ok(())
        } else {
            Err(OptionsError::InvalidMessageFormat { format: format.to_owned() })
        }
    }

    /// Append a `--color=<value>` argument for the program under test.
    pub fn add_color_arg(&mut self, value: &str)
        ensures
            string_views(final(self).args_after_app_args_delimiter@) == string_views(
                old(self).args_after_app_args_delimiter@,
            ).push("--color="@ + value@),
            *final(self) == (Options {
                args_after_app_args_delimiter: final(self).args_after_app_args_delimiter,
                ..*old(self)
            }),
    {
        let mut arg = String::from_str("--color=");
        arg.append(value);
        proof {
            lemma_string_views_push(self.args_after_app_args_delimiter@, arg);
        }
        self.args_after_app_args_delimiter.push(arg);
    }

    /// The message-format argument handed to the build driver, decided
    /// by explicit format requests, the `--color` choice and the
    /// terminal's capability.
    pub fn message_format(&self, color: &str) -> (r: &'static str)
        requires
            spec_valid_color(color@),
        ensures
            r@ == spec_message_format(
                self.short_message_format,
                self.json_message_format,
                self.terminal_supports_colors,
                color@,
            ),
    {
        proof {
            reveal_strlit("auto");
            reveal_strlit("always");
            reveal_strlit("never");
            assert("auto"@.len() == 4);
            assert("always"@.len() == 6);
            assert("never"@.len() == 5);
        }
        if self.short_message_format {
            "--message-format=json-diagnostic-short"
        } else if self.json_message_format {
            "--message-format=json"
        } else if str_eq(color, "auto") {
            if self.terminal_supports_colors {
                "--message-format=json-diagnostic-rendered-ansi"
            } else {
                "--message-format=json"
            }
        } else if str_eq(color, "always") {
            "--message-format=json-diagnostic-rendered-ansi"
        } else {
            "--message-format=json"
        }
    }

    /// The complete argument vector for the build driver: the
    /// arguments before the delimiter, then `--` and the program's own
    /// arguments when there are any.
    pub fn all_args(&self) -> (r: Vec<String>)
        ensures
            self.args_after_app_args_delimiter@.len() == 0 ==> string_views(r@) == string_views(
                self.cargo_args@,
            ),
            self.args_after_app_args_delimiter@.len() > 0 ==> string_views(r@) == string_views(
                self.cargo_args@,
            ) + seq!["--"@] + string_views(self.args_after_app_args_delimiter@),
    {
        let mut r: Vec<String> = Vec::new();
        let n = self.cargo_args.len();
        let mut i: usize = 0;
        while i < n
            invariant
                i <= n,
                n == self.cargo_args@.len(),
                string_views(r@) == string_views(self.cargo_args@.take(i as int)),
            decreases n - i,
        {
            proof {
                lemma_string_views_push(r@, self.cargo_args@[i as int]);
                lemma_string_views_take_push(self.cargo_args@, i as int);
            }
            r.push(self.cargo_args[i].clone());
            i += 1;
        }
        proof {
            assert(self.cargo_args@.take(n as int) =~= self.cargo_args@);
        }
        if self.args_after_app_args_delimiter.len() > 0 {
            let delimiter = String::from_str("--");
            proof {
                lemma_string_views_push(r@, delimiter);
            }
            r.push(delimiter);
            let m = self.args_after_app_args_delimiter.len();
            let mut j: usize = 0;
            proof {
                assert(string_views(self.args_after_app_args_delimiter@.take(0))
                    =~= Seq::<Seq<char>>::empty());
                assert(string_views(r@) =~= string_views(self.cargo_args@) + seq!["--"@]
                    + string_views(self.args_after_app_args_delimiter@.take(0)));
            }
            while j < m
                invariant
                    j <= m,
                    m == self.args_after_app_args_delimiter@.len(),
                    string_views(r@) == string_views(self.cargo_args@) + seq!["--"@]
                        + string_views(self.args_after_app_args_delimiter@.take(j as int)),
                decreases m - j,
            {
                proof {
                    lemma_string_views_push(r@, self.args_after_app_args_delimiter@[j as int]);
                    lemma_string_views_take_push(self.args_after_app_args_delimiter@, j as int);
                }
                r.push(self.args_after_app_args_delimiter[j].clone());
                j += 1;
            }
            proof {
                assert(self.args_after_app_args_delimiter@.take(m as int)
                    =~= self.args_after_app_args_delimiter@);
            }
        }
        r
    }
}

/// The state the option scan threads through, at specification
/// level: the four flags being latched, the chosen colour, the
/// arguments saved for before the delimiter, whether the delimiter
/// was reached, and the arguments left after it.
pub struct OptState {
    pub help: bool,
    pub version: bool,
    pub json_message_format: bool,
    pub short_message_format: bool,
    pub color: Seq<char>,
    pub before: Seq<Seq<char>>,
    pub app_args_started: bool,
    pub rest: Seq<Seq<char>>,
}

/// The failures the option scan can end in, at specification level.
pub enum SpecParseError {
    MissingColorValue,
    InvalidColor { color: Seq<char> },
    MissingMessageFormatValue,
    InvalidMessageFormat { format: Seq<char> },
}

/// The executable error reports exactly the specification-level one.
pub open spec fn spec_error_matches(e: OptionsError, s: SpecParseError) -> bool {
    match (e, s) {
        (OptionsError::MissingColorValue, SpecParseError::MissingColorValue) => true,
        (
            OptionsError::InvalidColor { color: c },
            SpecParseError::InvalidColor { color: sc },
        ) => c@ == sc,
        (
            OptionsError::MissingMessageFormatValue,
            SpecParseError::MissingMessageFormatValue,
        ) => true,
        (
            OptionsError::InvalidMessageFormat { format: f },
            SpecParseError::InvalidMessageFormat { format: sf },
        ) => f@ == sf,
        _ => false,
    }
}

/// Flag updates a validated `--message-format` value causes.
pub open spec fn spec_apply_format(st: OptState, f: Seq<char>) -> OptState {
    if has_prefix(f, "json"@) {
        OptState { json_message_format: true, ..st }
    } else if f == "short"@ {
        OptState { short_message_format: true, ..st }
    } else {
        st
    }
}

/// One scan over the argument list, as the command line grammar
/// reads: `-h`/`--help` and `-V`/`--version` latch a flag
/// and are kept; `--color` and `--message-format` (in both their
/// separate-value and `=` forms) are validated and consumed; `--`
/// ends the scan; everything else is kept in order.
pub open spec fn spec_parse_options(st: OptState, args: Seq<Seq<char>>) -> Result<
    OptState,
    SpecParseError,
>
    decreases args.len(),
{
    if args.len() == 0 {
        Result::Ok(OptState { rest: Seq::empty(), ..st })
    } else {
        let a = args.first();
        let rest = args.drop_first();
        if a == "-h"@ || a == "--help"@ {
            spec_parse_options(OptState { help: true, before: st.before.push(a), ..st }, rest)
        } else if a == "-V"@ || a == "--version"@ {
            spec_parse_options(OptState { version: true, before: st.before.push(a), ..st }, rest)
        } else if a == "--color"@ {
            if rest.len() == 0 {
                Result::Err(SpecParseError::MissingColorValue)
            } else if !spec_valid_color(rest.first()) {
                Result::Err(SpecParseError::InvalidColor { color: rest.first() })
            } else {
                spec_parse_options(OptState { color: rest.first(), ..st }, rest.drop_first())
            }
        } else if has_prefix(a, "--color="@) {
            let c = a.skip("--color="@.len() as int);
            if !spec_valid_color(c) {
                Result::Err(SpecParseError::InvalidColor { color: c })
            } else {
                spec_parse_options(OptState { color: c, ..st }, rest)
            }
        } else if a == "--message-format"@ {
            if rest.len() == 0 {
                Result::Err(SpecParseError::MissingMessageFormatValue)
            } else if !spec_valid_message_format(rest.first()) {
                Result::Err(SpecParseError::InvalidMessageFormat { format: rest.first() })
            } else {
                spec_parse_options(spec_apply_format(st, rest.first()), rest.drop_first())
            }
        } else if has_prefix(a, "--message-format="@) {
            let f = a.skip("--message-format="@.len() as int);
            if !spec_valid_message_format(f) {
                Result::Err(SpecParseError::InvalidMessageFormat { format: f })
            } else {
                spec_parse_options(spec_apply_format(st, f), rest)
            }
        } else if a == "--"@ {
            Result::Ok(OptState { app_args_started: true, rest, ..st })
        } else {
            spec_parse_options(OptState { before: st.before.push(a), ..st }, rest)
        }
    }
}

impl Options {
    /// The scan state these options and scan locals stand for.
    pub open spec fn opt_state(
        self,
        color: Seq<char>,
        before: Seq<Seq<char>>,
        app_args_started: bool,
        rest: Seq<Seq<char>>,
    ) -> OptState {
        OptState {
            help: self.help,
            version: self.version,
            json_message_format: self.json_message_format,
            short_message_format: self.short_message_format,
            color,
            before,
            app_args_started,
            rest,
        }
    }

    /// Scan the arguments from `start` on, latching flags on `self`
    /// and collecting colour, kept arguments and the delimiter mark
    /// into the `&mut` locals; the result is the index just past what
    /// was consumed.
    #[verifier::rlimit(100)]
    pub fn parse_options(
        &mut self,
        args: &Vec<String>,
        start: usize,
        color: &mut String,
        args_before_app_args_delimiter: &mut Vec<String>,
        app_args_started: &mut bool,
    ) -> (r: Result<usize, OptionsError>)
        requires
            start <= args@.len(),
        ensures
            final(self).cargo_args == old(self).cargo_args,
            final(self).args_after_app_args_delimiter == old(self).args_after_app_args_delimiter,
            final(self).terminal_supports_colors == old(self).terminal_supports_colors,
            final(self).limit_messages == old(self).limit_messages,
            final(self).time_limit_after_error == old(self).time_limit_after_error,
            final(self).ascending_messages_order == old(self).ascending_messages_order,
            final(self).show_warnings_if_errors_exist == old(self).show_warnings_if_errors_exist,
            final(self).show_dependencies_warnings == old(self).show_dependencies_warnings,
            final(self).open_in_external_app == old(self).open_in_external_app,
            final(self).open_in_external_app_on_warnings == old(
                self,
            ).open_in_external_app_on_warnings,
            (match r {
                Result::Ok(next) => {
                    &&& start <= next <= args@.len()
                    &&& (spec_valid_color(old(color)@) ==> spec_valid_color(final(color)@))
                    &&& spec_parse_options(
                        old(self).opt_state(
                            old(color)@,
                            string_views(old(args_before_app_args_delimiter)@),
                            *old(app_args_started),
                            Seq::empty(),
                        ),
                        string_views(args@).skip(start as int),
                    ) == Result::<OptState, SpecParseError>::Ok(
                        final(self).opt_state(
                            final(color)@,
                            string_views(final(args_before_app_args_delimiter)@),
                            *final(app_args_started),
                            string_views(args@).skip(next as int),
                        ),
                    )
                },
                Result::Err(e) => exists|se: SpecParseError|
                    {
                        &&& #[trigger] spec_error_matches(e, se)
                        &&& spec_parse_options(
                            old(self).opt_state(
                                old(color)@,
                                string_views(old(args_before_app_args_delimiter)@),
                                *old(app_args_started),
                                Seq::empty(),
                            ),
                            string_views(args@).skip(start as int),
                        ) == Result::<OptState, SpecParseError>::Err(se)
                    },
            }),
    {
        let ghost views = string_views(args@);
        let ghost st0 = old(self).opt_state(
            old(color)@,
            string_views(old(args_before_app_args_delimiter)@),
            *old(app_args_started),
            Seq::empty(),
        );
        let n = args.len();
        let mut i: usize = start;
        proof {
            assert(views.skip(start as int) == views.skip(start as int));
        }
        while i < n
            invariant
                start <= i <= n,
                n == args@.len(),
                views == string_views(args@),
                self.cargo_args == old(self).cargo_args,
                self.args_after_app_args_delimiter == old(self).args_after_app_args_delimiter,
                self.terminal_supports_colors == old(self).terminal_supports_colors,
                self.limit_messages == old(self).limit_messages,
                self.time_limit_after_error == old(self).time_limit_after_error,
                self.ascending_messages_order == old(self).ascending_messages_order,
                self.show_warnings_if_errors_exist == old(self).show_warnings_if_errors_exist,
                self.show_dependencies_warnings == old(self).show_dependencies_warnings,
                self.open_in_external_app == old(self).open_in_external_app,
                self.open_in_external_app_on_warnings == old(self).open_in_external_app_on_warnings,
                st0 == old(self).opt_state(
                    old(color)@,
                    string_views(old(args_before_app_args_delimiter)@),
                    *old(app_args_started),
                    Seq::empty(),
                ),
                spec_valid_color(old(color)@) ==> spec_valid_color(color@),
                spec_parse_options(st0, views.skip(start as int)) == spec_parse_options(
                    self.opt_state(
                        color@,
                        string_views(args_before_app_args_delimiter@),
                        *app_args_started,
                        Seq::empty(),
                    ),
                    views.skip(i as int),
                ),
            decreases n - i,
        {
            let ghost st_cur = self.opt_state(
                color@,
                string_views(args_before_app_args_delimiter@),
                *app_args_started,
                Seq::empty(),
            );
            let arg = &args[i];
            proof {
                assert(views.skip(i as int).first() == arg@);
                assert(views.skip(i as int).drop_first() =~= views.skip(i as int + 1));
            }
            if str_eq(arg.as_str(), "-h") || str_eq(arg.as_str(), "--help") {
                self.help = true;
                proof {
                    lemma_string_views_push(args_before_app_args_delimiter@, args@[i as int]);
                }
                args_before_app_args_delimiter.push(arg.clone());
            } else if str_eq(arg.as_str(), "-V") || str_eq(arg.as_str(), "--version") {
                self.version = true;
                proof {
                    lemma_string_views_push(args_before_app_args_delimiter@, args@[i as int]);
                }
                args_before_app_args_delimiter.push(arg.clone());
            } else if str_eq(arg.as_str(), "--color") {
                if i + 1 >= n {
                    proof {
                        let se = SpecParseError::MissingColorValue;
                        assert(views.skip(i as int).drop_first().len() == 0);
                        assert(spec_error_matches(OptionsError::MissingColorValue, se));
                    }
                    return Err(OptionsError::MissingColorValue);
                }
                let value = &args[i + 1];
                proof {
                    assert(views.skip(i as int).drop_first().first() == value@);
                    assert(views.skip(i as int + 1).drop_first() =~= views.skip(i as int + 2));
                }
                match Self::validate_color(value.as_str()) {
                    Ok(()) => (),
                    Err(e) => {
                        proof {
                            let se = SpecParseError::InvalidColor { color: value@ };
                            assert(spec_error_matches(e, se));
                        }
                        return Err(e);
                    },
                }
                *color = value.clone();
                i += 1;
            } else if str_starts_with(arg.as_str(), "--color=") {
                proof {
                    reveal_strlit("--color=");
                    assert("--color="@.len() == 8);
                }
                let value = str_skip(arg.as_str(), 8);
                match Self::validate_color(value) {
                    Ok(()) => (),
                    Err(e) => {
                        proof {
                            let se = SpecParseError::InvalidColor { color: value@ };
                            assert(spec_error_matches(e, se));
                        }
                        return Err(e);
                    },
                }
                *color = value.to_owned();
            } else if str_eq(arg.as_str(), "--message-format") {
                if i + 1 >= n {
                    proof {
                        let se = SpecParseError::MissingMessageFormatValue;
                        assert(views.skip(i as int).drop_first().len() == 0);
                        assert(spec_error_matches(OptionsError::MissingMessageFormatValue, se));
                    }
                    return Err(OptionsError::MissingMessageFormatValue);
                }
                let value = &args[i + 1];
                proof {
                    assert(views.skip(i as int).drop_first().first() == value@);
                    assert(views.skip(i as int + 1).drop_first() =~= views.skip(i as int + 2));
                }
                match Self::validate_message_format(value.as_str()) {
                    Ok(()) => (),
                    Err(e) => {
                        proof {
                            let se = SpecParseError::InvalidMessageFormat { format: value@ };
                            assert(spec_error_matches(e, se));
                        }
                        return Err(e);
                    },
                }
                if str_starts_with(value.as_str(), "json") {
                    self.json_message_format = true;
                } else if str_eq(value.as_str(), "short") {
                    self.short_message_format = true;
                }
                i += 1;
            } else if str_starts_with(arg.as_str(), "--message-format=") {
                proof {
                    reveal_strlit("--message-format=");
                    assert("--message-format="@.len() == 17);
                }
                let value = str_skip(arg.as_str(), 17);
                match Self::validate_message_format(value) {
                    Ok(()) => (),
                    Err(e) => {
                        proof {
                            let se = SpecParseError::InvalidMessageFormat { format: value@ };
                            assert(spec_error_matches(e, se));
                        }
                        return Err(e);
                    },
                }
                if str_starts_with(value, "json") {
                    self.json_message_format = true;
                } else if str_eq(value, "short") {
                    self.short_message_format = true;
                }
            } else if str_eq(arg.as_str(), "--") {
                *app_args_started = true;
                proof {
                    assert(spec_parse_options(st_cur, views.skip(i as int))
                        == Result::<OptState, SpecParseError>::Ok(
                        OptState {
                            app_args_started: true,
                            rest: views.skip(i as int + 1),
                            ..st_cur
                        },
                    ));
                }
                return Ok(i + 1);
            } else {
                proof {
                    lemma_string_views_push(args_before_app_args_delimiter@, args@[i as int]);
                }
                args_before_app_args_delimiter.push(arg.clone());
            }
            i += 1;
        }
        proof {
            assert(views.skip(n as int) =~= Seq::<Seq<char>>::empty());
        }
        Ok(n)
    }
}

/// `sub` is what follows the first `cargo-l` in the executable's
/// name.
pub open spec fn spec_subcommand_split(exe: Seq<char>, sub: Seq<char>) -> bool {
    exists|i: int|
        {
            &&& 0 <= i
            &&& i + "cargo-l"@.len() <= exe.len()
            &&& #[trigger] exe.subrange(i, i + "cargo-l"@.len()) == "cargo-l"@
            &&& sub == exe.skip(i + "cargo-l"@.len())
            &&& (forall|ii: int|
                0 <= ii < i ==> #[trigger] exe.subrange(ii, ii + "cargo-l"@.len())
                    != "cargo-l"@)
        }
}

/// Leading arguments that repeat the invocation itself and are
/// swallowed: the build driver's name, the wrapper's own name, or the
/// `l`-prefixed subcommand.
pub open spec fn spec_skippable(arg: Seq<char>, exe: Seq<char>, sub: Seq<char>) -> bool {
    let stem = crate::paths::spec_file_stem(arg);
    stem == "cargo"@ || stem == exe || stem == seq!['l'] + sub
}

/// `d` leading arguments are swallowed, and no more.
pub open spec fn spec_skip_prefix_len(
    args: Seq<Seq<char>>,
    exe: Seq<char>,
    sub: Seq<char>,
    d: int,
) -> bool {
    &&& 0 <= d <= args.len()
    &&& (forall|j: int| 0 <= j < d ==> spec_skippable(#[trigger] args[j], exe, sub))
    &&& (d == args.len() || !spec_skippable(args[d], exe, sub))
}

impl Options {
    /// The subcommand named by the wrapper executable, and the
    /// arguments left once the leading repetitions of the invocation
    /// are swallowed.
    pub fn parse_subcommand(args: Vec<String>, current_exe: String) -> (r: Result<
        (String, Vec<String>),
        OptionsError,
    >)
        ensures
            (match r {
                Result::Ok((sub, rem)) => {
                    &&& spec_subcommand_split(current_exe@, sub@)
                    &&& exists|d: int|
                        {
                            &&& #[trigger] spec_skip_prefix_len(
                                string_views(args@),
                                current_exe@,
                                sub@,
                                d,
                            )
                            &&& string_views(rem@) == string_views(args@).skip(d)
                        }
                },
                Result::Err(e) => {
                    &&& !crate::text::contains_seq(current_exe@, "cargo-l"@)
                    &&& e matches OptionsError::InvalidSubcommand { executable } && executable@
                        == current_exe@
                },
            }),
    {
        let exe_len = current_exe.unicode_len();
        let found = crate::text::str_find(current_exe.as_str(), "cargo-l");
        let at = match found {
            Some(at) => at,
            None => {
                return Err(OptionsError::InvalidSubcommand { executable: current_exe });
            },
        };
        proof {
            reveal_strlit("cargo-l");
            assert("cargo-l"@.len() == 7);
        }
        let subcommand = crate::text::str_skip(current_exe.as_str(), at + 7).to_owned();
        let mut lsub = String::from_str("l");
        lsub.append(subcommand.as_str());
        proof {
            reveal_strlit("l");
            assert("l"@ =~= seq!['l']);
        }
        let ghost views = string_views(args@);
        let mut rem = args;
        let ghost d: int = 0;
        let mut stop = false;
        while !stop && rem.len() > 0
            invariant
                views == string_views(args@),
                0 <= d <= views.len(),
                string_views(rem@) == views.skip(d),
                lsub@ == seq!['l'] + subcommand@,
                forall|j: int|
                    0 <= j < d ==> spec_skippable(#[trigger] views[j], current_exe@, subcommand@),
                stop ==> d < views.len() && !spec_skippable(views[d], current_exe@, subcommand@),
            decreases rem@.len() + (if stop {
                0int
            } else {
                1int
            }),
        {
            let stem = crate::paths::file_stem(rem[0].as_str());
            proof {
                assert(string_views(rem@).len() == rem@.len());
                assert(d < views.len());
                assert(string_views(rem@)[0] == rem@[0]@);
                assert(views.skip(d)[0] == views[d]);
            }
            let skip_it = str_eq(stem.as_str(), "cargo") || str_eq(stem.as_str(),
                current_exe.as_str()) || str_eq(stem.as_str(), lsub.as_str());
            if !skip_it {
                stop = true;
            } else {
                let ghost pre_rem = rem@;
                let _ = rem.remove(0);
                proof {
                    assert forall|jj: int|
                        0 <= jj < rem@.len() implies string_views(rem@)[jj] == views.skip(d + 1)[jj] by {
                        assert(rem@[jj] == pre_rem[jj + 1]);
                        assert(string_views(pre_rem)[jj + 1] == pre_rem[jj + 1]@);
                        assert(views.skip(d)[jj + 1] == views[d + 1 + jj]);
                        assert(views.skip(d + 1)[jj] == views[d + 1 + jj]);
                    }
                    assert(string_views(rem@) =~= views.skip(d + 1));
                    d = d + 1;
                }
            }
        }
        proof {
            if !stop {
                assert(string_views(rem@).len() == 0);
                assert(d == views.len());
            }
            assert(spec_skip_prefix_len(views, current_exe@, subcommand@, d));
        }
        Ok((subcommand, rem))
    }

    /// Record the arguments after the `--` delimiter, noting whether
    /// any of them chooses a colour itself.
    pub fn process_args_after_app_args_delimiter(
        &mut self,
        args: &Vec<String>,
        start: usize,
        app_color_is_set: &mut bool,
    )
        requires
            start <= args@.len(),
        ensures
            string_views(final(self).args_after_app_args_delimiter@) == string_views(
                old(self).args_after_app_args_delimiter@,
            ) + string_views(args@).skip(start as int),
            *final(self) == (Options {
                args_after_app_args_delimiter: final(self).args_after_app_args_delimiter,
                ..*old(self)
            }),
            *final(app_color_is_set) == (*old(app_color_is_set) || spec_any_color_arg(
                string_views(args@).skip(start as int),
            )),
    {
        let ghost views = string_views(args@);
        let n = args.len();
        let mut i: usize = start;
        proof {
            assert(views.subrange(start as int, start as int) =~= Seq::<Seq<char>>::empty());
            assert(string_views(self.args_after_app_args_delimiter@) + views.subrange(
                start as int,
                start as int,
            ) =~= string_views(self.args_after_app_args_delimiter@));
        }
        while i < n
            invariant
                start <= i <= n,
                n == args@.len(),
                views == string_views(args@),
                string_views(self.args_after_app_args_delimiter@) == string_views(
                    old(self).args_after_app_args_delimiter@,
                ) + views.subrange(start as int, i as int),
                *self == (Options {
                    args_after_app_args_delimiter: self.args_after_app_args_delimiter,
                    ..*old(self)
                }),
                *app_color_is_set == (*old(app_color_is_set) || spec_any_color_arg(
                    views.subrange(start as int, i as int),
                )),
            decreases n - i,
        {
            let arg = &args[i];
            let ghost pre = views.subrange(start as int, i as int);
            proof {
                assert(views.subrange(start as int, i as int + 1) =~= pre.push(args@[i as int]@));
                lemma_string_views_push(self.args_after_app_args_delimiter@, args@[i as int]);
                lemma_any_color_push(pre, args@[i as int]@);
            }
            if str_eq(arg.as_str(), "--color") || str_starts_with(arg.as_str(), "--color=") {
                *app_color_is_set = true;
            }
            self.args_after_app_args_delimiter.push(arg.clone());
            i += 1;
        }
        proof {
            assert(views.subrange(start as int, n as int) =~= views.skip(start as int));
        }
    }

    /// Append `--color=always` for test and bench runs on a capable
    /// terminal, when the program did not choose a colour itself and
    /// every harnessed target accepts the argument.
    pub fn process_custom_runners(
        &mut self,
        subcommand: &str,
        app_color_is_set: bool,
        cargo_toml: &CargoToml,
    )
        ensures
            spec_custom_runner_color(
                subcommand@,
                app_color_is_set,
                old(self).terminal_supports_colors,
                *cargo_toml,
            ) ==> {
                &&& string_views(final(self).args_after_app_args_delimiter@) == string_views(
                    old(self).args_after_app_args_delimiter@,
                ).push("--color=always"@)
                &&& *final(self) == (Options {
                    args_after_app_args_delimiter: final(self).args_after_app_args_delimiter,
                    ..*old(self)
                })
            },
            !spec_custom_runner_color(
                subcommand@,
                app_color_is_set,
                old(self).terminal_supports_colors,
                *cargo_toml,
            ) ==> *final(self) == *old(self),
    {
        let is_test = str_eq(subcommand, "test");
        let is_bench = str_eq(subcommand, "bench");
        proof {
            reveal_strlit("test");
            reveal_strlit("bench");
            assert("test"@.len() == 4);
            assert("bench"@.len() == 5);
        }
        if (is_test || is_bench) && !app_color_is_set && self.terminal_supports_colors {
            let all_items_have_harness = if is_test {
                cargo_toml.all_tests_have_harness()
            } else {
                cargo_toml.all_benchmarks_have_harness()
            };
            if all_items_have_harness {
                self.add_color_arg("always");
                proof {
                    reveal_strlit("--color=");
                    reveal_strlit("always");
                    reveal_strlit("--color=always");
                    assert("--color="@ + "always"@ =~= "--color=always"@);
                }
            }
        }
    }
}

/// The environment variables the configuration reads, each as the
/// plain text it held, or absent.
pub struct EnvVars {
    pub time_limit: Option<String>,
    pub msg_limit: Option<String>,
    pub asc: Option<String>,
    pub force_warn: Option<String>,
    pub deps_warn: Option<String>,
    pub open: Option<String>,
    pub open_warn: Option<String>,
}

/// An absent variable is fine; a present one must be a decimal
/// number that fits.
pub open spec fn spec_usize_var_ok(v: Option<String>) -> bool {
    match v {
        Option::None => true,
        Option::Some(s) => all_digits(s@) && dec_val(s@) <= usize::MAX,
    }
}

/// An absent variable is fine; a present one must be `true` or
/// `false`.
pub open spec fn spec_bool_var_ok(v: Option<String>) -> bool {
    match v {
        Option::None => true,
        Option::Some(s) => s@ == "true"@ || s@ == "false"@,
    }
}

pub open spec fn spec_usize_var(v: Option<String>, default: int) -> int {
    match v {
        Option::None => default,
        Option::Some(s) => dec_val(s@),
    }
}

pub open spec fn spec_bool_var(v: Option<String>, default: bool) -> bool {
    match v {
        Option::None => default,
        Option::Some(s) => s@ == "true"@,
    }
}

/// The first variable, in reading order, whose text cannot be read.
pub open spec fn spec_first_bad_var(vars: EnvVars) -> Seq<char> {
    if !spec_usize_var_ok(vars.time_limit) {
        "CARGO_TIME_LIMIT"@
    } else if !spec_usize_var_ok(vars.msg_limit) {
        "CARGO_MSG_LIMIT"@
    } else if !spec_bool_var_ok(vars.asc) {
        "CARGO_ASC"@
    } else if !spec_bool_var_ok(vars.force_warn) {
        "CARGO_FORCE_WARN"@
    } else if !spec_bool_var_ok(vars.deps_warn) {
        "CARGO_DEPS_WARN"@
    } else {
        "CARGO_OPEN_WARN"@
    }
}

impl Options {
    /// Build the starting configuration from the environment
    /// variables' texts and the terminal's capability, with defaults
    /// where a variable is absent; fails exactly when a present
    /// variable cannot be read as its type.
    pub fn from_vars_and_atty(vars: &EnvVars, terminal_supports_colors: bool) -> (r: Result<
        Options,
        OptionsError,
    >)
        ensures
            (r is Ok <==> (spec_usize_var_ok(vars.time_limit) && spec_usize_var_ok(vars.msg_limit)
                && spec_bool_var_ok(vars.asc) && spec_bool_var_ok(vars.force_warn)
                && spec_bool_var_ok(vars.deps_warn) && spec_bool_var_ok(vars.open_warn))),
            (match r {
                Result::Ok(o) => {
                    &&& o.terminal_supports_colors == terminal_supports_colors
                    &&& o.time_limit_after_error == spec_usize_var(vars.time_limit, 1)
                    &&& o.limit_messages == spec_usize_var(vars.msg_limit, 0)
                    &&& o.ascending_messages_order == spec_bool_var(vars.asc, false)
                    &&& o.show_warnings_if_errors_exist == spec_bool_var(vars.force_warn, false)
                    &&& o.show_dependencies_warnings == spec_bool_var(vars.deps_warn, false)
                    &&& o.open_in_external_app@ == (match vars.open {
                        Option::None => Seq::<char>::empty(),
                        Option::Some(s) => s@,
                    })
                    &&& o.open_in_external_app_on_warnings == spec_bool_var(vars.open_warn, false)
                    &&& o.cargo_args@ == Seq::<String>::empty()
                    &&& o.args_after_app_args_delimiter@ == Seq::<String>::empty()
                    &&& o.help == false
                    &&& o.version == false
                    &&& o.json_message_format == false
                    &&& o.short_message_format == false
                },
                Result::Err(e) => e matches OptionsError::InvalidEnvVar { name } && name@
                    == spec_first_bad_var(*vars),
            }),
    {
        let mut result = Options::default();
        result.terminal_supports_colors = terminal_supports_colors;
        match &vars.time_limit {
            Option::Some(s) => {
                match parse_usize(s.as_str()) {
                    Option::Some(n) => {
                        result.time_limit_after_error = n as u64;
                    },
                    Option::None => {
                        return Err(
                            OptionsError::InvalidEnvVar {
                                name: String::from_str("CARGO_TIME_LIMIT"),
                            },
                        );
                    },
                }
            },
            Option::None => (),
        }
        match &vars.msg_limit {
            Option::Some(s) => {
                match parse_usize(s.as_str()) {
                    Option::Some(n) => {
                        result.limit_messages = n;
                    },
                    Option::None => {
                        return Err(
                            OptionsError::InvalidEnvVar {
                                name: String::from_str("CARGO_MSG_LIMIT"),
                            },
                        );
                    },
                }
            },
            Option::None => (),
        }
        match &vars.asc {
            Option::Some(s) => {
                match parse_bool(s.as_str()) {
                    Option::Some(b) => {
                        result.ascending_messages_order = b;
                    },
                    Option::None => {
                        return Err(
                            OptionsError::InvalidEnvVar { name: String::from_str("CARGO_ASC") },
                        );
                    },
                }
            },
            Option::None => (),
        }
        match &vars.force_warn {
            Option::Some(s) => {
                match parse_bool(s.as_str()) {
                    Option::Some(b) => {
                        result.show_warnings_if_errors_exist = b;
                    },
                    Option::None => {
                        return Err(
                            OptionsError::InvalidEnvVar {
                                name: String::from_str("CARGO_FORCE_WARN"),
                            },
                        );
                    },
                }
            },
            Option::None => (),
        }
        match &vars.deps_warn {
            Option::Some(s) => {
                match parse_bool(s.as_str()) {
                    Option::Some(b) => {
                        result.show_dependencies_warnings = b;
                    },
                    Option::None => {
                        return Err(
                            OptionsError::InvalidEnvVar {
                                name: String::from_str("CARGO_DEPS_WARN"),
                            },
                        );
                    },
                }
            },
            Option::None => (),
        }
        match &vars.open {
            Option::Some(s) => {
                result.open_in_external_app = s.clone();
            },
            Option::None => (),
        }
        match &vars.open_warn {
            Option::Some(s) => {
                match parse_bool(s.as_str()) {
                    Option::Some(b) => {
                        result.open_in_external_app_on_warnings = b;
                    },
                    Option::None => {
                        return Err(
                            OptionsError::InvalidEnvVar {
                                name: String::from_str("CARGO_OPEN_WARN"),
                            },
                        );
                    },
                }
            },
            Option::None => (),
        }
        Ok(result)
    }
}

/// What a successful `process_args` produces, with the subcommand,
/// the count of swallowed leading arguments and the final scan state
/// as witnesses: the build driver's argument vector is the
/// subcommand, the chosen message format and the kept arguments, in
/// that order; the program's own arguments follow the delimiter,
/// with the colour workaround appended when it applies; and the
/// latched flags land in the configuration.
pub open spec fn spec_process_args_ok(
    o0: Options,
    exe: Seq<char>,
    args: Seq<Seq<char>>,
    toml: CargoToml,
    sub: Seq<char>,
    d: int,
    st: OptState,
    o: Options,
) -> bool {
    let app_color = st.app_args_started && spec_any_color_arg(st.rest);
    let with_rest = if st.app_args_started {
        string_views(o0.args_after_app_args_delimiter@) + st.rest
    } else {
        string_views(o0.args_after_app_args_delimiter@)
    };
    let color_applies = spec_custom_runner_color(
        sub,
        app_color,
        o0.terminal_supports_colors,
        toml,
    );
    &&& spec_subcommand_split(exe, sub)
    &&& spec_skip_prefix_len(args, exe, sub, d)
    &&& spec_parse_options(
        o0.opt_state("auto"@, Seq::empty(), false, Seq::empty()),
        args.skip(d),
    ) == Result::<OptState, SpecParseError>::Ok(st)
    &&& string_views(o.cargo_args@) == string_views(o0.cargo_args@).push(sub).push(
        spec_message_format(
            st.short_message_format,
            st.json_message_format,
            o0.terminal_supports_colors,
            st.color,
        ),
    ) + st.before
    &&& string_views(o.args_after_app_args_delimiter@) == (if color_applies {
        with_rest.push("--color=always"@)
    } else {
        with_rest
    })
    &&& o.help == st.help
    &&& o.version == st.version
    &&& o.json_message_format == st.json_message_format
    &&& o.short_message_format == st.short_message_format
    &&& o.terminal_supports_colors == o0.terminal_supports_colors
    &&& o.limit_messages == o0.limit_messages
    &&& o.time_limit_after_error == o0.time_limit_after_error
    &&& o.ascending_messages_order == o0.ascending_messages_order
    &&& o.show_warnings_if_errors_exist == o0.show_warnings_if_errors_exist
    &&& o.show_dependencies_warnings == o0.show_dependencies_warnings
    &&& o.open_in_external_app@ == o0.open_in_external_app@
    &&& o.open_in_external_app_on_warnings == o0.open_in_external_app_on_warnings
}

/// A successful `process_args` result, with the witnesses hidden.
pub open spec fn spec_process_args_result(
    o0: Options,
    exe: Seq<char>,
    args: Seq<Seq<char>>,
    toml: CargoToml,
    o: Options,
) -> bool {
    exists|sub: Seq<char>, d: int, st: OptState|
        #[trigger] spec_process_args_ok(o0, exe, args, toml, sub, d, st, o)
}

/// A failed `process_args`: either the executable's name holds no
/// subcommand, or the option scan itself failed with this error.
pub open spec fn spec_process_args_error(
    o0: Options,
    exe: Seq<char>,
    args: Seq<Seq<char>>,
    e: OptionsError,
) -> bool {
    match e {
        OptionsError::InvalidSubcommand { executable } => {
            &&& !crate::text::contains_seq(exe, "cargo-l"@)
            &&& executable@ == exe
        },
        _ => exists|sub: Seq<char>, d: int, se: SpecParseError|
            {
                &&& spec_subcommand_split(exe, sub)
                &&& #[trigger] spec_skip_prefix_len(args, exe, sub, d)
                &&& spec_parse_options(
                    o0.opt_state("auto"@, Seq::empty(), false, Seq::empty()),
                    args.skip(d),
                ) == Result::<OptState, SpecParseError>::Err(se)
                &&& #[trigger] spec_error_matches(e, se)
            },
    }
}

impl Options {
    /// Resolve the subcommand from the executable's name, scan the
    /// command line, choose the message format, and apply the custom
    /// runner colour workaround; the manifest is consulted only for
    /// test and bench runs.
    pub fn process_args(
        &self,
        current_exe: String,
        args: Vec<String>,
        cargo_toml: &CargoToml,
    ) -> (r: Result<Options, OptionsError>)
        ensures
            (match r {
                Result::Ok(o) => spec_process_args_result(
                    *self,
                    current_exe@,
                    string_views(args@),
                    *cargo_toml,
                    o,
                ),
                Result::Err(e) => spec_process_args_error(
                    *self,
                    current_exe@,
                    string_views(args@),
                    e,
                ),
            }),
    {
        let ghost self0 = *self;
        let ghost exe = current_exe@;
        let ghost arg_views = string_views(args@);
        let (subcommand, rest) = match Self::parse_subcommand(args, current_exe) {
            Ok(pair) => pair,
            Err(e) => {
                return Err(e);
            },
        };
        let ghost sub = subcommand@;
        let ghost d: int = choose|dd: int|
            {
                &&& #[trigger] spec_skip_prefix_len(arg_views, exe, sub, dd)
                &&& string_views(rest@) == arg_views.skip(dd)
            };
        let mut this = Options {
            cargo_args: clone_string_vec(&self.cargo_args),
            args_after_app_args_delimiter: clone_string_vec(&self.args_after_app_args_delimiter),
            terminal_supports_colors: self.terminal_supports_colors,
            limit_messages: self.limit_messages,
            time_limit_after_error: self.time_limit_after_error,
            ascending_messages_order: self.ascending_messages_order,
            show_warnings_if_errors_exist: self.show_warnings_if_errors_exist,
            show_dependencies_warnings: self.show_dependencies_warnings,
            open_in_external_app: self.open_in_external_app.clone(),
            open_in_external_app_on_warnings: self.open_in_external_app_on_warnings,
            help: self.help,
            version: self.version,
            json_message_format: self.json_message_format,
            short_message_format: self.short_message_format,
        };
        let mut color = String::from_str("auto");
        let mut before: Vec<String> = Vec::new();
        let mut app_args_started = false;
        proof {
            reveal_strlit("auto");
            assert(string_views(before@) =~= Seq::<Seq<char>>::empty());
            assert(string_views(rest@).skip(0) =~= string_views(rest@));
        }
        let next = match this.parse_options(
            &rest,
            0,
            &mut color,
            &mut before,
            &mut app_args_started,
        ) {
            Ok(next) => next,
            Err(e) => {
                proof {
                    let se = choose|se: SpecParseError|
                        {
                            &&& #[trigger] spec_error_matches(e, se)
                            &&& spec_parse_options(
                                self0.opt_state("auto"@, Seq::empty(), false, Seq::empty()),
                                string_views(rest@).skip(0),
                            ) == Result::<OptState, SpecParseError>::Err(se)
                        };
                    assert(spec_parse_options(
                        self0.opt_state("auto"@, Seq::empty(), false, Seq::empty()),
                        arg_views.skip(d),
                    ) == Result::<OptState, SpecParseError>::Err(se));
                }
                return Err(e);
            },
        };
        let ghost st = this.opt_state(
            color@,
            string_views(before@),
            app_args_started,
            string_views(rest@).skip(next as int),
        );
        proof {
            assert(spec_parse_options(
                self0.opt_state("auto"@, Seq::empty(), false, Seq::empty()),
                arg_views.skip(d),
            ) == Result::<OptState, SpecParseError>::Ok(st));
        }
        proof {
            lemma_string_views_push(this.cargo_args@, subcommand);
        }
        this.cargo_args.push(subcommand.clone());
        let format = this.message_format(color.as_str());
        let format_owned = format.to_owned();
        proof {
            lemma_string_views_push(this.cargo_args@, format_owned);
        }
        this.cargo_args.push(format_owned);
        let ghost before_views = string_views(before@);
        let mut before_moved = before;
        proof {
            crate::text::lemma_string_views_concat(this.cargo_args@, before_moved@);
        }
        this.cargo_args.append(&mut before_moved);
        proof {
            assert(string_views(this.cargo_args@) == string_views(self0.cargo_args@).push(
                sub,
            ).push(
                spec_message_format(
                    st.short_message_format,
                    st.json_message_format,
                    self0.terminal_supports_colors,
                    st.color,
                ),
            ) + st.before);
        }
        let mut app_color_is_set = false;
        if app_args_started {
            this.process_args_after_app_args_delimiter(&rest, next, &mut app_color_is_set);
        } else {
            proof {
                assert(string_views(this.args_after_app_args_delimiter@) == string_views(
                    self0.args_after_app_args_delimiter@,
                ));
            }
        }
        this.process_custom_runners(subcommand.as_str(), app_color_is_set, cargo_toml);
        let r = this;
        proof {
            assert(spec_process_args_ok(
                self0,
                exe,
                arg_views,
                *cargo_toml,
                sub,
                d,
                st,
                r,
            ));
            assert(self0 == *self);
            assert(exe == current_exe@);
            assert(arg_views == string_views(args@));
        }
        Ok(r)
    }
}

/// Some argument chooses a colour: a bare `--color` or a
/// `--color=...`.
pub open spec fn spec_any_color_arg(args: Seq<Seq<char>>) -> bool {
    exists|i: int|
        0 <= i < args.len() && (#[trigger] args[i] == "--color"@ || has_prefix(
            args[i],
            "--color="@,
        ))
}

/// The `--color=always` workaround applies: a test or bench run on a
/// capable terminal, no colour chosen by the program itself, and no
/// target that replaced the default harness.
pub open spec fn spec_custom_runner_color(
    sub: Seq<char>,
    app_color_is_set: bool,
    terminal_supports_colors: bool,
    toml: CargoToml,
) -> bool {
    &&& (sub == "test"@ || sub == "bench"@)
    &&& !app_color_is_set
    &&& terminal_supports_colors
    &&& (if sub == "test"@ {
        spec_all_have_harness(toml.test@)
    } else {
        spec_all_have_harness(toml.bench@)
    })
}

/// Extending the scanned arguments by one keeps or establishes the
/// colour mark as that argument warrants.
pub proof fn lemma_any_color_push(args: Seq<Seq<char>>, a: Seq<char>)
    ensures
        spec_any_color_arg(args.push(a)) == (spec_any_color_arg(args) || a == "--color"@
            || has_prefix(a, "--color="@)),
{
    let p = args.push(a);
    if spec_any_color_arg(args) {
        let w = choose|i: int|
            0 <= i < args.len() && (#[trigger] args[i] == "--color"@ || has_prefix(
                args[i],
                "--color="@,
            ));
        assert(p[w] == args[w]);
    }
    if a == "--color"@ || has_prefix(a, "--color="@) {
        assert(p[args.len() as int] == a);
    }
    if spec_any_color_arg(p) {
        let w = choose|i: int|
            0 <= i < p.len() && (#[trigger] p[i] == "--color"@ || has_prefix(p[i], "--color="@));
        if w < args.len() {
            assert(args[w] == p[w]);
        }
    }
}

/// A fresh vector holding the same strings.
fn clone_string_vec(v: &Vec<String>) -> (r: Vec<String>)
    ensures
        r@ == v@,
{
    let n = v.len();
    let mut r: Vec<String> = Vec::new();
    let mut i: usize = 0;
    while i < n
        invariant
            i <= n,
            n == v@.len(),
            r@ == v@.take(i as int),
        decreases n - i,
    {
        r.push(v[i].clone());
        proof {
            assert(r@ =~= v@.take(i as int + 1));
        }
        i += 1;
    }
    proof {
        assert(v@.take(n as int) =~= v@);
    }
    r
}

/// Pushing a string appends its view to the view sequence.
proof fn lemma_string_views_push(v: Seq<String>, s: String)
    ensures
        string_views(v.push(s)) == string_views(v).push(s@),
{
    assert(string_views(v.push(s)) =~= string_views(v).push(s@));
}

/// One more element of a prefix, seen through the views.
proof fn lemma_string_views_take_push(v: Seq<String>, i: int)
    requires
        0 <= i < v.len(),
    ensures
        string_views(v.take(i + 1)) == string_views(v.take(i)).push(v[i]@),
{
    assert(string_views(v.take(i + 1)) =~= string_views(v.take(i)).push(v[i]@));
}

} // verus!
