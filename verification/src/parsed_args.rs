//! The early form of command-line handling: a single scan that
//! recognises a handful of options, drops everything else, and
//! rebuilds the build driver's argument vector with an explicit
//! colour choice, message format and delimiter.

use vstd::prelude::*;
use crate::text::all_digits;
use crate::text::dec_val;
use crate::text::has_prefix;
use crate::text::parse_usize;
use crate::text::str_eq;
use crate::text::str_skip;
use crate::text::str_starts_with;
use crate::text::string_views;
use crate::options::spec_valid_color;
use crate::options::spec_any_color_arg;

verus! {

#[derive(Debug)]
pub struct ParsedArgs {
    pub cargo_args: Vec<String>,
    pub limit_messages: usize,
    pub ascending_messages_order: bool,
    pub show_warnings_if_errors_exist: bool,
    pub help: bool,
}

/// The scan state, at specification level.
pub struct ScanState {
    pub kept: Seq<Seq<char>>,
    pub limit_messages: int,
    pub ascending_messages_order: bool,
    pub show_warnings_if_errors_exist: bool,
    pub help: bool,
    pub color: Seq<char>,
    pub program_args_started: bool,
    pub rest: Seq<Seq<char>>,
}

/// The failures the scan can end in, at specification level.
pub enum SpecScanError {
    MissingColorValue,
    InvalidColor { color: Seq<char> },
    MissingLimitValue,
    InvalidLimit { value: Seq<char> },
}

/// The reasons this parser fails, each carrying the offending text.
#[derive(Debug)]
pub enum ParsedArgsError {
    MissingColorValue,
    InvalidColor { color: String },
    MissingLimitValue,
    InvalidLimit { value: String },
}

impl ParsedArgsError {
    /// A plain description, for the boundary code to print.
    pub fn text(&self) -> String {
        match self {
            ParsedArgsError::MissingColorValue => String::from_str(
                "the argument '--color <WHEN>' requires a value but none was supplied",
            ),
            ParsedArgsError::InvalidColor { color } => {
                let mut s = String::from_str(
                    "argument for --color must be auto, always, or never (was ",
                );
                s.append(color.as_str());
                s.append(")");
                s
            },
            ParsedArgsError::MissingLimitValue => String::from_str("expected number of messages"),
            ParsedArgsError::InvalidLimit { value } => {
                let mut s = String::from_str("invalid number of messages: ");
                s.append(value.as_str());
                s
            },
        }
    }
}

pub open spec fn spec_scan_error_matches(e: ParsedArgsError, s: SpecScanError) -> bool {
    match (e, s) {
        (ParsedArgsError::MissingColorValue, SpecScanError::MissingColorValue) => true,
        (
            ParsedArgsError::InvalidColor { color: c },
            SpecScanError::InvalidColor { color: sc },
        ) => c@ == sc,
        (ParsedArgsError::MissingLimitValue, SpecScanError::MissingLimitValue) => true,
        (
            ParsedArgsError::InvalidLimit { value: v },
            SpecScanError::InvalidLimit { value: sv },
        ) => v@ == sv,
        _ => false,
    }
}

/// A decimal that fits in a `usize`.
pub open spec fn spec_limit_ok(v: Seq<char>) -> bool {
    all_digits(v) && dec_val(v) <= usize::MAX
}

/// The single scan: `-h`/`--help` latches and is kept, `--color` and
/// `--limit` (in both forms) are consumed, `--asc` and
/// `--always-show-warnings` latch, `--` ends the scan, and every
/// other argument is dropped.
pub open spec fn spec_scan(st: ScanState, args: Seq<Seq<char>>) -> Result<
    ScanState,
    SpecScanError,
>
    decreases args.len(),
{
    if args.len() == 0 {
        Result::Ok(ScanState { rest: Seq::empty(), ..st })
    } else {
        let a = args.first();
        let rest = args.drop_first();
        if a == "-h"@ || a == "--help"@ {
            spec_scan(ScanState { help: true, kept: st.kept.push(a), ..st }, rest)
        } else if a == "--color"@ {
            if rest.len() == 0 {
                Result::Err(SpecScanError::MissingColorValue)
            } else if !spec_valid_color(rest.first()) {
                Result::Err(SpecScanError::InvalidColor { color: rest.first() })
            } else {
                spec_scan(ScanState { color: rest.first(), ..st }, rest.drop_first())
            }
        } else if has_prefix(a, "--color="@) {
            let c = a.skip("--color="@.len() as int);
            if !spec_valid_color(c) {
                Result::Err(SpecScanError::InvalidColor { color: c })
            } else {
                spec_scan(ScanState { color: c, ..st }, rest)
            }
        } else if a == "--limit"@ {
            if rest.len() == 0 {
                Result::Err(SpecScanError::MissingLimitValue)
            } else if !spec_limit_ok(rest.first()) {
                Result::Err(SpecScanError::InvalidLimit { value: rest.first() })
            } else {
                spec_scan(
                    ScanState { limit_messages: dec_val(rest.first()), ..st },
                    rest.drop_first(),
                )
            }
        } else if has_prefix(a, "--limit="@) {
            let v = a.skip("--limit="@.len() as int);
            if !spec_limit_ok(v) {
                Result::Err(SpecScanError::InvalidLimit { value: v })
            } else {
                spec_scan(ScanState { limit_messages: dec_val(v), ..st }, rest)
            }
        } else if a == "--asc"@ {
            spec_scan(ScanState { ascending_messages_order: true, ..st }, rest)
        } else if a == "--always-show-warnings"@ {
            spec_scan(ScanState { show_warnings_if_errors_exist: true, ..st }, rest)
        } else if a == "--"@ {
            Result::Ok(ScanState { program_args_started: true, rest, ..st })
        } else {
            spec_scan(st, rest)
        }
    }
}

/// The scan's starting state.
pub open spec fn spec_scan_init() -> ScanState {
    ScanState {
        kept: Seq::empty(),
        limit_messages: 0,
        ascending_messages_order: false,
        show_warnings_if_errors_exist: false,
        help: false,
        color: "auto"@,
        program_args_started: false,
        rest: Seq::empty(),
    }
}

/// The message format this parser chooses: plain JSON when colour is
/// off, coloured rendering otherwise.
pub open spec fn spec_plain_format(color: Seq<char>) -> Seq<char> {
    if color == "never"@ {
        "--message-format=json"@
    } else {
        "--message-format=json-diagnostic-rendered-ansi"@
    }
}

/// What a successful parse produces, with the scan's end state as
/// witness: the rebuilt argument vector is the command, the kept
/// arguments, the colour, the format, the delimiter, the program's
/// own arguments, and the test-colour workaround when it applies.
pub open spec fn spec_parsed_args_ok(
    args: Seq<Seq<char>>,
    cmd: Seq<char>,
    stdout_is_terminal: bool,
    st: ScanState,
    p: ParsedArgs,
) -> bool {
    let test_color = cmd == "test"@ && !(st.program_args_started && spec_any_color_arg(st.rest))
        && stdout_is_terminal;
    &&& spec_scan(spec_scan_init(), args) == Result::<ScanState, SpecScanError>::Ok(st)
    &&& p.limit_messages == st.limit_messages
    &&& p.ascending_messages_order == st.ascending_messages_order
    &&& p.show_warnings_if_errors_exist == st.show_warnings_if_errors_exist
    &&& p.help == st.help
    &&& string_views(p.cargo_args@) == seq![cmd] + st.kept + seq!["--color="@ + st.color]
        + seq![spec_plain_format(st.color)] + seq!["--"@] + (if st.program_args_started {
        st.rest
    } else {
        Seq::empty()
    }) + (if test_color {
        seq!["--color=always"@]
    } else {
        Seq::empty()
    })
}

/// A successful parse, with the witness hidden.
pub open spec fn spec_parsed_args_result(
    args: Seq<Seq<char>>,
    cmd: Seq<char>,
    stdout_is_terminal: bool,
    p: ParsedArgs,
) -> bool {
    exists|st: ScanState| #[trigger] spec_parsed_args_ok(args, cmd, stdout_is_terminal, st, p)
}

/// A failed parse: the scan ended in this error.
pub open spec fn spec_parsed_args_failed(args: Seq<Seq<char>>, e: ParsedArgsError) -> bool {
    exists|se: SpecScanError|
        {
            &&& #[trigger] spec_scan_error_matches(e, se)
            &&& spec_scan(spec_scan_init(), args) == Result::<ScanState, SpecScanError>::Err(se)
        }
}

impl ParsedArgs {
    /// `Ok` exactly on the accepted `--color` values.
    pub fn validate_color(color: &str) -> (r: Result<(), ParsedArgsError>)
        ensures
            r is Ok <==> spec_valid_color(color@),
            r matches Err(e) ==> e matches ParsedArgsError::InvalidColor { color: c } && c@
                == color@,
    {
        if str_eq(color, "auto") || str_eq(color, "always") || str_eq(color, "never") {
            Ok(())
        } else {
            Err(ParsedArgsError::InvalidColor { color: color.to_owned() })
        }
    }

    /// Append a `--color=<value>` argument for the build driver.
    pub fn add_color_arg(&mut self, value: &str)
        ensures
            string_views(final(self).cargo_args@) == string_views(old(self).cargo_args@).push(
                "--color="@ + value@,
            ),
            final(self).limit_messages == old(self).limit_messages,
            final(self).ascending_messages_order == old(self).ascending_messages_order,
            final(self).show_warnings_if_errors_exist == old(self).show_warnings_if_errors_exist,
            final(self).help == old(self).help,
    {
        let mut arg = String::from_str("--color=");
        arg.append(value);
        proof {
            lemma_pa_views_push(self.cargo_args@, arg);
        }
        self.cargo_args.push(arg);
    }

    /// Scan the command line once and rebuild the build driver's
    /// argument vector.
    #[verifier::rlimit(100)]
    pub fn parse(args: Vec<String>, cargo_command: &str, stdout_is_terminal: bool) -> (r: Result<
        ParsedArgs,
        ParsedArgsError,
    >)
        ensures
            (match r {
                Result::Ok(p) => spec_parsed_args_result(
                    string_views(args@),
                    cargo_command@,
                    stdout_is_terminal,
                    p,
                ),
                Result::Err(e) => spec_parsed_args_failed(string_views(args@), e),
            }),
    {
        let ghost views = string_views(args@);
        let mut result = ParsedArgs {
            cargo_args: Vec::new(),
            limit_messages: 0,
            ascending_messages_order: false,
            show_warnings_if_errors_exist: false,
            help: false,
        };
        let mut color = String::from_str("auto");
        let mut program_args_started = false;
        result.cargo_args.push(cargo_command.to_owned());
        proof {
            reveal_strlit("auto");
            assert(string_views(result.cargo_args@) =~= seq![cargo_command@]);
            assert(string_views(result.cargo_args@).skip(1) =~= Seq::<Seq<char>>::empty());
        }
        let n = args.len();
        let mut i: usize = 0;
        let ghost init = spec_scan_init();
        proof {
            assert(views.skip(0) =~= views);
        }
        while i < n && !program_args_started
            invariant
                i <= n,
                n == args@.len(),
                views == string_views(args@),
                string_views(result.cargo_args@).len() >= 1,
                string_views(result.cargo_args@)[0] == cargo_command@,
                !program_args_started ==> spec_scan(spec_scan_init(), views) == spec_scan(
                    pa_scan_state(result, color@, false, Seq::empty()),
                    views.skip(i as int),
                ),
                program_args_started ==> spec_scan(spec_scan_init(), views) == Result::<
                    ScanState,
                    SpecScanError,
                >::Ok(pa_scan_state(result, color@, true, views.skip(i as int))),
            decreases n - i + (if program_args_started {
                0int
            } else {
                1int
            }),
        {
            let ghost st_cur = pa_scan_state(result, color@, false, Seq::empty());
            let arg = &args[i];
            proof {
                assert(views.skip(i as int).first() == arg@);
                assert(views.skip(i as int).drop_first() =~= views.skip(i as int + 1));
            }
            if str_eq(arg.as_str(), "-h") || str_eq(arg.as_str(), "--help") {
                result.help = true;
                proof {
                    lemma_pa_views_push(result.cargo_args@, args@[i as int]);
                    assert(string_views(result.cargo_args@).push(args@[i as int]@).skip(1)
                        =~= string_views(result.cargo_args@).skip(1).push(args@[i as int]@));
                }
                result.cargo_args.push(arg.clone());
            } else if str_eq(arg.as_str(), "--color") {
                if i + 1 >= n {
                    proof {
                        assert(views.skip(i as int).drop_first().len() == 0);
                        assert(spec_scan_error_matches(
                            ParsedArgsError::MissingColorValue,
                            SpecScanError::MissingColorValue,
                        ));
                    }
                    return Err(ParsedArgsError::MissingColorValue);
                }
                let value = &args[i + 1];
                proof {
                    assert(views.skip(i as int).drop_first().first() == value@);
                    assert(views.skip(i as int + 1).drop_first() =~= views.skip(i as int + 2));
                }
                match Self::validate_color(value.as_str()) {
                    Ok(()) => (),
                    Err(e) => {
                        proof {
                            assert(spec_scan_error_matches(
                                e,
                                SpecScanError::InvalidColor { color: value@ },
                            ));
                        }
                        return Err(e);
                    },
                }
                color = value.clone();
                i += 1;
            } else if str_starts_with(arg.as_str(), "--color=") {
                proof {
                    reveal_strlit("--color=");
                    assert("--color="@.len() == 8);
                }
                let value = str_skip(arg.as_str(), 8);
                match Self::validate_color(value) {
                    Ok(()) => (),
                    Err(e) => {
                        proof {
                            assert(spec_scan_error_matches(
                                e,
                                SpecScanError::InvalidColor { color: value@ },
                            ));
                        }
                        return Err(e);
                    },
                }
                color = value.to_owned();
            } else if str_eq(arg.as_str(), "--limit") {
                if i + 1 >= n {
                    proof {
                        assert(views.skip(i as int).drop_first().len() == 0);
                        assert(spec_scan_error_matches(
                            ParsedArgsError::MissingLimitValue,
                            SpecScanError::MissingLimitValue,
                        ));
                    }
                    return Err(ParsedArgsError::MissingLimitValue);
                }
                let value = &args[i + 1];
                proof {
                    assert(views.skip(i as int).drop_first().first() == value@);
                    assert(views.skip(i as int + 1).drop_first() =~= views.skip(i as int + 2));
                }
                match parse_usize(value.as_str()) {
                    Some(limit) => {
                        result.limit_messages = limit;
                    },
                    None => {
                        let e = ParsedArgsError::InvalidLimit { value: value.clone() };
                        proof {
                            assert(spec_scan_error_matches(
                                e,
                                SpecScanError::InvalidLimit { value: value@ },
                            ));
                        }
                        return Err(e);
                    },
                }
                i += 1;
            } else if str_starts_with(arg.as_str(), "--limit=") {
                proof {
                    reveal_strlit("--limit=");
                    assert("--limit="@.len() == 8);
                }
                let value = str_skip(arg.as_str(), 8);
                match parse_usize(value) {
                    Some(limit) => {
                        result.limit_messages = limit;
                    },
                    None => {
                        let e = ParsedArgsError::InvalidLimit { value: value.to_owned() };
                        proof {
                            assert(spec_scan_error_matches(
                                e,
                                SpecScanError::InvalidLimit { value: value@ },
                            ));
                        }
                        return Err(e);
                    },
                }
            } else if str_eq(arg.as_str(), "--asc") {
                result.ascending_messages_order = true;
            } else if str_eq(arg.as_str(), "--always-show-warnings") {
                result.show_warnings_if_errors_exist = true;
            } else if str_eq(arg.as_str(), "--") {
                program_args_started = true;
            } else {
                // every other argument is dropped
            }
            i += 1;
        }
        let ghost st = pa_scan_state(
            result,
            color@,
            program_args_started,
            if program_args_started {
                views.skip(i as int)
            } else {
                Seq::empty()
            },
        );
        proof {
            if !program_args_started {
                assert(views.skip(n as int) =~= Seq::<Seq<char>>::empty());
            }
            assert(spec_scan(init, views) == Result::<ScanState, SpecScanError>::Ok(st));
        }
        let ghost kept = st.kept;
        proof {
            assert(string_views(result.cargo_args@) =~= seq![cargo_command@] + kept);
        }
        result.add_color_arg(color.as_str());
        let format = if str_eq(color.as_str(), "never") {
            "--message-format=json"
        } else {
            "--message-format=json-diagnostic-rendered-ansi"
        };
        let format_owned = format.to_owned();
        proof {
            reveal_strlit("never");
            lemma_pa_views_push(result.cargo_args@, format_owned);
        }
        result.cargo_args.push(format_owned);
        let delimiter = String::from_str("--");
        proof {
            lemma_pa_views_push(result.cargo_args@, delimiter);
        }
        result.cargo_args.push(delimiter);
        let mut program_color_is_set = false;
        let ghost base = string_views(result.cargo_args@);
        proof {
            assert(base == seq![cargo_command@] + kept + seq!["--color="@ + st.color] + seq![
                spec_plain_format(st.color)] + seq!["--"@]) by {
                assert(base =~= seq![cargo_command@] + kept + seq!["--color="@ + st.color]
                    + seq![spec_plain_format(st.color)] + seq!["--"@]);
            }
        }
        if program_args_started {
            let ghost rest_start = i as int;
            let mut j: usize = i;
            proof {
                assert(views.subrange(rest_start, rest_start) =~= Seq::<Seq<char>>::empty());
                assert(base + views.subrange(rest_start, rest_start) =~= base);
            }
            while j < n
                invariant
                    0 <= rest_start,
                    rest_start <= j <= n,
                    n == args@.len(),
                    views == string_views(args@),
                    spec_scan(spec_scan_init(), views) == Result::<
                        ScanState,
                        SpecScanError,
                    >::Ok(st),
                    st.program_args_started,
                    st.rest == views.skip(rest_start),
                    base == seq![cargo_command@] + kept + seq!["--color="@ + st.color] + seq![
                        spec_plain_format(st.color)] + seq!["--"@],
                    kept == st.kept,
                    result.limit_messages as int == st.limit_messages,
                    result.ascending_messages_order == st.ascending_messages_order,
                    result.show_warnings_if_errors_exist == st.show_warnings_if_errors_exist,
                    result.help == st.help,
                    string_views(result.cargo_args@) == base + views.subrange(
                        rest_start,
                        j as int,
                    ),
                    program_color_is_set == spec_any_color_arg(
                        views.subrange(rest_start, j as int),
                    ),
                decreases n - j,
            {
                let arg = &args[j];
                let ghost pre = views.subrange(rest_start, j as int);
                proof {
                    assert(views.subrange(rest_start, j as int + 1) =~= pre.push(
                        args@[j as int]@,
                    ));
                    lemma_pa_views_push(result.cargo_args@, args@[j as int]);
                    crate::options::lemma_any_color_push(pre, args@[j as int]@);
                    assert((base + pre).push(args@[j as int]@) =~= base + pre.push(
                        args@[j as int]@,
                    ));
                }
                if str_eq(arg.as_str(), "--color") || str_starts_with(arg.as_str(), "--color=") {
                    program_color_is_set = true;
                }
                result.cargo_args.push(arg.clone());
                j += 1;
            }
            proof {
                assert(views.subrange(rest_start, n as int) =~= views.skip(rest_start));
            }
        }
        let is_test = str_eq(cargo_command, "test");
        proof {
            reveal_strlit("test");
        }
        if is_test && !program_color_is_set && stdout_is_terminal {
            result.add_color_arg("always");
            proof {
                reveal_strlit("--color=");
                reveal_strlit("always");
                assert("--color="@ + "always"@ =~= "--color=always"@) by {
                    reveal_strlit("--color=always");
                }
            }
        }
        proof {
            assert(spec_parsed_args_ok(
                views,
                cargo_command@,
                stdout_is_terminal,
                st,
                result,
            )) by {
                assert(string_views(result.cargo_args@) =~= seq![cargo_command@] + kept + seq![
                    "--color="@ + st.color] + seq![spec_plain_format(st.color)] + seq!["--"@] + (
                if st.program_args_started {
                    st.rest
                } else {
                    Seq::<Seq<char>>::empty()
                }) + (if cargo_command@ == "test"@ && !(st.program_args_started
                    && spec_any_color_arg(st.rest)) && stdout_is_terminal {
                    seq!["--color=always"@]
                } else {
                    Seq::<Seq<char>>::empty()
                }));
            }
        }
        Ok(result)
    }
}

/// The scan state these locals stand for: the kept arguments are
/// whatever sits after the command in the vector under construction.
pub open spec fn pa_scan_state(
    p: ParsedArgs,
    color: Seq<char>,
    started: bool,
    rest: Seq<Seq<char>>,
) -> ScanState {
    ScanState {
        kept: string_views(p.cargo_args@).skip(1),
        limit_messages: p.limit_messages as int,
        ascending_messages_order: p.ascending_messages_order,
        show_warnings_if_errors_exist: p.show_warnings_if_errors_exist,
        help: p.help,
        color,
        program_args_started: started,
        rest,
    }
}

/// Pushing a string appends its view to the view sequence.
proof fn lemma_pa_views_push(v: Seq<String>, s: String)
    ensures
        string_views(v.push(s)) == string_views(v).push(s@),
{
    assert(string_views(v.push(s)) =~= string_views(v).push(s@));
}

} // verus!
