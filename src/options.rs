//! Configuration of one run, and the handling of the arguments passed through to the build tool.
use vstd::prelude::*;

verus! {

pub const PROGRAM_ARGS_DELIMITER: &'static str = "--";
pub const COLOR_ARG: &'static str = "--color";
pub const COLOR: &'static str = "--color=";
pub const MESSAGE_FORMAT_ARG: &'static str = "--message-format";
pub const MESSAGE_FORMAT: &'static str = "--message-format=";
pub const MESSAGE_FORMAT_JSON: &'static str = "--message-format=json";
pub const MESSAGE_FORMAT_JSON_WITH_COLORS: &'static str = "--message-format=json-diagnostic-rendered-ansi";
pub const MESSAGE_FORMAT_JSON_SHORT: &'static str = "--message-format=json-diagnostic-short";
pub const JSON_FORMAT: &'static str = "json";
pub const JSON_FORMAT_WITH_COLORS: &'static str = "json-diagnostic-rendered-ansi";
pub const JSON_FORMAT_SHORT: &'static str = "json-diagnostic-short";
pub const SHORT_FORMAT: &'static str = "short";
pub const HUMAN_FORMAT: &'static str = "human";
pub const COLOR_AUTO: &'static str = "auto";
pub const COLOR_ALWAYS: &'static str = "always";
pub const COLOR_NEVER: &'static str = "never";

/// Settings for one run, built once at start and read by every stage.
/// `time_limit_after_error` is in seconds; 0 disables the kill timer.
/// `limit_messages` of 0 means no limit.
pub struct Options {
    pub cargo_args: Vec<String>,
    pub limit_messages: usize,
    pub time_limit_after_error: u64,
    pub ascending_messages_order: bool,
    pub show_warnings_if_errors_exist: bool,
    pub show_dependencies_warnings: bool,
    pub open_in_external_application: String,
    pub open_in_external_application_on_warnings: bool,
    pub help: bool,
    pub version: bool,
    pub json_message_format: bool,
    pub short_message_format: bool,
}

/// A rejected argument.
#[derive(Debug)]
pub enum ArgsError {
    MissingColorValue,
    InvalidColor(String),
    MissingMessageFormatValue,
    InvalidMessageFormat(String),
}

pub enum ArgsErrorView {
    MissingColorValue,
    InvalidColor(Seq<char>),
    MissingMessageFormatValue,
    InvalidMessageFormat(Seq<char>),
}

impl View for ArgsError {
    type V = ArgsErrorView;

    open spec fn view(&self) -> ArgsErrorView {
        match self {
            ArgsError::MissingColorValue => ArgsErrorView::MissingColorValue,
            ArgsError::InvalidColor(c) => ArgsErrorView::InvalidColor(c@),
            ArgsError::MissingMessageFormatValue => ArgsErrorView::MissingMessageFormatValue,
            ArgsError::InvalidMessageFormat(f) => ArgsErrorView::InvalidMessageFormat(f@),
        }
    }
}

pub open spec fn valid_color(c: Seq<char>) -> bool {
    c == COLOR_AUTO@ || c == COLOR_ALWAYS@ || c == COLOR_NEVER@
}

pub open spec fn valid_message_format(f: Seq<char>) -> bool {
    f == HUMAN_FORMAT@ || f == SHORT_FORMAT@ || f == JSON_FORMAT@ || f == JSON_FORMAT_SHORT@
        || f == JSON_FORMAT_WITH_COLORS@
}

pub open spec fn has_prefix(s: Seq<char>, p: Seq<char>) -> bool {
    p.len() <= s.len() && s.subrange(0, p.len() as int) == p
}

pub open spec fn strings_view(v: Seq<String>) -> Seq<Seq<char>> {
    v.map_values(|s: String| s@)
}

/// What the leading arguments set: arguments for the build tool, the color
/// choice, and the flags.
pub struct MainArgs {
    pub cargo_args: Seq<Seq<char>>,
    pub color: Seq<char>,
    pub help: bool,
    pub version: bool,
    pub json: bool,
    pub short: bool,
}

/// Records a message format: JSON formats are passed through (`passed` being
/// the arguments that named it), the short format is remembered.
pub open spec fn with_format(st: MainArgs, passed: Seq<Seq<char>>, format: Seq<char>) -> MainArgs {
    if has_prefix(format, JSON_FORMAT@) {
        MainArgs { json: true, cargo_args: st.cargo_args + passed, ..st }
    } else if format == SHORT_FORMAT@ {
        MainArgs { short: true, ..st }
    } else {
        st
    }
}

/// The leading arguments from position `i` on, up to the program-argument
/// delimiter: the state reached and the position after the delimiter, if any.
pub open spec fn main_args(st: MainArgs, args: Seq<Seq<char>>, i: int) -> Result<(MainArgs, Option<int>), ArgsErrorView>
    decreases args.len() - i,
{
    if i < 0 || i >= args.len() {
        Ok((st, None))
    } else {
        let a = args[i];
        if a == "-h"@ || a == "--help"@ {
            main_args(MainArgs { help: true, cargo_args: st.cargo_args.push(a), ..st }, args, i + 1)
        } else if a == "-v"@ || a == "--version"@ {
            main_args(MainArgs { version: true, cargo_args: st.cargo_args.push(a), ..st }, args, i + 1)
        } else if a == COLOR_ARG@ {
            if i + 1 >= args.len() {
                Err(ArgsErrorView::MissingColorValue)
            } else if !valid_color(args[i + 1]) {
                Err(ArgsErrorView::InvalidColor(args[i + 1]))
            } else {
                main_args(MainArgs { color: args[i + 1], ..st }, args, i + 2)
            }
        } else if has_prefix(a, COLOR@) {
            let c = a.subrange(COLOR@.len() as int, a.len() as int);
            if !valid_color(c) {
                Err(ArgsErrorView::InvalidColor(c))
            } else {
                main_args(MainArgs { color: c, ..st }, args, i + 1)
            }
        } else if a == MESSAGE_FORMAT_ARG@ {
            if i + 1 >= args.len() {
                Err(ArgsErrorView::MissingMessageFormatValue)
            } else if !valid_message_format(args[i + 1]) {
                Err(ArgsErrorView::InvalidMessageFormat(args[i + 1]))
            } else {
                main_args(with_format(st, seq![a, args[i + 1]], args[i + 1]), args, i + 2)
            }
        } else if has_prefix(a, MESSAGE_FORMAT@) {
            let f = a.subrange(MESSAGE_FORMAT@.len() as int, a.len() as int);
            if !valid_message_format(f) {
                Err(ArgsErrorView::InvalidMessageFormat(f))
            } else {
                main_args(with_format(st, seq![a], f), args, i + 1)
            }
        } else if a == PROGRAM_ARGS_DELIMITER@ {
            Ok((st, Some(i + 1)))
        } else {
            main_args(MainArgs { cargo_args: st.cargo_args.push(a), ..st }, args, i + 1)
        }
    }
}

/// The message-format argument the build tool is run with.
pub open spec fn format_args(color: Seq<char>, short: bool, json: bool, terminal_supports_colors: bool) -> Seq<Seq<char>> {
    if short {
        seq![MESSAGE_FORMAT_JSON_SHORT@]
    } else if json {
        Seq::empty()
    } else if color == COLOR_ALWAYS@ || (color == COLOR_AUTO@ && terminal_supports_colors) {
        seq![MESSAGE_FORMAT_JSON_WITH_COLORS@]
    } else {
        seq![MESSAGE_FORMAT_JSON@]
    }
}

/// Whether `a` sets the color choice.
pub open spec fn is_color_arg(a: Seq<char>) -> bool {
    a == COLOR_ARG@ || has_prefix(a, COLOR@)
}

/// The program's own arguments: those after the delimiter, when there is one.
pub open spec fn program_args(args: Seq<Seq<char>>, start: int, started: bool) -> Seq<Seq<char>> {
    if started {
        args.subrange(start, args.len() as int)
    } else {
        Seq::empty()
    }
}

/// Whether the command is one whose program may be told to use colors.
pub open spec fn command_supports_color_arg(cargo_command: Seq<char>) -> bool {
    cargo_command == "test"@ || cargo_command == "bench"@
}

/// The process's arguments after the executable and the subcommand name.
pub open spec fn passed_args(args: Seq<Seq<char>>) -> Seq<Seq<char>> {
    if args.len() >= 2 {
        args.subrange(2, args.len() as int)
    } else {
        Seq::empty()
    }
}

proof fn lemma_main_args_result(st: MainArgs, args: Seq<Seq<char>>, i: int)
    requires
        0 <= i,
    ensures
        main_args(st, args, i) matches Ok((s2, start)) ==> (valid_color(st.color) ==> valid_color(s2.color)) && (
        start matches Some(k) ==> 0 <= k <= args.len()),
    decreases args.len() - i,
{
    if i < args.len() {
        let a = args[i];
        if a == "-h"@ || a == "--help"@ {
            lemma_main_args_result(MainArgs { help: true, cargo_args: st.cargo_args.push(a), ..st }, args, i + 1);
        } else if a == "-v"@ || a == "--version"@ {
            lemma_main_args_result(MainArgs { version: true, cargo_args: st.cargo_args.push(a), ..st }, args, i + 1);
        } else if a == COLOR_ARG@ {
            if i + 1 < args.len() {
                lemma_main_args_result(MainArgs { color: args[i + 1], ..st }, args, i + 2);
            }
        } else if has_prefix(a, COLOR@) {
            let c = a.subrange(COLOR@.len() as int, a.len() as int);
            lemma_main_args_result(MainArgs { color: c, ..st }, args, i + 1);
        } else if a == MESSAGE_FORMAT_ARG@ {
            if i + 1 < args.len() {
                lemma_main_args_result(with_format(st, seq![a, args[i + 1]], args[i + 1]), args, i + 2);
            }
        } else if has_prefix(a, MESSAGE_FORMAT@) {
            let f = a.subrange(MESSAGE_FORMAT@.len() as int, a.len() as int);
            lemma_main_args_result(with_format(st, seq![a], f), args, i + 1);
        } else if a == PROGRAM_ARGS_DELIMITER@ {
        } else {
            lemma_main_args_result(MainArgs { cargo_args: st.cargo_args.push(a), ..st }, args, i + 1);
        }
    }
}

/// What the arguments set, the program's arguments included, once the
/// leading ones gave `st` and the program's arguments begin at `start`.
pub open spec fn with_program_args(
    st: MainArgs,
    passed: Seq<Seq<char>>,
    start: Option<int>,
    terminal_supports_colors: bool,
) -> MainArgs {
    MainArgs {
        cargo_args: st.cargo_args + format_args(st.color, st.short, st.json, terminal_supports_colors) + seq![
            PROGRAM_ARGS_DELIMITER@,
        ] + match start {
            Some(s) => program_args(passed, s, true),
            None => Seq::empty(),
        },
        ..st
    }
}

/// Whether the program's arguments set the color choice.
pub open spec fn program_sets_color(passed: Seq<Seq<char>>, start: Option<int>) -> bool {
    match start {
        Some(s) => exists|k: int| s <= k < passed.len() && is_color_arg(#[trigger] passed[k]),
        None => false,
    }
}

/// Whether `a` and `b` hold the same characters.
pub fn text_equals(a: &str, b: &str) -> (r: bool)
    ensures
        r == (a@ == b@),
{
    let n = a.unicode_len();
    if n != b.unicode_len() {
        return false;
    }
    let mut i: usize = 0;
    while i < n
        invariant
            i <= n,
            n == a@.len() == b@.len(),
            forall|k: int| 0 <= k < i ==> a@[k] == b@[k],
        decreases n - i,
    {
        if a.get_char(i) != b.get_char(i) {
            return false;
        }
        i += 1;
    }
    assert(a@ =~= b@);
    true
}

/// Whether `s` begins with `p`.
pub fn text_starts_with(s: &str, p: &str) -> (r: bool)
    ensures
        r == has_prefix(s@, p@),
{
    let n = s.unicode_len();
    let m = p.unicode_len();
    if m > n {
        return false;
    }
    let mut i: usize = 0;
    while i < m
        invariant
            i <= m <= n,
            n == s@.len(),
            m == p@.len(),
            forall|k: int| 0 <= k < i ==> s@[k] == p@[k],
        decreases m - i,
    {
        if s.get_char(i) != p.get_char(i) {
            assert(s@.subrange(0, m as int)[i as int] != p@[i as int]);
            return false;
        }
        i += 1;
    }
    assert(s@.subrange(0, m as int) =~= p@);
    true
}

impl Options {
    /// The argument state held by `self` with color choice `color`.
    pub open spec fn args_state(&self, color: Seq<char>) -> MainArgs {
        MainArgs {
            cargo_args: strings_view(self.cargo_args@),
            color,
            help: self.help,
            version: self.version,
            json: self.json_message_format,
            short: self.short_message_format,
        }
    }

    /// The settings that argument handling leaves alone are equal.
    pub open spec fn same_settings(&self, other: &Options) -> bool {
        &&& self.limit_messages == other.limit_messages
        &&& self.time_limit_after_error == other.time_limit_after_error
        &&& self.ascending_messages_order == other.ascending_messages_order
        &&& self.show_warnings_if_errors_exist == other.show_warnings_if_errors_exist
        &&& self.show_dependencies_warnings == other.show_dependencies_warnings
        &&& self.open_in_external_application@ == other.open_in_external_application@
        &&& self.open_in_external_application_on_warnings == other.open_in_external_application_on_warnings
    }

    /// Whether the build tool's output is read as diagnostics: not when it only
    /// prints its help or version.
    pub fn parses_messages(&self) -> (r: bool)
        ensures
            r == !(self.help || self.version),
    {
        !(self.help || self.version)
    }

    /// Handles the leading arguments, up to the program-argument delimiter:
    /// help and version flags, the color choice, the message format, and the
    /// arguments passed on unchanged. Returns the position where the program's
    /// own arguments begin (the length when there is no delimiter).
    pub fn process_main_args(&mut self, color: &mut String, passed_args: &Vec<String>, program_args_started: &mut bool) -> (r: Result<usize, ArgsError>)
        ensures
            final(self).same_settings(old(self)),
            match main_args(old(self).args_state(old(color)@), strings_view(passed_args@), 0) {
                Ok((st, start)) => {
                    &&& r matches Ok(k) && match start {
                        Some(s) => k == s,
                        None => k == passed_args.len(),
                    }
                    &&& final(self).args_state(final(color)@) == st
                    &&& *final(program_args_started) == (start is Some)
                },
                Err(e) => r matches Err(x) && x@ == e,
            },
    {
        *program_args_started = false;
        let ghost args = strings_view(passed_args@);
        let ghost start_state = old(self).args_state(old(color)@);
        let n = passed_args.len();
        let color_len = COLOR.unicode_len();
        let format_len = MESSAGE_FORMAT.unicode_len();
        let mut i: usize = 0;
        while i < n
            invariant
                n == passed_args.len() == args.len(),
                args == strings_view(passed_args@),
                start_state == old(self).args_state(old(color)@),
                color_len == COLOR@.len(),
                format_len == MESSAGE_FORMAT@.len(),
                i <= n + 1,
                self.same_settings(old(self)),
                !*program_args_started,
                main_args(start_state, args, 0) == main_args(self.args_state(color@), args, i as int),
            decreases n + 1 - i,
        {
            let a = passed_args[i].as_str();
            assert(a@ == args[i as int]);
            let ghost before = self.cargo_args@;
            if text_equals(a, "-h") || text_equals(a, "--help") {
                self.help = true;
                self.cargo_args.push(a.to_owned());
                assert(strings_view(self.cargo_args@) =~= strings_view(before).push(a@));
                i += 1;
            } else if text_equals(a, "-v") || text_equals(a, "--version") {
                self.version = true;
                self.cargo_args.push(a.to_owned());
                assert(strings_view(self.cargo_args@) =~= strings_view(before).push(a@));
                i += 1;
            } else if text_equals(a, COLOR_ARG) {
                if i + 1 >= n {
                    return Err(ArgsError::MissingColorValue);
                }
                let value = passed_args[i + 1].as_str();
                assert(value@ == args[i + 1]);
                match Self::validate_color(value) {
                    Err(e) => {
                        return Err(e);
                    },
                    Ok(()) => {},
                }
                *color = value.to_owned();
                i += 2;
            } else if text_starts_with(a, COLOR) {
                let value = a.substring_char(color_len, a.unicode_len());
                match Self::validate_color(value) {
                    Err(e) => {
                        return Err(e);
                    },
                    Ok(()) => {},
                }
                *color = value.to_owned();
                i += 1;
            } else if text_equals(a, MESSAGE_FORMAT_ARG) {
                if i + 1 >= n {
                    return Err(ArgsError::MissingMessageFormatValue);
                }
                let format = passed_args[i + 1].as_str();
                assert(format@ == args[i + 1]);
                match Self::validate_message_format(format) {
                    Err(e) => {
                        return Err(e);
                    },
                    Ok(()) => {},
                }
                if text_starts_with(format, JSON_FORMAT) {
                    self.json_message_format = true;
                    self.cargo_args.push(a.to_owned());
                    self.cargo_args.push(format.to_owned());
                    assert(strings_view(self.cargo_args@) =~= strings_view(before) + seq![a@, format@]);
                } else if text_equals(format, SHORT_FORMAT) {
                    self.short_message_format = true;
                }
                i += 2;
            } else if text_starts_with(a, MESSAGE_FORMAT) {
                let format = a.substring_char(format_len, a.unicode_len());
                match Self::validate_message_format(format) {
                    Err(e) => {
                        return Err(e);
                    },
                    Ok(()) => {},
                }
                if text_starts_with(format, JSON_FORMAT) {
                    self.json_message_format = true;
                    self.cargo_args.push(a.to_owned());
                    assert(strings_view(self.cargo_args@) =~= strings_view(before) + seq![a@]);
                } else if text_equals(format, SHORT_FORMAT) {
                    self.short_message_format = true;
                }
                i += 1;
            } else if text_equals(a, PROGRAM_ARGS_DELIMITER) {
                *program_args_started = true;
                return Ok(i + 1);
            } else {
                self.cargo_args.push(a.to_owned());
                assert(strings_view(self.cargo_args@) =~= strings_view(before).push(a@));
                i += 1;
            }
        }
        Ok(n)
    }

    /// Adds the message-format argument, the delimiter and the program's own
    /// arguments. Returns whether `--color=always` is to be added for the
    /// program, should all its test or benchmark targets use the standard harness.
    pub fn process_color_args(
        &mut self,
        color: &str,
        passed_args: &Vec<String>,
        start: usize,
        program_args_started: bool,
        cargo_command: &str,
        terminal_supports_colors: bool,
    ) -> (r: bool)
        requires
            valid_color(color@),
            start <= passed_args.len(),
        ensures
            final(self).same_settings(old(self)),
            final(self).args_state(color@) == (MainArgs {
                cargo_args: strings_view(old(self).cargo_args@) + format_args(
                    color@,
                    old(self).short_message_format,
                    old(self).json_message_format,
                    terminal_supports_colors,
                ) + seq![PROGRAM_ARGS_DELIMITER@] + program_args(strings_view(passed_args@), start as int, program_args_started),
                ..old(self).args_state(color@)
            }),
            r == (command_supports_color_arg(cargo_command@) && terminal_supports_colors && !(program_args_started
                && exists|k: int| start <= k < passed_args.len() && is_color_arg(#[trigger] passed_args@[k]@))),
    {
        let ghost before = strings_view(self.cargo_args@);
        if self.short_message_format {
            self.cargo_args.push(MESSAGE_FORMAT_JSON_SHORT.to_owned());
        } else if !self.json_message_format {
            if text_equals(color, COLOR_ALWAYS) || (text_equals(color, COLOR_AUTO) && terminal_supports_colors) {
                self.cargo_args.push(MESSAGE_FORMAT_JSON_WITH_COLORS.to_owned());
            } else {
                self.cargo_args.push(MESSAGE_FORMAT_JSON.to_owned());
            }
        }
        let ghost with_format = before + format_args(color@, self.short_message_format, self.json_message_format, terminal_supports_colors);
        assert(strings_view(self.cargo_args@) =~= with_format);
        self.cargo_args.push(PROGRAM_ARGS_DELIMITER.to_owned());
        let ghost with_delimiter = with_format + seq![PROGRAM_ARGS_DELIMITER@];
        assert(strings_view(self.cargo_args@) =~= with_delimiter);
        let mut program_color_is_set = false;
        if program_args_started {
            let mut i: usize = start;
            while i < passed_args.len()
                invariant
                    start <= i <= passed_args.len(),
                    self.same_settings(old(self)),
                    self.short_message_format == old(self).short_message_format,
                    self.json_message_format == old(self).json_message_format,
                    self.help == old(self).help,
                    self.version == old(self).version,
                    strings_view(self.cargo_args@) == with_delimiter + strings_view(passed_args@).subrange(start as int, i as int),
                    program_color_is_set == exists|k: int| start <= k < i && is_color_arg(#[trigger] passed_args@[k]@),
                decreases passed_args.len() - i,
            {
                let a = passed_args[i].as_str();
                if text_equals(a, COLOR_ARG) || text_starts_with(a, COLOR) {
                    program_color_is_set = true;
                }
                let ghost prev = self.cargo_args@;
                self.cargo_args.push(a.to_owned());
                assert(strings_view(self.cargo_args@) =~= strings_view(prev).push(a@));
                assert(strings_view(passed_args@).subrange(start as int, i + 1) =~= strings_view(passed_args@).subrange(
                    start as int,
                    i as int,
                ).push(a@));
                i += 1;
            }
        } else {
            assert(with_delimiter + Seq::<Seq<char>>::empty() =~= with_delimiter);
        }
        let supports = text_equals(cargo_command, "test") || text_equals(cargo_command, "bench");
        supports && terminal_supports_colors && !program_color_is_set
    }

    /// Handles the process's arguments: the executable and the subcommand name
    /// are skipped, `cargo_command` is passed on first, then the leading
    /// arguments, the message format and the program's own arguments. Returns
    /// whether `--color=always` is to be added for the program, should all its
    /// test or benchmark targets use the standard harness.
    pub fn process_args(&mut self, args: &Vec<String>, cargo_command: &str, terminal_supports_colors: bool) -> (r: Result<bool, ArgsError>)
        ensures
            final(self).same_settings(old(self)),
            ({
                let passed = passed_args(strings_view(args@));
                let st0 = MainArgs {
                    cargo_args: strings_view(old(self).cargo_args@).push(cargo_command@),
                    ..old(self).args_state(COLOR_AUTO@)
                };
                match main_args(st0, passed, 0) {
                    Ok((st, start)) => {
                        &&& r matches Ok(b) && b == (command_supports_color_arg(cargo_command@) && terminal_supports_colors
                            && !program_sets_color(passed, start))
                        &&& final(self).args_state(st.color) == with_program_args(st, passed, start, terminal_supports_colors)
                    },
                    Err(e) => r matches Err(x) && x@ == e,
                }
            }),
    {
        let mut passed: Vec<String> = Vec::new();
        let mut i: usize = 2;
        while i < args.len()
            invariant
                2 <= i,
                passed@.len() == i - 2,
                i <= args.len() ==> forall|k: int| 0 <= k < passed@.len() ==> (#[trigger] passed@[k])@ == args@[k + 2]@,
                args.len() < 2 ==> i == 2,
                args.len() >= 2 ==> i <= args.len(),
            decreases args.len() - i,
        {
            passed.push(args[i].clone());
            i += 1;
        }
        assert(strings_view(passed@) =~= passed_args(strings_view(args@)));
        let mut color = String::from_str(COLOR_AUTO);
        let ghost before = self.cargo_args@;
        self.cargo_args.push(cargo_command.to_owned());
        assert(strings_view(self.cargo_args@) =~= strings_view(before).push(cargo_command@));
        let mut started = false;
        let ghost st0 = self.args_state(color@);
        let start = match self.process_main_args(&mut color, &passed, &mut started) {
            Ok(k) => k,
            Err(e) => {
                return Err(e);
            },
        };
        proof {
            lemma_main_args_result(st0, strings_view(passed@), 0);
        }
        let wants_color = self.process_color_args(color.as_str(), &passed, start, started, cargo_command, terminal_supports_colors);
        assert(program_sets_color(strings_view(passed@), if started { Some(start as int) } else { None }) == (started
            && exists|k: int| start <= k < passed.len() && is_color_arg(#[trigger] passed@[k]@))) by {
            if started {
                if exists|k: int| start <= k < passed.len() && is_color_arg(#[trigger] passed@[k]@) {
                    let k = choose|k: int| start <= k < passed.len() && is_color_arg(#[trigger] passed@[k]@);
                    assert(strings_view(passed@)[k] == passed@[k]@);
                }
                if program_sets_color(strings_view(passed@), Some(start as int)) {
                    let k = choose|k: int| start <= k < passed.len() && is_color_arg(#[trigger] strings_view(passed@)[k]);
                    assert(strings_view(passed@)[k] == passed@[k]@);
                }
            }
        }
        Ok(wants_color)
    }

    /// Accepts `auto`, `always` and `never`.
    pub fn validate_color(color: &str) -> (r: Result<(), ArgsError>)
        ensures
            r is Ok <==> valid_color(color@),
            r matches Err(e) ==> e@ == ArgsErrorView::InvalidColor(color@),
    {
        if text_equals(color, COLOR_AUTO) || text_equals(color, COLOR_ALWAYS) || text_equals(color, COLOR_NEVER) {
            Ok(())
        } else {
            Err(ArgsError::InvalidColor(color.to_owned()))
        }
    }

    /// Accepts the message formats the build tool knows.
    pub fn validate_message_format(format: &str) -> (r: Result<(), ArgsError>)
        ensures
            r is Ok <==> valid_message_format(format@),
            r matches Err(e) ==> e@ == ArgsErrorView::InvalidMessageFormat(format@),
    {
        if text_equals(format, HUMAN_FORMAT) || text_equals(format, SHORT_FORMAT) || text_equals(format, JSON_FORMAT)
            || text_equals(format, JSON_FORMAT_SHORT) || text_equals(format, JSON_FORMAT_WITH_COLORS) {
            Ok(())
        } else {
            Err(ArgsError::InvalidMessageFormat(format.to_owned()))
        }
    }

    /// Passes `--color=<value>` on to the build tool.
    pub fn add_color_arg(&mut self, value: &str)
        ensures
            final(self).same_settings(old(self)),
            strings_view(final(self).cargo_args@) == strings_view(old(self).cargo_args@).push(COLOR@ + value@),
            final(self).help == old(self).help,
            final(self).version == old(self).version,
            final(self).json_message_format == old(self).json_message_format,
            final(self).short_message_format == old(self).short_message_format,
    {
        let mut arg = String::from_str(COLOR);
        arg.append(value);
        let ghost before = self.cargo_args@;
        self.cargo_args.push(arg);
        assert(strings_view(self.cargo_args@) =~= strings_view(before).push(COLOR@ + value@));
    }
}

} // verus!
