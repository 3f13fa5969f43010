//! The command line: options, their values, and the configuration they give.
use vstd::prelude::*;
use crate::model::{auto_series, axis_value_kind, kind_of_format, range_view, ActionView, AxisValueKind, AxisRange, CliAction, Config, SeriesSpec, ConfigView, LogScale, PlotStyle, RangeView, SeriesView};
use crate::text::{join, chars_of, has_prefix, is_float_literal, is_float_text, is_prefix, is_text, parse_usize, usize_of_text};

verus! {

/// The usage text, also appended to some error messages.
pub const HELP: &'static str = "\
tgplot - plot text columns in the terminal using gnuplot

Usage:
  tgplot
  tgplot --in FILE --columns X Y
  tgplot --in FILE... --columns X Y
  tgplot --in FILE --columns Y
  tgplot --in A --columns X Y --in B --columns X Y
  tgplot --in A --in B --columns Y
  tgplot --columns X Y < data.txt
  tgplot --columns Y < data.txt

Options:
  --in FILE...      Read one or more input files. Use - for stdin
  --comments MARK... Ignore lines containing these markers (default: #)
  --delimiter TXT   Split input on this delimiter instead of whitespace
  --columns N...    Plot Y against row index, X Y, or X Y1 Y2 ... for multiple series
  --title TEXT      Set the plot title
  --label AXIS TXT... Set axis labels for x or y
  --format AXIS FMT... Set axis format for x or y; accepts x/y pairs and time-like formats enable time data
  --range AXIS MIN MAX... Set axis ranges for x or y
  --logscale AXIS   Use logarithmic axes: x, y, or xy
  --style STYLE     Plot style: lines, points, linespoints (default: lines)
  --key VALUE       Legend on/off: yes/no, y/n, on/off, true/false
  --grid VALUE      Grid on/off: yes/no, y/n, on/off, true/false
  --layout KEY N... Set layout values such as width/height (defaults to the current terminal size)
  --dumb            Use gnuplot dumb terminal instead of block braille
  --set CMD         Pass a raw gnuplot command, e.g. --set 'set samples 400'
  --detail          Show the full README-based guide
  -h, --help        Show this help

Use --detail for examples and the full README-based guide.
";

// ---------------------------------------------------------------------------
// Long options and their abbreviations
// ---------------------------------------------------------------------------

/// The long options, in the order in which abbreviations are resolved.
#[derive(Debug, Clone, Copy, PartialEq, Eq, Structural)]
pub enum LongOption {
    Help,
    Detail,
    In,
    Title,
    Label,
    Format,
    Range,
    Logscale,
    Style,
    Key,
    Grid,
    Delimiter,
    Comments,
    Columns,
    Layout,
    SetCommand,
    Dumb,
}

pub open spec fn option_name(o: LongOption) -> Seq<char> {
    match o {
        LongOption::Help => "--help"@,
        LongOption::Detail => "--detail"@,
        LongOption::In => "--in"@,
        LongOption::Title => "--title"@,
        LongOption::Label => "--label"@,
        LongOption::Format => "--format"@,
        LongOption::Range => "--range"@,
        LongOption::Logscale => "--logscale"@,
        LongOption::Style => "--style"@,
        LongOption::Key => "--key"@,
        LongOption::Grid => "--grid"@,
        LongOption::Delimiter => "--delimiter"@,
        LongOption::Comments => "--comments"@,
        LongOption::Columns => "--columns"@,
        LongOption::Layout => "--layout"@,
        LongOption::SetCommand => "--set"@,
        LongOption::Dumb => "--dumb"@,
    }
}

pub open spec fn long_options() -> Seq<LongOption> {
    seq![
        LongOption::Help,
        LongOption::Detail,
        LongOption::In,
        LongOption::Title,
        LongOption::Label,
        LongOption::Format,
        LongOption::Range,
        LongOption::Logscale,
        LongOption::Style,
        LongOption::Key,
        LongOption::Grid,
        LongOption::Delimiter,
        LongOption::Comments,
        LongOption::Columns,
        LongOption::Layout,
        LongOption::SetCommand,
        LongOption::Dumb,
    ]
}

impl LongOption {
    /// The option as it is written on the command line.
    pub fn name(self) -> (name: &'static str)
        ensures
            name@ == option_name(self),
    {
        match self {
            LongOption::Help => "--help",
            LongOption::Detail => "--detail",
            LongOption::In => "--in",
            LongOption::Title => "--title",
            LongOption::Label => "--label",
            LongOption::Format => "--format",
            LongOption::Range => "--range",
            LongOption::Logscale => "--logscale",
            LongOption::Style => "--style",
            LongOption::Key => "--key",
            LongOption::Grid => "--grid",
            LongOption::Delimiter => "--delimiter",
            LongOption::Comments => "--comments",
            LongOption::Columns => "--columns",
            LongOption::Layout => "--layout",
            LongOption::SetCommand => "--set",
            LongOption::Dumb => "--dumb",
        }
    }
}

fn long_option_table() -> (table: Vec<LongOption>)
    ensures
        table@ == long_options(),
{
    let table = vec![
        LongOption::Help,
        LongOption::Detail,
        LongOption::In,
        LongOption::Title,
        LongOption::Label,
        LongOption::Format,
        LongOption::Range,
        LongOption::Logscale,
        LongOption::Style,
        LongOption::Key,
        LongOption::Grid,
        LongOption::Delimiter,
        LongOption::Comments,
        LongOption::Columns,
        LongOption::Layout,
        LongOption::SetCommand,
        LongOption::Dumb,
    ];
    assert(table@ =~= long_options());
    table
}

/// The options of `opts` whose name starts with `arg`, in order.
pub open spec fn options_starting_with(arg: Seq<char>, opts: Seq<LongOption>) -> Seq<LongOption>
    decreases opts.len(),
{
    if opts.len() == 0 {
        seq![]
    } else {
        let earlier = options_starting_with(arg, opts.drop_last());
        if is_prefix(arg, option_name(opts.last())) {
            earlier.push(opts.last())
        } else {
            earlier
        }
    }
}

/// How a command-line word reads as an option.
pub enum Resolution {
    /// One of the long options, written out or abbreviated.
    Long(LongOption),
    /// Anything else; the word is kept as it is.
    Word,
}

/// A word that starts with `--` names the long option it abbreviates, when
/// exactly one long option starts with it. It is ambiguous when several do.
pub open spec fn resolve_option(arg: Seq<char>) -> Result<Resolution, Seq<char>> {
    if !is_prefix("--"@, arg) {
        Ok(Resolution::Word)
    } else {
        let matches = options_starting_with(arg, long_options());
        if matches.len() == 0 {
            Ok(Resolution::Word)
        } else if matches.len() == 1 {
            Ok(Resolution::Long(matches[0]))
        } else {
            Err("ambiguous option: "@ + arg + " (could be "@ + join(
                matches.map_values(|o: LongOption| option_name(o)),
                ", "@,
            ) + ")\n\n"@ + HELP@)
        }
    }
}

/// The text a word resolves to: the full name of the option it abbreviates,
/// or the word itself.
pub open spec fn resolved_text(arg: Seq<char>) -> Result<Seq<char>, Seq<char>> {
    match resolve_option(arg) {
        Ok(Resolution::Long(o)) => Ok(option_name(o)),
        Ok(Resolution::Word) => Ok(arg),
        Err(e) => Err(e),
    }
}

fn resolve(text: &str, arg: &Vec<char>) -> (r: Result<Option<LongOption>, String>)
    requires
        arg@ == text@,
    ensures
        match resolve_option(arg@) {
            Ok(Resolution::Long(o)) => r == Ok::<Option<LongOption>, String>(Some(o)),
            Ok(Resolution::Word) => r == Ok::<Option<LongOption>, String>(None),
            Err(e) => r matches Err(m) && m@ == e,
        },
{
    let dashes = chars_of("--");
    if !has_prefix(&dashes, arg) {
        return Ok(None);
    }
    let table = long_option_table();
    let mut matches: Vec<LongOption> = Vec::new();
    let mut i: usize = 0;
    while i < table.len()
        invariant
            table@ == long_options(),
            i <= table@.len(),
            matches@ == options_starting_with(arg@, table@.take(i as int)),
        decreases table.len() - i,
    {
        let o = table[i];
        let name = chars_of(o.name());
        assert(table@.take(i + 1).drop_last() =~= table@.take(i as int));
        if has_prefix(arg, &name) {
            matches.push(o);
        }
        i += 1;
    }
    assert(table@.take(table@.len() as int) =~= table@);
    if matches.len() == 0 {
        Ok(None)
    } else if matches.len() == 1 {
        Ok(Some(matches[0]))
    } else {
        let mut msg = String::from_str("ambiguous option: ");
        msg.append(text);
        msg.append(" (could be ");
        let ghost names = matches@.map_values(|o: LongOption| option_name(o));
        let mut k: usize = 0;
        let ghost before = msg@;
        while k < matches.len()
            invariant
                names == matches@.map_values(|o: LongOption| option_name(o)),
                k <= matches@.len(),
                msg@ == before + join(names.take(k as int), ", "@),
            decreases matches.len() - k,
        {
            assert(names.take(k + 1).drop_last() =~= names.take(k as int));
            if k > 0 {
                msg.append(", ");
            } else {
                assert(names.take(0) =~= Seq::<Seq<char>>::empty());
            }
            msg.append(matches[k].name());
            k += 1;
        }
        assert(names.take(matches@.len() as int) =~= names);
        msg.append(")\n\n");
        msg.append(HELP);
        Err(msg)
    }
}

/// The text of a command-line word once abbreviations are resolved.
pub fn resolve_long_option(option: &str) -> (r: Result<String, String>)
    ensures
        text_result(r) == resolved_text(option@),
{
    let chars = chars_of(option);
    match resolve(option, &chars) {
        Ok(Some(o)) => Ok(String::from_str(o.name())),
        Ok(None) => Ok(String::from_str(option)),
        Err(e) => Err(e),
    }
}

/// A result with its texts taken as character sequences.
pub open spec fn text_result(r: Result<String, String>) -> Result<Seq<char>, Seq<char>> {
    match r {
        Ok(t) => Ok(t@),
        Err(e) => Err(e@),
    }
}

/// A result with its error text taken as a character sequence.
pub open spec fn err_text<T>(r: Result<T, String>) -> Result<T, Seq<char>> {
    match r {
        Ok(v) => Ok(v),
        Err(e) => Err(e@),
    }
}

// ---------------------------------------------------------------------------
// Option values
// ---------------------------------------------------------------------------

pub open spec fn style_of(value: Seq<char>) -> Result<PlotStyle, Seq<char>> {
    if value == "lines"@ {
        Ok(PlotStyle::Lines)
    } else if value == "points"@ {
        Ok(PlotStyle::Points)
    } else if value == "linespoints"@ {
        Ok(PlotStyle::LinesPoints)
    } else {
        Err("invalid --style: "@ + value + " (expected lines, points, or linespoints)"@)
    }
}

pub fn parse_style(value: &str) -> (r: Result<PlotStyle, String>)
    ensures
        err_text(r) == style_of(value@),
{
    let v = chars_of(value);
    if is_text(&v, "lines") {
        Ok(PlotStyle::Lines)
    } else if is_text(&v, "points") {
        Ok(PlotStyle::Points)
    } else if is_text(&v, "linespoints") {
        Ok(PlotStyle::LinesPoints)
    } else {
        let mut msg = String::from_str("invalid --style: ");
        msg.append(value);
        msg.append(" (expected lines, points, or linespoints)");
        Err(msg)
    }
}

pub open spec fn logscale_of(value: Seq<char>) -> Result<LogScale, Seq<char>> {
    if value == "x"@ {
        Ok(LogScale::X)
    } else if value == "y"@ {
        Ok(LogScale::Y)
    } else if value == "xy"@ || value == "yx"@ {
        Ok(LogScale::XY)
    } else {
        Err("invalid --logscale: "@ + value + " (expected x, y, or xy)"@)
    }
}

pub fn parse_logscale(value: &str) -> (r: Result<LogScale, String>)
    ensures
        err_text(r) == logscale_of(value@),
{
    let v = chars_of(value);
    if is_text(&v, "x") {
        Ok(LogScale::X)
    } else if is_text(&v, "y") {
        Ok(LogScale::Y)
    } else if is_text(&v, "xy") || is_text(&v, "yx") {
        Ok(LogScale::XY)
    } else {
        let mut msg = String::from_str("invalid --logscale: ");
        msg.append(value);
        msg.append(" (expected x, y, or xy)");
        Err(msg)
    }
}

pub open spec fn toggle_of(value: Seq<char>, flag: Seq<char>) -> Result<bool, Seq<char>> {
    if value == "yes"@ || value == "y"@ || value == "on"@ || value == "true"@ {
        Ok(true)
    } else if value == "no"@ || value == "n"@ || value == "off"@ || value == "false"@ {
        Ok(false)
    } else {
        Err("invalid value for "@ + flag + ": "@ + value
            + " (expected yes/no, y/n, on/off, or true/false)"@)
    }
}

/// Each documented toggle word reads as what it says, whatever the option:
/// `yes`, `y`, `on` and `true` switch on, `no`, `n`, `off` and `false` off.
pub proof fn law_toggle_words(flag: Seq<char>)
    ensures
        toggle_of("yes"@, flag) == Ok::<bool, Seq<char>>(true),
        toggle_of("y"@, flag) == Ok::<bool, Seq<char>>(true),
        toggle_of("on"@, flag) == Ok::<bool, Seq<char>>(true),
        toggle_of("true"@, flag) == Ok::<bool, Seq<char>>(true),
        toggle_of("no"@, flag) == Ok::<bool, Seq<char>>(false),
        toggle_of("n"@, flag) == Ok::<bool, Seq<char>>(false),
        toggle_of("off"@, flag) == Ok::<bool, Seq<char>>(false),
        toggle_of("false"@, flag) == Ok::<bool, Seq<char>>(false),
{
    reveal_strlit("yes");
    reveal_strlit("y");
    reveal_strlit("on");
    reveal_strlit("true");
    reveal_strlit("no");
    reveal_strlit("n");
    reveal_strlit("off");
    reveal_strlit("false");
    // The words differ in their first or second letter.
    assert("no"@[0] != "on"@[0] && "no"@[0] != "yes"@[0] && "no"@[0] != "y"@[0]);
    assert("n"@[0] != "y"@[0] && "off"@[1] != "on"@[1] && "false"@[0] != "true"@[0]);
}

pub fn parse_toggle(value: &str, flag: &str) -> (r: Result<bool, String>)
    ensures
        err_text(r) == toggle_of(value@, flag@),
{
    let v = chars_of(value);
    if is_text(&v, "yes") || is_text(&v, "y") || is_text(&v, "on") || is_text(&v, "true") {
        Ok(true)
    } else if is_text(&v, "no") || is_text(&v, "n") || is_text(&v, "off") || is_text(&v, "false") {
        Ok(false)
    } else {
        let mut msg = String::from_str("invalid value for ");
        msg.append(flag);
        msg.append(": ");
        msg.append(value);
        msg.append(" (expected yes/no, y/n, on/off, or true/false)");
        Err(msg)
    }
}

pub open spec fn positive_usize_of(value: Seq<char>, label: Seq<char>) -> Result<usize, Seq<char>> {
    match usize_of_text(value) {
        None => Err("invalid "@ + label + ": "@ + value),
        Some(n) => if n == 0 {
            Err(label + " must be greater than 0"@)
        } else {
            Ok(n)
        },
    }
}

pub fn parse_positive_usize(value: &str, label: &str) -> (r: Result<usize, String>)
    ensures
        err_text(r) == positive_usize_of(value@, label@),
{
    match parse_usize(value) {
        None => {
            let mut msg = String::from_str("invalid ");
            msg.append(label);
            msg.append(": ");
            msg.append(value);
            Err(msg)
        },
        Some(n) => if n == 0 {
            let mut msg = String::from_str(label);
            msg.append(" must be greater than 0");
            Err(msg)
        } else {
            Ok(n)
        },
    }
}

/// A range bound on a numeric axis is `*` or a number.
pub open spec fn range_bound_check(value: Seq<char>, label: Seq<char>) -> Result<(), Seq<char>> {
    if value == "*"@ || is_float_text(value) {
        Ok(())
    } else {
        Err("invalid value for "@ + label + ": "@ + value)
    }
}

pub fn validate_numeric_range_bound(value: &str, label: &str) -> (r: Result<(), String>)
    ensures
        err_text(r) == range_bound_check(value@, label@),
{
    let v = chars_of(value);
    if is_text(&v, "*") || is_float_literal(value) {
        Ok(())
    } else {
        let mut msg = String::from_str("invalid value for ");
        msg.append(label);
        msg.append(": ");
        msg.append(value);
        Err(msg)
    }
}

/// The bounds that follow an axis name in `--range`: MIN at `start`, MAX
/// right after it.
pub open spec fn axis_range_at(args: Seq<Seq<char>>, start: int, label: Seq<char>) -> Result<(RangeView, nat), Seq<char>> {
    if start >= args.len() {
        Err("missing MIN value for "@ + label)
    } else if start + 1 >= args.len() {
        Err("missing MAX value for "@ + label)
    } else {
        Ok((RangeView { min: args[start], max: args[start + 1] }, 2))
    }
}

pub fn parse_axis_range(args: &Vec<String>, start: usize, label: &str) -> (r: Result<(AxisRange, usize), String>)
    ensures
        match axis_range_at(args.deep_view(), start as int, label@) {
            Ok((range, n)) => r matches Ok((a, m)) && a@ == range && m == n,
            Err(e) => r matches Err(m) && m@ == e,
        },
{
    if start >= args.len() {
        let mut msg = String::from_str("missing MIN value for ");
        msg.append(label);
        return Err(msg);
    }
    if start + 1 >= args.len() {
        let mut msg = String::from_str("missing MAX value for ");
        msg.append(label);
        return Err(msg);
    }
    let min = args[start].clone();
    let max = args[start + 1].clone();
    Ok((AxisRange { min, max }, 2))
}

// ---------------------------------------------------------------------------
// The parse, as a walk over the words of the command line
// ---------------------------------------------------------------------------

/// What has been read so far: the configuration being built, the inputs that
/// wait for a `--columns` clause, and whether `--key` was given.
#[verifier::ext_equal]
pub struct ParseState {
    pub config: ConfigView,
    pub pending: Seq<Seq<char>>,
    pub key_explicit: bool,
}

/// What one option does to the parse: it consumes some words and goes on, it
/// ends the parse with an action, or it fails with a message.
pub enum Step {
    Continue(nat, ParseState),
    Finish(ActionView),
    Fail(Seq<char>),
}

/// A word that ends a run of values: one that starts with `-`, or the
/// `using` keyword.
pub open spec fn ends_run(word: Seq<char>) -> bool {
    (word.len() > 0 && word[0] == '-') || word == "using"@
}

/// A word that ends the run of inputs after `--in`: as `ends_run`, except
/// that a lone `-` is an input, standard input.
pub open spec fn ends_input_run(word: Seq<char>) -> bool {
    (word.len() > 1 && word[0] == '-') || word == "using"@
}

/// The number of inputs at the start of `r`, up to the next option.
pub open spec fn input_run_len(r: Seq<Seq<char>>) -> nat
    decreases r.len(),
{
    if r.len() == 0 || ends_input_run(r[0]) {
        0
    } else {
        1 + input_run_len(r.drop_first())
    }
}

/// The run of values after an option: that of inputs when `inputs` is set.
pub open spec fn run_len_of(r: Seq<Seq<char>>, inputs: bool) -> nat {
    if inputs {
        input_run_len(r)
    } else {
        run_len(r)
    }
}

/// The number of values at the start of `r`, up to the next option.
pub open spec fn run_len(r: Seq<Seq<char>>) -> nat
    decreases r.len(),
{
    if r.len() == 0 || ends_run(r[0]) {
        0
    } else {
        1 + run_len(r.drop_first())
    }
}

pub open spec fn shifted<A, B>(r: Result<(nat, A, B), Seq<char>>, k: nat) -> Result<(nat, A, B), Seq<char>> {
    match r {
        Ok((n, a, b)) => Ok((n + k, a, b)),
        Err(e) => Err(e),
    }
}

/// `AXIS TEXT` pairs, as `--label` and `--format` take them: each sets the
/// text of axis `x` or `y`; they stop at the next option.
pub open spec fn scan_axis_texts(
    r: Seq<Seq<char>>,
    flag: Seq<char>,
    noun: Seq<char>,
    x: Option<Seq<char>>,
    y: Option<Seq<char>>,
) -> Result<(nat, Option<Seq<char>>, Option<Seq<char>>), Seq<char>>
    decreases r.len(),
{
    if r.len() == 0 || ends_run(r[0]) {
        Ok((0, x, y))
    } else if r.len() < 2 {
        Err("missing "@ + noun + " for "@ + flag + " axis: "@ + r[0])
    } else if r[0] == "x"@ {
        shifted(scan_axis_texts(r.skip(2), flag, noun, Some(r[1]), y), 2)
    } else if r[0] == "y"@ {
        shifted(scan_axis_texts(r.skip(2), flag, noun, x, Some(r[1])), 2)
    } else {
        Err("invalid "@ + flag + " axis: "@ + r[0] + " (expected x or y)"@)
    }
}

/// `AXIS MIN MAX` triples, as `--range` takes them.
pub open spec fn scan_ranges(r: Seq<Seq<char>>, x: Option<RangeView>, y: Option<RangeView>) -> Result<
    (nat, Option<RangeView>, Option<RangeView>),
    Seq<char>,
>
    decreases r.len(),
{
    if r.len() == 0 || ends_run(r[0]) {
        Ok((0, x, y))
    } else {
        match axis_range_at(r, 1, "--range"@) {
            Err(e) => Err(e),
            Ok((range, _)) => if r[0] == "x"@ {
                shifted(scan_ranges(r.skip(3), Some(range), y), 3)
            } else if r[0] == "y"@ {
                shifted(scan_ranges(r.skip(3), x, Some(range)), 3)
            } else {
                Err("invalid --range axis: "@ + r[0] + " (expected x or y)"@)
            },
        }
    }
}

/// `KEY N` pairs, as `--layout` takes them.
pub open spec fn scan_layout(r: Seq<Seq<char>>, width: usize, height: usize) -> Result<(nat, usize, usize), Seq<char>>
    decreases r.len(),
{
    if r.len() == 0 || ends_run(r[0]) {
        Ok((0, width, height))
    } else if r.len() < 2 {
        Err("missing value for --layout key: "@ + r[0])
    } else if r[0] == "width"@ {
        match positive_usize_of(r[1], "--layout width"@) {
            Err(e) => Err(e),
            Ok(w) => shifted(scan_layout(r.skip(2), w, height), 2),
        }
    } else if r[0] == "height"@ {
        match positive_usize_of(r[1], "--layout height"@) {
            Err(e) => Err(e),
            Ok(h) => shifted(scan_layout(r.skip(2), width, h), 2),
        }
    } else {
        Err("invalid --layout key: "@ + r[0] + " (expected width or height)"@)
    }
}

/// The Y columns of a `--columns` clause; the first bad one is reported.
pub open spec fn y_columns(v: Seq<Seq<char>>) -> Result<Seq<usize>, Seq<char>>
    decreases v.len(),
{
    if v.len() == 0 {
        Ok(seq![])
    } else {
        match y_columns(v.drop_last()) {
            Err(e) => Err(e),
            Ok(ys) => match positive_usize_of(v.last(), "Y column"@) {
                Err(e) => Err(e),
                Ok(y) => Ok(ys.push(y)),
            },
        }
    }
}

proof fn lemma_y_columns_prefix_error(v: Seq<Seq<char>>, k: int)
    requires
        0 <= k <= v.len(),
        y_columns(v.take(k)) is Err,
    ensures
        y_columns(v) == y_columns(v.take(k)),
    decreases v.len() - k,
{
    if k < v.len() {
        assert(v.take(k + 1).drop_last() =~= v.take(k));
        lemma_y_columns_prefix_error(v, k + 1);
    } else {
        assert(v.take(k) =~= v);
    }
}

/// `Y` alone, or `X Y1 Y2 ...`.
pub open spec fn column_numbers(v: Seq<Seq<char>>) -> Result<(Option<usize>, Seq<usize>), Seq<char>> {
    if v.len() == 1 {
        match positive_usize_of(v[0], "Y column"@) {
            Err(e) => Err(e),
            Ok(y) => Ok((None, seq![y])),
        }
    } else {
        match positive_usize_of(v[0], "X column"@) {
            Err(e) => Err(e),
            Ok(x) => match y_columns(v.drop_first()) {
                Err(e) => Err(e),
                Ok(ys) => Ok((Some(x), ys)),
            },
        }
    }
}

/// The inputs a `--columns` clause applies to: those given since the last
/// clause, or standard input when there are none.
pub open spec fn clause_inputs(pending: Seq<Seq<char>>) -> Seq<Option<Seq<char>>> {
    if pending.len() == 0 {
        seq![None]
    } else {
        pending.map_values(|p: Seq<char>| Some(p))
    }
}

/// One series per input and Y column, input by input.
pub open spec fn series_for(inputs: Seq<Option<Seq<char>>>, x: Option<usize>, ys: Seq<usize>) -> Seq<SeriesView>
    decreases inputs.len(),
{
    if inputs.len() == 0 {
        seq![]
    } else {
        series_for(inputs.drop_last(), x, ys) + ys.map_values(
            |y: usize| SeriesView { input: inputs.last(), x_column: x, y_column: y },
        )
    }
}

pub open spec fn missing_value(flag: Seq<char>) -> Seq<char> {
    "missing value for "@ + flag
}

pub open spec fn with_config(st: ParseState, config: ConfigView) -> ParseState {
    ParseState { config, ..st }
}

pub open spec fn columns_step(vals: Seq<Seq<char>>, st: ParseState) -> Step {
    let n = run_len(vals);
    if n == 0 {
        Step::Fail("missing column after --columns\n\n"@ + HELP@)
    } else {
        match column_numbers(vals.take(n as int)) {
            Err(e) => Step::Fail(e),
            Ok((x, ys)) => Step::Continue(
                n + 1,
                ParseState {
                    config: ConfigView {
                        series: st.config.series + series_for(clause_inputs(st.pending), x, ys),
                        ..st.config
                    },
                    pending: seq![],
                    ..st
                },
            ),
        }
    }
}

/// What option `o` does, given the words that follow it.
pub open spec fn option_step(o: LongOption, vals: Seq<Seq<char>>, st: ParseState) -> Step {
    let c = st.config;
    match o {
        LongOption::Help => Step::Finish(ActionView::Help),
        LongOption::Detail => Step::Finish(ActionView::Detail),
        LongOption::In => {
            let n = input_run_len(vals);
            if n == 0 {
                Step::Fail("missing value for --in"@)
            } else {
                Step::Continue(n + 1, ParseState { pending: st.pending + vals.take(n as int), ..st })
            }
        },
        LongOption::Title => if vals.len() == 0 {
            Step::Fail(missing_value("--title"@))
        } else {
            Step::Continue(2, with_config(st, ConfigView { title: Some(vals[0]), ..c }))
        },
        LongOption::Label => match scan_axis_texts(vals, "--label"@, "label text"@, c.xlabel, c.ylabel) {
            Err(e) => Step::Fail(e),
            Ok((n, x, y)) => if n == 0 {
                Step::Fail("missing axis for --label"@)
            } else {
                Step::Continue(n + 1, with_config(st, ConfigView { xlabel: x, ylabel: y, ..c }))
            },
        },
        LongOption::Format => match scan_axis_texts(vals, "--format"@, "format string"@, c.xformat, c.yformat) {
            Err(e) => Step::Fail(e),
            Ok((n, x, y)) => if n == 0 {
                Step::Fail("missing axis for --format"@)
            } else {
                Step::Continue(n + 1, with_config(st, ConfigView { xformat: x, yformat: y, ..c }))
            },
        },
        LongOption::Range => match scan_ranges(vals, c.xrange, c.yrange) {
            Err(e) => Step::Fail(e),
            Ok((n, x, y)) => if n == 0 {
                Step::Fail("missing axis for --range"@)
            } else {
                Step::Continue(n + 1, with_config(st, ConfigView { xrange: x, yrange: y, ..c }))
            },
        },
        LongOption::Logscale => if vals.len() == 0 {
            Step::Fail(missing_value("--logscale"@))
        } else {
            match logscale_of(vals[0]) {
                Err(e) => Step::Fail(e),
                Ok(l) => Step::Continue(2, with_config(st, ConfigView { logscale: l, ..c })),
            }
        },
        LongOption::Style => if vals.len() == 0 {
            Step::Fail(missing_value("--style"@))
        } else {
            match style_of(vals[0]) {
                Err(e) => Step::Fail(e),
                Ok(v) => Step::Continue(2, with_config(st, ConfigView { style: v, ..c })),
            }
        },
        LongOption::Key => if vals.len() == 0 {
            Step::Fail(missing_value("--key"@))
        } else {
            match toggle_of(vals[0], "--key"@) {
                Err(e) => Step::Fail(e),
                Ok(b) => Step::Continue(
                    2,
                    ParseState { config: ConfigView { show_key: b, ..c }, key_explicit: true, ..st },
                ),
            }
        },
        LongOption::Grid => if vals.len() == 0 {
            Step::Fail(missing_value("--grid"@))
        } else {
            match toggle_of(vals[0], "--grid"@) {
                Err(e) => Step::Fail(e),
                Ok(b) => Step::Continue(2, with_config(st, ConfigView { show_grid: b, ..c })),
            }
        },
        LongOption::Delimiter => if vals.len() == 0 {
            Step::Fail(missing_value("--delimiter"@))
        } else if vals[0].len() == 0 {
            Step::Fail("empty value for --delimiter"@)
        } else {
            Step::Continue(2, with_config(st, ConfigView { delimiter: Some(vals[0]), ..c }))
        },
        LongOption::Comments => {
            let n = run_len(vals);
            if n == 0 {
                Step::Fail("missing marker for --comments"@)
            } else {
                Step::Continue(n + 1, with_config(st, ConfigView { comment_markers: vals.take(n as int), ..c }))
            }
        },
        LongOption::Columns => columns_step(vals, st),
        LongOption::Layout => match scan_layout(vals, c.width, c.height) {
            Err(e) => Step::Fail(e),
            Ok((n, w, h)) => if n == 0 {
                Step::Fail("missing key for --layout"@)
            } else {
                Step::Continue(n + 1, with_config(st, ConfigView { width: w, height: h, ..c }))
            },
        },
        LongOption::SetCommand => if vals.len() == 0 {
            Step::Fail(missing_value("--set"@))
        } else {
            Step::Continue(2, with_config(st, ConfigView { extra_set_commands: c.extra_set_commands.push(vals[0]), ..c }))
        },
        LongOption::Dumb => Step::Continue(1, with_config(st, ConfigView { dumb: true, ..c })),
    }
}

/// What the first word of `rest` does.
pub open spec fn spec_step(rest: Seq<Seq<char>>, st: ParseState) -> Step
    recommends
        rest.len() > 0,
{
    let arg = rest[0];
    let vals = rest.drop_first();
    match resolve_option(arg) {
        Err(e) => Step::Fail(e),
        Ok(Resolution::Long(o)) => option_step(o, vals, st),
        Ok(Resolution::Word) => if arg == "-h"@ {
            Step::Finish(ActionView::Help)
        } else if arg == "using"@ {
            columns_step(vals, st)
        } else if arg.len() > 0 && arg[0] == '-' {
            Step::Fail("unknown option: "@ + arg + "\n\n"@ + HELP@)
        } else {
            Step::Fail("unexpected argument: "@ + arg + "\n\n"@ + HELP@)
        },
    }
}

/// The series of a finished parse: those of the `--columns` clauses, then
/// one per input not followed by a clause, or one for standard input when
/// there are none at all.
pub open spec fn final_series(st: ParseState) -> Seq<SeriesView> {
    let s = st.config.series + st.pending.map_values(|p: Seq<char>| auto_series(Some(p)));
    if s.len() == 0 {
        seq![auto_series(None)]
    } else {
        s
    }
}

/// The bounds of a range on a numeric axis must be `*` or numbers.
pub open spec fn range_check(range: Option<RangeView>, kind: AxisValueKind, label: Seq<char>) -> Result<(), Seq<char>> {
    match range {
        Some(r) => if kind == AxisValueKind::Number {
            match range_bound_check(r.min, label) {
                Err(e) => Err(e),
                Ok(_) => range_bound_check(r.max, label),
            }
        } else {
            Ok(())
        },
        None => Ok(()),
    }
}

/// The end of the command line: the series are completed, the ranges of
/// numeric axes checked, and the key shown when there are several series,
/// unless `--key` said otherwise.
pub open spec fn finish(st: ParseState) -> Result<ActionView, Seq<char>> {
    let c = st.config;
    match range_check(c.xrange, kind_of_format(c.xformat), "--xrange"@) {
        Err(e) => Err(e),
        Ok(_) => match range_check(c.yrange, kind_of_format(c.yformat), "--yrange"@) {
            Err(e) => Err(e),
            Ok(_) => {
                let series = final_series(st);
                let show_key = if !st.key_explicit && series.len() > 1 { true } else { c.show_key };
                Ok(ActionView::Plot(ConfigView { series, show_key, ..c }))
            },
        },
    }
}

/// The parse of the remaining words `rest` from state `st`.
pub open spec fn scan_args(rest: Seq<Seq<char>>, st: ParseState) -> Result<ActionView, Seq<char>>
    decreases rest.len(),
{
    if rest.len() == 0 {
        finish(st)
    } else {
        match spec_step(rest, st) {
            Step::Continue(n, next) => if 0 < n <= rest.len() {
                scan_args(rest.skip(n as int), next)
            } else {
                Err(seq![])
            },
            Step::Finish(action) => Ok(action),
            Step::Fail(e) => Err(e),
        }
    }
}

/// Nothing read yet: lines with `#` are comments, the grid is on, the key
/// off, and the plot has the given size.
pub open spec fn initial_state(layout: (usize, usize)) -> ParseState {
    ParseState {
        config: ConfigView {
            series: seq![],
            title: None,
            xlabel: None,
            ylabel: None,
            xformat: None,
            yformat: None,
            xrange: None,
            yrange: None,
            logscale: LogScale::Off,
            style: PlotStyle::Lines,
            show_key: false,
            show_grid: true,
            delimiter: None,
            comment_markers: seq!["#"@],
            extra_set_commands: seq![],
            width: layout.0,
            height: layout.1,
            dumb: false,
        },
        pending: seq![],
        key_explicit: false,
    }
}

/// What the command line `args` asks for, when the plot size defaults to
/// `layout`.
pub open spec fn spec_parse_args(args: Seq<Seq<char>>, layout: (usize, usize)) -> Result<ActionView, Seq<char>> {
    scan_args(args, initial_state(layout))
}

// ---------------------------------------------------------------------------
// The parse, carried out
// ---------------------------------------------------------------------------

/// The executable form of `ParseState`.
struct Draft {
    config: Config,
    pending: Vec<String>,
    key_explicit: bool,
}

impl View for Draft {
    type V = ParseState;

    closed spec fn view(&self) -> ParseState {
        ParseState { config: self.config@, pending: self.pending.deep_view(), key_explicit: self.key_explicit }
    }
}

/// The executable form of `Step`.
enum StepOutcome {
    Next(usize),
    Done(CliAction),
    Failed(String),
}

spec fn outcome_agrees(r: StepOutcome, after: ParseState, expected: Step) -> bool {
    match expected {
        Step::Continue(n, next) => r matches StepOutcome::Next(m) && m == n && after =~~= next,
        Step::Finish(a) => r matches StepOutcome::Done(act) && act@ =~~= a,
        Step::Fail(e) => r matches StepOutcome::Failed(msg) && msg@ == e,
    }
}

spec fn consumes_within(r: StepOutcome, i: int, len: int) -> bool {
    r matches StepOutcome::Next(n) ==> 0 < n && i + n <= len
}

/// `words[k]` holds the characters of `args[k]`.
spec fn words_match(args: &Vec<String>, words: &Vec<Vec<char>>) -> bool {
    &&& words@.len() == args@.len()
    &&& forall|k: int| 0 <= k < words@.len() ==> #[trigger] words@[k]@ == args@[k]@
}

fn ends_run_word(w: &Vec<char>) -> (b: bool)
    ensures
        b == ends_run(w@),
{
    (w.len() > 0 && w[0] == '-') || is_text(w, "using")
}

/// Whether `w` ends a run of values, or with `inputs` a run of inputs.
fn ends_run_of(w: &Vec<char>, inputs: bool) -> (b: bool)
    ensures
        b == if inputs { ends_input_run(w@) } else { ends_run(w@) },
{
    if inputs {
        (w.len() > 1 && w[0] == '-') || is_text(w, "using")
    } else {
        ends_run_word(w)
    }
}

/// The number of values from `from` on, up to the next option; with
/// `inputs`, the run of inputs after `--in`.
fn value_run(args: &Vec<String>, words: &Vec<Vec<char>>, from: usize, inputs: bool) -> (n: usize)
    requires
        words_match(args, words),
        from <= args@.len(),
    ensures
        n == run_len_of(args.deep_view().skip(from as int), inputs),
        from + n <= args@.len(),
{
    let ghost argv = args.deep_view();
    let mut k = from;
    while k < words.len() && !ends_run_of(&words[k], inputs)
        invariant
            words_match(args, words),
            argv == args.deep_view(),
            from <= k <= args@.len(),
            run_len_of(argv.skip(from as int), inputs) == (k - from) + run_len_of(argv.skip(k as int), inputs),
        decreases words.len() - k,
    {
        assert(argv.skip(k as int).drop_first() =~= argv.skip(k + 1));
        assert(argv.skip(k as int)[0] == words@[k as int]@);
        k += 1;
    }
    if k < words.len() {
        assert(argv.skip(k as int)[0] == words@[k as int]@);
    }
    k - from
}

fn scan_axis_texts_exec(
    args: &Vec<String>,
    words: &Vec<Vec<char>>,
    from: usize,
    flag: &str,
    noun: &str,
    x: &mut Option<String>,
    y: &mut Option<String>,
) -> (r: Result<usize, String>)
    requires
        words_match(args, words),
        from <= args@.len(),
    ensures
        match scan_axis_texts(args.deep_view().skip(from as int), flag@, noun@, old(x).deep_view(), old(y).deep_view()) {
            Ok((n, xv, yv)) => r matches Ok(m) && m == n && from + m <= args@.len()
                && final(x).deep_view() == xv && final(y).deep_view() == yv,
            Err(e) => r matches Err(msg) && msg@ == e,
        },
{
    let ghost argv = args.deep_view();
    let ghost whole = scan_axis_texts(argv.skip(from as int), flag@, noun@, x.deep_view(), y.deep_view());
    let mut k = from;
    loop
        invariant
            words_match(args, words),
            argv == args.deep_view(),
            from <= k <= args@.len(),
            whole == scan_axis_texts(argv.skip(from as int), flag@, noun@, old(x).deep_view(), old(y).deep_view()),
            whole == shifted(scan_axis_texts(argv.skip(k as int), flag@, noun@, x.deep_view(), y.deep_view()), (k - from) as nat),
        decreases args@.len() - k,
    {
        let ghost rest = argv.skip(k as int);
        if k >= words.len() || ends_run_word(&words[k]) {
            if k < words.len() {
                assert(rest[0] == words@[k as int]@);
            }
            return Ok(k - from);
        }
        assert(rest[0] == words@[k as int]@);
        if k + 1 >= words.len() {
            let mut msg = String::from_str("missing ");
            msg.append(noun);
            msg.append(" for ");
            msg.append(flag);
            msg.append(" axis: ");
            msg.append(args[k].as_str());
            return Err(msg);
        }
        assert(rest[1] == args@[k + 1]@);
        assert(rest.skip(2) =~= argv.skip(k + 2));
        if is_text(&words[k], "x") {
            *x = Some(args[k + 1].clone());
        } else if is_text(&words[k], "y") {
            *y = Some(args[k + 1].clone());
        } else {
            let mut msg = String::from_str("invalid ");
            msg.append(flag);
            msg.append(" axis: ");
            msg.append(args[k].as_str());
            msg.append(" (expected x or y)");
            return Err(msg);
        }
        k += 2;
    }
}

fn scan_ranges_exec(
    args: &Vec<String>,
    words: &Vec<Vec<char>>,
    from: usize,
    x: &mut Option<AxisRange>,
    y: &mut Option<AxisRange>,
) -> (r: Result<usize, String>)
    requires
        words_match(args, words),
        from <= args@.len(),
    ensures
        match scan_ranges(args.deep_view().skip(from as int), range_view(*old(x)), range_view(*old(y))) {
            Ok((n, xv, yv)) => r matches Ok(m) && m == n && from + m <= args@.len()
                && range_view(*final(x)) == xv && range_view(*final(y)) == yv,
            Err(e) => r matches Err(msg) && msg@ == e,
        },
{
    let ghost argv = args.deep_view();
    let ghost whole = scan_ranges(argv.skip(from as int), range_view(*x), range_view(*y));
    let mut k = from;
    loop
        invariant
            words_match(args, words),
            argv == args.deep_view(),
            from <= k <= args@.len(),
            whole == scan_ranges(argv.skip(from as int), range_view(*old(x)), range_view(*old(y))),
            whole == shifted(scan_ranges(argv.skip(k as int), range_view(*x), range_view(*y)), (k - from) as nat),
        decreases args@.len() - k,
    {
        let ghost rest = argv.skip(k as int);
        if k >= words.len() || ends_run_word(&words[k]) {
            if k < words.len() {
                assert(rest[0] == words@[k as int]@);
            }
            return Ok(k - from);
        }
        assert(rest[0] == words@[k as int]@);
        let (range, _) = match parse_axis_range(args, k + 1, "--range") {
            Ok(found) => found,
            Err(e) => {
                assert(axis_range_at(rest, 1, "--range"@) == axis_range_at(argv, k + 1, "--range"@));
                return Err(e);
            },
        };
        assert(axis_range_at(rest, 1, "--range"@) == axis_range_at(argv, k + 1, "--range"@));
        assert(rest.skip(3) =~= argv.skip(k + 3));
        if is_text(&words[k], "x") {
            *x = Some(range);
        } else if is_text(&words[k], "y") {
            *y = Some(range);
        } else {
            let mut msg = String::from_str("invalid --range axis: ");
            msg.append(args[k].as_str());
            msg.append(" (expected x or y)");
            return Err(msg);
        }
        k += 3;
    }
}

fn scan_layout_exec(args: &Vec<String>, words: &Vec<Vec<char>>, from: usize, width: &mut usize, height: &mut usize) -> (r: Result<usize, String>)
    requires
        words_match(args, words),
        from <= args@.len(),
    ensures
        match scan_layout(args.deep_view().skip(from as int), *old(width), *old(height)) {
            Ok((n, w, h)) => r matches Ok(m) && m == n && from + m <= args@.len() && *final(width) == w
                && *final(height) == h,
            Err(e) => r matches Err(msg) && msg@ == e,
        },
{
    let ghost argv = args.deep_view();
    let ghost whole = scan_layout(argv.skip(from as int), *width, *height);
    let mut k = from;
    loop
        invariant
            words_match(args, words),
            argv == args.deep_view(),
            from <= k <= args@.len(),
            whole == scan_layout(argv.skip(from as int), *old(width), *old(height)),
            whole == shifted(scan_layout(argv.skip(k as int), *width, *height), (k - from) as nat),
        decreases args@.len() - k,
    {
        let ghost rest = argv.skip(k as int);
        if k >= words.len() || ends_run_word(&words[k]) {
            if k < words.len() {
                assert(rest[0] == words@[k as int]@);
            }
            return Ok(k - from);
        }
        assert(rest[0] == words@[k as int]@);
        if k + 1 >= words.len() {
            let mut msg = String::from_str("missing value for --layout key: ");
            msg.append(args[k].as_str());
            return Err(msg);
        }
        assert(rest[1] == args@[k + 1]@);
        assert(rest.skip(2) =~= argv.skip(k + 2));
        if is_text(&words[k], "width") {
            match parse_positive_usize(args[k + 1].as_str(), "--layout width") {
                Ok(w) => *width = w,
                Err(e) => return Err(e),
            }
        } else if is_text(&words[k], "height") {
            match parse_positive_usize(args[k + 1].as_str(), "--layout height") {
                Ok(h) => *height = h,
                Err(e) => return Err(e),
            }
        } else {
            let mut msg = String::from_str("invalid --layout key: ");
            msg.append(args[k].as_str());
            msg.append(" (expected width or height)");
            return Err(msg);
        }
        k += 2;
    }
}

/// The column numbers of a `--columns` clause: the values at `from .. from + n`.
fn column_numbers_exec(args: &Vec<String>, from: usize, n: usize) -> (r: Result<(Option<usize>, Vec<usize>), String>)
    requires
        0 < n,
        from + n <= args@.len(),
    ensures
        match column_numbers(args.deep_view().subrange(from as int, from + n)) {
            Ok((x, ys)) => r matches Ok((rx, rys)) && rx == x && rys@ == ys,
            Err(e) => r matches Err(msg) && msg@ == e,
        },
{
    let ghost v = args.deep_view().subrange(from as int, from + n);
    let total = args.len();
    if n == 1 {
        return match parse_positive_usize(args[from].as_str(), "Y column") {
            Ok(y) => {
                let mut ys = Vec::new();
                ys.push(y);
                assert(ys@ =~= seq![y]);
                Ok((None, ys))
            },
            Err(e) => Err(e),
        };
    }
    let x = match parse_positive_usize(args[from].as_str(), "X column") {
        Ok(x) => x,
        Err(e) => return Err(e),
    };
    assert(v[0] == args@[from as int]@);
    let ghost tail = v.drop_first();
    let mut ys: Vec<usize> = Vec::new();
    let mut j: usize = 1;
    while j < n
        invariant
            1 <= j <= n,
            from + n <= args@.len(),
            total == args@.len(),
            n > 1,
            v == args.deep_view().subrange(from as int, from + n),
            positive_usize_of(v[0], "X column"@) == Ok::<usize, Seq<char>>(x),
            tail == v.drop_first(),
            y_columns(tail.take(j - 1)) == Ok::<Seq<usize>, Seq<char>>(ys@),
        decreases n - j,
    {
        assert(tail.take(j as int).drop_last() =~= tail.take(j - 1));
        assert(tail.take(j as int).last() == args@[from + j]@);
        match parse_positive_usize(args[from + j].as_str(), "Y column") {
            Ok(y) => ys.push(y),
            Err(e) => {
                proof {
                    assert(y_columns(tail.take(j as int)) == Err::<Seq<usize>, Seq<char>>(e@));
                    lemma_y_columns_prefix_error(tail, j as int);
                    assert(v[0] == args@[from as int]@);
                }
                return Err(e);
            },
        }
        j += 1;
    }
    assert(tail.take(n - 1) =~= tail);
    Ok((Some(x), ys))
}

/// A `--columns` clause (or `using`) at position `i`.
fn columns_clause(args: &Vec<String>, words: &Vec<Vec<char>>, i: usize, st: &mut Draft) -> (r: StepOutcome)
    requires
        words_match(args, words),
        i < args@.len(),
    ensures
        outcome_agrees(r, final(st)@, columns_step(args.deep_view().skip(i + 1), old(st)@)),
        consumes_within(r, i as int, args@.len() as int),
{
    let ghost argv = args.deep_view();
    let ghost vals = argv.skip(i + 1);
    let total = args.len();
    let n = value_run(args, words, i + 1, false);
    if n == 0 {
        let mut msg = String::from_str("missing column after --columns\n\n");
        msg.append(HELP);
        return StepOutcome::Failed(msg);
    }
    assert(vals.take(n as int) =~= argv.subrange(i + 1, i + 1 + n));
    let (x, ys) = match column_numbers_exec(args, i + 1, n) {
        Ok(found) => found,
        Err(e) => return StepOutcome::Failed(e),
    };
    let ghost old_st = st@;
    let ghost inputs = clause_inputs(old_st.pending);
    if st.pending.len() == 0 {
        let mut b: usize = 0;
        while b < ys.len()
            invariant
                b <= ys@.len(),
                st.pending@.len() == 0,
                st@.config.series =~= old_st.config.series + ys@.take(b as int).map_values(
                    |y: usize| SeriesView { input: None, x_column: x, y_column: y },
                ),
                st@.pending == old_st.pending,
                st@.key_explicit == old_st.key_explicit,
                st@.config == (ConfigView { series: st@.config.series, ..old_st.config }),
            decreases ys.len() - b,
        {
            let ghost before = st@.config.series;
            st.config.series.push(SeriesSpec { input: None, x_column: x, y_column: ys[b] });
            assert(st@.config.series =~= before.push(
                SeriesView { input: None, x_column: x, y_column: ys@[b as int] },
            ));
            assert(ys@.take(b + 1).map_values(|y: usize| SeriesView { input: None, x_column: x, y_column: y })
                =~= ys@.take(b as int).map_values(|y: usize| SeriesView { input: None, x_column: x, y_column: y })
                .push(SeriesView { input: None, x_column: x, y_column: ys@[b as int] }));
            b += 1;
        }
        assert(ys@.take(ys@.len() as int) =~= ys@);
        assert(inputs =~= seq![None::<Seq<char>>]);
        assert(inputs.drop_last() =~= Seq::<Option<Seq<char>>>::empty());
        assert(series_for(inputs.drop_last(), x, ys@) =~= Seq::<SeriesView>::empty());
        assert(series_for(inputs, x, ys@) =~= ys@.map_values(
            |y: usize| SeriesView { input: None, x_column: x, y_column: y },
        ));
    } else {
        let mut a: usize = 0;
        while a < st.pending.len()
            invariant
                a <= st.pending@.len(),
                st@.pending == old_st.pending,
                st.pending@.len() > 0,
                inputs == clause_inputs(old_st.pending),
                st@.config.series =~= old_st.config.series + series_for(inputs.take(a as int), x, ys@),
                st@.key_explicit == old_st.key_explicit,
                st@.config == (ConfigView { series: st@.config.series, ..old_st.config }),
            decreases st.pending.len() - a,
        {
            let ghost mid = st@.config.series;
            let mut b: usize = 0;
            while b < ys.len()
                invariant
                    a < st.pending@.len(),
                    b <= ys@.len(),
                    st@.pending == old_st.pending,
                    st@.config.series =~= mid + ys@.take(b as int).map_values(
                        |y: usize| SeriesView { input: Some(old_st.pending[a as int]), x_column: x, y_column: y },
                    ),
                    st@.key_explicit == old_st.key_explicit,
                    st@.config == (ConfigView { series: st@.config.series, ..old_st.config }),
                decreases ys.len() - b,
            {
                let ghost before = st@.config.series;
                let input = st.pending[a].clone();
                st.config.series.push(SeriesSpec { input: Some(input), x_column: x, y_column: ys[b] });
                assert(st@.config.series =~= before.push(
                    SeriesView { input: Some(old_st.pending[a as int]), x_column: x, y_column: ys@[b as int] },
                ));
                assert(ys@.take(b + 1).map_values(|y: usize| SeriesView { input: Some(old_st.pending[a as int]), x_column: x, y_column: y })
                    =~= ys@.take(b as int).map_values(|y: usize| SeriesView { input: Some(old_st.pending[a as int]), x_column: x, y_column: y })
                    .push(SeriesView { input: Some(old_st.pending[a as int]), x_column: x, y_column: ys@[b as int] }));
                b += 1;
            }
            assert(ys@.take(ys@.len() as int) =~= ys@);
            assert(inputs.take(a + 1).drop_last() =~= inputs.take(a as int));
            assert(inputs.take(a + 1).last() == Some(old_st.pending[a as int]));
            a += 1;
        }
        assert(inputs.take(st.pending@.len() as int) =~= inputs);
        st.pending = Vec::new();
    }
    assert(st@.pending =~= Seq::<Seq<char>>::empty());
    StepOutcome::Next(n + 1)
}

fn missing_value_message(flag: &str) -> (msg: String)
    ensures
        msg@ == missing_value(flag@),
{
    let mut msg = String::from_str("missing value for ");
    msg.append(flag);
    msg
}

/// Options that take a run of values: `--in` and `--comments`.
fn run_clause(o: LongOption, args: &Vec<String>, words: &Vec<Vec<char>>, i: usize, st: &mut Draft) -> (r: StepOutcome)
    requires
        words_match(args, words),
        i < args@.len(),
        o == LongOption::In || o == LongOption::Comments,
    ensures
        outcome_agrees(r, final(st)@, option_step(o, args.deep_view().skip(i + 1), old(st)@)),
        consumes_within(r, i as int, args@.len() as int),
{
    let ghost argv = args.deep_view();
    let ghost vals = argv.skip(i + 1);
    let total = args.len();
    let n = value_run(args, words, i + 1, o == LongOption::In);
    if n == 0 {
        return StepOutcome::Failed(
            String::from_str(if o == LongOption::In { "missing value for --in" } else { "missing marker for --comments" }),
        );
    }
    let ghost taken = vals.take(n as int);
    let mut values: Vec<String> = Vec::new();
    let mut k: usize = 0;
    while k < n
        invariant
            k <= n,
            i + 1 + n <= args@.len(),
            total == args@.len(),
            argv == args.deep_view(),
            taken == argv.skip(i + 1).take(n as int),
            values.deep_view() =~= taken.take(k as int),
        decreases n - k,
    {
        let ghost prev = values.deep_view();
        values.push(args[i + 1 + k].clone());
        assert(values.deep_view() =~= prev.push(args@[i + 1 + k]@));
        assert(taken[k as int] == args@[i + 1 + k]@);
        assert(taken.take(k + 1) =~= taken.take(k as int).push(taken[k as int]));
        k += 1;
    }
    assert(taken.take(n as int) =~= taken);
    if o == LongOption::In {
        let ghost before = st.pending.deep_view();
        let ghost start = st@;
        let mut k: usize = 0;
        while k < values.len()
            invariant
                k <= values@.len(),
                st@.config == start.config,
                st@.key_explicit == start.key_explicit,
                st.pending.deep_view() =~= before + values.deep_view().take(k as int),
            decreases values.len() - k,
        {
            let ghost prev = st.pending.deep_view();
            st.pending.push(values[k].clone());
            assert(st.pending.deep_view() =~= prev.push(values@[k as int]@));
            assert(values.deep_view().take(k + 1) =~= values.deep_view().take(k as int).push(values@[k as int]@));
            k += 1;
        }
        assert(values.deep_view().take(values@.len() as int) =~= values.deep_view());
    } else {
        st.config.comment_markers = values;
    }
    StepOutcome::Next(n + 1)
}

/// What option `o` at position `i` does.
fn option_clause(o: LongOption, args: &Vec<String>, words: &Vec<Vec<char>>, i: usize, st: &mut Draft) -> (r: StepOutcome)
    requires
        words_match(args, words),
        i < args@.len(),
    ensures
        outcome_agrees(r, final(st)@, option_step(o, args.deep_view().skip(i + 1), old(st)@)),
        consumes_within(r, i as int, args@.len() as int),
{
    let ghost argv = args.deep_view();
    let ghost vals = argv.skip(i + 1);
    let total = args.len();
    let has_value = i + 1 < total;
    if has_value {
        assert(vals[0] == args@[i + 1]@);
    }
    match o {
        LongOption::Help => StepOutcome::Done(CliAction::Help),
        LongOption::Detail => StepOutcome::Done(CliAction::Detail),
        LongOption::In | LongOption::Comments => run_clause(o, args, words, i, st),
        LongOption::Columns => columns_clause(args, words, i, st),
        LongOption::Title => {
            if !has_value {
                return StepOutcome::Failed(missing_value_message("--title"));
            }
            st.config.title = Some(args[i + 1].clone());
            StepOutcome::Next(2)
        },
        LongOption::Label => {
            match scan_axis_texts_exec(args, words, i + 1, "--label", "label text", &mut st.config.xlabel, &mut st.config.ylabel) {
                Err(e) => StepOutcome::Failed(e),
                Ok(n) => if n == 0 {
                    StepOutcome::Failed(String::from_str("missing axis for --label"))
                } else {
                    StepOutcome::Next(n + 1)
                },
            }
        },
        LongOption::Format => {
            match scan_axis_texts_exec(args, words, i + 1, "--format", "format string", &mut st.config.xformat, &mut st.config.yformat) {
                Err(e) => StepOutcome::Failed(e),
                Ok(n) => if n == 0 {
                    StepOutcome::Failed(String::from_str("missing axis for --format"))
                } else {
                    StepOutcome::Next(n + 1)
                },
            }
        },
        LongOption::Range => {
            match scan_ranges_exec(args, words, i + 1, &mut st.config.xrange, &mut st.config.yrange) {
                Err(e) => StepOutcome::Failed(e),
                Ok(n) => if n == 0 {
                    StepOutcome::Failed(String::from_str("missing axis for --range"))
                } else {
                    StepOutcome::Next(n + 1)
                },
            }
        },
        LongOption::Layout => {
            match scan_layout_exec(args, words, i + 1, &mut st.config.width, &mut st.config.height) {
                Err(e) => StepOutcome::Failed(e),
                Ok(n) => if n == 0 {
                    StepOutcome::Failed(String::from_str("missing key for --layout"))
                } else {
                    StepOutcome::Next(n + 1)
                },
            }
        },
        LongOption::Logscale => {
            if !has_value {
                return StepOutcome::Failed(missing_value_message("--logscale"));
            }
            match parse_logscale(args[i + 1].as_str()) {
                Err(e) => StepOutcome::Failed(e),
                Ok(l) => {
                    st.config.logscale = l;
                    StepOutcome::Next(2)
                },
            }
        },
        LongOption::Style => {
            if !has_value {
                return StepOutcome::Failed(missing_value_message("--style"));
            }
            match parse_style(args[i + 1].as_str()) {
                Err(e) => StepOutcome::Failed(e),
                Ok(v) => {
                    st.config.style = v;
                    StepOutcome::Next(2)
                },
            }
        },
        LongOption::Key => {
            if !has_value {
                return StepOutcome::Failed(missing_value_message("--key"));
            }
            match parse_toggle(args[i + 1].as_str(), "--key") {
                Err(e) => StepOutcome::Failed(e),
                Ok(b) => {
                    st.config.show_key = b;
                    st.key_explicit = true;
                    StepOutcome::Next(2)
                },
            }
        },
        LongOption::Grid => {
            if !has_value {
                return StepOutcome::Failed(missing_value_message("--grid"));
            }
            match parse_toggle(args[i + 1].as_str(), "--grid") {
                Err(e) => StepOutcome::Failed(e),
                Ok(b) => {
                    st.config.show_grid = b;
                    StepOutcome::Next(2)
                },
            }
        },
        LongOption::Delimiter => {
            if !has_value {
                return StepOutcome::Failed(missing_value_message("--delimiter"));
            }
            if words[i + 1].len() == 0 {
                return StepOutcome::Failed(String::from_str("empty value for --delimiter"));
            }
            st.config.delimiter = Some(args[i + 1].clone());
            StepOutcome::Next(2)
        },
        LongOption::SetCommand => {
            if !has_value {
                return StepOutcome::Failed(missing_value_message("--set"));
            }
            let ghost before = st.config.extra_set_commands.deep_view();
            st.config.extra_set_commands.push(args[i + 1].clone());
            assert(st.config.extra_set_commands.deep_view() =~= before.push(vals[0]));
            StepOutcome::Next(2)
        },
        LongOption::Dumb => {
            st.config.dumb = true;
            StepOutcome::Next(1)
        },
    }
}

/// What the word at position `i` does.
fn step(args: &Vec<String>, words: &Vec<Vec<char>>, i: usize, st: &mut Draft) -> (r: StepOutcome)
    requires
        words_match(args, words),
        i < args@.len(),
    ensures
        outcome_agrees(r, final(st)@, spec_step(args.deep_view().skip(i as int), old(st)@)),
        consumes_within(r, i as int, args@.len() as int),
{
    let ghost argv = args.deep_view();
    let ghost rest = argv.skip(i as int);
    assert(rest[0] == args@[i as int]@);
    assert(rest.drop_first() =~= argv.skip(i + 1));
    let word = &words[i];
    match resolve(args[i].as_str(), word) {
        Err(e) => StepOutcome::Failed(e),
        Ok(Some(o)) => option_clause(o, args, words, i, st),
        Ok(None) => {
            if is_text(word, "-h") {
                StepOutcome::Done(CliAction::Help)
            } else if is_text(word, "using") {
                columns_clause(args, words, i, st)
            } else {
                let mut msg = String::from_str(
                    if word.len() > 0 && word[0] == '-' { "unknown option: " } else { "unexpected argument: " },
                );
                msg.append(args[i].as_str());
                msg.append("\n\n");
                msg.append(HELP);
                StepOutcome::Failed(msg)
            }
        },
    }
}

fn check_range(range: &Option<AxisRange>, kind: AxisValueKind, label: &str) -> (r: Result<(), String>)
    ensures
        err_text(r) == range_check(range_view(*range), kind, label@),
{
    match range {
        Some(rg) => if kind == AxisValueKind::Number {
            match validate_numeric_range_bound(rg.min.as_str(), label) {
                Err(e) => Err(e),
                Ok(_) => validate_numeric_range_bound(rg.max.as_str(), label),
            }
        } else {
            Ok(())
        },
        None => Ok(()),
    }
}

fn format_kind(format: &Option<String>) -> (kind: AxisValueKind)
    ensures
        kind == kind_of_format(format.deep_view()),
{
    match format {
        Some(f) => axis_value_kind(Some(f.as_str())),
        None => axis_value_kind(None),
    }
}

fn finish_exec(st: Draft) -> (r: Result<CliAction, String>)
    ensures
        match finish(st@) {
            Ok(a) => r matches Ok(act) && act@ =~~= a,
            Err(e) => r matches Err(msg) && msg@ == e,
        },
{
    let ghost s0 = st@;
    let Draft { mut config, pending, key_explicit } = st;
    let xk = format_kind(&config.xformat);
    if let Err(e) = check_range(&config.xrange, xk, "--xrange") {
        return Err(e);
    }
    let yk = format_kind(&config.yformat);
    if let Err(e) = check_range(&config.yrange, yk, "--yrange") {
        return Err(e);
    }
    let ghost with_pending = s0.config.series + s0.pending.map_values(|p: Seq<char>| auto_series(Some(p)));
    let mut k: usize = 0;
    while k < pending.len()
        invariant
            k <= pending@.len(),
            pending.deep_view() == s0.pending,
            config@.series =~= s0.config.series + s0.pending.take(k as int).map_values(
                |p: Seq<char>| auto_series(Some(p)),
            ),
            config@ == (ConfigView { series: config@.series, ..s0.config }),
        decreases pending.len() - k,
    {
        let ghost before = config@.series;
        config.series.push(SeriesSpec::auto(Some(pending[k].clone())));
        assert(config@.series =~= before.push(auto_series(Some(s0.pending[k as int]))));
        assert(s0.pending.take(k + 1) =~= s0.pending.take(k as int).push(s0.pending[k as int]));
        k += 1;
    }
    assert(s0.pending.take(pending@.len() as int) =~= s0.pending);
    if config.series.len() == 0 {
        config.series.push(SeriesSpec::auto(None));
        assert(config@.series =~= seq![auto_series(None)]);
    }
    assert(config@.series =~= final_series(s0));
    if !key_explicit && config.series.len() > 1 {
        config.show_key = true;
    }
    Ok(CliAction::Plot(config))
}

impl Draft {
    fn new(layout: (usize, usize)) -> (d: Draft)
        ensures
            d@ =~~= initial_state(layout),
    {
        let mut comment_markers: Vec<String> = Vec::new();
        comment_markers.push(String::from_str("#"));
        let d = Draft {
            config: Config {
                series: Vec::new(),
                title: None,
                xlabel: None,
                ylabel: None,
                xformat: None,
                yformat: None,
                xrange: None,
                yrange: None,
                logscale: LogScale::Off,
                style: PlotStyle::Lines,
                show_key: false,
                show_grid: true,
                delimiter: None,
                comment_markers,
                extra_set_commands: Vec::new(),
                width: layout.0,
                height: layout.1,
                dumb: false,
            },
            pending: Vec::new(),
            key_explicit: false,
        };
        assert(d@.config.comment_markers =~= seq!["#"@]);
        assert(d@.config.series =~= Seq::<SeriesView>::empty());
        assert(d@.config.extra_set_commands =~= Seq::<Seq<char>>::empty());
        assert(d@.pending =~= Seq::<Seq<char>>::empty());
        d
    }
}

/// Reads the command line. `default_layout` is the plot size used unless
/// `--layout` gives another.
pub fn parse_args(args: Vec<String>, default_layout: (usize, usize)) -> (r: Result<CliAction, String>)
    ensures
        match spec_parse_args(args.deep_view(), default_layout) {
            Ok(a) => r matches Ok(act) && act@ == a,
            Err(e) => r matches Err(msg) && msg@ == e,
        },
{
    let ghost argv = args.deep_view();
    let mut words: Vec<Vec<char>> = Vec::new();
    let mut k: usize = 0;
    while k < args.len()
        invariant
            k <= args@.len(),
            words@.len() == k,
            forall|j: int| 0 <= j < k ==> #[trigger] words@[j]@ == args@[j]@,
        decreases args.len() - k,
    {
        words.push(chars_of(args[k].as_str()));
        k += 1;
    }
    let mut st = Draft::new(default_layout);
    assert(argv.skip(0) =~= argv);
    let mut i: usize = 0;
    while i < args.len()
        invariant
            words_match(&args, &words),
            argv == args.deep_view(),
            i <= args@.len(),
            spec_parse_args(argv, default_layout) == scan_args(argv.skip(i as int), st@),
        decreases args.len() - i,
    {
        let ghost before = st@;
        let ghost rest = argv.skip(i as int);
        match step(&args, &words, i, &mut st) {
            StepOutcome::Next(n) => {
                assert(rest.skip(n as int) =~= argv.skip(i + n));
                i += n;
            },
            StepOutcome::Done(action) => {
                assert(action@ == spec_parse_args(argv, default_layout)->Ok_0);
                return Ok(action);
            },
            StepOutcome::Failed(e) => return Err(e),
        }
    }
    assert(argv.skip(i as int) =~= Seq::<Seq<char>>::empty());
    let r = finish_exec(st);
    r
}

// ---------------------------------------------------------------------------
// The default plot size
// ---------------------------------------------------------------------------

/// A size from the environment: a positive number, or else the fallback.
pub open spec fn env_size_of(value: Option<Seq<char>>, fallback: usize) -> usize {
    match value {
        Some(v) => match usize_of_text(v) {
            Some(n) => if n > 0 { n } else { fallback },
            None => fallback,
        },
        None => fallback,
    }
}

pub fn env_size(value: Option<&str>, fallback: usize) -> (size: usize)
    ensures
        size == env_size_of(
            match value {
                Some(v) => Some(v@),
                None => None,
            },
            fallback,
        ),
{
    match value {
        Some(v) => match parse_usize(v) {
            Some(n) => if n > 0 { n } else { fallback },
            None => fallback,
        },
        None => fallback,
    }
}

/// The plot size for a terminal of `width` columns and `height` rows: the
/// whole width, and the height less two rows for the prompt, at least ten.
pub open spec fn terminal_layout(width: u16, height: u16) -> (usize, usize) {
    (
        if width >= 1 { width as usize } else { 1 },
        if height >= 12 { (height - 2) as usize } else { 10 },
    )
}

pub fn layout_from_terminal(width: u16, height: u16) -> (layout: (usize, usize))
    ensures
        layout == terminal_layout(width, height),
{
    let w: usize = if width >= 1 { width as usize } else { 1 };
    let h: usize = if height >= 12 { (height - 2) as usize } else { 10 };
    (w, h)
}

/// The plot size from the `COLUMNS` and `LINES` variables, when the terminal
/// cannot be asked: 100 columns and 30 rows by default, less two rows, at
/// least ten.
pub open spec fn env_layout(columns: Option<Seq<char>>, lines: Option<Seq<char>>) -> (usize, usize) {
    let rows = env_size_of(lines, 30);
    (env_size_of(columns, 100), if rows >= 12 { (rows - 2) as usize } else { 10 })
}

pub fn layout_from_env(columns: Option<&str>, lines: Option<&str>) -> (layout: (usize, usize))
    ensures
        layout == env_layout(
            match columns {
                Some(v) => Some(v@),
                None => None,
            },
            match lines {
                Some(v) => Some(v@),
                None => None,
            },
        ),
{
    let w = env_size(columns, 100);
    let rows = env_size(lines, 30);
    let h = if rows >= 12 { rows - 2 } else { 10 };
    (w, h)
}

// ---------------------------------------------------------------------------
// Laws
// ---------------------------------------------------------------------------

proof fn lemma_reveal_option_names()
    ensures
        "--help"@ =~= seq!['-', '-', 'h', 'e', 'l', 'p'],
        "--detail"@ =~= seq!['-', '-', 'd', 'e', 't', 'a', 'i', 'l'],
        "--in"@ =~= seq!['-', '-', 'i', 'n'],
        "--title"@ =~= seq!['-', '-', 't', 'i', 't', 'l', 'e'],
        "--label"@ =~= seq!['-', '-', 'l', 'a', 'b', 'e', 'l'],
        "--format"@ =~= seq!['-', '-', 'f', 'o', 'r', 'm', 'a', 't'],
        "--range"@ =~= seq!['-', '-', 'r', 'a', 'n', 'g', 'e'],
        "--logscale"@ =~= seq!['-', '-', 'l', 'o', 'g', 's', 'c', 'a', 'l', 'e'],
        "--style"@ =~= seq!['-', '-', 's', 't', 'y', 'l', 'e'],
        "--key"@ =~= seq!['-', '-', 'k', 'e', 'y'],
        "--grid"@ =~= seq!['-', '-', 'g', 'r', 'i', 'd'],
        "--delimiter"@ =~= seq!['-', '-', 'd', 'e', 'l', 'i', 'm', 'i', 't', 'e', 'r'],
        "--comments"@ =~= seq!['-', '-', 'c', 'o', 'm', 'm', 'e', 'n', 't', 's'],
        "--columns"@ =~= seq!['-', '-', 'c', 'o', 'l', 'u', 'm', 'n', 's'],
        "--layout"@ =~= seq!['-', '-', 'l', 'a', 'y', 'o', 'u', 't'],
        "--set"@ =~= seq!['-', '-', 's', 'e', 't'],
        "--dumb"@ =~= seq!['-', '-', 'd', 'u', 'm', 'b'],
        "--"@ =~= seq!['-', '-'],
{
    reveal_strlit("--help");
    reveal_strlit("--detail");
    reveal_strlit("--in");
    reveal_strlit("--title");
    reveal_strlit("--label");
    reveal_strlit("--format");
    reveal_strlit("--range");
    reveal_strlit("--logscale");
    reveal_strlit("--style");
    reveal_strlit("--key");
    reveal_strlit("--grid");
    reveal_strlit("--delimiter");
    reveal_strlit("--comments");
    reveal_strlit("--columns");
    reveal_strlit("--layout");
    reveal_strlit("--set");
    reveal_strlit("--dumb");
    reveal_strlit("--");
}

proof fn lemma_prefix_char(a: Seq<char>, b: Seq<char>, k: int)
    requires
        is_prefix(a, b),
        0 <= k < a.len(),
    ensures
        a[k] == b[k],
{
    assert(b.take(a.len() as int)[k] == b[k]);
}

/// No option name starts with another one's full name.
proof fn lemma_option_prefix(o: LongOption, c: LongOption)
    ensures
        is_prefix(option_name(o), option_name(c)) <==> o == c,
{
    lemma_reveal_option_names();
    let a = option_name(o);
    let b = option_name(c);
    if o == c {
        assert(b.take(a.len() as int) =~= a);
    } else if is_prefix(a, b) {
        lemma_prefix_char(a, b, 2);
        lemma_prefix_char(a, b, 3);
        if a.len() > 4 {
            lemma_prefix_char(a, b, 4);
        }
        assert(false);
    }
}

proof fn lemma_single_match(arg: Seq<char>, opts: Seq<LongOption>, o: LongOption)
    requires
        forall|c: LongOption| is_prefix(arg, option_name(c)) <==> c == o,
        opts.no_duplicates(),
    ensures
        options_starting_with(arg, opts) == (if opts.contains(o) { seq![o] } else { seq![] }),
    decreases opts.len(),
{
    if opts.len() > 0 {
        let init = opts.drop_last();
        assert(init.no_duplicates());
        lemma_single_match(arg, init, o);
        if opts.last() == o {
            assert(!init.contains(o)) by {
                if init.contains(o) {
                    let k = choose|k: int| 0 <= k < init.len() && init[k] == o;
                    assert(opts[k] == opts[opts.len() - 1]);
                }
            }
            assert(opts.contains(o)) by {
                assert(opts[opts.len() - 1] == o);
            }
        } else {
            assert(opts.contains(o) == init.contains(o)) by {
                if opts.contains(o) {
                    let k = choose|k: int| 0 <= k < opts.len() && opts[k] == o;
                    assert(init[k] == o);
                }
                if init.contains(o) {
                    let k = choose|k: int| 0 <= k < init.len() && init[k] == o;
                    assert(opts[k] == o);
                }
            }
        }
    } else {
        assert(!opts.contains(o));
    }
}

proof fn lemma_long_options_table(o: LongOption)
    ensures
        long_options().no_duplicates(),
        long_options().contains(o),
{
    let opts = long_options();
    assert(opts.no_duplicates());
    let k: int = match o {
        LongOption::Help => 0,
        LongOption::Detail => 1,
        LongOption::In => 2,
        LongOption::Title => 3,
        LongOption::Label => 4,
        LongOption::Format => 5,
        LongOption::Range => 6,
        LongOption::Logscale => 7,
        LongOption::Style => 8,
        LongOption::Key => 9,
        LongOption::Grid => 10,
        LongOption::Delimiter => 11,
        LongOption::Comments => 12,
        LongOption::Columns => 13,
        LongOption::Layout => 14,
        LongOption::SetCommand => 15,
        LongOption::Dumb => 16,
    };
    assert(opts[k] == o);
}

/// The full name of an option resolves to that option.
pub proof fn law_option_name_resolves_to_itself(o: LongOption)
    ensures
        resolve_option(option_name(o)) == Ok::<Resolution, Seq<char>>(Resolution::Long(o)),
{
    lemma_reveal_option_names();
    let name = option_name(o);
    assert(name.take(2) =~= "--"@);
    assert forall|c: LongOption| is_prefix(name, option_name(c)) <==> c == o by {
        lemma_option_prefix(o, c);
    }
    lemma_long_options_table(o);
    lemma_single_match(name, long_options(), o);
}

proof fn lemma_run_len_bound(r: Seq<Seq<char>>)
    ensures
        run_len(r) <= r.len(),
        forall|k: int| 0 <= k < run_len(r) ==> !ends_run(#[trigger] r[k]),
    decreases r.len(),
{
    if !(r.len() == 0 || ends_run(r[0])) {
        lemma_run_len_bound(r.drop_first());
        assert forall|k: int| 0 <= k < run_len(r) implies !ends_run(#[trigger] r[k]) by {
            if k > 0 {
                assert(r[k] == r.drop_first()[k - 1]);
            }
        }
    }
}

proof fn lemma_run_len_cons(x: Seq<char>, r: Seq<Seq<char>>)
    ensures
        run_len(seq![x] + r) == if ends_run(x) { 0 } else { 1 + run_len(r) },
{
    assert((seq![x] + r).drop_first() =~= r);
}

proof fn lemma_input_run_len_bound(r: Seq<Seq<char>>)
    ensures
        input_run_len(r) <= r.len(),
    decreases r.len(),
{
    if !(r.len() == 0 || ends_input_run(r[0])) {
        lemma_input_run_len_bound(r.drop_first());
    }
}

proof fn lemma_input_run_len_cons(x: Seq<char>, r: Seq<Seq<char>>)
    ensures
        input_run_len(seq![x] + r) == if ends_input_run(x) { 0 } else { 1 + input_run_len(r) },
{
    assert((seq![x] + r).drop_first() =~= r);
}

/// An option word ends a run of values.
proof fn lemma_option_ends_run(o: LongOption)
    ensures
        ends_run(option_name(o)),
{
    lemma_reveal_option_names();
}

/// Two `--in` options in a row read like one `--in` with both inputs:
/// from any point of the parse, `--in A --in B ...` gives what
/// `--in A B ...` gives.
#[verifier::rlimit(40)]
pub proof fn law_repeated_in_is_one_in(a: Seq<char>, b: Seq<char>, rest: Seq<Seq<char>>, st: ParseState)
    requires
        !ends_input_run(a),
        !ends_input_run(b),
    ensures
        scan_args(seq!["--in"@, a, "--in"@, b] + rest, st) == scan_args(seq!["--in"@, a, b] + rest, st),
{
    law_option_name_resolves_to_itself(LongOption::In);
    lemma_option_ends_run(LongOption::In);
    lemma_reveal_option_names();
    assert(ends_input_run("--in"@));
    let r1 = seq!["--in"@, a, "--in"@, b] + rest;
    let r2 = seq!["--in"@, a, b] + rest;
    let n: int = input_run_len(rest) as int;
    lemma_input_run_len_bound(rest);
    // The first form, option by option.
    assert(r1.drop_first() =~= seq![a] + (seq!["--in"@, b] + rest));
    lemma_input_run_len_cons(a, seq!["--in"@, b] + rest);
    lemma_input_run_len_cons("--in"@, seq![b] + rest);
    assert(r1.drop_first().take(1) =~= seq![a]);
    let st1 = ParseState { pending: st.pending + seq![a], ..st };
    assert(spec_step(r1, st) == Step::Continue(2, st1));
    let r1b = r1.skip(2);
    assert(r1b =~= seq!["--in"@] + (seq![b] + rest));
    assert(r1b.drop_first() =~= seq![b] + rest);
    lemma_input_run_len_cons(b, rest);
    let st2 = ParseState { pending: st1.pending + (seq![b] + rest).take(n + 1), ..st1 };
    assert(spec_step(r1b, st1) == Step::Continue((n + 2) as nat, st2));
    assert(r1b.skip(n + 2) =~= rest.skip(n));
    // The second form.
    assert(r2.drop_first() =~= seq![a] + (seq![b] + rest));
    lemma_input_run_len_cons(a, seq![b] + rest);
    let st3 = ParseState { pending: st.pending + (seq![a] + (seq![b] + rest)).take(n + 2), ..st };
    assert(spec_step(r2, st) == Step::Continue((n + 3) as nat, st3));
    assert(r2.skip(n + 3) =~= rest.skip(n));
    assert(st2 =~~= st3);
    assert(scan_args(r1, st) == scan_args(r1b, st1));
    assert(scan_args(r1b, st1) == scan_args(rest.skip(n), st2));
    assert(scan_args(r2, st) == scan_args(rest.skip(n), st3));
}

/// A series names its columns from 1 on, or has none yet (then it has no X
/// column either).
pub open spec fn series_well_formed(s: SeriesView) -> bool {
    &&& s.x_column matches Some(x) ==> x >= 1
    &&& s.y_column == 0 ==> s.x_column is None
}

pub open spec fn all_well_formed(series: Seq<SeriesView>) -> bool {
    forall|i: int| 0 <= i < series.len() ==> series_well_formed(#[trigger] series[i])
}

/// A bound of a range on a numeric axis: `*` or a number.
pub open spec fn numeric_bound(value: Seq<char>) -> bool {
    value == "*"@ || is_float_text(value)
}

/// On an axis whose format makes it numeric, both bounds of its range, if it
/// has one, are `*` or numbers.
pub open spec fn range_fits_axis(range: Option<RangeView>, format: Option<Seq<char>>) -> bool {
    kind_of_format(format) == AxisValueKind::Number ==> (range matches Some(r) ==> numeric_bound(r.min)
        && numeric_bound(r.max))
}

/// What every configuration read from a command line satisfies.
pub open spec fn config_well_formed(c: ConfigView) -> bool {
    &&& c.series.len() > 0
    &&& all_well_formed(c.series)
    &&& c.width > 0
    &&& c.height > 0
    &&& c.delimiter matches Some(d) ==> d.len() > 0
    &&& c.comment_markers.len() > 0
    &&& range_fits_axis(c.xrange, c.xformat)
    &&& range_fits_axis(c.yrange, c.yformat)
}

spec fn state_ok(st: ParseState) -> bool {
    &&& all_well_formed(st.config.series)
    &&& st.config.width > 0
    &&& st.config.height > 0
    &&& st.config.delimiter matches Some(d) ==> d.len() > 0
    &&& st.config.comment_markers.len() > 0
}

proof fn lemma_scan_layout_positive(r: Seq<Seq<char>>, w: usize, h: usize)
    requires
        w > 0,
        h > 0,
    ensures
        scan_layout(r, w, h) matches Ok((_, w2, h2)) ==> w2 > 0 && h2 > 0,
    decreases r.len(),
{
    if !(r.len() == 0 || ends_run(r[0])) && r.len() >= 2 {
        if r[0] == "width"@ {
            if let Ok(v) = positive_usize_of(r[1], "--layout width"@) {
                lemma_scan_layout_positive(r.skip(2), v, h);
            }
        } else if r[0] == "height"@ {
            if let Ok(v) = positive_usize_of(r[1], "--layout height"@) {
                lemma_scan_layout_positive(r.skip(2), w, v);
            }
        }
    }
}

proof fn lemma_y_columns_positive(v: Seq<Seq<char>>)
    ensures
        y_columns(v) matches Ok(ys) ==> forall|i: int| 0 <= i < ys.len() ==> ys[i] >= 1,
    decreases v.len(),
{
    if v.len() > 0 {
        lemma_y_columns_positive(v.drop_last());
    }
}

proof fn lemma_series_for_well_formed(inputs: Seq<Option<Seq<char>>>, x: Option<usize>, ys: Seq<usize>)
    requires
        x matches Some(v) ==> v >= 1,
        forall|i: int| 0 <= i < ys.len() ==> ys[i] >= 1,
    ensures
        all_well_formed(series_for(inputs, x, ys)),
    decreases inputs.len(),
{
    if inputs.len() > 0 {
        lemma_series_for_well_formed(inputs.drop_last(), x, ys);
        let earlier = series_for(inputs.drop_last(), x, ys);
        let these = ys.map_values(|y: usize| SeriesView { input: inputs.last(), x_column: x, y_column: y });
        assert forall|i: int| 0 <= i < (earlier + these).len() implies series_well_formed(#[trigger] (earlier + these)[i]) by {
            if i >= earlier.len() {
                assert((earlier + these)[i] == these[i - earlier.len()]);
            }
        }
    }
}

proof fn lemma_columns_step_ok(vals: Seq<Seq<char>>, st: ParseState)
    requires
        state_ok(st),
    ensures
        columns_step(vals, st) matches Step::Continue(_, next) ==> state_ok(next) && next.key_explicit == st.key_explicit,
{
    let n = run_len(vals);
    if n > 0 {
        let v = vals.take(n as int);
        lemma_y_columns_positive(v.drop_first());
        if let Ok((x, ys)) = column_numbers(v) {
            if v.len() == 1 {
                assert(forall|i: int| 0 <= i < ys.len() ==> ys[i] >= 1);
            }
            lemma_series_for_well_formed(clause_inputs(st.pending), x, ys);
            let all = st.config.series + series_for(clause_inputs(st.pending), x, ys);
            assert forall|i: int| 0 <= i < all.len() implies series_well_formed(#[trigger] all[i]) by {
                if i >= st.config.series.len() {
                    assert(all[i] == series_for(clause_inputs(st.pending), x, ys)[i - st.config.series.len()]);
                }
            }
        }
    }
}

#[verifier::rlimit(40)]
proof fn lemma_step_ok(rest: Seq<Seq<char>>, st: ParseState)
    requires
        state_ok(st),
        rest.len() > 0,
    ensures
        spec_step(rest, st) matches Step::Continue(_, next) ==> state_ok(next),
        spec_step(rest, st) matches Step::Finish(a) ==> !(a is Plot),
{
    let vals = rest.drop_first();
    lemma_columns_step_ok(vals, st);
    if let Ok(Resolution::Long(o)) = resolve_option(rest[0]) {
        if o == LongOption::Layout {
            lemma_scan_layout_positive(vals, st.config.width, st.config.height);
        } else if o == LongOption::Comments {
            assert(run_len(vals) <= vals.len()) by {
                lemma_run_len_bound(vals);
            }
        }
    }
}

proof fn lemma_final_series(st: ParseState)
    requires
        all_well_formed(st.config.series),
    ensures
        final_series(st).len() > 0,
        all_well_formed(final_series(st)),
{
    let autos = st.pending.map_values(|p: Seq<char>| auto_series(Some(p)));
    let s = st.config.series + autos;
    assert forall|i: int| 0 <= i < s.len() implies series_well_formed(#[trigger] s[i]) by {
        if i >= st.config.series.len() {
            assert(s[i] == autos[i - st.config.series.len()]);
        }
    }
    if s.len() == 0 {
        assert(series_well_formed(seq![auto_series(None)][0]));
    }
}

proof fn lemma_finish_ranges(st: ParseState)
    ensures
        finish(st) matches Ok(ActionView::Plot(c)) ==> range_fits_axis(c.xrange, c.xformat)
            && range_fits_axis(c.yrange, c.yformat),
{
}

proof fn lemma_scan_well_formed(rest: Seq<Seq<char>>, st: ParseState)
    requires
        state_ok(st),
    ensures
        scan_args(rest, st) matches Ok(ActionView::Plot(c)) ==> config_well_formed(c),
    decreases rest.len(),
{
    if rest.len() == 0 {
        lemma_final_series(st);
        lemma_finish_ranges(st);
    } else {
        lemma_step_ok(rest, st);
        if let Step::Continue(n, next) = spec_step(rest, st) {
            if 0 < n <= rest.len() {
                lemma_scan_well_formed(rest.skip(n as int), next);
            }
        }
    }
}

/// A configuration read from a command line has at least one series, every
/// column number counts from 1 (a series without columns has none of
/// either), the plot size is positive when the default is, a delimiter is
/// never empty, there is at least one comment marker, and the range of a
/// numeric axis has bounds that are `*` or numbers.
pub proof fn law_parsed_config_is_well_formed(args: Seq<Seq<char>>, layout: (usize, usize))
    requires
        layout.0 > 0,
        layout.1 > 0,
    ensures
        spec_parse_args(args, layout) matches Ok(ActionView::Plot(c)) ==> config_well_formed(c),
{
    lemma_scan_well_formed(args, initial_state(layout));
}

/// No word of `words` names `--key`, written out or abbreviated.
pub open spec fn no_key_option(words: Seq<Seq<char>>) -> bool {
    forall|i: int| 0 <= i < words.len() ==> resolve_option(#[trigger] words[i]) != Ok::<Resolution, Seq<char>>(Resolution::Long(LongOption::Key))
}

proof fn lemma_scan_key(rest: Seq<Seq<char>>, st: ParseState)
    requires
        !st.key_explicit,
        no_key_option(rest),
    ensures
        scan_args(rest, st) matches Ok(ActionView::Plot(c)) ==> (c.series.len() > 1 ==> c.show_key),
    decreases rest.len(),
{
    if rest.len() > 0 {
        assert(resolve_option(rest[0]) != Ok::<Resolution, Seq<char>>(Resolution::Long(LongOption::Key)));
        if let Step::Continue(n, next) = spec_step(rest, st) {
            if 0 < n <= rest.len() {
                assert(!next.key_explicit);
                let tail = rest.skip(n as int);
                assert forall|i: int| 0 <= i < tail.len() implies resolve_option(#[trigger] tail[i])
                    != Ok::<Resolution, Seq<char>>(Resolution::Long(LongOption::Key)) by {
                    assert(tail[i] == rest[i + n]);
                }
                lemma_scan_key(tail, next);
            }
        }
    }
}

/// Without a `--key` option, the key is shown exactly when there is more
/// than one series.
pub proof fn law_key_shown_for_several_series(args: Seq<Seq<char>>, layout: (usize, usize))
    requires
        no_key_option(args),
    ensures
        spec_parse_args(args, layout) matches Ok(ActionView::Plot(c)) ==> (c.show_key <==> c.series.len() > 1),
{
    lemma_scan_key(args, initial_state(layout));
    lemma_scan_key_off(args, initial_state(layout));
}

proof fn lemma_scan_key_off(rest: Seq<Seq<char>>, st: ParseState)
    requires
        !st.key_explicit,
        !st.config.show_key,
        no_key_option(rest),
    ensures
        scan_args(rest, st) matches Ok(ActionView::Plot(c)) ==> (c.series.len() <= 1 ==> !c.show_key),
    decreases rest.len(),
{
    if rest.len() > 0 {
        assert(resolve_option(rest[0]) != Ok::<Resolution, Seq<char>>(Resolution::Long(LongOption::Key)));
        if let Step::Continue(n, next) = spec_step(rest, st) {
            if 0 < n <= rest.len() {
                assert(!next.key_explicit && !next.config.show_key);
                let tail = rest.skip(n as int);
                assert forall|i: int| 0 <= i < tail.len() implies resolve_option(#[trigger] tail[i])
                    != Ok::<Resolution, Seq<char>>(Resolution::Long(LongOption::Key)) by {
                    assert(tail[i] == rest[i + n]);
                }
                lemma_scan_key_off(tail, next);
            }
        }
    }
}

proof fn lemma_run_len_append(cols: Seq<Seq<char>>, r: Seq<Seq<char>>)
    requires
        forall|i: int| 0 <= i < cols.len() ==> !ends_run(#[trigger] cols[i]),
    ensures
        run_len(cols + r) == cols.len() + run_len(r),
    decreases cols.len(),
{
    if cols.len() > 0 {
        assert((cols + r)[0] == cols[0]);
        assert((cols + r).drop_first() =~= cols.drop_first() + r);
        assert forall|i: int| 0 <= i < cols.drop_first().len() implies !ends_run(#[trigger] cols.drop_first()[i]) by {
            assert(cols.drop_first()[i] == cols[i + 1]);
        }
        lemma_run_len_append(cols.drop_first(), r);
    } else {
        assert(cols + r =~= r);
    }
}

/// The options that set one value of the plot.
pub open spec fn is_setting(o: LongOption) -> bool {
    o == LongOption::Title || o == LongOption::Logscale || o == LongOption::Style || o == LongOption::Key
        || o == LongOption::Grid || o == LongOption::Delimiter || o == LongOption::SetCommand
}

proof fn lemma_setting_ignores_tail(o: LongOption, value: Seq<char>, tail: Seq<Seq<char>>, st: ParseState)
    requires
        is_setting(o),
    ensures
        option_step(o, seq![value] + tail, st) == option_step(o, seq![value], st),
        option_step(o, seq![value], st) matches Step::Continue(n, _) ==> n == 2,
{
    assert((seq![value] + tail)[0] == value);
}

proof fn lemma_setting_and_columns(o: LongOption, value: Seq<char>, cols: Seq<Seq<char>>, st: ParseState)
    requires
        is_setting(o),
        option_step(o, seq![value], st) is Continue,
        columns_step(cols, st) is Continue,
    ensures
        columns_step(cols, option_step(o, seq![value], st)->Continue_1) is Continue,
        option_step(o, seq![value], columns_step(cols, st)->Continue_1) is Continue,
        columns_step(cols, option_step(o, seq![value], st)->Continue_1)->Continue_0 == columns_step(cols, st)->Continue_0,
        columns_step(cols, option_step(o, seq![value], st)->Continue_1)->Continue_1
            =~~= option_step(o, seq![value], columns_step(cols, st)->Continue_1)->Continue_1,
{
    match o {
        LongOption::Title => {},
        LongOption::Logscale => {},
        LongOption::Style => {},
        LongOption::Key => {},
        LongOption::Grid => {},
        LongOption::Delimiter => {},
        _ => {},
    }
}

proof fn lemma_columns_of_run(cols: Seq<Seq<char>>, tail: Seq<Seq<char>>, st: ParseState)
    requires
        cols.len() > 0,
        forall|i: int| 0 <= i < cols.len() ==> !ends_run(#[trigger] cols[i]),
        tail.len() == 0 || ends_run(tail[0]),
    ensures
        columns_step(cols + tail, st) == columns_step(cols, st),
        columns_step(cols, st) matches Step::Continue(n, _) ==> n == cols.len() + 1,
{
    lemma_run_len_append(cols, tail);
    lemma_run_len_append(cols, Seq::<Seq<char>>::empty());
    assert(cols + Seq::<Seq<char>>::empty() =~= cols);
    assert(run_len(tail) == 0);
    assert((cols + tail).take(cols.len() as int) =~= cols);
    assert(cols.take(cols.len() as int) =~= cols);
}

/// An option that sets one value of the plot gives the same parse before
/// and after a `--columns` clause, when both are accepted.
#[verifier::rlimit(60)]
pub proof fn law_setting_commutes_with_columns(
    o: LongOption,
    value: Seq<char>,
    cols: Seq<Seq<char>>,
    rest: Seq<Seq<char>>,
    st: ParseState,
)
    requires
        is_setting(o),
        cols.len() > 0,
        forall|i: int| 0 <= i < cols.len() ==> !ends_run(#[trigger] cols[i]),
        rest.len() == 0 || ends_run(rest[0]),
        option_step(o, seq![value], st) is Continue,
        column_numbers(cols) is Ok,
    ensures
        scan_args(seq![option_name(o), value, "--columns"@] + cols + rest, st)
            == scan_args(seq!["--columns"@] + cols + seq![option_name(o), value] + rest, st),
{
    law_option_name_resolves_to_itself(o);
    law_option_name_resolves_to_itself(LongOption::Columns);
    lemma_option_ends_run(o);
    lemma_option_ends_run(LongOption::Columns);
    let n: int = cols.len() as int;
    let r1 = seq![option_name(o), value, "--columns"@] + cols + rest;
    let r2 = seq!["--columns"@] + cols + seq![option_name(o), value] + rest;
    let ow = option_name(o);
    // The columns clause is accepted.
    lemma_run_len_append(cols, Seq::<Seq<char>>::empty());
    assert(cols + Seq::<Seq<char>>::empty() =~= cols);
    assert(cols.take(n) =~= cols);
    assert(columns_step(cols, st) is Continue);
    lemma_setting_and_columns(o, value, cols, st);
    // Setting first.
    let a1 = option_step(o, seq![value], st)->Continue_1;
    assert(r1.drop_first() =~= seq![value] + (seq!["--columns"@] + cols + rest));
    lemma_setting_ignores_tail(o, value, seq!["--columns"@] + cols + rest, st);
    assert(spec_step(r1, st) == option_step(o, seq![value], st));
    let r1b = r1.skip(2);
    assert(r1b =~= seq!["--columns"@] + (cols + rest));
    assert(r1b.drop_first() =~= cols + rest);
    lemma_columns_of_run(cols, rest, a1);
    assert(spec_step(r1b, a1) == columns_step(cols, a1));
    assert(r1b.skip(n + 1) =~= rest);
    // Columns first.
    assert(r2.drop_first() =~= cols + (seq![ow, value] + rest));
    lemma_columns_of_run(cols, seq![ow, value] + rest, st);
    assert(spec_step(r2, st) == columns_step(cols, st));
    let t1 = columns_step(cols, st)->Continue_1;
    let r2b = r2.skip(n + 1);
    assert(r2b =~= seq![ow] + (seq![value] + rest));
    assert(r2b.drop_first() =~= seq![value] + rest);
    lemma_setting_ignores_tail(o, value, rest, t1);
    assert(spec_step(r2b, t1) == option_step(o, seq![value], t1));
    assert(r2b.skip(2) =~= rest);
    let s2 = columns_step(cols, a1)->Continue_1;
    let t2 = option_step(o, seq![value], t1)->Continue_1;
    assert(s2 == t2);
    assert(scan_args(r1b, a1) == scan_args(rest, s2));
    assert(scan_args(r1, st) == scan_args(r1b, a1));
    assert(scan_args(r2b, t1) == scan_args(rest, t2));
    assert(scan_args(r2, st) == scan_args(r2b, t1));
}

} // verus!
