//! The gnuplot script that draws a plot, and the one-line summary of its
//! parameters.
use vstd::prelude::*;
use crate::model::{
    kind_of_format, style_name, AxisRange, AxisValue, AxisValueKind, Config, ConfigView, LogScale,
    PlotPoint, PointView, RangeView, SeriesData, SeriesDataView, ValueView,
};
use crate::text::{push_char, chars_of, contains_text, decimal, decimal_text, is_text, join, join_texts, occurs_at};

verus! {

/// The terminal gnuplot draws on.
#[derive(Debug, Clone, Copy, PartialEq, Eq, Structural)]
pub enum TerminalMode {
    BlockBraille,
    Dumb,
}

pub open spec fn terminal_line(c: ConfigView, terminal: TerminalMode) -> Seq<char> {
    let size = " size "@ + decimal(c.width as nat) + ","@ + decimal(c.height as nat);
    match terminal {
        TerminalMode::BlockBraille => "set term block braille ansi"@ + size,
        TerminalMode::Dumb => "set term dumb ansi"@ + size,
    }
}

/// The command that selects the terminal and the plot size.
pub fn terminal_command(config: &Config, terminal: TerminalMode) -> (command: String)
    ensures
        command@ == terminal_line(config@, terminal),
{
    let mut command = String::from_str(
        match terminal {
            TerminalMode::BlockBraille => "set term block braille ansi",
            TerminalMode::Dumb => "set term dumb ansi",
        },
    );
    command.append(" size ");
    command.append(decimal_text(config.width).as_str());
    command.append(",");
    command.append(decimal_text(config.height).as_str());
    command
}

/// The terminal to draw on: the dumb one when it was asked for or when the
/// block terminal is not available.
pub fn preferred_terminal(config: &Config, block_available: bool) -> (terminal: TerminalMode)
    ensures
        terminal == (if config.dumb || !block_available { TerminalMode::Dumb } else { TerminalMode::BlockBraille }),
{
    if config.dumb || !block_available {
        TerminalMode::Dumb
    } else {
        TerminalMode::BlockBraille
    }
}

// ---------------------------------------------------------------------------
// Quoting
// ---------------------------------------------------------------------------

/// One character as it is written inside a single-quoted gnuplot string.
pub open spec fn escaped_char(c: char) -> Seq<char> {
    if c == '\\' {
        seq!['\\', '\\']
    } else if c == '\'' {
        seq!['\\', '\'']
    } else {
        seq![c]
    }
}

/// `text` with each backslash doubled and each quote preceded by a backslash.
pub open spec fn escaped(text: Seq<char>) -> Seq<char>
    decreases text.len(),
{
    if text.len() == 0 {
        seq![]
    } else {
        escaped(text.drop_last()) + escaped_char(text.last())
    }
}

/// Reads back a text written by `escaped`: a backslash takes the next
/// character as it is.
pub open spec fn unescaped(text: Seq<char>) -> Seq<char>
    decreases text.len(),
{
    if text.len() == 0 {
        seq![]
    } else if text[0] == '\\' && text.len() >= 2 {
        seq![text[1]] + unescaped(text.skip(2))
    } else {
        seq![text[0]] + unescaped(text.drop_first())
    }
}

/// Escapes `text` for a single-quoted gnuplot string.
pub fn escape_gnuplot(text: &str) -> (out: String)
    ensures
        out@ == escaped(text@),
{
    let chars = chars_of(text);
    let mut out = String::new();
    let mut k: usize = 0;
    while k < chars.len()
        invariant
            k <= chars@.len(),
            chars@ == text@,
            out@ == escaped(chars@.take(k as int)),
        decreases chars.len() - k,
    {
        let c = chars[k];
        assert(chars@.take(k + 1).drop_last() =~= chars@.take(k as int));
        if c == '\\' {
            out.append("\\\\");
            proof { reveal_strlit("\\\\"); }
        } else if c == '\'' {
            out.append("\\'");
            proof { reveal_strlit("\\'"); }
        } else {
            push_char(&mut out, c);
        }
        assert(out@ =~= escaped(chars@.take(k + 1)));
        k += 1;
    }
    assert(chars@.take(chars@.len() as int) =~= chars@);
    out
}

/// A bound of a range: `*` stays as it is, a time is quoted.
pub open spec fn range_bound_text(value: Seq<char>, kind: AxisValueKind) -> Seq<char> {
    if value == "*"@ {
        "*"@
    } else {
        match kind {
            AxisValueKind::Number => value,
            AxisValueKind::Time => "'"@ + escaped(value) + "'"@,
        }
    }
}

pub fn format_range_bound(value: &str, kind: AxisValueKind) -> (out: String)
    ensures
        out@ == range_bound_text(value@, kind),
{
    let chars = chars_of(value);
    if is_text(&chars, "*") {
        return String::from_str("*");
    }
    match kind {
        AxisValueKind::Number => String::from_str(value),
        AxisValueKind::Time => {
            let mut out = String::from_str("'");
            out.append(escape_gnuplot(value).as_str());
            out.append("'");
            out
        },
    }
}

/// The message for a failed write of the script.
pub open spec fn write_error_text(detail: Seq<char>) -> Seq<char> {
    "failed to write gnuplot input: "@ + detail
}

pub fn io_error(detail: &str) -> (msg: String)
    ensures
        msg@ == write_error_text(detail@),
{
    let mut msg = String::from_str("failed to write gnuplot input: ");
    msg.append(detail);
    msg
}

// ---------------------------------------------------------------------------
// The script
// ---------------------------------------------------------------------------

/// The `timefmt` of a plot: the format of its time axis, which must be the
/// same on both axes when both hold times.
pub open spec fn time_format(c: ConfigView) -> Result<Option<Seq<char>>, Seq<char>> {
    let xk = kind_of_format(c.xformat);
    let yk = kind_of_format(c.yformat);
    if xk == AxisValueKind::Time && yk == AxisValueKind::Time {
        if c.xformat != c.yformat {
            Err("time-formatted x and y axes currently require the same --format"@)
        } else {
            Ok(c.xformat)
        }
    } else if xk == AxisValueKind::Time {
        Ok(c.xformat)
    } else if yk == AxisValueKind::Time {
        Ok(c.yformat)
    } else {
        Ok(None)
    }
}

/// `prefix 'text'` on a line of its own, when there is a text.
pub open spec fn quoted_line(prefix: Seq<char>, text: Option<Seq<char>>) -> Seq<char> {
    match text {
        Some(t) => prefix + " '"@ + escaped(t) + "'\n"@,
        None => seq![],
    }
}

pub open spec fn range_line(axis: Seq<char>, range: Option<RangeView>, kind: AxisValueKind) -> Seq<char> {
    match range {
        Some(r) => "set "@ + axis + "range ["@ + range_bound_text(r.min, kind) + ":"@ + range_bound_text(r.max, kind)
            + "]\n"@,
        None => seq![],
    }
}

pub open spec fn logscale_line(l: LogScale) -> Seq<char> {
    match l {
        LogScale::Off => seq![],
        LogScale::X => "set logscale x\n"@,
        LogScale::Y => "set logscale y\n"@,
        LogScale::XY => "set logscale xy\n"@,
    }
}

/// Each command followed by a line break.
pub open spec fn command_lines(commands: Seq<Seq<char>>) -> Seq<char>
    decreases commands.len(),
{
    if commands.len() == 0 {
        seq![]
    } else {
        command_lines(commands.drop_last()) + commands.last() + "\n"@
    }
}

/// The settings of the plot, one per line: those before the log scale, the
/// log scale, and the extra `set` commands.
pub open spec fn settings_text(c: ConfigView, terminal: TerminalMode, timefmt: Option<Seq<char>>) -> Seq<char> {
    settings_head(c, terminal, timefmt) + logscale_line(c.logscale) + command_lines(c.extra_set_commands)
}

/// The settings before the log scale: terminal, key, grid, texts, time
/// axes, formats and ranges.
#[verifier::opaque]
pub open spec fn settings_head(c: ConfigView, terminal: TerminalMode, timefmt: Option<Seq<char>>) -> Seq<char> {
    let xk = kind_of_format(c.xformat);
    let yk = kind_of_format(c.yformat);
    terminal_line(c, terminal) + "\n"@
        + (if c.show_key { "set key\n"@ } else { "unset key\n"@ })
        + (if c.show_grid { "set grid\n"@ } else { "unset grid\n"@ })
        + quoted_line("set title"@, c.title)
        + quoted_line("set xlabel"@, c.xlabel)
        + quoted_line("set ylabel"@, c.ylabel)
        + (if xk == AxisValueKind::Time { "set xdata time\n"@ } else { seq![] })
        + (if yk == AxisValueKind::Time { "set ydata time\n"@ } else { seq![] })
        + quoted_line("set timefmt"@, timefmt)
        + quoted_line("set format x"@, c.xformat)
        + quoted_line("set format y"@, c.yformat)
        + range_line("x"@, c.xrange, xk)
        + range_line("y"@, c.yrange, yk)
}

/// One inline data source of the plot command.
pub open spec fn plot_item(label: Seq<char>, c: ConfigView) -> Seq<char> {
    "'-' using 1:2 with "@ + style_name(c.style) + " title '"@ + escaped(label) + "'"@
}

pub open spec fn plot_items(series: Seq<SeriesDataView>, c: ConfigView) -> Seq<char>
    decreases series.len(),
{
    if series.len() == 0 {
        seq![]
    } else if series.len() == 1 {
        plot_item(series[0].label, c)
    } else {
        plot_items(series.drop_last(), c) + ", "@ + plot_item(series.last().label, c)
    }
}

pub open spec fn value_text(v: ValueView) -> Seq<char> {
    match v {
        ValueView::Number(t) => t,
        ValueView::Text(t) => t,
    }
}

pub open spec fn point_lines(points: Seq<PointView>) -> Seq<char>
    decreases points.len(),
{
    if points.len() == 0 {
        seq![]
    } else {
        point_lines(points.drop_last()) + value_text(points.last().x) + " "@ + value_text(points.last().y) + "\n"@
    }
}

/// The points of each series, each block ended by `e`.
pub open spec fn data_blocks(series: Seq<SeriesDataView>) -> Seq<char>
    decreases series.len(),
{
    if series.len() == 0 {
        seq![]
    } else {
        data_blocks(series.drop_last()) + point_lines(series.last().points) + "e\n"@
    }
}

/// The whole script: the settings, the plot command, and the inline data.
pub open spec fn script_text(c: ConfigView, series: Seq<SeriesDataView>, terminal: TerminalMode) -> Result<Seq<char>, Seq<char>> {
    match time_format(c) {
        Err(e) => Err(e),
        Ok(timefmt) => Ok(settings_text(c, terminal, timefmt) + "plot "@ + plot_items(series, c) + "\n"@
            + data_blocks(series)),
    }
}

pub open spec fn series_views(series: Seq<SeriesData>) -> Seq<SeriesDataView> {
    series.map_values(|s: SeriesData| s@)
}

fn append_quoted_line(out: &mut String, prefix: &str, text: &Option<String>)
    ensures
        final(out)@ == old(out)@ + quoted_line(prefix@, text.deep_view()),
{
    if let Some(t) = text {
        out.append(prefix);
        out.append(" '");
        out.append(escape_gnuplot(t.as_str()).as_str());
        out.append("'\n");
    } else {
        assert(old(out)@ + Seq::<char>::empty() =~= old(out)@);
    }
}

fn append_range_line(out: &mut String, axis: &str, range: &Option<AxisRange>, kind: AxisValueKind)
    ensures
        final(out)@ == old(out)@ + range_line(axis@, crate::model::range_view(*range), kind),
{
    if let Some(r) = range {
        out.append("set ");
        out.append(axis);
        out.append("range [");
        out.append(format_range_bound(r.min.as_str(), kind).as_str());
        out.append(":");
        out.append(format_range_bound(r.max.as_str(), kind).as_str());
        out.append("]\n");
    } else {
        assert(old(out)@ + Seq::<char>::empty() =~= old(out)@);
    }
}

fn same_format(a: &Option<String>, b: &Option<String>) -> (same: bool)
    ensures
        same == (a.deep_view() == b.deep_view()),
{
    match (a, b) {
        (Some(x), Some(y)) => {
            let same = x.eq(y);
            assert(same ==> x@ == y@);
            same
        },
        (None, None) => true,
        _ => false,
    }
}

fn format_kind(format: &Option<String>) -> (kind: AxisValueKind)
    ensures
        kind == kind_of_format(format.deep_view()),
{
    match format {
        Some(f) => crate::model::axis_value_kind(Some(f.as_str())),
        None => crate::model::axis_value_kind(None),
    }
}

fn append_value(out: &mut String, v: &AxisValue)
    ensures
        final(out)@ == old(out)@ + value_text(v@),
{
    match v {
        AxisValue::Number(t) => out.append(t.as_str()),
        AxisValue::Text(t) => out.append(t.as_str()),
    }
}

/// The gnuplot script that draws `series` with the settings of `config` on
/// `terminal`.
pub fn gnuplot_script(config: &Config, series: &Vec<SeriesData>, terminal: TerminalMode) -> (r: Result<String, String>)
    ensures
        match script_text(config@, series_views(series@), terminal) {
            Ok(t) => r matches Ok(s) && s@ == t,
            Err(e) => r matches Err(m) && m@ == e,
        },
{
    reveal(settings_head);
    let ghost c = config@;
    let x_kind = format_kind(&config.xformat);
    let y_kind = format_kind(&config.yformat);
    let timefmt: &Option<String> = if x_kind == AxisValueKind::Time && y_kind == AxisValueKind::Time {
        if !same_format(&config.xformat, &config.yformat) {
            return Err(String::from_str("time-formatted x and y axes currently require the same --format"));
        }
        &config.xformat
    } else if x_kind == AxisValueKind::Time {
        &config.xformat
    } else if y_kind == AxisValueKind::Time {
        &config.yformat
    } else {
        &None
    };
    assert(time_format(c) == Ok::<Option<Seq<char>>, Seq<char>>(timefmt.deep_view()));
    let mut out = terminal_command(config, terminal);
    out.append("\n");
    out.append(if config.show_key { "set key\n" } else { "unset key\n" });
    out.append(if config.show_grid { "set grid\n" } else { "unset grid\n" });
    append_quoted_line(&mut out, "set title", &config.title);
    append_quoted_line(&mut out, "set xlabel", &config.xlabel);
    append_quoted_line(&mut out, "set ylabel", &config.ylabel);
    if x_kind == AxisValueKind::Time {
        out.append("set xdata time\n");
    }
    let ghost after_x = out@;
    if y_kind == AxisValueKind::Time {
        out.append("set ydata time\n");
    }
    append_quoted_line(&mut out, "set timefmt", timefmt);
    append_quoted_line(&mut out, "set format x", &config.xformat);
    append_quoted_line(&mut out, "set format y", &config.yformat);
    append_range_line(&mut out, "x", &config.xrange, x_kind);
    append_range_line(&mut out, "y", &config.yrange, y_kind);
    match config.logscale {
        LogScale::Off => {},
        LogScale::X => out.append("set logscale x\n"),
        LogScale::Y => out.append("set logscale y\n"),
        LogScale::XY => out.append("set logscale xy\n"),
    }
    let ghost before_commands = out@;
    let commands = &config.extra_set_commands;
    let mut k: usize = 0;
    while k < commands.len()
        invariant
            k <= commands@.len(),
            out@ == before_commands + command_lines(commands.deep_view().take(k as int)),
        decreases commands.len() - k,
    {
        assert(commands.deep_view().take(k + 1).drop_last() =~= commands.deep_view().take(k as int));
        out.append(commands[k].as_str());
        out.append("\n");
        k += 1;
    }
    assert(commands.deep_view().take(commands@.len() as int) =~= commands.deep_view());
    assert(out@ =~= settings_text(c, terminal, timefmt.deep_view()));
    let ghost settings = out@;
    out.append("plot ");
    let ghost sv = series_views(series@);
    let mut k: usize = 0;
    while k < series.len()
        invariant
            k <= series@.len(),
            sv == series_views(series@),
            c == config@,
            out@ == settings + "plot "@ + plot_items(sv.take(k as int), c),
        decreases series.len() - k,
    {
        assert(sv.take(k + 1).drop_last() =~= sv.take(k as int));
        if k > 0 {
            out.append(", ");
        } else {
            assert(sv.take(0) =~= Seq::<SeriesDataView>::empty());
        }
        out.append("'-' using 1:2 with ");
        out.append(config.style.gnuplot_name());
        out.append(" title '");
        out.append(escape_gnuplot(series[k].label.as_str()).as_str());
        out.append("'");
        k += 1;
    }
    assert(sv.take(series@.len() as int) =~= sv);
    out.append("\n");
    let ghost header = out@;
    let mut k: usize = 0;
    while k < series.len()
        invariant
            k <= series@.len(),
            sv == series_views(series@),
            out@ == header + data_blocks(sv.take(k as int)),
        decreases series.len() - k,
    {
        assert(sv.take(k + 1).drop_last() =~= sv.take(k as int));
        let points = &series[k].points;
        let ghost pv = sv[k as int].points;
        let ghost before = out@;
        let mut j: usize = 0;
        while j < points.len()
            invariant
                j <= points@.len(),
                pv == points@.map_values(|p: PlotPoint| p@),
                out@ == before + point_lines(pv.take(j as int)),
            decreases points.len() - j,
        {
            assert(pv.take(j + 1).drop_last() =~= pv.take(j as int));
            append_value(&mut out, &points[j].x);
            out.append(" ");
            append_value(&mut out, &points[j].y);
            out.append("\n");
            j += 1;
        }
        assert(pv.take(points@.len() as int) =~= pv);
        out.append("e\n");
        k += 1;
    }
    assert(sv.take(series@.len() as int) =~= sv);
    Ok(out)
}

/// The script for the block terminal.
pub fn write_gnuplot_script(config: &Config, series: &Vec<SeriesData>) -> (r: Result<String, String>)
    ensures
        match script_text(config@, series_views(series@), TerminalMode::BlockBraille) {
            Ok(t) => r matches Ok(s) && s@ == t,
            Err(e) => r matches Err(m) && m@ == e,
        },
{
    gnuplot_script(config, series, TerminalMode::BlockBraille)
}

// ---------------------------------------------------------------------------
// The parameter summary
// ---------------------------------------------------------------------------

pub open spec fn optional_part(prefix: Seq<char>, text: Option<Seq<char>>) -> Seq<Seq<char>> {
    match text {
        Some(t) => seq![prefix + t],
        None => seq![],
    }
}

pub open spec fn range_part(prefix: Seq<char>, range: Option<RangeView>) -> Seq<Seq<char>> {
    match range {
        Some(r) => seq![prefix + "["@ + r.min + ":"@ + r.max + "]"@],
        None => seq![],
    }
}

pub open spec fn logscale_axes(l: LogScale) -> Seq<char> {
    match l {
        LogScale::Off => seq![],
        LogScale::X => "x"@,
        LogScale::Y => "y"@,
        LogScale::XY => "xy"@,
    }
}

pub open spec fn on_off(b: bool) -> Seq<char> {
    if b { "on"@ } else { "off"@ }
}

/// The series labels, joined, when there are series.
pub open spec fn series_part(labels: Seq<Seq<char>>) -> Seq<Seq<char>> {
    if labels.len() > 0 {
        seq!["series="@ + join(labels, ", "@)]
    } else {
        seq![]
    }
}

/// The texts and ranges that were set.
pub open spec fn text_parts(c: ConfigView) -> Seq<Seq<char>> {
    optional_part("title="@, c.title) + optional_part("xlabel="@, c.xlabel) + optional_part("ylabel="@, c.ylabel)
        + optional_part("format.x="@, c.xformat) + optional_part("format.y="@, c.yformat)
        + range_part("range.x="@, c.xrange) + range_part("range.y="@, c.yrange)
}

/// The log scale when there is one, then style, key and grid.
pub open spec fn look_parts(c: ConfigView) -> Seq<Seq<char>> {
    (if c.logscale != LogScale::Off { seq!["logscale="@ + logscale_axes(c.logscale)] } else { seq![] })
        + seq!["style="@ + style_name(c.style), "key="@ + on_off(c.show_key), "grid="@ + on_off(c.show_grid)]
}

/// The delimiter, comment markers other than the default, size and terminal.
pub open spec fn input_parts(c: ConfigView) -> Seq<Seq<char>> {
    optional_part("delimiter="@, c.delimiter)
        + (if c.comment_markers != seq!["#"@] {
            seq!["comments="@ + join(c.comment_markers, ","@)]
        } else {
            seq![]
        })
        + seq![
            "layout="@ + decimal(c.width as nat) + "x"@ + decimal(c.height as nat),
            "terminal="@ + (if c.dumb { "dumb"@ } else { "auto"@ }),
        ]
}

pub open spec fn summary_parts(c: ConfigView, labels: Seq<Seq<char>>) -> Seq<Seq<char>> {
    series_part(labels) + text_parts(c) + look_parts(c) + input_parts(c)
}

/// `params: ` and the parts joined with ` | `.
pub open spec fn summary_text(c: ConfigView, series: Seq<SeriesDataView>) -> Seq<char> {
    "params: "@ + join(summary_parts(c, series.map_values(|s: SeriesDataView| s.label)), " | "@)
}

fn push_part(parts: &mut Vec<String>, a: &str, b: &str)
    ensures
        final(parts).deep_view() == old(parts).deep_view().push(a@ + b@),
{
    let mut p = String::from_str(a);
    p.append(b);
    let ghost before = parts.deep_view();
    parts.push(p);
    assert(parts.deep_view() =~= before.push(a@ + b@));
}

fn push_optional_part(parts: &mut Vec<String>, prefix: &str, text: &Option<String>)
    ensures
        final(parts).deep_view() == old(parts).deep_view() + optional_part(prefix@, text.deep_view()),
{
    match text {
        Some(t) => push_part(parts, prefix, t.as_str()),
        None => assert(old(parts).deep_view() + Seq::<Seq<char>>::empty() =~= old(parts).deep_view()),
    }
}

fn push_range_part(parts: &mut Vec<String>, prefix: &str, range: &Option<AxisRange>)
    ensures
        final(parts).deep_view() == old(parts).deep_view() + range_part(prefix@, crate::model::range_view(*range)),
{
    match range {
        Some(r) => {
            let mut p = String::from_str(prefix);
            p.append("[");
            p.append(r.min.as_str());
            p.append(":");
            p.append(r.max.as_str());
            p.append("]");
            let ghost before = parts.deep_view();
            parts.push(p);
            assert(parts.deep_view() =~= before + range_part(prefix@, crate::model::range_view(*range)));
        },
        None => assert(old(parts).deep_view() + Seq::<Seq<char>>::empty() =~= old(parts).deep_view()),
    }
}

fn push_series_part(parts: &mut Vec<String>, series: &Vec<SeriesData>)
    ensures
        final(parts).deep_view() == old(parts).deep_view() + series_part(
            series_views(series@).map_values(|s: SeriesDataView| s.label),
        ),
{
    let ghost labels = series_views(series@).map_values(|s: SeriesDataView| s.label);
    if series.len() == 0 {
        assert(old(parts).deep_view() + Seq::<Seq<char>>::empty() =~= old(parts).deep_view());
        return;
    }
    let mut names: Vec<String> = Vec::new();
    let mut k: usize = 0;
    while k < series.len()
        invariant
            k <= series@.len(),
            labels == series_views(series@).map_values(|s: SeriesDataView| s.label),
            names.deep_view() =~= labels.take(k as int),
        decreases series.len() - k,
    {
        let ghost prev = names.deep_view();
        names.push(series[k].label.clone());
        assert(names.deep_view() =~= prev.push(labels[k as int]));
        k += 1;
    }
    assert(labels.take(series@.len() as int) =~= labels);
    let joined = join_texts(&names, ", ");
    push_part(parts, "series=", joined.as_str());
}

fn push_label_parts(parts: &mut Vec<String>, title: &Option<String>, xlabel: &Option<String>, ylabel: &Option<String>)
    ensures
        final(parts).deep_view() =~= old(parts).deep_view() + optional_part("title="@, title.deep_view())
            + optional_part("xlabel="@, xlabel.deep_view()) + optional_part("ylabel="@, ylabel.deep_view()),
{
    push_optional_part(parts, "title=", title);
    push_optional_part(parts, "xlabel=", xlabel);
    push_optional_part(parts, "ylabel=", ylabel);
}

fn push_format_parts(
    parts: &mut Vec<String>,
    xformat: &Option<String>,
    yformat: &Option<String>,
    xrange: &Option<AxisRange>,
    yrange: &Option<AxisRange>,
)
    ensures
        final(parts).deep_view() =~= old(parts).deep_view() + optional_part("format.x="@, xformat.deep_view())
            + optional_part("format.y="@, yformat.deep_view()) + range_part("range.x="@, crate::model::range_view(*xrange))
            + range_part("range.y="@, crate::model::range_view(*yrange)),
{
    push_optional_part(parts, "format.x=", xformat);
    push_optional_part(parts, "format.y=", yformat);
    push_range_part(parts, "range.x=", xrange);
    push_range_part(parts, "range.y=", yrange);
}

fn push_look_parts(parts: &mut Vec<String>, config: &Config)
    ensures
        final(parts).deep_view() =~= old(parts).deep_view() + look_parts(config@),
{
    match config.logscale {
        LogScale::Off => {},
        LogScale::X => push_part(parts, "logscale=", "x"),
        LogScale::Y => push_part(parts, "logscale=", "y"),
        LogScale::XY => push_part(parts, "logscale=", "xy"),
    }
    push_part(parts, "style=", config.style.gnuplot_name());
    push_part(parts, "key=", if config.show_key { "on" } else { "off" });
    push_part(parts, "grid=", if config.show_grid { "on" } else { "off" });
}

/// Whether the comment markers are the default ones: `#` alone.
fn is_default_markers(markers: &Vec<String>) -> (default: bool)
    ensures
        default == (markers.deep_view() == seq!["#"@]),
{
    if markers.len() != 1 {
        assert(markers.deep_view().len() != seq!["#"@].len());
        return false;
    }
    let m = chars_of(markers[0].as_str());
    let same = is_text(&m, "#");
    if same {
        assert(markers.deep_view() =~= seq!["#"@]);
    } else {
        assert(markers.deep_view()[0] != seq!["#"@][0]);
    }
    same
}

fn push_input_parts(parts: &mut Vec<String>, config: &Config)
    ensures
        final(parts).deep_view() =~= old(parts).deep_view() + input_parts(config@),
{
    let ghost c = config@;
    push_optional_part(parts, "delimiter=", &config.delimiter);
    let ghost a0 = parts.deep_view();
    if !is_default_markers(&config.comment_markers) {
        let joined = join_texts(&config.comment_markers, ",");
        push_part(parts, "comments=", joined.as_str());
    }
    assert(parts.deep_view() =~= a0 + (if c.comment_markers != seq!["#"@] {
        seq!["comments="@ + join(c.comment_markers, ","@)]
    } else {
        Seq::<Seq<char>>::empty()
    }));
    let ghost a1 = parts.deep_view();
    let mut layout = decimal_text(config.width);
    layout.append("x");
    layout.append(decimal_text(config.height).as_str());
    assert("layout="@ + layout@ =~= "layout="@ + decimal(c.width as nat) + "x"@ + decimal(c.height as nat));
    push_part(parts, "layout=", layout.as_str());
    let terminal = if config.dumb { "dumb" } else { "auto" };
    assert(terminal@ == (if c.dumb { "dumb"@ } else { "auto"@ }));
    push_part(parts, "terminal=", terminal);
    assert(parts.deep_view() =~= a1 + seq![
        "layout="@ + decimal(c.width as nat) + "x"@ + decimal(c.height as nat),
        "terminal="@ + (if c.dumb { "dumb"@ } else { "auto"@ }),
    ]);
}

/// A one-line summary of the parameters of a plot.
#[verifier::rlimit(60)]
pub fn parameter_summary(config: &Config, series: &Vec<SeriesData>) -> (summary: String)
    ensures
        summary@ == summary_text(config@, series_views(series@)),
{
    let ghost c = config@;
    let ghost labels = series_views(series@).map_values(|s: SeriesDataView| s.label);
    let mut parts: Vec<String> = Vec::new();
    push_series_part(&mut parts, series);
    let ghost p1 = parts.deep_view();
    assert(p1 =~= series_part(labels));
    push_label_parts(&mut parts, &config.title, &config.xlabel, &config.ylabel);
    push_format_parts(&mut parts, &config.xformat, &config.yformat, &config.xrange, &config.yrange);
    let ghost p3 = parts.deep_view();
    assert(p3 =~= p1 + text_parts(c));
    push_look_parts(&mut parts, config);
    let ghost p4 = parts.deep_view();
    push_input_parts(&mut parts, config);
    assert(parts.deep_view() =~= p4 + input_parts(c));
    assert(p4 =~= p3 + look_parts(c));
    assert(parts.deep_view() =~= summary_parts(c, labels));
    let mut summary = String::from_str("params: ");
    summary.append(join_texts(&parts, " | ").as_str());
    summary
}

// ---------------------------------------------------------------------------
// Laws
// ---------------------------------------------------------------------------

proof fn lemma_escaped_front(s: Seq<char>)
    requires
        s.len() > 0,
    ensures
        escaped(s) == escaped_char(s[0]) + escaped(s.drop_first()),
    decreases s.len(),
{
    if s.len() == 1 {
        assert(s.drop_last() =~= Seq::<char>::empty());
        assert(s.drop_first() =~= Seq::<char>::empty());
        assert(escaped_char(s[0]) + Seq::<char>::empty() =~= escaped_char(s[0]));
    } else {
        lemma_escaped_front(s.drop_last());
        assert(s.drop_last().drop_first() =~= s.drop_first().drop_last());
        assert(s.drop_first().last() == s.last());
        assert(escaped_char(s[0]) + escaped(s.drop_first().drop_last()) + escaped_char(s.last())
            =~= escaped_char(s[0]) + (escaped(s.drop_first().drop_last()) + escaped_char(s.last())));
    }
}

/// Escaping loses nothing: reading the escaped text back gives the text.
pub proof fn law_escape_reads_back(text: Seq<char>)
    ensures
        unescaped(escaped(text)) == text,
    decreases text.len(),
{
    if text.len() > 0 {
        lemma_escaped_front(text);
        law_escape_reads_back(text.drop_first());
        let c = text[0];
        let e = escaped_char(c) + escaped(text.drop_first());
        if c == '\\' || c == '\'' {
            assert(e.skip(2) =~= escaped(text.drop_first()));
        } else {
            assert(e.drop_first() =~= escaped(text.drop_first()));
        }
        assert(seq![c] + text.drop_first() =~= text);
    }
}

/// The script line that asks for the log scale `l`, written out.
pub open spec fn expected_logscale_line(l: LogScale) -> Seq<char> {
    match l {
        LogScale::Off => seq![],
        LogScale::X => "set logscale x\n"@,
        LogScale::Y => "set logscale y\n"@,
        LogScale::XY => "set logscale xy\n"@,
    }
}

/// The same plot without a log scale.
pub open spec fn without_logscale(c: ConfigView) -> ConfigView {
    ConfigView { logscale: LogScale::Off, ..c }
}

/// Where the log-scale line stands in the script: after the settings that
/// come before it.
pub open spec fn logscale_position(c: ConfigView, terminal: TerminalMode) -> int {
    match time_format(c) {
        Ok(tf) => settings_head(c, terminal, tf).len() as int,
        Err(_) => 0,
    }
}

/// Asking for a log scale adds exactly one line to the script, which names
/// the axes asked for (`set logscale x`, `y` or `xy`); the rest of the script
/// is the one written without a log scale, and so are its errors.
pub proof fn law_logscale_adds_its_line(c: ConfigView, series: Seq<SeriesDataView>, terminal: TerminalMode)
    ensures
        script_text(c, series, terminal) is Ok <==> script_text(without_logscale(c), series, terminal) is Ok,
        script_text(c, series, terminal) matches Err(e) ==> script_text(without_logscale(c), series, terminal)
            == Err::<Seq<char>, Seq<char>>(e),
        script_text(c, series, terminal) matches Ok(s) ==> script_text(without_logscale(c), series, terminal) matches Ok(
            s0,
        ) && {
            let i = logscale_position(c, terminal);
            0 <= i <= s0.len() && s == s0.take(i) + expected_logscale_line(c.logscale) + s0.skip(i)
        },
{
    let off = without_logscale(c);
    assert(time_format(off) == time_format(c));
    if let Ok(tf) = time_format(c) {
        lemma_head_ignores_logscale(c, off, terminal, tf);
        lemma_plot_items_ignore_logscale(series, c, off);
        let head = settings_head(c, terminal, tf);
        let line = logscale_line(c.logscale);
        let tail = command_lines(c.extra_set_commands) + "plot "@ + plot_items(series, c) + "\n"@ + data_blocks(series);
        assert(line == expected_logscale_line(c.logscale));
        lemma_split_around(head, line, tail);
        lemma_split_around(head, logscale_line(LogScale::Off), tail);
        let cm = command_lines(c.extra_set_commands);
        let pi = plot_items(series, c);
        let db = data_blocks(series);
        assert(settings_text(c, terminal, tf) == head + line + cm);
        assert(settings_text(off, terminal, tf) == head + seq![] + cm);
        assert((head + line + cm) + "plot "@ + pi + "\n"@ + db =~= head + line + tail);
        assert((head + seq![] + cm) + "plot "@ + pi + "\n"@ + db =~= head + tail);
        assert(script_text(c, series, terminal) == Ok::<Seq<char>, Seq<char>>(head + line + tail));
        assert(script_text(off, series, terminal) == Ok::<Seq<char>, Seq<char>>(head + tail));
        let s0 = head + tail;
        let i = head.len() as int;
        assert(s0.take(i) + line + s0.skip(i) == head + line + tail);
    } else {
        assert(script_text(c, series, terminal) == script_text(off, series, terminal));
    }
}

/// The settings before the log scale do not depend on it.
proof fn lemma_head_ignores_logscale(c: ConfigView, off: ConfigView, terminal: TerminalMode, tf: Option<Seq<char>>)
    requires
        off == (ConfigView { logscale: LogScale::Off, ..c }),
    ensures
        settings_head(off, terminal, tf) == settings_head(c, terminal, tf),
{
    reveal(settings_head);
}

proof fn lemma_split_around(head: Seq<char>, line: Seq<char>, tail: Seq<char>)
    ensures
        (head + tail).take(head.len() as int) == head,
        (head + tail).skip(head.len() as int) == tail,
        head + line + tail == head + (line + tail),
        line.len() == 0 ==> head + line + tail == head + tail,
{
    assert((head + tail).take(head.len() as int) =~= head);
    assert((head + tail).skip(head.len() as int) =~= tail);
    assert(head + line + tail =~= head + (line + tail));
    if line.len() == 0 {
        assert(head + line + tail =~= head + tail);
    }
}

proof fn lemma_plot_items_ignore_logscale(series: Seq<SeriesDataView>, c: ConfigView, d: ConfigView)
    requires
        c.style == d.style,
    ensures
        plot_items(series, c) == plot_items(series, d),
    decreases series.len(),
{
    if series.len() > 1 {
        lemma_plot_items_ignore_logscale(series.drop_last(), c, d);
    }
}

/// The summary part that names the log scale `l`, written out.
pub open spec fn expected_logscale_part(l: LogScale) -> Seq<char> {
    match l {
        LogScale::Off => seq![],
        LogScale::X => "logscale=x"@,
        LogScale::Y => "logscale=y"@,
        LogScale::XY => "logscale=xy"@,
    }
}

/// Each part of a list occurs in the list joined.
proof fn lemma_join_contains(names: Seq<Seq<char>>, sep: Seq<char>, k: int)
    requires
        0 <= k < names.len(),
    ensures
        contains_text(join(names, sep), names[k]),
    decreases names.len(),
{
    let j = join(names, sep);
    if names.len() == 1 {
        assert(occurs_at(j, names[k], 0)) by {
            assert(j.subrange(0, names[k].len() as int) =~= names[k]);
        }
    } else if k == names.len() - 1 {
        let front = join(names.drop_last(), sep) + sep;
        assert(occurs_at(j, names[k], front.len() as int)) by {
            assert(j.subrange(front.len() as int, front.len() + names[k].len() as int) =~= names[k]);
        }
    } else {
        let rest = names.drop_last();
        lemma_join_contains(rest, sep, k);
        let p = choose|p: int| occurs_at(join(rest, sep), rest[k], p);
        assert(occurs_at(j, names[k], p)) by {
            assert(j.subrange(p, p + names[k].len()) =~= join(rest, sep).subrange(p, p + rest[k].len()));
        }
    }
}

/// A plot with a log scale has a summary part that names its axes
/// (`logscale=x`, `logscale=y` or `logscale=xy`), placed among the other
/// parts, which are those of the same plot without a log scale; the summary
/// text shows that part.
pub proof fn law_summary_names_logscale(c: ConfigView, series: Seq<SeriesDataView>)
    requires
        c.logscale != LogScale::Off,
    ensures
        ({
            let off = ConfigView { logscale: LogScale::Off, ..c };
            let labels = series.map_values(|s: SeriesDataView| s.label);
            let part = expected_logscale_part(c.logscale);
            &&& exists|k: int|
                #![trigger summary_parts(off, labels).insert(k, part)]
                0 <= k <= summary_parts(off, labels).len() && summary_parts(c, labels) == summary_parts(off, labels).insert(
                    k,
                    part,
                )
            &&& contains_text(summary_text(c, series), part)
        }),
{
    let off = ConfigView { logscale: LogScale::Off, ..c };
    let labels = series.map_values(|s: SeriesDataView| s.label);
    let part = expected_logscale_part(c.logscale);
    reveal_strlit("logscale=");
    reveal_strlit("logscale=x");
    reveal_strlit("logscale=y");
    reveal_strlit("logscale=xy");
    reveal_strlit("x");
    reveal_strlit("y");
    reveal_strlit("xy");
    assert(part =~= "logscale="@ + logscale_axes(c.logscale));
    let front = series_part(labels) + text_parts(c);
    assert(text_parts(off) == text_parts(c));
    assert(input_parts(off) == input_parts(c));
    let k = front.len() as int;
    let p0 = summary_parts(off, labels);
    let p = summary_parts(c, labels);
    assert(p =~= p0.insert(k, part));
    assert(p[k] == part);
    lemma_join_contains(p, " | "@, k);
    let j = join(p, " | "@);
    let q = choose|q: int| occurs_at(j, part, q);
    let t = summary_text(c, series);
    reveal_strlit("params: ");
    assert(t =~= "params: "@ + j);
    assert(occurs_at(t, part, q + 8)) by {
        assert(t.subrange(q + 8, q + 8 + part.len()) =~= j.subrange(q, q + part.len()));
    }
}

} // verus!
