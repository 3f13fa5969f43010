//! The data that the command line and the input files are turned into.
use vstd::prelude::*;

verus! {

/// How a log scale applies to the axes.
#[derive(Debug, Clone, Copy, PartialEq, Eq, Structural)]
pub enum LogScale {
    Off,
    X,
    Y,
    XY,
}

/// How gnuplot draws each series.
#[derive(Debug, Clone, Copy, PartialEq, Eq, Structural)]
pub enum PlotStyle {
    Lines,
    Points,
    LinesPoints,
}

/// Whether the values on an axis are numbers or time stamps.
#[derive(Debug, Clone, Copy, PartialEq, Eq, Structural)]
pub enum AxisValueKind {
    Number,
    Time,
}

/// The lower and upper bound of an axis, as given on the command line.
#[derive(Debug, Clone, PartialEq, Eq)]
pub struct AxisRange {
    pub min: String,
    pub max: String,
}

/// One series to plot: where its rows come from and which columns it uses.
///
/// Columns are counted from 1. A `y_column` of 0 marks a series whose columns
/// were not given: they are chosen from the first plottable row of its input.
#[derive(Debug, Clone, PartialEq, Eq)]
pub struct SeriesSpec {
    pub input: Option<String>,
    pub x_column: Option<usize>,
    pub y_column: usize,
}

/// Everything a plot run needs to know, as given on the command line.
#[derive(Debug, Clone, PartialEq, Eq)]
pub struct Config {
    pub series: Vec<SeriesSpec>,
    pub title: Option<String>,
    pub xlabel: Option<String>,
    pub ylabel: Option<String>,
    pub xformat: Option<String>,
    pub yformat: Option<String>,
    pub xrange: Option<AxisRange>,
    pub yrange: Option<AxisRange>,
    pub logscale: LogScale,
    pub style: PlotStyle,
    pub show_key: bool,
    pub show_grid: bool,
    pub delimiter: Option<String>,
    pub comment_markers: Vec<String>,
    pub extra_set_commands: Vec<String>,
    pub width: usize,
    pub height: usize,
    pub dumb: bool,
}

/// What the command line asks for.
#[derive(Debug, Clone, PartialEq, Eq)]
pub enum CliAction {
    Help,
    Detail,
    Plot(Config),
}

/// A value on one axis of a plotted point.
///
/// A number is held in the text form it had in the input (or, for a row
/// index, in decimal); that text is a valid floating-point literal.
#[derive(Debug, Clone, PartialEq, Eq)]
pub enum AxisValue {
    Number(String),
    Text(String),
}

/// One plotted point.
#[derive(Debug, Clone, PartialEq, Eq)]
pub struct PlotPoint {
    pub x: AxisValue,
    pub y: AxisValue,
}

/// The rows read for one series, with the label it is plotted under.
#[derive(Debug, Clone, PartialEq, Eq)]
pub struct SeriesData {
    pub label: String,
    pub points: Vec<PlotPoint>,
}

// ---------------------------------------------------------------------------
// Mathematical views
// ---------------------------------------------------------------------------

#[verifier::ext_equal]
pub struct RangeView {
    pub min: Seq<char>,
    pub max: Seq<char>,
}

#[verifier::ext_equal]
pub struct SeriesView {
    pub input: Option<Seq<char>>,
    pub x_column: Option<usize>,
    pub y_column: usize,
}

#[verifier::ext_equal]
pub struct ConfigView {
    pub series: Seq<SeriesView>,
    pub title: Option<Seq<char>>,
    pub xlabel: Option<Seq<char>>,
    pub ylabel: Option<Seq<char>>,
    pub xformat: Option<Seq<char>>,
    pub yformat: Option<Seq<char>>,
    pub xrange: Option<RangeView>,
    pub yrange: Option<RangeView>,
    pub logscale: LogScale,
    pub style: PlotStyle,
    pub show_key: bool,
    pub show_grid: bool,
    pub delimiter: Option<Seq<char>>,
    pub comment_markers: Seq<Seq<char>>,
    pub extra_set_commands: Seq<Seq<char>>,
    pub width: usize,
    pub height: usize,
    pub dumb: bool,
}

#[verifier::ext_equal]
pub enum ActionView {
    Help,
    Detail,
    Plot(ConfigView),
}

#[verifier::ext_equal]
pub enum ValueView {
    Number(Seq<char>),
    Text(Seq<char>),
}

#[verifier::ext_equal]
pub struct PointView {
    pub x: ValueView,
    pub y: ValueView,
}

#[verifier::ext_equal]
pub struct SeriesDataView {
    pub label: Seq<char>,
    pub points: Seq<PointView>,
}

impl View for AxisRange {
    type V = RangeView;

    open spec fn view(&self) -> RangeView {
        RangeView { min: self.min@, max: self.max@ }
    }
}

pub open spec fn range_view(r: Option<AxisRange>) -> Option<RangeView> {
    match r {
        Some(r) => Some(r@),
        None => None,
    }
}

impl View for SeriesSpec {
    type V = SeriesView;

    open spec fn view(&self) -> SeriesView {
        SeriesView { input: self.input.deep_view(), x_column: self.x_column, y_column: self.y_column }
    }
}

impl View for Config {
    type V = ConfigView;

    open spec fn view(&self) -> ConfigView {
        ConfigView {
            series: self.series@.map_values(|s: SeriesSpec| s@),
            title: self.title.deep_view(),
            xlabel: self.xlabel.deep_view(),
            ylabel: self.ylabel.deep_view(),
            xformat: self.xformat.deep_view(),
            yformat: self.yformat.deep_view(),
            xrange: range_view(self.xrange),
            yrange: range_view(self.yrange),
            logscale: self.logscale,
            style: self.style,
            show_key: self.show_key,
            show_grid: self.show_grid,
            delimiter: self.delimiter.deep_view(),
            comment_markers: self.comment_markers.deep_view(),
            extra_set_commands: self.extra_set_commands.deep_view(),
            width: self.width,
            height: self.height,
            dumb: self.dumb,
        }
    }
}

impl View for CliAction {
    type V = ActionView;

    open spec fn view(&self) -> ActionView {
        match self {
            CliAction::Help => ActionView::Help,
            CliAction::Detail => ActionView::Detail,
            CliAction::Plot(c) => ActionView::Plot(c@),
        }
    }
}

impl View for AxisValue {
    type V = ValueView;

    open spec fn view(&self) -> ValueView {
        match self {
            AxisValue::Number(s) => ValueView::Number(s@),
            AxisValue::Text(s) => ValueView::Text(s@),
        }
    }
}

impl View for PlotPoint {
    type V = PointView;

    open spec fn view(&self) -> PointView {
        PointView { x: self.x@, y: self.y@ }
    }
}

impl View for SeriesData {
    type V = SeriesDataView;

    open spec fn view(&self) -> SeriesDataView {
        SeriesDataView { label: self.label@, points: self.points@.map_values(|p: PlotPoint| p@) }
    }
}

/// A series whose columns are chosen from its first plottable row.
pub open spec fn auto_series(input: Option<Seq<char>>) -> SeriesView {
    SeriesView { input, x_column: None, y_column: 0 }
}

impl SeriesSpec {
    /// A series whose columns are chosen from its first plottable row.
    pub fn auto(input: Option<String>) -> (spec: SeriesSpec)
        ensures
            spec@ == auto_series(input.deep_view()),
    {
        SeriesSpec { input, x_column: None, y_column: 0 }
    }

    /// Whether the columns of this series are still to be chosen.
    pub fn is_auto(&self) -> (auto: bool)
        ensures
            auto == (self.y_column == 0),
    {
        self.y_column == 0
    }
}

// ---------------------------------------------------------------------------
// Plot style names and axis kinds
// ---------------------------------------------------------------------------

pub open spec fn style_name(style: PlotStyle) -> Seq<char> {
    match style {
        PlotStyle::Lines => "lines"@,
        PlotStyle::Points => "points"@,
        PlotStyle::LinesPoints => "linespoints"@,
    }
}

impl PlotStyle {
    /// The name gnuplot knows this style by.
    pub fn gnuplot_name(self) -> (name: &'static str)
        ensures
            name@ == style_name(self),
    {
        match self {
            PlotStyle::Lines => "lines",
            PlotStyle::Points => "points",
            PlotStyle::LinesPoints => "linespoints",
        }
    }
}

/// The conversion letters that make a format a time format.
pub open spec fn is_time_conversion(c: char) -> bool {
    c == 'Y' || c == 'y' || c == 'm' || c == 'b' || c == 'B' || c == 'd' || c == 'H' || c == 'I'
        || c == 'M' || c == 'S' || c == 'T' || c == 'a' || c == 'A' || c == 'j' || c == 'p'
}

/// A format looks like a time format when some `%` in it is directly followed
/// by a date or time conversion letter.
pub open spec fn is_time_format(format: Seq<char>) -> bool {
    exists|i: int| 0 <= i < format.len() - 1 && #[trigger] time_conversion_at(format, i)
}

/// A `%` at `i` followed by a date or time conversion letter.
pub open spec fn time_conversion_at(format: Seq<char>, i: int) -> bool {
    format[i] == '%' && is_time_conversion(format[i + 1])
}

pub open spec fn kind_of_format(format: Option<Seq<char>>) -> AxisValueKind {
    match format {
        Some(f) => if is_time_format(f) { AxisValueKind::Time } else { AxisValueKind::Number },
        None => AxisValueKind::Number,
    }
}

/// Whether the characters of a format contain a time conversion.
pub fn looks_like_time_format(format: &str) -> (found: bool)
    ensures
        found == is_time_format(format@),
{
    let chars = crate::text::chars_of(format);
    let n = chars.len();
    let mut i: usize = 0;
    while n > 0 && i < n - 1
        invariant
            n == chars@.len(),
            i <= n,
            chars@ == format@,
            forall|j: int| 0 <= j < i ==> !#[trigger] time_conversion_at(format@, j),
        decreases n - i,
    {
        let c = chars[i];
        let next = chars[i + 1];
        assert(time_conversion_at(format@, i as int) <==> (c == '%' && is_time_conversion(next)));
        if c == '%' && (next == 'Y' || next == 'y' || next == 'm' || next == 'b' || next == 'B'
            || next == 'd' || next == 'H' || next == 'I' || next == 'M' || next == 'S' || next == 'T'
            || next == 'a' || next == 'A' || next == 'j' || next == 'p') {
            return true;
        }
        i += 1;
    }
    false
}

/// Whether values on an axis with this format are numbers or time stamps.
pub fn axis_value_kind(format: Option<&str>) -> (kind: AxisValueKind)
    ensures
        kind == kind_of_format(
            match format {
                Some(f) => Some(f@),
                None => None,
            },
        ),
{
    match format {
        Some(f) => if looks_like_time_format(f) { AxisValueKind::Time } else { AxisValueKind::Number },
        None => AxisValueKind::Number,
    }
}

} // verus!
