//! Reading plot points out of text columns.
use vstd::prelude::*;
use crate::model::{
    auto_series, kind_of_format, AxisValue, AxisValueKind, Config, ConfigView, PlotPoint, PointView,
    SeriesData, SeriesDataView, SeriesSpec, SeriesView, ValueView,
};
use crate::text::{
    chars_of, contains_in, contains_text, decimal, decimal_text, is_float_literal, is_float_text,
    piece_bounds, pieces, push_char, string_of, trim, trim_range, trimmed_pieces, word_bounds, words_of,
};

verus! {

/// The number of characters before the first line break.
pub open spec fn line_end(s: Seq<char>) -> nat
    decreases s.len(),
{
    if s.len() == 0 || s[0] == '\n' {
        0
    } else {
        1 + line_end(s.drop_first())
    }
}

/// What follows the first line of `s`.
pub open spec fn after_line(s: Seq<char>) -> Seq<char> {
    let e = line_end(s);
    if e < s.len() {
        s.skip(e as int + 1)
    } else {
        seq![]
    }
}

/// The first line of `s`, trimmed.
pub open spec fn first_line(s: Seq<char>) -> Seq<char> {
    trim(s.take(line_end(s) as int))
}

/// A line is a comment when it contains one of the markers.
pub open spec fn is_comment_text(line: Seq<char>, markers: Seq<Seq<char>>) -> bool {
    exists|k: int| 0 <= k < markers.len() && contains_text(line, #[trigger] markers[k])
}

/// A trimmed line that is neither empty nor a comment.
pub open spec fn is_plottable(line: Seq<char>, markers: Seq<Seq<char>>) -> bool {
    line.len() > 0 && !is_comment_text(line, markers)
}

/// The columns of a line: split on the delimiter and trimmed, or split on
/// whitespace.
pub open spec fn line_fields(line: Seq<char>, delimiter: Option<Seq<char>>) -> Seq<Seq<char>> {
    match delimiter {
        Some(d) => trimmed_pieces(line, d),
        None => words_of(line),
    }
}

/// How the rows of one series are read.
pub struct RowFormat {
    pub x_column: Option<usize>,
    pub y_column: usize,
    pub x_kind: AxisValueKind,
    pub y_kind: AxisValueKind,
    pub markers: Seq<Seq<char>>,
    pub delimiter: Option<Seq<char>>,
}

pub open spec fn missing_column(line_no: nat, column: nat) -> Seq<char> {
    "line "@ + decimal(line_no) + " does not have column "@ + decimal(column)
}

/// A value in a numeric column must be a number; in a time column it is
/// kept as text.
pub open spec fn axis_value_of(text: Seq<char>, kind: AxisValueKind, line_no: nat, axis: Seq<char>) -> Result<ValueView, Seq<char>> {
    match kind {
        AxisValueKind::Number => if is_float_text(text) {
            Ok(ValueView::Number(text))
        } else {
            Err("line "@ + decimal(line_no) + " has non-numeric "@ + axis + " value: "@ + text)
        },
        AxisValueKind::Time => Ok(ValueView::Text(text)),
    }
}

/// The point of a plottable line: its Y column, and its X column or, when
/// there is none, its position among the plotted rows, counted from 1.
pub open spec fn row_point(line: Seq<char>, line_no: nat, index: nat, f: RowFormat) -> Result<PointView, Seq<char>> {
    let cols = line_fields(line, f.delimiter);
    if f.y_column > cols.len() {
        Err(missing_column(line_no, f.y_column as nat))
    } else {
        let x = match f.x_column {
            Some(c) => if c > cols.len() {
                Err(missing_column(line_no, c as nat))
            } else {
                axis_value_of(cols[c - 1], f.x_kind, line_no, seq!['X'])
            },
            None => Ok(ValueView::Number(decimal(index + 1))),
        };
        match x {
            Err(e) => Err(e),
            Ok(xv) => match axis_value_of(cols[f.y_column - 1], f.y_kind, line_no, seq!['Y']) {
                Err(e) => Err(e),
                Ok(yv) => Ok(PointView { x: xv, y: yv }),
            },
        }
    }
}

/// The points of the lines in `rest`; the first of them is line `line_no`,
/// and `index` points came before.
pub open spec fn scan_rows(rest: Seq<char>, line_no: nat, index: nat, f: RowFormat) -> Result<Seq<PointView>, Seq<char>>
    decreases rest.len(),
{
    if rest.len() == 0 {
        Ok(seq![])
    } else {
        let line = first_line(rest);
        let next = after_line(rest);
        if next.len() >= rest.len() {
            Ok(seq![])
        } else if !is_plottable(line, f.markers) {
            scan_rows(next, line_no + 1, index, f)
        } else {
            match row_point(line, line_no, index, f) {
                Err(e) => Err(e),
                Ok(p) => match scan_rows(next, line_no + 1, index + 1, f) {
                    Err(e) => Err(e),
                    Ok(ps) => Ok(seq![p] + ps),
                },
            }
        }
    }
}

pub open spec fn points_of(data: Seq<char>, f: RowFormat) -> Result<Seq<PointView>, Seq<char>> {
    scan_rows(data, 1, 0, f)
}

pub open spec fn points_view(points: Seq<PlotPoint>) -> Seq<PointView> {
    points.map_values(|p: PlotPoint| p@)
}

pub open spec fn text_option(o: Option<&str>) -> Option<Seq<char>> {
    match o {
        Some(t) => Some(t@),
        None => None,
    }
}

pub open spec fn prepend(done: Seq<PointView>, r: Result<Seq<PointView>, Seq<char>>) -> Result<Seq<PointView>, Seq<char>> {
    match r {
        Ok(ps) => Ok(done + ps),
        Err(e) => Err(e),
    }
}

fn missing_column_message(line_no: usize, column: usize) -> (msg: String)
    ensures
        msg@ == missing_column(line_no as nat, column as nat),
{
    let mut msg = String::from_str("line ");
    msg.append(decimal_text(line_no).as_str());
    msg.append(" does not have column ");
    msg.append(decimal_text(column).as_str());
    msg
}

/// A column value: a number in a numeric column, text in a time column.
pub fn parse_axis_value(value: &str, kind: AxisValueKind, line_no: usize, axis: char) -> (r: Result<AxisValue, String>)
    ensures
        match axis_value_of(value@, kind, line_no as nat, seq![axis]) {
            Ok(v) => r matches Ok(a) && a@ == v,
            Err(e) => r matches Err(m) && m@ == e,
        },
{
    match kind {
        AxisValueKind::Number => if is_float_literal(value) {
            Ok(AxisValue::Number(String::from_str(value)))
        } else {
            let mut msg = String::from_str("line ");
            msg.append(decimal_text(line_no).as_str());
            msg.append(" has non-numeric ");
            push_char(&mut msg, axis);
            msg.append(" value: ");
            msg.append(value);
            Err(msg)
        },
        AxisValueKind::Time => Ok(AxisValue::Text(String::from_str(value))),
    }
}

fn axis_value_at(chars: &Vec<char>, bounds: (usize, usize), kind: AxisValueKind, line_no: usize, axis: char) -> (r: Result<AxisValue, String>)
    requires
        bounds.0 <= bounds.1 <= chars@.len(),
    ensures
        match axis_value_of(chars@.subrange(bounds.0 as int, bounds.1 as int), kind, line_no as nat, seq![axis]) {
            Ok(v) => r matches Ok(a) && a@ == v,
            Err(e) => r matches Err(m) && m@ == e,
        },
{
    let text = string_of(chars, bounds.0, bounds.1);
    parse_axis_value(text.as_str(), kind, line_no, axis)
}

/// The point of the trimmed, plottable line `chars[a..b]`.
fn row_point_at(
    chars: &Vec<char>,
    a: usize,
    b: usize,
    line_no: usize,
    index: usize,
    x_column: Option<usize>,
    y_column: usize,
    x_kind: AxisValueKind,
    y_kind: AxisValueKind,
    delimiter: &Option<Vec<char>>,
    f: Ghost<RowFormat>,
) -> (r: Result<PlotPoint, String>)
    requires
        a <= b <= chars@.len(),
        index < usize::MAX,
        y_column >= 1,
        x_column matches Some(c) ==> c >= 1,
        delimiter matches Some(d) ==> d@.len() > 0,
        f@.x_column == x_column,
        f@.y_column == y_column,
        f@.x_kind == x_kind,
        f@.y_kind == y_kind,
        f@.delimiter == match delimiter {
            Some(d) => Some(d@),
            None => None::<Seq<char>>,
        },
    ensures
        match row_point(chars@.subrange(a as int, b as int), line_no as nat, index as nat, f@) {
            Ok(p) => r matches Ok(q) && q@ == p,
            Err(e) => r matches Err(m) && m@ == e,
        },
{
    let bounds = match delimiter {
        Some(d) => piece_bounds(chars, a, b, d),
        None => word_bounds(chars, a, b),
    };
    let ghost cols = line_fields(chars@.subrange(a as int, b as int), f@.delimiter);
    assert(pieces(chars@, bounds@) == cols);
    if y_column > bounds.len() {
        return Err(missing_column_message(line_no, y_column));
    }
    let x = match x_column {
        Some(c) => {
            if c > bounds.len() {
                return Err(missing_column_message(line_no, c));
            }
            assert(cols[c - 1] == chars@.subrange(bounds@[c - 1].0 as int, bounds@[c - 1].1 as int));
            match axis_value_at(chars, bounds[c - 1], x_kind, line_no, 'X') {
                Ok(v) => v,
                Err(e) => return Err(e),
            }
        },
        None => AxisValue::Number(decimal_text(index + 1)),
    };
    assert(cols[y_column - 1] == chars@.subrange(bounds@[y_column - 1].0 as int, bounds@[y_column - 1].1 as int));
    match axis_value_at(chars, bounds[y_column - 1], y_kind, line_no, 'Y') {
        Ok(y) => Ok(PlotPoint { x, y }),
        Err(e) => Err(e),
    }
}

/// Whether the line `chars[a..b]` contains one of the markers.
fn is_comment_at(chars: &Vec<char>, a: usize, b: usize, markers: &Vec<Vec<char>>, mview: Ghost<Seq<Seq<char>>>) -> (c: bool)
    requires
        a <= b <= chars@.len(),
        markers@.len() == mview@.len(),
        forall|k: int| 0 <= k < markers@.len() ==> #[trigger] markers@[k]@ == mview@[k],
    ensures
        c == is_comment_text(chars@.subrange(a as int, b as int), mview@),
{
    let mut k: usize = 0;
    while k < markers.len()
        invariant
            k <= markers@.len(),
            a <= b <= chars@.len(),
            markers@.len() == mview@.len(),
            forall|j: int| 0 <= j < markers@.len() ==> #[trigger] markers@[j]@ == mview@[j],
            forall|j: int| 0 <= j < k ==> !contains_text(chars@.subrange(a as int, b as int), #[trigger] mview@[j]),
        decreases markers.len() - k,
    {
        if contains_in(chars, a, b, &markers[k]) {
            return true;
        }
        k += 1;
    }
    false
}

/// Whether a line contains one of the comment markers.
pub fn is_comment_line(line: &str, comment_markers: &[String]) -> (comment: bool)
    ensures
        comment == is_comment_text(line@, comment_markers.deep_view()),
{
    let chars = chars_of(line);
    let mut markers: Vec<Vec<char>> = Vec::new();
    let mut k: usize = 0;
    while k < comment_markers.len()
        invariant
            k <= comment_markers@.len(),
            markers@.len() == k,
            forall|j: int| 0 <= j < k ==> #[trigger] markers@[j]@ == comment_markers.deep_view()[j],
        decreases comment_markers.len() - k,
    {
        markers.push(chars_of(comment_markers[k].as_str()));
        k += 1;
    }
    assert(chars@.subrange(0, chars@.len() as int) =~= line@);
    is_comment_at(&chars, 0, chars.len(), &markers, Ghost(comment_markers.deep_view()))
}

pub open spec fn row_format(
    x_column: Option<usize>,
    y_column: usize,
    x_kind: AxisValueKind,
    y_kind: AxisValueKind,
    markers: Seq<Seq<char>>,
    delimiter: Option<Seq<char>>,
) -> RowFormat {
    RowFormat { x_column, y_column, x_kind, y_kind, markers, delimiter }
}

/// The points of the plottable lines of `data`. Lines are split at `\n` and
/// trimmed; empty lines and lines that contain a comment marker are skipped;
/// the others must have the columns asked for.
pub fn parse_points_with(
    data: &str,
    x_column: Option<usize>,
    y_column: usize,
    x_kind: AxisValueKind,
    y_kind: AxisValueKind,
    comment_markers: &[String],
    delimiter: Option<&str>,
) -> (r: Result<Vec<PlotPoint>, String>)
    requires
        y_column >= 1,
        x_column matches Some(c) ==> c >= 1,
        delimiter matches Some(d) ==> d@.len() > 0,
        data@.len() < usize::MAX,
    ensures
        match points_of(
            data@,
            row_format(x_column, y_column, x_kind, y_kind, comment_markers.deep_view(), text_option(delimiter)),
        ) {
            Ok(ps) => r matches Ok(v) && points_view(v@) == ps,
            Err(e) => r matches Err(m) && m@ == e,
        },
{
    let ghost f = row_format(x_column, y_column, x_kind, y_kind, comment_markers.deep_view(), text_option(delimiter));
    let chars = chars_of(data);
    let n = chars.len();
    let mut markers: Vec<Vec<char>> = Vec::new();
    let mut k: usize = 0;
    while k < comment_markers.len()
        invariant
            k <= comment_markers@.len(),
            markers@.len() == k,
            forall|j: int| 0 <= j < k ==> #[trigger] markers@[j]@ == comment_markers.deep_view()[j],
        decreases comment_markers.len() - k,
    {
        markers.push(chars_of(comment_markers[k].as_str()));
        k += 1;
    }
    let delim: Option<Vec<char>> = match delimiter {
        Some(d) => Some(chars_of(d)),
        None => None,
    };
    let mut points: Vec<PlotPoint> = Vec::new();
    let mut pos: usize = 0;
    let mut line_no: usize = 1;
    let mut index: usize = 0;
    assert(chars@.skip(0) =~= data@);
    while pos < n
        invariant
            n == chars@.len(),
            chars@ == data@,
            n < usize::MAX,
            pos <= n,
            index == points@.len(),
            index <= pos,
            1 <= line_no <= pos + 1,
            markers@.len() == f.markers.len(),
            forall|j: int| 0 <= j < markers@.len() ==> #[trigger] markers@[j]@ == f.markers[j],
            f == row_format(x_column, y_column, x_kind, y_kind, comment_markers.deep_view(), text_option(delimiter)),
            f.delimiter == match delim {
                Some(d) => Some(d@),
                None => None::<Seq<char>>,
            },
            delim matches Some(d) ==> d@.len() > 0,
            y_column >= 1,
            x_column matches Some(c) ==> c >= 1,
            points_of(data@, f) == prepend(points_view(points@), scan_rows(chars@.skip(pos as int), line_no as nat, index as nat, f)),
        decreases n - pos,
    {
        let ghost rest = chars@.skip(pos as int);
        let (a, b, next_pos) = next_line(&chars, pos);
        let ghost line = first_line(rest);
        assert(line == chars@.subrange(a as int, b as int));
        let ghost before = points_view(points@);
        if a < b && !is_comment_at(&chars, a, b, &markers, Ghost(f.markers)) {
            match row_point_at(&chars, a, b, line_no, index, x_column, y_column, x_kind, y_kind, &delim, Ghost(f)) {
                Ok(p) => {
                    points.push(p);
                    assert(points_view(points@) =~= before.push(p@));
                    proof {
                        let tail = scan_rows(chars@.skip(next_pos as int), line_no as nat + 1, index as nat + 1, f);
                        match tail {
                            Ok(ps) => assert(before + (seq![p@] + ps) =~= before.push(p@) + ps),
                            Err(_) => {},
                        }
                    }
                    index += 1;
                },
                Err(msg) => return Err(msg),
            }
        }
        pos = next_pos;
        line_no += 1;
    }
    assert(points_view(points@) + Seq::<PointView>::empty() =~= points_view(points@));
    Ok(points)
}

/// The points of the plottable lines of `data`, its columns split on whitespace.
pub fn parse_points(
    data: &str,
    x_column: Option<usize>,
    y_column: usize,
    x_kind: AxisValueKind,
    y_kind: AxisValueKind,
    comment_markers: &[String],
) -> (r: Result<Vec<PlotPoint>, String>)
    requires
        y_column >= 1,
        x_column matches Some(c) ==> c >= 1,
        data@.len() < usize::MAX,
    ensures
        match points_of(data@, row_format(x_column, y_column, x_kind, y_kind, comment_markers.deep_view(), None)) {
            Ok(ps) => r matches Ok(v) && points_view(v@) == ps,
            Err(e) => r matches Err(m) && m@ == e,
        },
{
    parse_points_with(data, x_column, y_column, x_kind, y_kind, comment_markers, None)
}

// ---------------------------------------------------------------------------
// Series
// ---------------------------------------------------------------------------

/// The name a series is plotted under: its input and its columns.
pub open spec fn label_of(s: SeriesView) -> Seq<char> {
    let input = match s.input {
        Some(i) => i,
        None => "stdin"@,
    };
    match s.x_column {
        Some(x) => input + " ["@ + decimal(x as nat) + ":"@ + decimal(s.y_column as nat) + "]"@,
        None => input + " ["@ + decimal(s.y_column as nat) + "]"@,
    }
}

pub fn series_label(spec: &SeriesSpec) -> (label: String)
    ensures
        label@ == label_of(spec@),
{
    let mut label = match &spec.input {
        Some(i) => i.clone(),
        None => String::from_str("stdin"),
    };
    label.append(" [");
    match spec.x_column {
        Some(x) => {
            label.append(decimal_text(x).as_str());
            label.append(":");
            label.append(decimal_text(spec.y_column).as_str());
        },
        None => {
            label.append(decimal_text(spec.y_column).as_str());
        },
    }
    label.append("]");
    label
}

/// The number of columns of the first plottable line of `rest`.
pub open spec fn first_row_width(rest: Seq<char>, markers: Seq<Seq<char>>, delimiter: Option<Seq<char>>) -> Option<nat>
    decreases rest.len(),
{
    if rest.len() == 0 {
        None
    } else {
        let line = first_line(rest);
        let next = after_line(rest);
        if next.len() >= rest.len() {
            None
        } else if is_plottable(line, markers) {
            Some(line_fields(line, delimiter).len())
        } else {
            first_row_width(next, markers, delimiter)
        }
    }
}

/// The columns of a series once they are chosen: a series given without
/// columns plots column 2 against column 1 when its first plottable row has
/// two or more columns, and column 1 against the row index otherwise.
pub open spec fn resolve_columns(s: SeriesView, data: Seq<char>, markers: Seq<Seq<char>>, delimiter: Option<Seq<char>>) -> SeriesView {
    if s.y_column != 0 {
        s
    } else if first_row_width(data, markers, delimiter) matches Some(n) && n >= 2 {
        SeriesView { x_column: Some(1), y_column: 2, ..s }
    } else {
        SeriesView { x_column: None, y_column: 1, ..s }
    }
}

/// The bounds of the next line from `pos` on, trimmed, and where the line
/// after it starts.
fn next_line(chars: &Vec<char>, pos: usize) -> (r: (usize, usize, usize))
    requires
        pos < chars@.len(),
    ensures
        pos <= r.0 <= r.1 <= chars@.len(),
        pos < r.2 <= chars@.len(),
        chars@.subrange(r.0 as int, r.1 as int) == first_line(chars@.skip(pos as int)),
        chars@.skip(r.2 as int) == after_line(chars@.skip(pos as int)),
{
    let n = chars.len();
    let ghost rest = chars@.skip(pos as int);
    let mut e = pos;
    while e < n && chars[e] != '\n'
        invariant
            pos <= e <= n,
            n == chars@.len(),
            rest == chars@.skip(pos as int),
            line_end(rest) == (e - pos) + line_end(chars@.skip(e as int)),
        decreases n - e,
    {
        assert(chars@.skip(e as int).drop_first() =~= chars@.skip(e + 1));
        e += 1;
    }
    assert(line_end(rest) == e - pos);
    assert(rest.take(e - pos) =~= chars@.subrange(pos as int, e as int));
    let (a, b) = trim_range(chars, pos, e);
    let next_pos = if e < n { e + 1 } else { n };
    assert(after_line(rest) =~= chars@.skip(next_pos as int));
    (a, b, next_pos)
}

fn resolve_columns_exec(spec: &SeriesSpec, data: &str, comment_markers: &[String], delimiter: Option<&str>) -> (r: SeriesSpec)
    requires
        delimiter matches Some(d) ==> d@.len() > 0,
    ensures
        r@ == resolve_columns(spec@, data@, comment_markers.deep_view(), text_option(delimiter)),
{
    let input = match &spec.input {
        Some(i) => Some(i.clone()),
        None => None,
    };
    if spec.y_column != 0 {
        return SeriesSpec { input, x_column: spec.x_column, y_column: spec.y_column };
    }
    let ghost mview = comment_markers.deep_view();
    let ghost dview = text_option(delimiter);
    let chars = chars_of(data);
    let n = chars.len();
    let mut markers: Vec<Vec<char>> = Vec::new();
    let mut k: usize = 0;
    while k < comment_markers.len()
        invariant
            k <= comment_markers@.len(),
            markers@.len() == k,
            mview == comment_markers.deep_view(),
            forall|j: int| 0 <= j < k ==> #[trigger] markers@[j]@ == mview[j],
        decreases comment_markers.len() - k,
    {
        markers.push(chars_of(comment_markers[k].as_str()));
        k += 1;
    }
    let delim: Option<Vec<char>> = match delimiter {
        Some(d) => Some(chars_of(d)),
        None => None,
    };
    let mut pos: usize = 0;
    assert(chars@.skip(0) =~= data@);
    while pos < n
        invariant
            n == chars@.len(),
            chars@ == data@,
            pos <= n,
            markers@.len() == mview.len(),
            forall|j: int| 0 <= j < markers@.len() ==> #[trigger] markers@[j]@ == mview[j],
            dview == match delim {
                Some(d) => Some(d@),
                None => None::<Seq<char>>,
            },
            delim matches Some(d) ==> d@.len() > 0,
            input.deep_view() == spec.input.deep_view(),
            spec.y_column == 0,
            mview == comment_markers.deep_view(),
            dview == text_option(delimiter),
            first_row_width(data@, mview, dview) == first_row_width(chars@.skip(pos as int), mview, dview),
        decreases n - pos,
    {
        let (a, b, next_pos) = next_line(&chars, pos);
        if a < b && !is_comment_at(&chars, a, b, &markers, Ghost(mview)) {
            let bounds = match &delim {
                Some(d) => piece_bounds(&chars, a, b, d),
                None => word_bounds(&chars, a, b),
            };
            assert(pieces(chars@, bounds@).len() == bounds@.len());
            return if bounds.len() >= 2 {
                SeriesSpec { input, x_column: Some(1), y_column: 2 }
            } else {
                SeriesSpec { input, x_column: None, y_column: 1 }
            };
        }
        pos = next_pos;
    }
    SeriesSpec { input, x_column: None, y_column: 1 }
}

/// The rows of one series read from `data`: its columns are chosen when it
/// has none, and a series without a single plottable row is an error.
pub open spec fn series_data_of(spec: SeriesView, data: Seq<char>, c: ConfigView) -> Result<SeriesDataView, Seq<char>> {
    let s = resolve_columns(spec, data, c.comment_markers, c.delimiter);
    let f = row_format(s.x_column, s.y_column, kind_of_format(c.xformat), kind_of_format(c.yformat), c.comment_markers, c.delimiter);
    match points_of(data, f) {
        Err(e) => Err(e),
        Ok(ps) => if ps.len() == 0 {
            Err("series "@ + label_of(s) + " has no plottable rows"@)
        } else {
            Ok(SeriesDataView { label: label_of(s), points: ps })
        },
    }
}

/// Reads the series `spec` of `config` from `data`, the text of its input.
pub fn build_series(spec: &SeriesSpec, data: &str, config: &Config) -> (r: Result<SeriesData, String>)
    requires
        spec.x_column matches Some(c) ==> c >= 1,
        config.delimiter matches Some(d) ==> d@.len() > 0,
        data@.len() < usize::MAX,
    ensures
        match series_data_of(spec@, data@, config@) {
            Ok(sd) => r matches Ok(v) && v@ == sd,
            Err(e) => r matches Err(m) && m@ == e,
        },
{
    let delimiter: Option<&str> = match &config.delimiter {
        Some(d) => Some(d.as_str()),
        None => None,
    };
    assert(text_option(delimiter) == config@.delimiter);
    let resolved = resolve_columns_exec(spec, data, config.comment_markers.as_slice(), delimiter);
    let x_kind = match &config.xformat {
        Some(f) => crate::model::axis_value_kind(Some(f.as_str())),
        None => crate::model::axis_value_kind(None),
    };
    let y_kind = match &config.yformat {
        Some(f) => crate::model::axis_value_kind(Some(f.as_str())),
        None => crate::model::axis_value_kind(None),
    };
    let points = match parse_points_with(
        data,
        resolved.x_column,
        resolved.y_column,
        x_kind,
        y_kind,
        config.comment_markers.as_slice(),
        delimiter,
    ) {
        Ok(p) => p,
        Err(e) => return Err(e),
    };
    let label = series_label(&resolved);
    if points.len() == 0 {
        let mut msg = String::from_str("series ");
        msg.append(label.as_str());
        msg.append(" has no plottable rows");
        return Err(msg);
    }
    let r = SeriesData { label, points };
    assert(r@ =~~= SeriesDataView { label: label_of(resolved@), points: points_view(r.points@) });
    Ok(r)
}

// ---------------------------------------------------------------------------
// Laws
// ---------------------------------------------------------------------------

proof fn lemma_row_index(rest: Seq<char>, line_no: nat, index: nat, f: RowFormat)
    requires
        f.x_column is None,
    ensures
        scan_rows(rest, line_no, index, f) matches Ok(ps) ==> forall|k: int|
            0 <= k < ps.len() ==> (#[trigger] ps[k]).x == ValueView::Number(decimal((index + k + 1) as nat)),
    decreases rest.len(),
{
    if rest.len() > 0 {
        let next = after_line(rest);
        if next.len() < rest.len() {
            if !is_plottable(first_line(rest), f.markers) {
                lemma_row_index(next, line_no + 1, index, f);
            } else {
                lemma_row_index(next, line_no + 1, index + 1, f);
                if let Ok(p) = row_point(first_line(rest), line_no, index, f) {
                    if let Ok(ps) = scan_rows(next, line_no + 1, index + 1, f) {
                        let all = seq![p] + ps;
                        assert forall|k: int| 0 <= k < all.len() implies (#[trigger] all[k]).x == ValueView::Number(
                            decimal((index + k + 1) as nat),
                        ) by {
                            if k > 0 {
                                assert(all[k] == ps[k - 1]);
                            }
                        }
                    }
                }
            }
        }
    }
}

/// Without an X column, the rows are plotted against their position among
/// the plotted rows: 1, 2, 3, ...
pub proof fn law_single_column_uses_row_index(data: Seq<char>, f: RowFormat)
    requires
        f.x_column is None,
    ensures
        points_of(data, f) matches Ok(ps) ==> forall|k: int|
            0 <= k < ps.len() ==> (#[trigger] ps[k]).x == ValueView::Number(decimal((k + 1) as nat)),
{
    lemma_row_index(data, 1, 0, f);
}

/// A value kept as a number is a floating-point literal.
pub open spec fn number_is_literal(v: ValueView) -> bool {
    v matches ValueView::Number(t) ==> is_float_text(t)
}

proof fn lemma_numbers_are_literals(rest: Seq<char>, line_no: nat, index: nat, f: RowFormat)
    ensures
        scan_rows(rest, line_no, index, f) matches Ok(ps) ==> forall|k: int|
            0 <= k < ps.len() ==> number_is_literal((#[trigger] ps[k]).x) && number_is_literal(ps[k].y),
    decreases rest.len(),
{
    if rest.len() > 0 {
        let next = after_line(rest);
        if next.len() < rest.len() {
            if !is_plottable(first_line(rest), f.markers) {
                lemma_numbers_are_literals(next, line_no + 1, index, f);
            } else {
                lemma_numbers_are_literals(next, line_no + 1, index + 1, f);
                crate::text::law_decimal_is_float_text(index + 1);
                if let Ok(p) = row_point(first_line(rest), line_no, index, f) {
                    if let Ok(ps) = scan_rows(next, line_no + 1, index + 1, f) {
                        let all = seq![p] + ps;
                        assert forall|k: int| 0 <= k < all.len() implies number_is_literal((#[trigger] all[k]).x)
                            && number_is_literal(all[k].y) by {
                            if k > 0 {
                                assert(all[k] == ps[k - 1]);
                            }
                        }
                    }
                }
            }
        }
    }
}

/// Every value read as a number, and every row index, is a floating-point
/// literal.
pub proof fn law_numbers_are_float_literals(data: Seq<char>, f: RowFormat)
    ensures
        points_of(data, f) matches Ok(ps) ==> forall|k: int|
            0 <= k < ps.len() ==> number_is_literal((#[trigger] ps[k]).x) && number_is_literal(ps[k].y),
{
    lemma_numbers_are_literals(data, 1, 0, f);
}

/// A series given without columns reads like `--columns 1 2` when the first
/// plottable row has two or more columns, and like `--columns 1` otherwise.
pub proof fn law_omitted_columns(input: Option<Seq<char>>, data: Seq<char>, c: ConfigView)
    ensures
        series_data_of(auto_series(input), data, c) == series_data_of(
            if first_row_width(data, c.comment_markers, c.delimiter) matches Some(n) && n >= 2 {
                SeriesView { input, x_column: Some(1), y_column: 2 }
            } else {
                SeriesView { input, x_column: None, y_column: 1 }
            },
            data,
            c,
        ),
{
}

/// A value read from a column is the text of that column: on a numeric axis
/// a number is kept exactly as written, sign and all, and on a time axis the
/// text is kept as it is.
pub proof fn law_axis_value_is_column_text(text: Seq<char>, line_no: nat, axis: Seq<char>)
    ensures
        is_float_text(text) ==> axis_value_of(text, AxisValueKind::Number, line_no, axis) == Ok::<
            ValueView,
            Seq<char>,
        >(ValueView::Number(text)),
        axis_value_of(text, AxisValueKind::Time, line_no, axis) == Ok::<ValueView, Seq<char>>(
            ValueView::Text(text),
        ),
{
}

/// The value that `kind` makes of a column's text, when it accepts it.
pub open spec fn kept_value(text: Seq<char>, kind: AxisValueKind) -> ValueView {
    match kind {
        AxisValueKind::Number => ValueView::Number(text),
        AxisValueKind::Time => ValueView::Text(text),
    }
}

/// The point of a row holds the texts of the row's columns: its Y value is
/// the text of the Y column, and its X value that of the X column when there
/// is one.
pub proof fn law_point_holds_column_texts(line: Seq<char>, line_no: nat, index: nat, f: RowFormat)
    ensures
        row_point(line, line_no, index, f) matches Ok(p) ==> {
            let cols = line_fields(line, f.delimiter);
            &&& p.y == kept_value(cols[f.y_column - 1], f.y_kind)
            &&& f.x_column matches Some(c) ==> p.x == kept_value(cols[c - 1], f.x_kind)
        },
{
}

/// Splitting `l + "\n" + data` at its first line break gives `l` and `data`
/// back, when `l` holds no line break.
proof fn lemma_line_split(l: Seq<char>, data: Seq<char>)
    requires
        forall|k: int| 0 <= k < l.len() ==> l[k] != '\n',
    ensures
        line_end(l + seq!['\n'] + data) == l.len(),
        after_line(l + seq!['\n'] + data) == data,
        first_line(l + seq!['\n'] + data) == trim(l),
    decreases l.len(),
{
    let all = l + seq!['\n'] + data;
    if l.len() > 0 {
        assert(all.drop_first() =~= l.drop_first() + seq!['\n'] + data);
        lemma_line_split(l.drop_first(), data);
    } else {
        assert(all[0] == '\n');
    }
    assert(all.skip(l.len() as int + 1) =~= data);
    assert(all.take(l.len() as int) =~= l);
}

/// Lines that are blank or comments play no part in choosing the columns of
/// a series given without any: putting one in front of the data changes
/// neither the width of the first plottable row nor the columns chosen.
pub proof fn law_column_choice_skips_blank_and_comment_lines(
    l: Seq<char>,
    data: Seq<char>,
    markers: Seq<Seq<char>>,
    delimiter: Option<Seq<char>>,
    s: SeriesView,
)
    requires
        forall|k: int| 0 <= k < l.len() ==> l[k] != '\n',
        trim(l).len() == 0 || is_comment_text(trim(l), markers),
    ensures
        first_row_width(l + seq!['\n'] + data, markers, delimiter) == first_row_width(data, markers, delimiter),
        resolve_columns(s, l + seq!['\n'] + data, markers, delimiter) == resolve_columns(s, data, markers, delimiter),
{
    lemma_line_split(l, data);
}

/// The first line that is neither blank nor a comment decides the columns:
/// the width is its number of fields.
pub proof fn law_first_plottable_line_gives_width(
    l: Seq<char>,
    data: Seq<char>,
    markers: Seq<Seq<char>>,
    delimiter: Option<Seq<char>>,
)
    requires
        forall|k: int| 0 <= k < l.len() ==> l[k] != '\n',
        trim(l).len() > 0,
        !is_comment_text(trim(l), markers),
    ensures
        first_row_width(l + seq!['\n'] + data, markers, delimiter) == Some(line_fields(trim(l), delimiter).len()),
{
    lemma_line_split(l, data);
}

/// A blank or comment line gives no point: the rows after it are read as if
/// it were not there, only one line further down.
pub proof fn law_rows_skip_blank_and_comment_lines(l: Seq<char>, data: Seq<char>, line_no: nat, index: nat, f: RowFormat)
    requires
        forall|k: int| 0 <= k < l.len() ==> l[k] != '\n',
        trim(l).len() == 0 || is_comment_text(trim(l), f.markers),
    ensures
        scan_rows(l + seq!['\n'] + data, line_no, index, f) == scan_rows(data, line_no + 1, index, f),
{
    lemma_line_split(l, data);
}

} // verus!
