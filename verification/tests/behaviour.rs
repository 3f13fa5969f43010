use tgplot::cli::{
    env_size, layout_from_env, layout_from_terminal, parse_args, parse_logscale,
    parse_positive_usize, parse_style, parse_toggle, resolve_long_option,
    validate_numeric_range_bound, HELP,
};
use tgplot::data::{build_series, is_comment_line, parse_axis_value, parse_points, parse_points_with, series_label};
use tgplot::detail::{detail_text, DETAIL};
use tgplot::gnuplot::{
    escape_gnuplot, format_range_bound, gnuplot_script, io_error, parameter_summary,
    preferred_terminal, terminal_command, TerminalMode,
};
use tgplot::model::{
    axis_value_kind, AxisRange, AxisValue, AxisValueKind, CliAction, Config, LogScale, PlotPoint,
    looks_like_time_format, PlotStyle, SeriesData, SeriesSpec,
};
use tgplot::text::{decimal_text, is_float_literal, parse_usize};

const LAYOUT: (usize, usize) = (100, 28);

fn args(words: &[&str]) -> Vec<String> {
    words.iter().map(|w| w.to_string()).collect()
}

fn plot(words: &[&str]) -> Config {
    match parse_args(args(words), LAYOUT).unwrap() {
        CliAction::Plot(config) => config,
        other => panic!("expected a plot, got {:?}", other),
    }
}

fn error(words: &[&str]) -> String {
    parse_args(args(words), LAYOUT).unwrap_err()
}

fn spec(input: Option<&str>, x: Option<usize>, y: usize) -> SeriesSpec {
    SeriesSpec { input: input.map(|s| s.to_string()), x_column: x, y_column: y }
}

fn number(text: &str) -> AxisValue {
    AxisValue::Number(text.to_string())
}

// ---------------------------------------------------------------- options

#[test]
fn help_and_detail_end_the_parse() {
    assert_eq!(parse_args(args(&["-h"]), LAYOUT).unwrap(), CliAction::Help);
    assert_eq!(parse_args(args(&["--help"]), LAYOUT).unwrap(), CliAction::Help);
    assert_eq!(parse_args(args(&["--he"]), LAYOUT).unwrap(), CliAction::Help);
    assert_eq!(parse_args(args(&["--detail", "--bogus"]), LAYOUT).unwrap(), CliAction::Detail);
    assert_eq!(parse_args(args(&["--title", "t", "-h"]), LAYOUT).unwrap(), CliAction::Help);
}

#[test]
fn abbreviations_resolve_when_unique() {
    assert_eq!(resolve_long_option("--col").unwrap(), "--columns");
    assert_eq!(resolve_long_option("--ti").unwrap(), "--title");
    assert_eq!(resolve_long_option("--in").unwrap(), "--in");
    assert_eq!(resolve_long_option("using").unwrap(), "using");
    assert_eq!(resolve_long_option("--zzz").unwrap(), "--zzz");
    assert_eq!(resolve_long_option("-x").unwrap(), "-x");
    let err = resolve_long_option("--d").unwrap_err();
    assert_eq!(
        err,
        format!("ambiguous option: --d (could be --detail, --delimiter, --dumb)\n\n{HELP}")
    );
    assert_eq!(plot(&["--sty", "points"]).style, PlotStyle::Points);
}

#[test]
fn unknown_and_unexpected_words_are_errors() {
    assert_eq!(error(&["-x"]), format!("unknown option: -x\n\n{HELP}"));
    assert_eq!(error(&["--zzz"]), format!("unknown option: --zzz\n\n{HELP}"));
    assert_eq!(error(&["foo"]), format!("unexpected argument: foo\n\n{HELP}"));
}

#[test]
fn missing_values_are_reported() {
    assert_eq!(error(&["--in"]), "missing value for --in");
    assert_eq!(error(&["--in", "--dumb"]), "missing value for --in");
    assert_eq!(error(&["--title"]), "missing value for --title");
    assert_eq!(error(&["--logscale"]), "missing value for --logscale");
    assert_eq!(error(&["--style"]), "missing value for --style");
    assert_eq!(error(&["--key"]), "missing value for --key");
    assert_eq!(error(&["--grid"]), "missing value for --grid");
    assert_eq!(error(&["--delimiter"]), "missing value for --delimiter");
    assert_eq!(error(&["--set"]), "missing value for --set");
    assert_eq!(error(&["--comments"]), "missing marker for --comments");
    assert_eq!(error(&["--label"]), "missing axis for --label");
    assert_eq!(error(&["--format", "--dumb"]), "missing axis for --format");
    assert_eq!(error(&["--range"]), "missing axis for --range");
    assert_eq!(error(&["--layout"]), "missing key for --layout");
    assert_eq!(error(&["--columns"]), format!("missing column after --columns\n\n{HELP}"));
    assert_eq!(error(&["using", "--dumb"]), format!("missing column after --columns\n\n{HELP}"));
}

#[test]
fn axis_clauses_check_their_axes() {
    assert_eq!(error(&["--label", "x"]), "missing label text for --label axis: x");
    assert_eq!(error(&["--label", "z", "t"]), "invalid --label axis: z (expected x or y)");
    assert_eq!(error(&["--format", "y"]), "missing format string for --format axis: y");
    assert_eq!(error(&["--format", "w", "%e"]), "invalid --format axis: w (expected x or y)");
    assert_eq!(error(&["--range", "x"]), "missing MIN value for --range");
    assert_eq!(error(&["--range", "x", "1"]), "missing MAX value for --range");
    assert_eq!(error(&["--range", "z", "1", "2"]), "invalid --range axis: z (expected x or y)");
    // A value may start with a dash: it is taken as it is.
    assert_eq!(plot(&["--label", "y", "-flux-"]).ylabel, Some("-flux-".to_string()));
}

#[test]
fn value_options_check_their_values() {
    assert_eq!(error(&["--logscale", "q"]), "invalid --logscale: q (expected x, y, or xy)");
    assert_eq!(error(&["--style", "bars"]), "invalid --style: bars (expected lines, points, or linespoints)");
    assert_eq!(
        error(&["--key", "maybe"]),
        "invalid value for --key: maybe (expected yes/no, y/n, on/off, or true/false)"
    );
    assert_eq!(
        error(&["--grid", "1"]),
        "invalid value for --grid: 1 (expected yes/no, y/n, on/off, or true/false)"
    );
    assert_eq!(error(&["--delimiter", ""]), "empty value for --delimiter");
    assert_eq!(plot(&["--logscale", "yx"]).logscale, LogScale::XY);
    assert_eq!(plot(&["--logscale", "y"]).logscale, LogScale::Y);
    assert_eq!(plot(&["--delimiter", ","]).delimiter, Some(",".to_string()));
    assert!(plot(&["--dumb"]).dumb);
    assert_eq!(
        plot(&["--set", "a", "--set", "b"]).extra_set_commands,
        vec!["a".to_string(), "b".to_string()]
    );
}

#[test]
fn single_value_parsers() {
    assert_eq!(parse_style("linespoints"), Ok(PlotStyle::LinesPoints));
    assert_eq!(parse_logscale("xy"), Ok(LogScale::XY));
    assert_eq!(parse_toggle("off", "--grid"), Ok(false));
    assert_eq!(parse_toggle("true", "--grid"), Ok(true));
    assert_eq!(parse_positive_usize("+5", "X column"), Ok(5));
    assert_eq!(parse_positive_usize("007", "X column"), Ok(7));
    assert_eq!(parse_positive_usize("0", "X column"), Err("X column must be greater than 0".to_string()));
    assert_eq!(parse_positive_usize("-1", "Y column"), Err("invalid Y column: -1".to_string()));
    assert_eq!(
        parse_positive_usize("18446744073709551616", "Y column"),
        Err("invalid Y column: 18446744073709551616".to_string())
    );
    assert_eq!(parse_usize("18446744073709551615"), Some(18446744073709551615));
    assert_eq!(parse_usize(""), None);
    assert_eq!(parse_usize("+"), None);
}

#[test]
fn column_clauses() {
    assert_eq!(error(&["using", "0"]), "Y column must be greater than 0");
    assert_eq!(error(&["using", "a", "2"]), "invalid X column: a");
    assert_eq!(error(&["using", "1", "b"]), "invalid Y column: b");
    assert_eq!(error(&["using", "1", "2", "0"]), "Y column must be greater than 0");
    let config = plot(&["--in", "a.txt", "--columns", "1", "2", "3"]);
    assert_eq!(config.series, vec![spec(Some("a.txt"), Some(1), 2), spec(Some("a.txt"), Some(1), 3)]);
    assert!(config.show_key);
    let config = plot(&["using", "4"]);
    assert_eq!(config.series, vec![spec(None, None, 4)]);
    let config = plot(&["--in", "a", "b", "--columns", "1", "2", "3"]);
    assert_eq!(
        config.series,
        vec![
            spec(Some("a"), Some(1), 2),
            spec(Some("a"), Some(1), 3),
            spec(Some("b"), Some(1), 2),
            spec(Some("b"), Some(1), 3),
        ]
    );
}

#[test]
fn omitted_columns_leave_series_to_be_chosen() {
    let config = plot(&[]);
    assert_eq!(config.series, vec![SeriesSpec::auto(None)]);
    assert!(config.series[0].is_auto());
    assert!(!config.show_key);
    assert!(config.show_grid);
    assert_eq!(config.comment_markers, vec!["#".to_string()]);
    assert_eq!((config.width, config.height), LAYOUT);
    let config = plot(&["--in", "a", "b"]);
    assert_eq!(config.series, vec![SeriesSpec::auto(Some("a".to_string())), SeriesSpec::auto(Some("b".to_string()))]);
    assert!(config.show_key);
    let config = plot(&["--in", "a", "using", "2", "--in", "b"]);
    assert_eq!(config.series, vec![spec(Some("a"), None, 2), SeriesSpec::auto(Some("b".to_string()))]);
}

#[test]
fn explicit_key_wins_over_the_default() {
    let config = plot(&["--in", "a", "b", "--key", "no"]);
    assert!(!config.show_key);
    let config = plot(&["--key", "on"]);
    assert!(config.show_key);
}

#[test]
fn layout_clauses() {
    let config = plot(&["--layout", "width", "100"]);
    assert_eq!((config.width, config.height), (100, LAYOUT.1));
    let config = plot(&["--layout", "width", "120", "height", "50"]);
    assert_eq!((config.width, config.height), (120, 50));
    assert_eq!(error(&["--layout", "width"]), "missing value for --layout key: width");
    assert_eq!(error(&["--layout", "width", "0"]), "--layout width must be greater than 0");
    assert_eq!(error(&["--layout", "height", "tall"]), "invalid --layout height: tall");
    assert_eq!(error(&["--layout", "depth", "3"]), "invalid --layout key: depth (expected width or height)");
}

#[test]
fn ranges_on_numeric_axes_must_be_numbers() {
    assert_eq!(error(&["--range", "y", "a", "1"]), "invalid value for --yrange: a");
    assert_eq!(error(&["--range", "x", "0", "z"]), "invalid value for --xrange: z");
    let config = plot(&["--range", "x", "*", "1e3", "y", "-inf", ".5"]);
    assert_eq!(config.xrange, Some(AxisRange { min: "*".to_string(), max: "1e3".to_string() }));
    let config = plot(&["--format", "y", "%H:%M", "--range", "y", "01:00", "02:00"]);
    assert_eq!(config.yrange, Some(AxisRange { min: "01:00".to_string(), max: "02:00".to_string() }));
}

#[test]
fn float_literals_follow_std() {
    for text in ["0", "1.", ".5", "1e3", "1E-3", "+2.5e+10", "-inf", "Infinity", "NaN", "nan", "1.e5"] {
        assert!(is_float_literal(text), "{text}");
        assert!(text.parse::<f64>().is_ok(), "{text}");
    }
    for text in ["", ".", "e5", "1e", "1e+", "--1", "0x10", "1 ", "in", "infinit", "1.2.3"] {
        assert!(!is_float_literal(text), "{text}");
        assert!(text.parse::<f64>().is_err(), "{text}");
    }
    assert_eq!(validate_numeric_range_bound("*", "--xrange"), Ok(()));
    assert_eq!(
        validate_numeric_range_bound("two", "--xrange"),
        Err("invalid value for --xrange: two".to_string())
    );
}

#[test]
fn dash_names_standard_input() {
    let config = plot(&["--in", "-", "--columns", "2"]);
    assert_eq!(config.series, vec![spec(Some("-"), None, 2)]);
    let config = plot(&["--in", "a.txt", "-", "using", "1", "3"]);
    assert_eq!(config.series, vec![spec(Some("a.txt"), Some(1), 3), spec(Some("-"), Some(1), 3)]);
    let config = plot(&["--in", "-"]);
    assert_eq!(config.series, vec![spec(Some("-"), None, 0)]);
    assert_eq!(error(&["--in", "-x"]), "missing value for --in");
}

#[test]
fn dash_ends_other_runs() {
    assert_eq!(error(&["--comments", "-", "#"]), "missing marker for --comments");
    assert_eq!(error(&["--columns", "-"]), format!("missing column after --columns\n\n{HELP}"));
    assert_eq!(error(&["--range", "-", "0", "1"]), "missing axis for --range");
    assert_eq!(error(&["--label", "-", "t"]), "missing axis for --label");
    assert_eq!(error(&["--layout", "-", "3"]), "missing key for --layout");
}

#[test]
fn parsed_configurations_are_well_formed() {
    let config = plot(&["--in", "a", "--comments", "%", "!", "--range", "x", "*", "2", "--delimiter", ";"]);
    assert_eq!(config.comment_markers, vec!["%".to_string(), "!".to_string()]);
    assert_eq!(config.delimiter, Some(";".to_string()));
    assert!(config.width > 0 && config.height > 0);
    assert_eq!(config.series.len(), 1);
    assert_eq!(plot(&[]).comment_markers, vec!["#".to_string()]);
    assert_eq!(error(&["--range", "x", "*", "b"]), "invalid value for --xrange: b");
}

#[test]
fn repeated_in_reads_like_one_in() {
    assert_eq!(
        parse_args(args(&["--in", "a", "--in", "b", "using", "2"]), LAYOUT),
        parse_args(args(&["--in", "a", "b", "using", "2"]), LAYOUT)
    );
    assert_eq!(
        parse_args(args(&["--in", "a", "--in", "b", "c"]), LAYOUT),
        parse_args(args(&["--in", "a", "b", "c"]), LAYOUT)
    );
}

#[test]
fn settings_commute_with_column_clauses() {
    assert_eq!(
        parse_args(args(&["--style", "points", "--columns", "1", "2"]), LAYOUT),
        parse_args(args(&["--columns", "1", "2", "--style", "points"]), LAYOUT)
    );
    assert_eq!(
        parse_args(args(&["--title", "t", "--columns", "3"]), LAYOUT),
        parse_args(args(&["--columns", "3", "--title", "t"]), LAYOUT)
    );
}

#[test]
fn default_layouts() {
    assert_eq!(layout_from_terminal(80, 24), (80, 22));
    assert_eq!(layout_from_terminal(0, 5), (1, 10));
    assert_eq!(layout_from_terminal(200, 12), (200, 10));
    assert_eq!(layout_from_env(Some("120"), Some("40")), (120, 38));
    assert_eq!(layout_from_env(Some("0"), None), (100, 28));
    assert_eq!(layout_from_env(Some("abc"), Some("5")), (100, 10));
    assert_eq!(env_size(Some("7"), 3), 7);
    assert_eq!(env_size(None, 3), 3);
}

// ---------------------------------------------------------------- data

#[test]
fn rows_report_missing_and_bad_columns() {
    let markers = ["#".to_string()];
    assert_eq!(
        parse_points("1\n", None, 2, AxisValueKind::Number, AxisValueKind::Number, &markers),
        Err("line 1 does not have column 2".to_string())
    );
    assert_eq!(
        parse_points("# c\n1 2\n\nq 3\n", Some(1), 2, AxisValueKind::Number, AxisValueKind::Number, &markers),
        Err("line 4 has non-numeric X value: q".to_string())
    );
    assert_eq!(
        parse_points("1 2\n", Some(3), 2, AxisValueKind::Number, AxisValueKind::Number, &markers),
        Err("line 1 does not have column 3".to_string())
    );
    assert_eq!(
        parse_points("1 y\n", Some(1), 2, AxisValueKind::Number, AxisValueKind::Number, &markers),
        Err("line 1 has non-numeric Y value: y".to_string())
    );
}

#[test]
fn rows_are_trimmed_and_split() {
    let markers = ["#".to_string()];
    let points = parse_points(" 1\t2 \r\n3   4\n", Some(2), 1, AxisValueKind::Number, AxisValueKind::Number, &markers).unwrap();
    assert_eq!(
        points,
        vec![
            PlotPoint { x: number("2"), y: number("1") },
            PlotPoint { x: number("4"), y: number("3") },
        ]
    );
    let points = parse_points_with("1, 2\n3 ,4\n", Some(1), 2, AxisValueKind::Number, AxisValueKind::Number, &markers, Some(",")).unwrap();
    assert_eq!(
        points,
        vec![
            PlotPoint { x: number("1"), y: number("2") },
            PlotPoint { x: number("3"), y: number("4") },
        ]
    );
    let points = parse_points("", None, 1, AxisValueKind::Number, AxisValueKind::Number, &markers).unwrap();
    assert!(points.is_empty());
}

#[test]
fn row_index_counts_plotted_rows() {
    let markers = ["#".to_string()];
    let points = parse_points("5\n# skip\n\n6\n7", None, 1, AxisValueKind::Number, AxisValueKind::Number, &markers).unwrap();
    let xs: Vec<AxisValue> = points.iter().map(|p| p.x.clone()).collect();
    assert_eq!(xs, vec![number("1"), number("2"), number("3")]);
}

#[test]
fn series_are_built_from_their_input() {
    let config = plot(&[]);
    let series = build_series(&SeriesSpec::auto(None), "# h\n1 2 3\n4 5 6\n", &config).unwrap();
    assert_eq!(series.label, "stdin [1:2]");
    assert_eq!(series.points[1], PlotPoint { x: number("4"), y: number("5") });
    let series = build_series(&SeriesSpec::auto(Some("f".to_string())), "10\n20\n", &config).unwrap();
    assert_eq!(series.label, "f [1]");
    assert_eq!(series.points[1], PlotPoint { x: number("2"), y: number("20") });
    assert_eq!(
        build_series(&SeriesSpec::auto(None), "# nothing\n", &config).unwrap_err(),
        "series stdin [1] has no plottable rows"
    );
    assert_eq!(
        build_series(&spec(Some("g"), Some(1), 3), "1 2 3\n", &config).unwrap().label,
        "g [1:3]"
    );
    let config = plot(&["--delimiter", ";", "--format", "x", "%H:%M"]);
    let series = build_series(&SeriesSpec::auto(None), "01:00;2\n02:00;3\n", &config).unwrap();
    assert_eq!(series.points[0], PlotPoint { x: AxisValue::Text("01:00".to_string()), y: number("2") });
    assert_eq!(series_label(&spec(None, Some(10), 11)), "stdin [10:11]");
}

// ---------------------------------------------------------------- gnuplot

#[test]
fn escaping_quotes_and_backslashes() {
    assert_eq!(escape_gnuplot("it's a \\ path"), "it\\'s a \\\\ path");
    assert_eq!(escape_gnuplot("plain"), "plain");
    let text = "a'b\\c''\\\\";
    let escaped = escape_gnuplot(text);
    let mut back = String::new();
    let mut chars = escaped.chars();
    while let Some(c) = chars.next() {
        if c == '\\' {
            back.push(chars.next().unwrap());
        } else {
            back.push(c);
        }
    }
    assert_eq!(back, text);
}

#[test]
fn range_bounds_and_terminals() {
    assert_eq!(format_range_bound("*", AxisValueKind::Time), "*");
    assert_eq!(format_range_bound("02:00", AxisValueKind::Time), "'02:00'");
    assert_eq!(format_range_bound("-5", AxisValueKind::Number), "-5");
    let mut config = plot(&["--layout", "width", "80", "height", "24"]);
    assert_eq!(terminal_command(&config, TerminalMode::Dumb), "set term dumb ansi size 80,24");
    assert_eq!(terminal_command(&config, TerminalMode::BlockBraille), "set term block braille ansi size 80,24");
    assert_eq!(preferred_terminal(&config, true), TerminalMode::BlockBraille);
    assert_eq!(preferred_terminal(&config, false), TerminalMode::Dumb);
    config.dumb = true;
    assert_eq!(preferred_terminal(&config, true), TerminalMode::Dumb);
    assert_eq!(io_error("broken pipe"), "failed to write gnuplot input: broken pipe");
}

#[test]
fn whole_script() {
    let config = plot(&["--layout", "width", "60", "height", "20", "--title", "it's"]);
    let series = vec![SeriesData {
        label: "stdin [1]".to_string(),
        points: vec![PlotPoint { x: number("1"), y: number("2.5") }],
    }];
    assert_eq!(
        gnuplot_script(&config, &series, TerminalMode::Dumb).unwrap(),
        "set term dumb ansi size 60,20\nunset key\nset grid\nset title 'it\\'s'\nplot '-' using 1:2 with lines title 'stdin [1]'\n1 2.5\ne\n"
    );
    let config = plot(&["--format", "x", "%H", "y", "%M"]);
    assert_eq!(
        gnuplot_script(&config, &series, TerminalMode::Dumb).unwrap_err(),
        "time-formatted x and y axes currently require the same --format"
    );
    let config = plot(&["--format", "y", "%H:%M", "--logscale", "xy"]);
    let script = gnuplot_script(&config, &series, TerminalMode::Dumb).unwrap();
    assert!(script.contains("set ydata time\nset timefmt '%H:%M'\nset format y '%H:%M'\nset logscale xy\n"));
}

#[test]
fn summary_lists_the_parameters() {
    let config = plot(&["--title", "T", "--range", "x", "0", "1", "--logscale", "y", "--comments", "#", "%", "--delimiter", ",", "--layout", "width", "50", "height", "20", "--dumb"]);
    let series = vec![
        SeriesData { label: "a [1]".to_string(), points: Vec::new() },
        SeriesData { label: "b [1]".to_string(), points: Vec::new() },
    ];
    assert_eq!(
        parameter_summary(&config, &series),
        "params: series=a [1], b [1] | title=T | range.x=[0:1] | logscale=y | style=lines | key=off | grid=on | delimiter=, | comments=#,% | layout=50x20 | terminal=dumb"
    );
    let config = plot(&["--layout", "width", "10", "height", "10"]);
    assert_eq!(
        parameter_summary(&config, &Vec::new()),
        "params: style=lines | key=off | grid=on | layout=10x10 | terminal=auto"
    );
}

// ---------------------------------------------------------------- model and guide

#[test]
fn style_names_and_axis_kinds() {
    assert_eq!(PlotStyle::Lines.gnuplot_name(), "lines");
    assert_eq!(PlotStyle::Points.gnuplot_name(), "points");
    assert_eq!(PlotStyle::LinesPoints.gnuplot_name(), "linespoints");
    assert_eq!(axis_value_kind(None), AxisValueKind::Number);
    assert_eq!(axis_value_kind(Some("%%")), AxisValueKind::Number);
    assert_eq!(axis_value_kind(Some("%")), AxisValueKind::Number);
    assert_eq!(axis_value_kind(Some("day %j")), AxisValueKind::Time);
    assert_eq!(decimal_text(0), "0");
    assert_eq!(decimal_text(1234), "1234");
    assert_eq!(parse_usize(&decimal_text(usize::MAX)), Some(usize::MAX));
}

#[test]
fn guide_is_rendered() {
    let plain = detail_text(false);
    assert!(plain.ends_with('\n'));
    assert!(plain.starts_with("tgplot\n"));
    assert!(!plain.starts_with("# tgplot"));
    assert!(plain.contains("--columns"));
    assert!(DETAIL.starts_with("# tgplot"));
    let coloured = detail_text(true);
    assert!(coloured.contains("\x1b["));
}

#[test]
fn single_values_and_comment_lines() {
    assert_eq!(parse_axis_value("2.5", AxisValueKind::Number, 3, 'Y'), Ok(number("2.5")));
    assert_eq!(
        parse_axis_value("x1", AxisValueKind::Number, 3, 'Y'),
        Err("line 3 has non-numeric Y value: x1".to_string())
    );
    assert_eq!(parse_axis_value("x1", AxisValueKind::Time, 3, 'X'), Ok(AxisValue::Text("x1".to_string())));
    let markers = ["#".to_string(), "//".to_string()];
    assert!(is_comment_line("1 2 # note", &markers));
    assert!(is_comment_line("// 1 2", &markers));
    assert!(!is_comment_line("1 / 2", &markers));
    assert!(is_comment_line("anything", &["".to_string()]));
    assert!(looks_like_time_format("%d/%m"));
    assert!(!looks_like_time_format("%.3g"));
}
