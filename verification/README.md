# tgplot

`tgplot` plots numeric text columns in the terminal through `gnuplot`:

```bash
tgplot --in data.txt --columns 1 2
tgplot --in a.txt b.txt --columns 2 --style points
tgplot --columns 1 2 --format x '%H:%M:%S' < log.txt
```

Run `tgplot --detail` for the full guide.

## Layout

The library in `src/` is written in Verus; every function there carries a
contract that Verus proves.

- `text.rs`: characters, decimal numbers, floating-point literals,
  whitespace, lines and fields.
- `model.rs`: the configuration, series and points, with their mathematical
  views; the plot styles and the time-format test.
- `cli.rs`: the command line, stated as a walk over its words
  (`spec_parse_args`), the parser proved against it, and the laws of the
  command line (repeated `--in`, option order, well-formed results, the
  default key).
- `data.rs`: reading the points of a series from its input.
- `gnuplot.rs`: the gnuplot script and the parameter summary.
- `detail.rs`: the guide, rendered with `mdlite`.

`app/main.rs` is the program: it asks the terminal for its size, reads the
inputs, runs `gnuplot` and prints. `tests/` holds the tests.
