//! Plotting text columns in the terminal through gnuplot: the command line,
//! the reading of rows, and the script handed to gnuplot.
pub mod cli;
pub mod data;
pub mod detail;
pub mod gnuplot;
pub mod model;
pub mod text;
