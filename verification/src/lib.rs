//! Crystallographic geometry and uncertainty-weighted averaging for the
//! output of an X-ray data reduction, on decimal fixed-point numbers.
//!
//! Every number is a [`fixed::Fixed`]: a whole number of thousand-millionths.
//! Sums and differences are exact, products, quotients and square roots are
//! rounded down once, and a result that leaves the range is an error, so
//! that each function can say exactly what it returns.
//!
//! - [`fixed`], [`angle`] and [`xyz`] hold the numbers, the angles (as
//!   cosine and sine) and the vectors.
//! - [`cell`] turns the edges and angles of a cell into its axes, its
//!   reciprocal axes and its orientation matrix.
//! - [`stats`] and [`merge`] average several determinations of a cell.
//! - [`header`] and [`datum`] describe an experiment and a reflection;
//!   [`datum`] derives the direction cosines of a reflection.
//! - [`text`], [`lines`], [`records`], [`reading`] and [`correct`] read
//!   numbers, records and headers from text.
//! - [`report`] prepares the numbers that reports are written from,
//!   [`parser`] reads command-line options, [`stamp`] dates a run.

pub mod angle;
pub mod cell;
pub mod correct;
pub mod datum;
pub mod error;
pub mod fixed;
pub mod header;
pub mod lines;
pub mod merge;
pub mod parser;
pub mod reading;
pub mod records;
pub mod report;
pub mod stamp;
pub mod stats;
pub mod text;
pub mod xyz;
