//! A micro-benchmarking harness: a repetition tester that measures a block of
//! code trial after trial under a time budget, and a span profiler that
//! attributes time to nested, labelled intervals.
//!
//! The harness never reads a clock or an operating-system counter itself:
//! every reading is handed in by the caller as a plain integer, so each
//! operation is a function of the state and of the readings alone.
//!
//! - `repetition_tester` is the tester, `metrics` what it measures and
//!   records, and `repetition_laws` what holds of it over whole trials and
//!   waves.
//! - `naive_profiler` is the profiler, `span_model` its mathematics,
//!   `span_laws` what holds of every session, and `span_nesting` what holds
//!   of sessions whose spans are well nested.
//! - `perf_metrics` holds the clock arithmetic, the page-fault figures and
//!   the parts of a virtual address.

pub mod metrics;
pub mod naive_profiler;
pub mod perf_metrics;
pub mod repetition_laws;
pub mod repetition_tester;
pub mod span_laws;
pub mod span_model;
pub mod span_nesting;
