//! A templated request engine for a wordlist-driven HTTP fuzzer: templates with
//! marked substitution spans, a work queue that hands out each word once, and
//! the per-worker step that turns a drawn word into a concrete request.
pub mod template;
pub mod plan;
pub mod queue;
pub mod dispatch;
