//! A stream transformation broker's decision logic: rules that bind a
//! source tag to a named-capture pattern and a destination tag, the rule
//! store and its reload, the per-message transform, and the counters and
//! actions of the ingress and transform stages.
pub mod args;
pub mod pattern;
pub mod processor;
pub mod json;
pub mod rules;
pub mod store;
pub mod pump;
pub mod watcher;
