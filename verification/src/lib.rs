//! A minimal event-transformation pipeline. A telemetry event - a category
//! label with a string-to-string payload - flows through an ordered sequence
//! of named stages, each free to rewrite the event before passing it on.
//! The pipeline's contracts pin the result down to a fold of the stages'
//! transformations over the event, and the laws of that fold (identity,
//! composition, order sensitivity, payload integrity) are proved here.
//! An unrelated identity value object rides along in `domain`.

pub mod domain;
pub mod event;
pub mod pipeline;
