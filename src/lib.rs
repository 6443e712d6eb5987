//! Reading the free-text annotations of published ferry schedules into date
//! restrictions.
//!
//! - `calendar`: dates, weekdays, twelve-hour times and a schedule's date range.
//! - `text`: character classes and matching over sequences of characters.
//! - `normalize`: the ordered rewrites that bring an annotation into canonical wording.
//! - `dates`: the only/except date sets of a note and their resolution into a
//!   `DateRestriction` for one weekday.
//! - `keyed`: sequences of pairs with distinct keys, read as maps.
//! - `notes`: the note registry of a row and its resolution per weekday.
//! - `annotations`: the classifier, and the per-row `Annotations` it fills.

pub mod calendar;
pub mod text;
pub mod dates;
pub mod keyed;
pub mod notes;
pub mod normalize;
pub mod annotations;
