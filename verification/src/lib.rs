//! Packs the items of a manifest into packs.
//!
//! A manifest is a text of lines. Its first line may give the constraints
//! that every pack obeys, a limit on the number of pieces and a limit on the
//! total weight, together with the order in which the items are packed. Every
//! other line gives a batch of identical items: an id, a length, a count and
//! a weight.
//!
//! The library reads a manifest ([`reader`]), puts the batches into the order
//! asked for ([`ordering`]), packs them greedily ([`packing`]) and reports every
//! pack, line by line ([`report`]). [`planner`] does all of it in one call.
//! Lengths and weights are decimals with six fractional digits ([`decimal`]),
//! held exactly.

pub mod decimal;
pub mod error;
pub mod manifest;
pub mod number;
pub mod ordering;
pub mod packing;
pub mod planner;
pub mod reader;
pub mod report;
pub mod sort_order;
pub mod text;

pub use decimal::Decimal;
pub use error::Error;
pub use manifest::{ItemTemplate, PackTemplate};
pub use number::NumberError;
pub use ordering::order_items;
pub use packing::{maximum_number_of_items_to_add, pack_items, PackEvent, PackFailure, PackingRun};
pub use planner::{plan_packs, report_manifest, Report, ReportError};
pub use reader::{parse_input, ManifestReader};
pub use report::render_report;
pub use sort_order::PackSortOrder;
