//! A pretty JSON formatter that keeps the output as compact as the
//! configured line budget allows.
//!
//! The crate consumes a stream of structural events (begin/end markers for
//! arrays and objects, plus pre-rendered scalar bytes), assembles them into
//! a token tree, and renders the tree.  Every array or object is put on a
//! single line when its rendered width stays under the configured budget;
//! otherwise it expands to one child per line, indented by nesting depth.
//!
//! The pieces, in dependency order: [`token`] holds the tree model and the
//! renderer, [`layout`] the specification of widths, layout decisions and
//! rendered bytes, and [`fmt`] the event receiver that assembles the tree
//! and hands each completed top-level value to the renderer.

pub mod error;
pub mod fmt;
pub mod layout;
pub mod options;
pub mod token;

pub use error::Error;
pub use fmt::PrettyCompactFormatter;
pub use options::Options;
