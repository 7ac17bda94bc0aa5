//! Front end of the BB binding description language.
//!
//! BB files describe the layout and the calling interface of native objects:
//! classes with their fields, base classes and virtual functions, enums, and
//! functions at fixed addresses. This library turns the text of such files
//! into syntax trees that know where in the text each node came from, and
//! groups the trees by the module they declare.
//!
//! - [`lexer`] splits text into words, reserved symbols and comments.
//! - [`parser`] is the cursor over those tokens that all nodes are read with.
//! - [`tokens`] holds the nodes of the syntax tree and how each is read.
//! - [`generator`] parses many files, groups them by module, and emits the
//!   units.
//! - [`error`], [`rect`], [`number`], [`text`], [`log`] and [`logger`] hold
//!   what the others share.
//! - [`bindings`] is a cursor that reads words straight from normalised text.

pub mod bindings;
pub mod error;
pub mod generator;
pub mod lexer;
pub mod log;
pub mod logger;
pub mod model;
pub mod number;
pub mod parser;
pub mod rect;
pub mod text;
pub mod tokens;
