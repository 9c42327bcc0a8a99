//! In-memory text model of a terminal text editor: an ordered store of rows,
//! a cursor kept within the document, tab-expanding render projection,
//! selection deletion, and the plain-text framing of files.
pub mod render;
pub mod text;
pub mod model;
pub mod persist;

pub use model::{Erow, Model, StatusMsg};
