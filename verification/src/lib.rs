//! Gacho: the verified core of a comic and photo book viewer.
//!
//! The library keeps the reading state of an opened book: which images make
//! up the book, how they are grouped into single pages and two-page spreads,
//! which spread is on screen, and which neighbouring volume of the library is
//! read next. Everything that touches the screen or the file system lives in
//! the application around it, which hands the library plain values.
pub mod app;
pub mod error;
pub mod file;
pub mod launch;
pub mod order;
pub mod text;

pub use app::App;
pub use error::GachoError;

