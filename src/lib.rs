//! Builds a static HTML page that shows the media of a directory's albums.
//!
//! The albums are the visible subdirectories of a base directory; each
//! album's files are classified by extension into images and videos, and
//! the page lists every album, in order, with its media linked relative to
//! the base directory.
pub mod album;
pub mod laws;
pub mod order;
pub mod page;
pub mod paths;
