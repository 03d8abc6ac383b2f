//! An interactive picker over project directories, and the scanner that finds them.
//!
//! The scanner walks directory trees and reports the directories that hold a
//! `.git` subdirectory. [`scan::Scanner`] makes the decisions of the walk and
//! leaves the file system to its caller; [`tree`] holds directory trees in
//! memory, says what a scan of one yields, and scans them.
//!
//! The picker lists the paths that were found, narrows the list to those that
//! contain what the user types, and hands back the one at the top when the
//! user accepts it. [`tui::Window`] is the state of a session: it takes the
//! keys one by one and says what to write to the terminal, which its caller
//! owns. [`screen`] says what is written, [`escape`] with which control
//! sequences.

pub mod error;
pub mod escape;
pub mod key;
pub mod path;
pub mod scan;
pub mod screen;
pub mod select;
pub mod text;
pub mod tree;
pub mod tui;
