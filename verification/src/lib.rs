//! A disk-usage engine.
//!
//! The library classifies file-system entries, builds directory trees and
//! adds up the bytes of the files under a directory. It never touches the
//! file system itself: a walk names the directory whose listing it needs
//! next, and the caller reads that directory and hands the walk what it
//! found.
//!
//! - `entry`: files, symbolic links, directories, and the rule that tells
//!   them apart by their metadata.
//! - `aggregate`: the aggregate size of a directory tree.
//! - `walk`, `error`: what a walk asks for, what it is answered, and how it
//!   can fail.
//! - `report`, `text`: the streaming reporter and the text of its lines.
//! - `populate`: the tree builder.
//! - `disk`, `report_course`, `populate_course`, `weigh`, `accord`, `order`:
//!   a model of the file system and the theorems that say what the
//!   reporter and the builder come to when they are run against it.

pub mod accord;
pub mod aggregate;
pub mod disk;
pub mod entry;
pub mod error;
pub mod order;
pub mod populate;
pub mod populate_course;
pub mod report;
pub mod report_course;
pub mod text;
pub mod walk;
pub mod weigh;
