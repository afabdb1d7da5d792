//! The synchronisation and mutation pipeline of a personal ebook library.
//!
//! * [`scanner`] reconciles what a directory walk finds with the record
//!   store in [`records`], keeping the identity of a file across moves,
//!   renames and edits by its content [`fingerprint`]; [`pass`] runs a
//!   whole pass over a listing; [`extract`] reads the metadata embedded in
//!   a file and [`metadata`] merges it into the item.
//! * [`planner`] turns a path template into a target path for every file
//!   and resolves name collisions; [`organizer`] keeps the books while a
//!   plan is carried out.
//! * [`changes`] holds staged mutations; [`applier`] settles them one at a
//!   time, each within its own failure boundary.
//!
//! The library decides and keeps records; it never touches a disk. Whoever
//! drives it performs the file operations and reports how they went.
//!
//! What holds of all this, whatever the inputs, is stated and proved in
//! [`scan_laws`], [`rescan_laws`], [`pass`], [`change_laws`] and
//! [`replan_laws`], and next to the functions concerned.

pub mod applier;
pub mod authors;
pub mod change_laws;
pub mod changes;
pub mod collisions;
pub mod epub;
pub mod extract;
pub mod fingerprint;
pub mod flows;
pub mod isbn;
pub mod matching;
pub mod metadata;
pub mod models;
pub mod opf;
pub mod organizer;
pub mod pass;
pub mod paths;
pub mod patterns;
pub mod plan_rows;
pub mod planner;
pub mod records;
pub mod replan_laws;
pub mod rescan_laws;
pub mod scan_laws;
pub mod scanner;
pub mod search;
pub mod stamps;
pub mod sync;
pub mod tags;
pub mod text;
