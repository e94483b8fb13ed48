//! The decisions of a downloader that searches a post service by tags and
//! stores the file of every post found: which pages to ask for, which files
//! to fetch, how many at once, what to say of each, and what to write at the
//! end. Nothing here touches the network or the disk. The program around
//! this library does that, and tells the library what came of it.
//!
//! A run is a [`pipeline::Pipeline`]. It is told each [`pipeline::Event`]
//! and answers with the [`pipeline::Action`]s to take. Inside, a
//! [`scheduler::Scheduler`] keeps every discovered item and lets at most
//! [`scheduler::MAX_IN_FLIGHT`] downloads run at once, and a
//! [`printer::JsonPrinter`] gathers the posts' records in an
//! [`store::AggregateStore`], one for each content hash. What holds of every
//! run is proved in [`laws`].

pub mod config;
pub mod laws;
pub mod pipeline;
pub mod post;
pub mod printer;
pub mod report;
pub mod scheduler;
pub mod search;
pub mod store;
pub mod text;
