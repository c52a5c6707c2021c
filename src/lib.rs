//! A resumable, parallel page fetcher: the decisions of the fetch pipeline
//! (which URLs are still owed, how a fetch ends, when a worker writes a
//! bundle) stated and proved, with the network, the disk and the threads
//! left to the caller.

pub mod record;
pub mod numeral;
pub mod classify;
pub mod tracker;
pub mod queue;
pub mod clock;
pub mod worker;
pub mod pipeline;
pub mod history;
pub mod readable;
pub mod order;
