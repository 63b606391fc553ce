//! Progress events of a dump run; what is shown of them is up to the implementation.
use vstd::prelude::*;

verus! {

/// Receives progress events; each method may do nothing.
pub trait Indicator {
    fn start_pb(&self, size: u64, prefix: &str);

    fn inc_pb(&self, i: u64);

    fn finish_pb(&self, name: &str);

    /// A table's data block begins: its place among the tables to rewrite, and its name.
    fn start_pb_stream(&self, cur: u64, tot: u64, name: &str, msg: &str);

    /// Another row of the current data block was rewritten.
    fn inc_pb_stream(&self, i: u64);

    /// The current data block ended after `i` rows.
    fn finish_pb_stream(&mut self, i: u64);

    fn debug_msg(&self, msg: &str);
}

/// An indicator that shows nothing.
pub struct SilentIndicator;

impl Indicator for SilentIndicator {
    fn start_pb(&self, size: u64, prefix: &str) {
    }

    fn inc_pb(&self, i: u64) {
    }

    fn finish_pb(&self, name: &str) {
    }

    fn start_pb_stream(&self, cur: u64, tot: u64, name: &str, msg: &str) {
    }

    fn inc_pb_stream(&self, i: u64) {
    }

    fn finish_pb_stream(&mut self, i: u64) {
    }

    fn debug_msg(&self, msg: &str) {
    }
}

} // verus!
