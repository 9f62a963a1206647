//! Instantaneous CPU utilization for a status bar.
//!
//! The pipeline works on snapshots of the system timing counters: one is
//! read per invocation, persisted through a small binary cache, diffed
//! against the cached one from the previous invocation, and the
//! difference is rendered as a percentage plus optional per-core bar
//! glyphs.
//!
//! All durations are held as whole nanoseconds, so every step of the
//! pipeline is exact integer arithmetic. The host process only reads
//! the counter files and the cache file, hands their contents to
//! [`parse::read_counters`] and [`step`], writes the returned cache
//! image back, and prints the returned line, if any.

use vstd::prelude::*;

pub mod cache;
pub mod parse;
pub mod render;
pub mod snapshot;

use crate::snapshot::{delta, delta_view, Snapshot};

verus! {

/// One invocation of the pipeline, once the current snapshot is in
/// hand: produces the cache image to write back, and the line to print.
///
/// No line is produced on the first ever run (no previous image) or
/// when the previous image is invalid; otherwise the line renders the
/// difference between the current snapshot and the cached one.
pub fn step(current: &Snapshot, previous_image: Option<&[u8]>) -> (r: (Vec<u8>, Option<String>))
    requires
        current.wf(),
        current.core_idle_ns@.len() <= (usize::MAX - 16) / 8,
    ensures
        r.0@ == cache::encoding_of(current@),
        match previous_image {
            None => r.1 is None,
            Some(img) => match r.1 {
                Some(line) => cache::valid_image(img@) && line@ == render::rendered(
                    delta_view(current@, cache::image_snapshot(img@)),
                ),
                None => !cache::valid_image(img@),
            },
        },
{
    let bytes = cache::store_bytes(current);
    let output = match previous_image {
        None => None,
        Some(img) => match cache::load_bytes(img) {
            None => None,
            Some(previous) => Some(render::render(&delta(current, &previous))),
        },
    };
    (bytes, output)
}

} // verus!
