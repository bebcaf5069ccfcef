//! Verified core of an incremental updater for a large installed binary package.
//!
//! The library models the update pipeline — resumable transfer, archive-entry
//! path sanitization, tolerant control-file parsing, diff-patch bookkeeping,
//! deletion processing and file merge — over plain values: byte strings for
//! paths and file contents, and an explicit in-memory file tree.  The
//! unverified shell around the library performs the actual network and
//! filesystem work and mirrors each verified decision onto disk.

use vstd::prelude::*;

pub mod bytes;
pub mod descriptor;
pub mod manifest;
pub mod orchestrator;
pub mod paths;
pub mod stages;
pub mod transfer;
pub mod tree;

verus! {

/// Appends the bytes of `more` to `buf`.
pub fn append_bytes(buf: &mut Vec<u8>, more: &[u8])
    ensures
        final(buf)@ == old(buf)@ + more@,
{
    let mut i: usize = 0;
    while i < more.len()
        invariant
            i <= more.len(),
            buf@ == old(buf)@ + more@.take(i as int),
        decreases more.len() - i,
    {
        proof {
            assert(more@.take(i + 1) =~= more@.take(i as int).push(more@[i as int]));
        }
        buf.push(more[i]);
        i = i + 1;
    }
    proof {
        assert(more@.take(more@.len() as int) =~= more@);
    }
}

} // verus!
