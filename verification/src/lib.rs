//! A terminal system-summary renderer: an ASCII-art logo is shown beside a
//! list of host facts, each line colorized through a tiny inline markup
//! language (`$1`..`$9` directives that switch the foreground color).
//!
//! The crate holds the verified core: the markup scanner and renderer, the
//! two-block layout composer, the fetch plan and order-preserving result
//! aggregation, and the pure decision logic of the fact providers. The
//! surrounding binary does the actual I/O (terminal, files, system queries)
//! and hands this library plain values.

use vstd::prelude::*;

pub mod disks;
pub mod facts;
pub mod layout;
pub mod markup;
pub mod modules;
pub mod orchestrator;
pub mod text;
pub mod theme;

verus! {

} // verus!
