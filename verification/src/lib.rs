//! A fixed-rank N-dimensional dense buffer with stride-based addressing,
//! together with a bounds-checked cursor (`Walker`) for relative movement
//! through the flat storage.

mod errors;
mod indexing;
pub mod step;
mod walker;
mod xdbuf;

pub use errors::XdError;
pub use indexing::all_positive;
pub use indexing::flat_offset;
pub use indexing::in_bounds;
pub use indexing::lemma_flat_offset_bound;
pub use indexing::lemma_offset_unique;
pub use indexing::lemma_round_trip;
pub use indexing::lemma_split_offset_valid;
pub use indexing::prod_all;
pub use indexing::split_offset;
pub use indexing::step_delta;
pub use indexing::step_delta_fits;
pub use indexing::strides_fit;
pub use indexing::strides_match;
pub use walker::Walker;
pub use xdbuf::XDBuf;
