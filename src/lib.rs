//! Turns per-pixel colors into DMX universes: gamma correction, null-pixel
//! padding around zones, and chunking of the byte stream into universes.

mod color;
mod zone;
mod universe;
mod session;

pub use color::{
    Curve, KelvinPlan, Level, RGB, gamma_correct, gamma_level, kelvin_plan, normalize_value,
    resolve_level,
};
pub use zone::{Zone, lemma_splice_len, splice_null_pixels};
pub use universe::{
    MAX_PIXELS, UNIVERSE_SIZE, Universe, chunk, lemma_chunk_shape, lemma_stream_len,
    lemma_render_repeatable, render,
};
pub use session::{Streams, failed_universes};
