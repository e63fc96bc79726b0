//! A lookahead adapter for forward-only sequence producers: wrap any source
//! that yields elements one at a time and peek ahead at any future element,
//! one, many, or mutably, without consuming it, while still supporting normal
//! linear consumption afterward.

mod laws;
mod peekable;
mod source;

pub use laws::capped;
pub use laws::count_set;
pub use laws::lemma_count_set_all;
pub use laws::lemma_count_set_bounds;
pub use laws::lemma_drain_yields_all;
pub use laws::lemma_order_preservation;
pub use laws::lemma_peek_idempotent;
pub use laws::lemma_remaining_after_steps;
pub use laws::lemma_size_estimate_consistency;
pub use peekable::FullyPeekableIterator;
pub use peekable::IntoFullyPeekableIterator;
pub use peekable::advance_effect;
pub use peekable::lemma_buffer_is_prefix;
pub use peekable::lift_effect;
pub use source::SequenceProducer;
pub use source::UnhintedVecSource;
pub use source::VecSource;
