//! The layer-based `filter` style: the wire format and its warn-don't-abort
//! decode, the packing layouts of the built-in filters with their caps, chain
//! assembly bookkeeping (outsets, wire indices), the morph/backdrop entry
//! rules, and whole-value transition classification.

pub mod builtin;
pub mod gradient;
pub mod json;
pub mod morph;
pub mod params;
pub mod registry;
pub mod resolve;
pub mod transition;
pub mod warm;
pub mod wire;

pub use self::morph::MorphFilter;
pub use self::params::{
    check_param_cap, quantize_outset, ParamSlot, MAX_FILTER_OUTSET_PX, MAX_FILTER_PARAM_VECS,
};
pub use self::registry::FilterRegistry;
pub use self::wire::{FilterChain, FilterUse, MAX_CHAIN_LEN};
