//! Symbol rebinding for Mach-O images.
//!
//! The library reads the load commands and the symbol tables of a loaded
//! image from a byte slice that starts at the image's header, decides which
//! indirect symbol pointer slots a list of rebindings applies to, and decides
//! for each such slot what is to be stored in it. It never touches memory
//! itself: the host hands it bytes and words and carries out the stores.

pub mod bytes;
pub mod constants;
pub mod extent;
pub mod guarantees;
pub mod macho;
pub mod model;
pub mod order;
pub mod registry;
pub mod rewriter;
pub mod segment;
pub mod symbols;
pub mod walker;

pub use crate::macho::{equal_str, Width};
pub use crate::registry::{register, Rebinding, Registry};
pub use crate::rewriter::{Reply, Request, Rewriter};
pub use crate::walker::{bind_symbols, rebind_for_image, SlotPatch};
