//! Turns a set of staged version-control changes into a structured commit
//! message: a bounded textual context is assembled from the changed paths and
//! the diff, a remote chat-completion service is driven through a forced tool
//! call whose arguments must match the commit schema, and the resulting
//! proposal is rendered and delivered to the commit operation.

pub mod codec;
pub mod context;
pub mod pipeline;
pub mod proposal;
pub mod protocol;
mod strutil;
pub mod text;

pub use text::truncate_to_n_tokens;
