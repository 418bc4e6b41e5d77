//! Determines the host's external IPv4 and IPv6 addresses from the replies of
//! public "what is my IP" services, by a plurality vote per address family.
pub mod address;
pub mod decoder;
pub mod consensus;
pub mod registry;
pub mod fetch;

pub use address::Address;
pub use consensus::{sort_votes, Consensus};
pub use decoder::{Decoder, SourceError};
