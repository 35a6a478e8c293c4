//! Network profiles of a Starknet command-line tool: the profile data model, the
//! codecs that turn it into a structured document and back, and the checks that a
//! loaded store must pass.

pub mod chain_id;
pub mod error;
pub mod value;
pub mod provider;
pub mod network;
pub mod profile;

pub use chain_id::ChainId;
pub use error::ProfileError;
pub use network::{Network, is_false};
pub use profile::{Profile, Profiles, DEFAULT_PROFILE_NAME};
pub use provider::{FreeProviderVendor, NetworkProvider};
pub use value::Value;
