//! An authorization gateway: a designated owner identity delegates restricted,
//! revocable signing capability to subaccount identities, and only capabilities
//! granted through this gateway can later be revoked through it.

pub mod gateway;
pub mod registry;

pub use gateway::AccessKeyPermission;
pub use gateway::Contract;
pub use gateway::Error;
pub use gateway::GrantEffect;
pub use gateway::RevokeEffect;
pub use registry::AccessRegistry;
