//! A plugin loader and in-process service bus: the registry of plugins,
//! events and endpoints, the rules that decide every service call, the
//! power-state machine and the value conversions of the plugin ABI.
pub mod abi;
pub mod config;
pub mod error;
pub mod ident;
pub mod init_order;
pub mod json;
pub mod names;
pub mod payload;
pub mod power;
pub mod registry;
pub mod util;
pub mod version;
