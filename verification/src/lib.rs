//! Plugin capability contract and extension-loading protocol of a
//! content/record-management host.
//!
//! The host exposes a capability surface (`PluginApi`) to independently
//! built plugins; plugins implement a fixed set of hooks (`Plugin`); the
//! registry (`PluginPool`) keeps the plugins in registration order and
//! dispatches each hook to them under the policy each hook calls for.
pub mod api;
pub mod dispatch;
pub mod host;
pub mod items;
pub mod plugin_pool;
pub mod scripted;
