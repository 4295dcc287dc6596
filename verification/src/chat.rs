pub mod hub;
pub mod registry;
pub mod routing;
pub mod session;
pub mod types;
