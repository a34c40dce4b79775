pub mod addr;
pub mod ipam;
pub mod registry;
pub mod bridge;
