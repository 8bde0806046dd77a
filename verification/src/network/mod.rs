pub mod device;
pub mod ethernet;
pub mod ipv4;
