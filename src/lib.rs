//! Typed addresses of data on the network, with a canonical, reversible
//! text form for each of them.

pub mod address;
pub mod name;
pub mod order;
pub mod wire;
pub mod zbase32;
