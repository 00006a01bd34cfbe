//! The configuration that the generators turn into files.

pub mod drbd;
pub mod linstor;
pub mod nft;
pub mod pacemaker;
pub mod quadlet;
