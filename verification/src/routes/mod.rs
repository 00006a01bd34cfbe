//! What the pages of the application take and give: forms, and what is made of them.

pub mod container;
pub mod drbd;
pub mod linstor;
pub mod nft;
pub mod nodes;
pub mod pacemaker;
pub mod quadlet;
pub mod volume;
