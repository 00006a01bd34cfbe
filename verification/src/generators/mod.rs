//! The generators: configuration in, file contents out.

pub mod constraints;
pub mod drbd;
pub mod inventory;
pub mod linstor;
pub mod nft;
pub mod pacemaker;
pub mod pacemaker_cmds;
pub mod pacemaker_playbook;
pub mod quadlet;
pub mod quadlet_playbook;
