//! Configuration of highly available containers on a cluster: DRBD and LINSTOR storage,
//! Quadlet units, Pacemaker resources and nftables rules.
//!
//! `models` and `db` hold the data, `generators` writes scripts, playbooks and unit files,
//! `scan`, `res_file` and `nft_scanner` read such files back, and `routes` turns the
//! forms of the web pages into what the generators take. The contracts state the written
//! texts exactly; `read_back`, `unit_read_back` and `policy_read_back` prove that what is
//! written is understood when it is read, `unit_values` what the units of containers and
//! volumes say, and `policy_laws`, `cluster_laws` and `linstor_laws` what the written policies,
//! scripts and playbooks do.

pub mod address;
pub mod chars;
pub mod cluster_laws;
pub mod config;
pub mod db;
pub mod generators;
pub mod inspect;
pub mod interfaces;
pub mod json;
pub mod lines;
pub mod linstor_laws;
pub mod models;
pub mod nft_scanner;
pub mod nft_setup;
pub mod number;
pub mod occurs;
pub mod order;
pub mod pcsd;
pub mod policy_laws;
pub mod policy_read_back;
pub mod read_back;
pub mod records;
pub mod res_file;
pub mod routes;
pub mod scan;
pub mod storage;
pub mod text;
pub mod unit_read_back;
pub mod unit_values;
pub mod yaml;
