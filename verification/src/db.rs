//! The records that are kept in the database.

use crate::text::views;
use vstd::prelude::*;
use vstd::string::*;

verus! {

/// A DRBD resource. The parts that are lists or options are kept as JSON.
#[derive(Debug, Clone)]
pub struct DbDrbdResource {
    pub id: i64,
    pub resource_name: String,
    pub protocol: String,
    pub minor: u32,
    pub nodes_json: String,
    pub net_options_json: String,
    pub disk_options_json: String,
    pub startup_options_json: String,
    /// `manual` or `imported`.
    pub source: String,
    pub created_at: String,
    pub updated_at: String,
}

/// A node of the cluster.
#[derive(Debug, Clone)]
pub struct DbNode {
    pub id: i64,
    pub hostname: String,
    pub ip: String,
    pub ssh_user: String,
    /// `manual` or `scanned`.
    pub source: String,
    pub created_at: String,
}

/// What a [`DbNode`] holds.
pub struct NodeModel {
    pub id: int,
    pub hostname: Seq<char>,
    pub ip: Seq<char>,
    pub ssh_user: Seq<char>,
    pub source: Seq<char>,
    pub created_at: Seq<char>,
}

impl View for DbNode {
    type V = NodeModel;

    open spec fn view(&self) -> NodeModel {
        NodeModel {
            id: self.id as int,
            hostname: self.hostname@,
            ip: self.ip@,
            ssh_user: self.ssh_user@,
            source: self.source@,
            created_at: self.created_at@,
        }
    }
}

/// A node that a scan has found.
pub open spec fn scanned_node_record(hostname: Seq<char>, ip: Seq<char>) -> NodeModel {
    NodeModel {
        id: 0,
        hostname,
        ip,
        ssh_user: "root"@,
        source: "scanned"@,
        created_at: ""@,
    }
}

/// A node that a scan has found.
pub fn scanned_db_node(hostname: &str, ip: &str) -> (r: DbNode)
    ensures
        r@ == scanned_node_record(hostname@, ip@),
{
    DbNode {
        id: 0,
        hostname: hostname.to_owned(),
        ip: ip.to_owned(),
        ssh_user: "root".to_owned(),
        source: "scanned".to_owned(),
        created_at: "".to_owned(),
    }
}

/// A network that containers can be attached to.
#[derive(Debug, Clone)]
pub struct DbNetwork {
    pub id: i64,
    pub name: String,
    pub driver: String,
    pub interface: String,
    pub subnet: String,
    pub gateway: String,
    pub subnet6: String,
    pub gateway6: String,
    pub ipv6: bool,
    pub ipvlan_mode: String,
    /// `manual` or `scanned`.
    pub source: String,
    pub created_at: String,
}

/// What a [`DbNetwork`] holds.
pub struct NetworkModel {
    pub id: int,
    pub name: Seq<char>,
    pub driver: Seq<char>,
    pub interface: Seq<char>,
    pub subnet: Seq<char>,
    pub gateway: Seq<char>,
    pub subnet6: Seq<char>,
    pub gateway6: Seq<char>,
    pub ipv6: bool,
    pub ipvlan_mode: Seq<char>,
    pub source: Seq<char>,
    pub created_at: Seq<char>,
}

impl View for DbNetwork {
    type V = NetworkModel;

    open spec fn view(&self) -> NetworkModel {
        NetworkModel {
            id: self.id as int,
            name: self.name@,
            driver: self.driver@,
            interface: self.interface@,
            subnet: self.subnet@,
            gateway: self.gateway@,
            subnet6: self.subnet6@,
            gateway6: self.gateway6@,
            ipv6: self.ipv6,
            ipvlan_mode: self.ipvlan_mode@,
            source: self.source@,
            created_at: self.created_at@,
        }
    }
}

/// How Ansible logs in.
#[derive(Debug, Clone)]
pub struct DbAnsibleProfile {
    pub id: i64,
    pub name: String,
    /// `key` or `password`.
    pub auth_method: String,
    pub ssh_user: String,
    pub ssh_key: String,
    pub ssh_password: String,
    pub do_become: bool,
    pub become_method: String,
    pub become_password: String,
    pub created_at: String,
    pub updated_at: String,
}

/// A volume that containers can mount.
#[derive(Debug, Clone)]
pub struct DbVolume {
    pub id: i64,
    pub name: String,
    pub host_path: String,
    pub description: String,
    pub drbd_resource: String,
    pub created_at: String,
}

/// What a [`DbVolume`] holds.
pub struct VolumeModel {
    pub id: int,
    pub name: Seq<char>,
    pub host_path: Seq<char>,
    pub description: Seq<char>,
    pub drbd_resource: Seq<char>,
    pub created_at: Seq<char>,
}

impl View for DbVolume {
    type V = VolumeModel;

    open spec fn view(&self) -> VolumeModel {
        VolumeModel {
            id: self.id as int,
            name: self.name@,
            host_path: self.host_path@,
            description: self.description@,
            drbd_resource: self.drbd_resource@,
            created_at: self.created_at@,
        }
    }
}

/// An address of an interface of a node.
#[derive(Debug, Clone)]
pub struct DbNodeInterface {
    pub id: i64,
    pub hostname: String,
    pub interface: String,
    pub ip: String,
    pub prefix_len: u8,
    /// `inet` or `inet6`.
    pub family: String,
    pub created_at: String,
}

/// What a [`DbNodeInterface`] holds.
pub struct InterfaceModel {
    pub id: int,
    pub hostname: Seq<char>,
    pub interface: Seq<char>,
    pub ip: Seq<char>,
    pub prefix_len: nat,
    pub family: Seq<char>,
    pub created_at: Seq<char>,
}

impl View for DbNodeInterface {
    type V = InterfaceModel;

    open spec fn view(&self) -> InterfaceModel {
        InterfaceModel {
            id: self.id as int,
            hostname: self.hostname@,
            interface: self.interface@,
            ip: self.ip@,
            prefix_len: self.prefix_len as nat,
            family: self.family@,
            created_at: self.created_at@,
        }
    }
}

/// What manages the DRBD volumes.
#[derive(Debug, Clone)]
pub struct DbStorageBackend {
    /// `kernel-module` or `linstor`.
    pub backend: String,
    pub detected_at: String,
}

/// The settings of the nftables policy that are not tied to a target.
#[derive(Debug, Clone)]
pub struct DbNftGlobalConfig {
    pub table_name: String,
    pub device_name: String,
    pub chain_name: String,
    pub traceroute_start: u16,
    pub traceroute_end: u16,
    pub nft_file: String,
    pub updated_at: String,
}

/// What a [`DbNftGlobalConfig`] holds.
pub struct NftGlobalModel {
    pub table_name: Seq<char>,
    pub device_name: Seq<char>,
    pub chain_name: Seq<char>,
    pub traceroute_start: nat,
    pub traceroute_end: nat,
    pub nft_file: Seq<char>,
    pub updated_at: Seq<char>,
}

impl View for DbNftGlobalConfig {
    type V = NftGlobalModel;

    open spec fn view(&self) -> NftGlobalModel {
        NftGlobalModel {
            table_name: self.table_name@,
            device_name: self.device_name@,
            chain_name: self.chain_name@,
            traceroute_start: self.traceroute_start as nat,
            traceroute_end: self.traceroute_end as nat,
            nft_file: self.nft_file@,
            updated_at: self.updated_at@,
        }
    }
}

/// A service that a target lets in.
#[derive(Debug, Clone)]
pub struct DbNftTargetRule {
    pub id: i64,
    pub service_name: String,
    /// Empty where every source is let in.
    pub subnet_group_name: String,
}

/// What a [`DbNftTargetRule`] holds.
pub struct TargetRuleModel {
    pub id: int,
    pub service_name: Seq<char>,
    pub subnet_group_name: Seq<char>,
}

impl View for DbNftTargetRule {
    type V = TargetRuleModel;

    open spec fn view(&self) -> TargetRuleModel {
        TargetRuleModel {
            id: self.id as int,
            service_name: self.service_name@,
            subnet_group_name: self.subnet_group_name@,
        }
    }
}

/// A pod or container that the policy guards.
#[derive(Debug, Clone)]
pub struct DbNftTarget {
    pub id: i64,
    pub name: String,
    pub ipv4_addrs: Vec<String>,
    pub ipv6_addrs: Vec<String>,
    pub rules: Vec<DbNftTargetRule>,
}

/// What a [`DbNftTarget`] holds.
pub struct TargetModel {
    pub id: int,
    pub name: Seq<char>,
    pub ipv4_addrs: Seq<Seq<char>>,
    pub ipv6_addrs: Seq<Seq<char>>,
    pub rules: Seq<TargetRuleModel>,
}

impl View for DbNftTarget {
    type V = TargetModel;

    open spec fn view(&self) -> TargetModel {
        TargetModel {
            id: self.id as int,
            name: self.name@,
            ipv4_addrs: views(self.ipv4_addrs@),
            ipv6_addrs: views(self.ipv6_addrs@),
            rules: views(self.rules@),
        }
    }
}

} // verus!
