//! nftables policies.

use crate::text::views;
use vstd::prelude::*;
use vstd::string::*;

verus! {

/// A named group of source subnets.
#[derive(Debug, Clone)]
pub struct NftSubnetGroup {
    pub id: i64,
    pub name: String,
    pub description: String,
    pub cidrs_v4: Vec<String>,
    pub cidrs_v6: Vec<String>,
}

impl Default for NftSubnetGroup {
    fn default() -> (r: Self)
        ensures
            r.id == 0,
            r.name@ == ""@,
            r.description@ == ""@,
            r.cidrs_v4.len() == 0,
            r.cidrs_v6.len() == 0,
    {
        NftSubnetGroup {
            id: 0,
            name: "".to_owned(),
            description: "".to_owned(),
            cidrs_v4: Vec::new(),
            cidrs_v6: Vec::new(),
        }
    }
}

/// What an [`NftSubnetGroup`] holds.
pub struct SubnetGroupModel {
    pub id: int,
    pub name: Seq<char>,
    pub description: Seq<char>,
    pub cidrs_v4: Seq<Seq<char>>,
    pub cidrs_v6: Seq<Seq<char>>,
}

impl View for NftSubnetGroup {
    type V = SubnetGroupModel;

    open spec fn view(&self) -> SubnetGroupModel {
        SubnetGroupModel {
            id: self.id as int,
            name: self.name@,
            description: self.description@,
            cidrs_v4: views(self.cidrs_v4@),
            cidrs_v6: views(self.cidrs_v6@),
        }
    }
}

/// A named group of service ports.
#[derive(Debug, Clone)]
pub struct NftServiceDef {
    pub id: i64,
    pub name: String,
    pub description: String,
    pub tcp_ports: Vec<String>,
    pub udp_ports: Vec<String>,
}

impl Default for NftServiceDef {
    fn default() -> (r: Self)
        ensures
            r.id == 0,
            r.name@ == ""@,
            r.description@ == ""@,
            r.tcp_ports.len() == 0,
            r.udp_ports.len() == 0,
    {
        NftServiceDef {
            id: 0,
            name: "".to_owned(),
            description: "".to_owned(),
            tcp_ports: Vec::new(),
            udp_ports: Vec::new(),
        }
    }
}

/// What an [`NftServiceDef`] holds.
pub struct ServiceModel {
    pub id: int,
    pub name: Seq<char>,
    pub description: Seq<char>,
    pub tcp_ports: Seq<Seq<char>>,
    pub udp_ports: Seq<Seq<char>>,
}

impl View for NftServiceDef {
    type V = ServiceModel;

    open spec fn view(&self) -> ServiceModel {
        ServiceModel {
            id: self.id as int,
            name: self.name@,
            description: self.description@,
            tcp_ports: views(self.tcp_ports@),
            udp_ports: views(self.udp_ports@),
        }
    }
}

/// A service that a target lets in.
#[derive(Debug, Clone)]
pub struct NftTargetRule {
    pub service_name: String,
    /// The sources that are let in; every source where there is no group.
    pub subnet_group: Option<String>,
}

/// A pod or container that the policy guards.
#[derive(Debug, Clone)]
pub struct NftTarget {
    pub name: String,
    pub ipv4_addrs: Vec<String>,
    pub ipv6_addrs: Vec<String>,
    pub rules: Vec<NftTargetRule>,
}

/// A range of ports that is open on every target.
#[derive(Debug, Clone)]
pub struct NftGlobalRule {
    /// `tcp` or `udp`.
    pub protocol: String,
    pub port_start: u16,
    pub port_end: u16,
}

/// A whole nftables policy.
#[derive(Debug, Clone)]
pub struct NftPolicy {
    pub filename: String,
    pub table_name: String,
    pub device_name: String,
    pub chain_name: String,
    pub traceroute_start: u16,
    pub traceroute_end: u16,
    /// The open port ranges; where there is none, the traceroute ports stand in.
    pub global_rules: Vec<NftGlobalRule>,
    pub targets: Vec<NftTarget>,
    pub subnet_groups: Vec<NftSubnetGroup>,
    pub services: Vec<NftServiceDef>,
}

} // verus!
