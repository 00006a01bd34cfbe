//! DRBD resources, their nodes, and the Ansible inventory they are deployed with.

use crate::text::{same, views};
use vstd::prelude::*;
use vstd::string::*;

verus! {

/// A node that holds one replica of a DRBD resource.
#[derive(Debug, Clone)]
pub struct DrbdNode {
    pub hostname: String,
    pub ip: String,
    /// The block device, for example `/dev/sdb`.
    pub disk_device: String,
    /// Where the metadata lives, for example `internal`.
    pub meta_disk: String,
    pub port: u16,
    /// `block` or `lvm`.
    pub disk_type: String,
    /// The volume group of an `lvm` disk.
    pub lvm_vg: String,
    /// The size of the logical volume of an `lvm` disk.
    pub lvm_size: String,
}

impl Default for DrbdNode {
    fn default() -> (r: Self)
        ensures
            r.hostname@ == ""@,
            r.ip@ == ""@,
            r.disk_device@ == ""@,
            r.meta_disk@ == "internal"@,
            r.port == 7789,
            r.disk_type@ == "block"@,
            r.lvm_vg@ == ""@,
            r.lvm_size@ == ""@,
    {
        DrbdNode {
            hostname: "".to_owned(),
            ip: "".to_owned(),
            disk_device: "".to_owned(),
            meta_disk: "internal".to_owned(),
            port: 7789,
            disk_type: "block".to_owned(),
            lvm_vg: "".to_owned(),
            lvm_size: "".to_owned(),
        }
    }
}

impl DrbdNode {
    /// Whether a logical volume can be made for this node.
    pub open spec fn on_lvm(self) -> bool {
        self.disk_type@ == "lvm"@ && self.lvm_vg@.len() > 0
    }

    /// The device that backs the resource on this node: the logical volume named after
    /// the resource, or else the block device.
    pub open spec fn disk_path(self, resource_name: Seq<char>) -> Seq<char> {
        if self.on_lvm() {
            "/dev/"@ + self.lvm_vg@ + "/"@ + resource_name
        } else {
            self.disk_device@
        }
    }

    /// Whether a logical volume can be made for this node.
    pub fn is_on_lvm(&self) -> (r: bool)
        ensures
            r == self.on_lvm(),
    {
        same(self.disk_type.as_str(), "lvm") && self.lvm_vg.as_str().unicode_len() > 0
    }

    /// The device that backs the resource on this node.
    pub fn effective_disk(&self, resource_name: &str) -> (r: String)
        ensures
            r@ == self.disk_path(resource_name@),
    {
        if self.is_on_lvm() {
            let mut out = "/dev/".to_owned();
            out.push_str(self.lvm_vg.as_str());
            out.push_str("/");
            out.push_str(resource_name);
            out
        } else {
            self.disk_device.clone()
        }
    }
}

/// A DRBD resource.
#[derive(Debug, Clone)]
pub struct DrbdResource {
    pub resource_name: String,
    /// `A`, `B` or `C`.
    pub protocol: String,
    pub minor: u32,
    pub nodes: Vec<DrbdNode>,
    pub net_options: DrbdNetOptions,
    pub disk_options: DrbdDiskOptions,
    pub startup_options: DrbdStartupOptions,
}

impl Default for DrbdResource {
    fn default() -> (r: Self)
        ensures
            r.resource_name@ == "r0"@,
            r.protocol@ == "C"@,
            r.minor == 0,
            r.nodes.len() == 2,
            call_ensures(DrbdNode::default, (), r.nodes[0]),
            call_ensures(DrbdNode::default, (), r.nodes[1]),
            call_ensures(DrbdNetOptions::default, (), r.net_options),
            call_ensures(DrbdDiskOptions::default, (), r.disk_options),
            call_ensures(DrbdStartupOptions::default, (), r.startup_options),
    {
        let mut nodes: Vec<DrbdNode> = Vec::new();
        nodes.push(DrbdNode::default());
        nodes.push(DrbdNode::default());
        DrbdResource {
            resource_name: "r0".to_owned(),
            protocol: "C".to_owned(),
            minor: 0,
            nodes,
            net_options: DrbdNetOptions::default(),
            disk_options: DrbdDiskOptions::default(),
            startup_options: DrbdStartupOptions::default(),
        }
    }
}

/// The options of the `net` section.
#[derive(Debug, Clone)]
pub struct DrbdNetOptions {
    pub allow_two_primaries: bool,
    pub after_sb_0pri: String,
    pub after_sb_1pri: String,
    pub after_sb_2pri: String,
}

impl Default for DrbdNetOptions {
    fn default() -> (r: Self)
        ensures
            !r.allow_two_primaries,
            r.after_sb_0pri@ == "discard-younger-primary"@,
            r.after_sb_1pri@ == "discard-secondary"@,
            r.after_sb_2pri@ == "disconnect"@,
    {
        DrbdNetOptions {
            allow_two_primaries: false,
            after_sb_0pri: "discard-younger-primary".to_owned(),
            after_sb_1pri: "discard-secondary".to_owned(),
            after_sb_2pri: "disconnect".to_owned(),
        }
    }
}

/// The options of the `disk` section.
#[derive(Debug, Clone)]
pub struct DrbdDiskOptions {
    pub on_io_error: String,
    pub fencing: String,
}

impl Default for DrbdDiskOptions {
    fn default() -> (r: Self)
        ensures
            r.on_io_error@ == "detach"@,
            r.fencing@ == "resource-only"@,
    {
        DrbdDiskOptions {
            on_io_error: "detach".to_owned(),
            fencing: "resource-only".to_owned(),
        }
    }
}

/// The options of the `startup` section.
#[derive(Debug, Clone)]
pub struct DrbdStartupOptions {
    pub wfc_timeout: u32,
    pub degr_wfc_timeout: u32,
    pub become_primary_on: String,
}

impl Default for DrbdStartupOptions {
    fn default() -> (r: Self)
        ensures
            r.wfc_timeout == 15,
            r.degr_wfc_timeout == 60,
            r.become_primary_on@ == ""@,
    {
        DrbdStartupOptions {
            wfc_timeout: 15,
            degr_wfc_timeout: 60,
            become_primary_on: "".to_owned(),
        }
    }
}

/// The hosts and the login that a playbook is run with.
#[derive(Debug, Clone)]
pub struct AnsibleInventory {
    pub nodes: Vec<AnsibleNode>,
    pub ansible_user: String,
    pub ansible_ssh_private_key_file: String,
    pub use_become: bool,
}

impl Default for AnsibleInventory {
    fn default() -> (r: Self)
        ensures
            r.nodes.len() == 0,
            r.ansible_user@ == "root"@,
            r.ansible_ssh_private_key_file@ == "~/.ssh/id_rsa"@,
            r.use_become,
    {
        AnsibleInventory {
            nodes: Vec::new(),
            ansible_user: "root".to_owned(),
            ansible_ssh_private_key_file: "~/.ssh/id_rsa".to_owned(),
            use_become: true,
        }
    }
}

/// A host of an Ansible inventory.
#[derive(Debug, Clone)]
pub struct AnsibleNode {
    pub hostname: String,
    pub ip: String,
}

/// A node as a `.res` file names it.
#[derive(Debug, Clone)]
pub struct ScannedDrbdNode {
    pub hostname: String,
    pub ip: String,
    pub port: u16,
    pub disk: String,
    pub meta: String,
    pub disk_type: String,
    pub lvm_vg: String,
    pub lvm_size: String,
}

/// What a [`ScannedDrbdNode`] holds.
pub struct ScannedNodeModel {
    pub hostname: Seq<char>,
    pub ip: Seq<char>,
    pub port: nat,
    pub disk: Seq<char>,
    pub meta: Seq<char>,
    pub disk_type: Seq<char>,
    pub lvm_vg: Seq<char>,
    pub lvm_size: Seq<char>,
}

impl View for ScannedDrbdNode {
    type V = ScannedNodeModel;

    open spec fn view(&self) -> ScannedNodeModel {
        ScannedNodeModel {
            hostname: self.hostname@,
            ip: self.ip@,
            port: self.port as nat,
            disk: self.disk@,
            meta: self.meta@,
            disk_type: self.disk_type@,
            lvm_vg: self.lvm_vg@,
            lvm_size: self.lvm_size@,
        }
    }
}

/// A resource as a `.res` file describes it.
#[derive(Debug, Clone)]
pub struct ScannedDrbdResource {
    pub resource_name: String,
    pub protocol: String,
    pub minor: u32,
    pub nodes: Vec<ScannedDrbdNode>,
    pub source_file: String,
}

/// What a [`ScannedDrbdResource`] holds.
pub struct ScannedResourceModel {
    pub resource_name: Seq<char>,
    pub protocol: Seq<char>,
    pub minor: nat,
    pub nodes: Seq<ScannedNodeModel>,
    pub source_file: Seq<char>,
}

impl View for ScannedDrbdResource {
    type V = ScannedResourceModel;

    open spec fn view(&self) -> ScannedResourceModel {
        ScannedResourceModel {
            resource_name: self.resource_name@,
            protocol: self.protocol@,
            minor: self.minor as nat,
            nodes: views(self.nodes@),
            source_file: self.source_file@,
        }
    }
}

} // verus!
