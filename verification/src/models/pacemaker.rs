//! Pacemaker clusters: resources, groups, constraints and fencing devices.

use crate::text::opt_view;
use vstd::prelude::*;
use vstd::string::*;

verus! {

/// The settings of a cluster as a whole.
#[derive(Debug, Clone)]
pub struct ClusterConfig {
    pub cluster_name: String,
    pub nodes: Vec<ClusterNode>,
    pub stonith_enabled: bool,
    /// `stop`, `freeze`, `ignore` or `suicide`.
    pub no_quorum_policy: String,
    pub migration_threshold: u32,
    /// For example `60s`.
    pub failure_timeout: String,
}

impl Default for ClusterConfig {
    fn default() -> (r: Self)
        ensures
            r.cluster_name@ == "ha-cluster"@,
            r.nodes.len() == 0,
            !r.stonith_enabled,
            r.no_quorum_policy@ == "stop"@,
            r.migration_threshold == 3,
            r.failure_timeout@ == "60s"@,
    {
        ClusterConfig {
            cluster_name: "ha-cluster".to_owned(),
            nodes: Vec::new(),
            stonith_enabled: false,
            no_quorum_policy: "stop".to_owned(),
            migration_threshold: 3,
            failure_timeout: "60s".to_owned(),
        }
    }
}

/// A member of the cluster.
#[derive(Debug, Clone)]
pub struct ClusterNode {
    pub name: String,
    pub id: u32,
}

/// What a [`ClusterNode`] holds.
pub struct ClusterNodeModel {
    pub name: Seq<char>,
    pub id: nat,
}

impl View for ClusterNode {
    type V = ClusterNodeModel;

    open spec fn view(&self) -> ClusterNodeModel {
        ClusterNodeModel { name: self.name@, id: self.id as nat }
    }
}

/// A DRBD resource as a promotable clone.
#[derive(Debug, Clone)]
pub struct DrbdPacemakerResource {
    /// The name in Pacemaker, for example `drbd-r0`.
    pub resource_name: String,
    /// The name in the `.res` file, for example `r0`.
    pub drbd_resource_name: String,
    /// The name of the clone, for example `drbd-r0-clone`.
    pub clone_name: String,
    pub notify: bool,
    pub promotable: bool,
    /// `fence`, `block`, `stop`, `ignore` or `demote`.
    pub on_fail: String,
    /// The node that is preferred as primary.
    pub target_role_master_node: Option<String>,
    pub promote_timeout: String,
    pub demote_timeout: String,
    pub start_timeout: String,
    pub stop_timeout: String,
    pub monitor_interval_promoted: String,
    pub monitor_interval_unpromoted: String,
}

/// How long a promotion may take unless the input says otherwise.
pub fn default_drbd_promote_timeout() -> (r: String)
    ensures
        r@ == "90s"@,
{
    "90s".to_owned()
}

/// How long a demotion may take unless the input says otherwise.
pub fn default_drbd_demote_timeout() -> (r: String)
    ensures
        r@ == "90s"@,
{
    "90s".to_owned()
}

/// How long a start may take unless the input says otherwise.
pub fn default_drbd_start_timeout() -> (r: String)
    ensures
        r@ == "240s"@,
{
    "240s".to_owned()
}

/// How long a stop may take unless the input says otherwise.
pub fn default_drbd_stop_timeout() -> (r: String)
    ensures
        r@ == "100s"@,
{
    "100s".to_owned()
}

impl Default for DrbdPacemakerResource {
    fn default() -> (r: Self)
        ensures
            r.resource_name@ == "drbd-r0"@,
            r.drbd_resource_name@ == "r0"@,
            r.clone_name@ == "drbd-r0-clone"@,
            r.notify,
            r.promotable,
            r.on_fail@ == "fence"@,
            r.target_role_master_node is None,
            r.promote_timeout@ == "90s"@,
            r.demote_timeout@ == "90s"@,
            r.start_timeout@ == "240s"@,
            r.stop_timeout@ == "100s"@,
            r.monitor_interval_promoted@ == "29s"@,
            r.monitor_interval_unpromoted@ == "31s"@,
    {
        DrbdPacemakerResource {
            resource_name: "drbd-r0".to_owned(),
            drbd_resource_name: "r0".to_owned(),
            clone_name: "drbd-r0-clone".to_owned(),
            notify: true,
            promotable: true,
            on_fail: "fence".to_owned(),
            target_role_master_node: None,
            promote_timeout: default_drbd_promote_timeout(),
            demote_timeout: default_drbd_demote_timeout(),
            start_timeout: default_drbd_start_timeout(),
            stop_timeout: default_drbd_stop_timeout(),
            monitor_interval_promoted: "29s".to_owned(),
            monitor_interval_unpromoted: "31s".to_owned(),
        }
    }
}

/// A systemd unit as a resource.
#[derive(Debug, Clone)]
pub struct SystemdResource {
    pub resource_name: String,
    /// For example `myapp.service`.
    pub systemd_unit: String,
    pub resource_type: SystemdResourceType,
    pub monitor_interval: String,
    pub start_timeout: String,
    pub stop_timeout: String,
    pub clone: bool,
    pub clone_name: Option<String>,
}

/// What kind of Quadlet unit a systemd resource stands for.
#[derive(Debug, Clone, Copy, PartialEq, Eq, Structural)]
pub enum SystemdResourceType {
    Container,
    Pod,
    Volume,
}

impl SystemdResourceType {
    /// The name of the kind.
    pub open spec fn name(self) -> Seq<char> {
        match self {
            SystemdResourceType::Container => "Container"@,
            SystemdResourceType::Pod => "Pod"@,
            SystemdResourceType::Volume => "Volume"@,
        }
    }

    /// The name of the kind.
    pub fn label(&self) -> (r: String)
        ensures
            r@ == self.name(),
    {
        match self {
            SystemdResourceType::Container => "Container".to_owned(),
            SystemdResourceType::Pod => "Pod".to_owned(),
            SystemdResourceType::Volume => "Volume".to_owned(),
        }
    }
}

impl Default for SystemdResource {
    fn default() -> (r: Self)
        ensures
            r.resource_name@ == ""@,
            r.systemd_unit@ == ""@,
            r.resource_type == SystemdResourceType::Container,
            r.monitor_interval@ == "30s"@,
            r.start_timeout@ == "60s"@,
            r.stop_timeout@ == "60s"@,
            !r.clone,
            r.clone_name is None,
    {
        SystemdResource {
            resource_name: "".to_owned(),
            systemd_unit: "".to_owned(),
            resource_type: SystemdResourceType::Container,
            monitor_interval: "30s".to_owned(),
            start_timeout: "60s".to_owned(),
            stop_timeout: "60s".to_owned(),
            clone: false,
            clone_name: None,
        }
    }
}

/// An order constraint.
#[derive(Debug, Clone)]
pub struct OrderConstraint {
    pub id: String,
    pub first: String,
    /// `start`, `promote`, `demote` or `stop`.
    pub first_action: String,
    pub then_rsc: String,
    pub then_action: String,
    /// `Mandatory`, `Optional` or `Serialize`.
    pub kind: String,
}

/// What an [`OrderConstraint`] holds.
pub struct OrderModel {
    pub id: Seq<char>,
    pub first: Seq<char>,
    pub first_action: Seq<char>,
    pub then_rsc: Seq<char>,
    pub then_action: Seq<char>,
    pub kind: Seq<char>,
}

impl View for OrderConstraint {
    type V = OrderModel;

    open spec fn view(&self) -> OrderModel {
        OrderModel {
            id: self.id@,
            first: self.first@,
            first_action: self.first_action@,
            then_rsc: self.then_rsc@,
            then_action: self.then_action@,
            kind: self.kind@,
        }
    }
}

/// A colocation constraint.
#[derive(Debug, Clone)]
pub struct ColocationConstraint {
    pub id: String,
    pub rsc: String,
    pub rsc_role: Option<String>,
    pub with_rsc: String,
    pub with_rsc_role: Option<String>,
    /// `INFINITY`, `-INFINITY` or a number.
    pub score: String,
}

/// What a [`ColocationConstraint`] holds.
pub struct ColocationModel {
    pub id: Seq<char>,
    pub rsc: Seq<char>,
    pub rsc_role: Option<Seq<char>>,
    pub with_rsc: Seq<char>,
    pub with_rsc_role: Option<Seq<char>>,
    pub score: Seq<char>,
}

impl View for ColocationConstraint {
    type V = ColocationModel;

    open spec fn view(&self) -> ColocationModel {
        ColocationModel {
            id: self.id@,
            rsc: self.rsc@,
            rsc_role: opt_view(self.rsc_role),
            with_rsc: self.with_rsc@,
            with_rsc_role: opt_view(self.with_rsc_role),
            score: self.score@,
        }
    }
}

/// A location constraint: the node that a resource prefers.
#[derive(Debug, Clone)]
pub struct LocationConstraint {
    pub id: String,
    pub rsc: String,
    pub node: String,
    pub score: String,
}

/// A file system on a DRBD volume.
#[derive(Debug, Clone)]
pub struct FsResource {
    pub resource_name: String,
    pub device: String,
    pub directory: String,
    pub fstype: String,
    pub monitor_interval: String,
    pub start_timeout: String,
    pub stop_timeout: String,
    /// The DRBD clone that the file system lies on; any of them where it is empty.
    pub drbd_clone_name: String,
}

impl Default for FsResource {
    fn default() -> (r: Self)
        ensures
            r.resource_name@ == "fs-r0"@,
            r.device@ == "/dev/drbd/by-res/r0/0"@,
            r.directory@ == "/mnt/drbd/r0"@,
            r.fstype@ == "xfs"@,
            r.monitor_interval@ == "20s"@,
            r.start_timeout@ == "60s"@,
            r.stop_timeout@ == "60s"@,
            r.drbd_clone_name@ == ""@,
    {
        FsResource {
            resource_name: "fs-r0".to_owned(),
            device: "/dev/drbd/by-res/r0/0".to_owned(),
            directory: "/mnt/drbd/r0".to_owned(),
            fstype: "xfs".to_owned(),
            monitor_interval: "20s".to_owned(),
            start_timeout: "60s".to_owned(),
            stop_timeout: "60s".to_owned(),
            drbd_clone_name: "".to_owned(),
        }
    }
}

/// Resources that start in order and stop in reverse order.
#[derive(Debug, Clone)]
pub struct ResourceGroup {
    pub group_name: String,
    pub members: Vec<String>,
    /// The file system that the group follows; any of them where there is none.
    pub after_fs: Option<String>,
}

/// A fencing device that is reached by IPMI.
#[derive(Debug, Clone)]
pub struct StonithDevice {
    pub node: String,
    pub ipmi_ip: String,
    pub ipmi_user: String,
    pub ipmi_password: String,
    pub extra_opts: Vec<String>,
}

impl Default for StonithDevice {
    fn default() -> (r: Self)
        ensures
            r.node@ == ""@,
            r.ipmi_ip@ == ""@,
            r.ipmi_user@ == ""@,
            r.ipmi_password@ == ""@,
            r.extra_opts.len() == 0,
    {
        StonithDevice {
            node: "".to_owned(),
            ipmi_ip: "".to_owned(),
            ipmi_user: "".to_owned(),
            ipmi_password: "".to_owned(),
            extra_opts: Vec::new(),
        }
    }
}

/// The whole configuration of a cluster.
#[derive(Debug, Clone)]
pub struct PacemakerConfig {
    pub cluster: ClusterConfig,
    pub drbd_resources: Vec<DrbdPacemakerResource>,
    pub fs_resources: Vec<FsResource>,
    pub systemd_resources: Vec<SystemdResource>,
    pub resource_groups: Vec<ResourceGroup>,
    pub order_constraints: Vec<OrderConstraint>,
    pub colocation_constraints: Vec<ColocationConstraint>,
    pub location_constraints: Vec<LocationConstraint>,
    pub stonith_devices: Vec<StonithDevice>,
}

impl Default for PacemakerConfig {
    fn default() -> (r: Self)
        ensures
            call_ensures(ClusterConfig::default, (), r.cluster),
            r.drbd_resources.len() == 0,
            r.fs_resources.len() == 0,
            r.systemd_resources.len() == 0,
            r.resource_groups.len() == 0,
            r.order_constraints.len() == 0,
            r.colocation_constraints.len() == 0,
            r.location_constraints.len() == 0,
            r.stonith_devices.len() == 0,
    {
        PacemakerConfig {
            cluster: ClusterConfig::default(),
            drbd_resources: Vec::new(),
            fs_resources: Vec::new(),
            systemd_resources: Vec::new(),
            resource_groups: Vec::new(),
            order_constraints: Vec::new(),
            colocation_constraints: Vec::new(),
            location_constraints: Vec::new(),
            stonith_devices: Vec::new(),
        }
    }
}

} // verus!
