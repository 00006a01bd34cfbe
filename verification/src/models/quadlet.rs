//! Quadlet units.

use crate::text::{opt_view, views};
use vstd::prelude::*;
use vstd::string::*;

verus! {

/// A `.volume` unit.
#[derive(Debug, Clone)]
pub struct QuadletVolume {
    pub name: String,
    pub driver: String,
    pub options: Vec<String>,
    pub labels: Vec<String>,
}

impl Default for QuadletVolume {
    fn default() -> (r: Self)
        ensures
            r.name@ == ""@,
            r.driver@ == ""@,
            r.options.len() == 0,
            r.labels.len() == 0,
    {
        QuadletVolume {
            name: "".to_owned(),
            driver: "".to_owned(),
            options: Vec::new(),
            labels: Vec::new(),
        }
    }
}

/// A `.network` unit.
#[derive(Debug, Clone)]
pub struct QuadletNetwork {
    pub name: String,
    /// `ipvlan` or `macvlan`.
    pub driver: String,
    /// The parent interface of the host; empty where it is found at deployment.
    pub interface: String,
    pub subnet: String,
    pub gateway: String,
    pub subnet6: String,
    pub gateway6: String,
    pub ipv6: bool,
    /// `l2`, `l3` or `l3s`.
    pub ipvlan_mode: String,
    pub internal: bool,
    pub options: Vec<String>,
}

impl Default for QuadletNetwork {
    fn default() -> (r: Self)
        ensures
            r.name@ == ""@,
            r.driver@ == ""@,
            r.interface@ == ""@,
            r.subnet@ == ""@,
            r.gateway@ == ""@,
            r.subnet6@ == ""@,
            r.gateway6@ == ""@,
            !r.ipv6,
            r.ipvlan_mode@ == ""@,
            !r.internal,
            r.options.len() == 0,
    {
        QuadletNetwork {
            name: "".to_owned(),
            driver: "".to_owned(),
            interface: "".to_owned(),
            subnet: "".to_owned(),
            gateway: "".to_owned(),
            subnet6: "".to_owned(),
            gateway6: "".to_owned(),
            ipv6: false,
            ipvlan_mode: "".to_owned(),
            internal: false,
            options: Vec::new(),
        }
    }
}

/// What a [`QuadletNetwork`] holds.
pub struct NetworkUnitModel {
    pub name: Seq<char>,
    pub driver: Seq<char>,
    pub interface: Seq<char>,
    pub subnet: Seq<char>,
    pub gateway: Seq<char>,
    pub subnet6: Seq<char>,
    pub gateway6: Seq<char>,
    pub ipv6: bool,
    pub ipvlan_mode: Seq<char>,
    pub internal: bool,
    pub options: Seq<Seq<char>>,
}

impl View for QuadletNetwork {
    type V = NetworkUnitModel;

    open spec fn view(&self) -> NetworkUnitModel {
        NetworkUnitModel {
            name: self.name@,
            driver: self.driver@,
            interface: self.interface@,
            subnet: self.subnet@,
            gateway: self.gateway@,
            subnet6: self.subnet6@,
            gateway6: self.gateway6@,
            ipv6: self.ipv6,
            ipvlan_mode: self.ipvlan_mode@,
            internal: self.internal,
            options: views(self.options@),
        }
    }
}

/// A network that a pod is attached to.
#[derive(Debug, Clone)]
pub struct PodNetworkEntry {
    pub network: String,
    pub ip: Option<String>,
    pub ip6: Option<String>,
    pub gateway: Option<String>,
    pub gateway6: Option<String>,
}

impl Default for PodNetworkEntry {
    fn default() -> (r: Self)
        ensures
            r.network@ == ""@,
            r.ip is None,
            r.ip6 is None,
            r.gateway is None,
            r.gateway6 is None,
    {
        PodNetworkEntry { network: "".to_owned(), ip: None, ip6: None, gateway: None, gateway6: None }
    }
}

/// What a [`PodNetworkEntry`] holds.
pub struct PodNetworkModel {
    pub network: Seq<char>,
    pub ip: Option<Seq<char>>,
    pub ip6: Option<Seq<char>>,
    pub gateway: Option<Seq<char>>,
    pub gateway6: Option<Seq<char>>,
}

impl View for PodNetworkEntry {
    type V = PodNetworkModel;

    open spec fn view(&self) -> PodNetworkModel {
        PodNetworkModel {
            network: self.network@,
            ip: opt_view(self.ip),
            ip6: opt_view(self.ip6),
            gateway: opt_view(self.gateway),
            gateway6: opt_view(self.gateway6),
        }
    }
}

/// A `.pod` unit.
#[derive(Debug, Clone)]
pub struct QuadletPod {
    pub name: String,
    pub description: Option<String>,
    pub hostname: Option<String>,
    pub shm_size: Option<String>,
    pub networks: Vec<PodNetworkEntry>,
    pub labels: Vec<String>,
}

impl Default for QuadletPod {
    fn default() -> (r: Self)
        ensures
            r.name@ == ""@,
            r.description is None,
            r.hostname is None,
            r.shm_size is None,
            r.networks.len() == 0,
            r.labels.len() == 0,
    {
        QuadletPod {
            name: "".to_owned(),
            description: None,
            hostname: None,
            shm_size: None,
            networks: Vec::new(),
            labels: Vec::new(),
        }
    }
}

/// A `.container` unit.
#[derive(Debug, Clone)]
pub struct QuadletContainer {
    pub name: String,
    pub image: String,
    pub description: Option<String>,
    /// The pod that the container belongs to.
    pub pod: Option<String>,
    pub network: Option<String>,
    pub ip: Option<String>,
    pub environment: Vec<(String, String)>,
    /// Mounts of the form `name:/path:options`.
    pub volumes: Vec<String>,
    pub tmpfs: Vec<String>,
    pub publish_ports: Vec<String>,
    pub exec_command: Option<String>,
    pub entrypoint: Option<String>,
    pub user: Option<String>,
    pub auto_update: Option<String>,
    pub labels: Vec<String>,
    pub extra_args: Vec<String>,
    /// The containers or pods that come first.
    pub depends_on: Vec<String>,
    pub drbd_resource: Option<String>,
    pub service_type: Option<String>,
    pub remain_after_exit: Option<bool>,
    pub timeout_stop_sec: Option<String>,
    pub wanted_by: Option<String>,
    pub add_capabilities: Vec<String>,
}

impl Default for QuadletContainer {
    fn default() -> (r: Self)
        ensures
            r.name@ == ""@,
            r.image@ == ""@,
            r.description is None,
            r.pod is None,
            r.network is None,
            r.ip is None,
            r.environment.len() == 0,
            r.volumes.len() == 0,
            r.tmpfs.len() == 0,
            r.publish_ports.len() == 0,
            r.exec_command is None,
            r.entrypoint is None,
            r.user is None,
            r.auto_update is None,
            r.labels.len() == 0,
            r.extra_args.len() == 0,
            r.depends_on.len() == 0,
            r.drbd_resource is None,
            r.service_type is None,
            r.remain_after_exit is None,
            r.timeout_stop_sec is None,
            r.wanted_by is None,
            r.add_capabilities.len() == 0,
    {
        QuadletContainer {
            name: "".to_owned(),
            image: "".to_owned(),
            description: None,
            pod: None,
            network: None,
            ip: None,
            environment: Vec::new(),
            volumes: Vec::new(),
            tmpfs: Vec::new(),
            publish_ports: Vec::new(),
            exec_command: None,
            entrypoint: None,
            user: None,
            auto_update: None,
            labels: Vec::new(),
            extra_args: Vec::new(),
            depends_on: Vec::new(),
            drbd_resource: None,
            service_type: None,
            remain_after_exit: None,
            timeout_stop_sec: None,
            wanted_by: None,
            add_capabilities: Vec::new(),
        }
    }
}

/// All units of an installation.
#[derive(Debug, Clone)]
pub struct QuadletConfig {
    pub volumes: Vec<QuadletVolume>,
    pub networks: Vec<QuadletNetwork>,
    pub pods: Vec<QuadletPod>,
    pub containers: Vec<QuadletContainer>,
    /// The directory that the units are installed in.
    pub install_path: String,
}

impl Default for QuadletConfig {
    fn default() -> (r: Self)
        ensures
            r.volumes.len() == 0,
            r.networks.len() == 0,
            r.pods.len() == 0,
            r.containers.len() == 0,
            r.install_path@ == ""@,
    {
        QuadletConfig {
            volumes: Vec::new(),
            networks: Vec::new(),
            pods: Vec::new(),
            containers: Vec::new(),
            install_path: "".to_owned(),
        }
    }
}

impl QuadletConfig {
    /// No units, to be installed where Podman looks for them.
    pub fn new() -> (r: Self)
        ensures
            r.volumes.len() == 0,
            r.networks.len() == 0,
            r.pods.len() == 0,
            r.containers.len() == 0,
            r.install_path@ == "/etc/containers/systemd"@,
    {
        QuadletConfig {
            volumes: Vec::new(),
            networks: Vec::new(),
            pods: Vec::new(),
            containers: Vec::new(),
            install_path: "/etc/containers/systemd".to_owned(),
        }
    }
}

/// A line of `podman ps`.
#[derive(Debug, Clone)]
pub struct PodmanContainerInfo {
    pub id: String,
    pub names: String,
    pub image: String,
    pub ports: String,
    pub status: String,
    pub command: String,
    pub mounts: Vec<String>,
    pub env: Vec<String>,
    pub network_settings: Option<PodmanNetworkInfo>,
}

/// The network of a running container.
#[derive(Debug, Clone)]
pub struct PodmanNetworkInfo {
    pub network_name: String,
    pub ip_address: String,
}

impl Default for PodmanContainerInfo {
    fn default() -> (r: Self)
        ensures
            r.id@ == ""@,
            r.names@ == ""@,
            r.image@ == ""@,
            r.ports@ == ""@,
            r.status@ == ""@,
            r.command@ == ""@,
            r.mounts.len() == 0,
            r.env.len() == 0,
            r.network_settings is None,
    {
        PodmanContainerInfo {
            id: "".to_owned(),
            names: "".to_owned(),
            image: "".to_owned(),
            ports: "".to_owned(),
            status: "".to_owned(),
            command: "".to_owned(),
            mounts: Vec::new(),
            env: Vec::new(),
            network_settings: None,
        }
    }
}

impl Default for PodmanNetworkInfo {
    fn default() -> (r: Self)
        ensures
            r.network_name@ == ""@,
            r.ip_address@ == ""@,
    {
        PodmanNetworkInfo { network_name: "".to_owned(), ip_address: "".to_owned() }
    }
}

} // verus!
