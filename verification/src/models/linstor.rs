//! LINSTOR deployments.

use vstd::prelude::*;
use vstd::string::*;

verus! {

/// A storage pool, as the `linstor_storage_pools` inventory variable lists it.
#[derive(Debug, Clone)]
pub struct LinstorStoragePool {
    pub name: String,
    /// `lvm`, `lvmthin`, `zfs`, `zfsthin`, `file` or `filethin`.
    pub pool_type: String,
    pub vg: Option<String>,
    pub vg_thinpool: Option<String>,
    pub zpool: Option<String>,
    pub file_path: Option<String>,
    pub physical_devices: Vec<String>,
    /// The satellites that get the pool; all of them where the list is empty.
    pub nodes: Vec<String>,
}

impl Default for LinstorStoragePool {
    fn default() -> (r: Self)
        ensures
            r.name@ == ""@,
            r.pool_type@ == ""@,
            r.vg is None,
            r.vg_thinpool is None,
            r.zpool is None,
            r.file_path is None,
            r.physical_devices.len() == 0,
            r.nodes.len() == 0,
    {
        LinstorStoragePool {
            name: "".to_owned(),
            pool_type: "".to_owned(),
            vg: None,
            vg_thinpool: None,
            zpool: None,
            file_path: None,
            physical_devices: Vec::new(),
            nodes: Vec::new(),
        }
    }
}

/// A resource group.
#[derive(Debug, Clone)]
pub struct LinstorResourceGroup {
    pub name: String,
    pub storage_pool: String,
    pub place_count: u32,
}

impl Default for LinstorResourceGroup {
    fn default() -> (r: Self)
        ensures
            r.name@ == ""@,
            r.storage_pool@ == ""@,
            r.place_count == 0,
    {
        LinstorResourceGroup {
            name: "".to_owned(),
            storage_pool: "".to_owned(),
            place_count: 0,
        }
    }
}

/// A resource that is spawned from a resource group.
#[derive(Debug, Clone)]
pub struct LinstorResourceSpawn {
    pub name: String,
    pub resource_group: String,
    /// For example `100G`.
    pub size: String,
}

impl Default for LinstorResourceSpawn {
    fn default() -> (r: Self)
        ensures
            r.name@ == ""@,
            r.resource_group@ == ""@,
            r.size@ == ""@,
    {
        LinstorResourceSpawn {
            name: "".to_owned(),
            resource_group: "".to_owned(),
            size: "".to_owned(),
        }
    }
}

/// A whole LINSTOR deployment.
#[derive(Debug, Clone)]
pub struct LinstorConfig {
    pub controller_nodes: Vec<String>,
    pub satellite_nodes: Vec<String>,
    /// The directory of the control machine that holds the packages.
    pub rpm_dir: String,
    pub storage_pools: Vec<LinstorStoragePool>,
    pub resource_groups: Vec<LinstorResourceGroup>,
    pub resources: Vec<LinstorResourceSpawn>,
    pub deploy_storage: bool,
    pub ha_database: bool,
    pub token_auth: bool,
    /// Whether Pacemaker manages the resources: the playbook then deploys what that
    /// needs (the kernel module, the SELinux policy and labels, no automatic
    /// promotion).
    pub pacemaker_managed: bool,
}

impl Default for LinstorConfig {
    fn default() -> (r: Self)
        ensures
            r.controller_nodes.len() == 0,
            r.satellite_nodes.len() == 0,
            r.rpm_dir@ == ""@,
            r.storage_pools.len() == 0,
            r.resource_groups.len() == 0,
            r.resources.len() == 0,
            !r.deploy_storage,
            !r.ha_database,
            !r.token_auth,
            !r.pacemaker_managed,
    {
        LinstorConfig {
            controller_nodes: Vec::new(),
            satellite_nodes: Vec::new(),
            rpm_dir: "".to_owned(),
            storage_pools: Vec::new(),
            resource_groups: Vec::new(),
            resources: Vec::new(),
            deploy_storage: false,
            ha_database: false,
            token_auth: false,
            pacemaker_managed: false,
        }
    }
}

/// What a deployment option is set to where the input leaves it out.
pub fn default_true() -> (r: bool)
    ensures
        r,
{
    true
}

} // verus!
