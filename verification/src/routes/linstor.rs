//! LINSTOR: the form, and the files that are made from it.

use crate::generators::linstor::{
    LINSTOR_REQUIREMENTS, generate_linstor_ansible_playbook, generate_linstor_inventory,
    generate_linstor_requirements_yml, linstor_inventory, linstor_playbook,
};
use crate::models::linstor::{
    LinstorConfig, LinstorResourceGroup, LinstorResourceSpawn, LinstorStoragePool, default_true,
};
use crate::routes::drbd::{is_on, switched_on};
use crate::text::{opt_view, same};
use vstd::prelude::*;
use vstd::string::*;

verus! {

/// A form that describes a LINSTOR deployment. Lists come as JSON.
#[derive(Debug, Clone)]
pub struct LinstorFormData {
    pub controller_nodes_json: Option<String>,
    pub satellite_nodes_json: Option<String>,
    pub rpm_dir: String,
    pub storage_pools_json: Option<String>,
    pub resource_groups_json: Option<String>,
    pub resources_json: Option<String>,
    pub deploy_storage: Option<String>,
    pub ha_database: Option<String>,
    pub token_auth: Option<String>,
    pub ansible_user: Option<String>,
    pub ansible_ssh_key: Option<String>,
}

/// The files of a LINSTOR deployment.
#[derive(Debug, Clone)]
pub struct LinstorResult {
    pub requirements_yml: String,
    pub inventory: String,
    pub ansible_playbook: String,
}

/// The lists of a form, read from its JSON.
#[derive(Debug, Clone)]
pub struct LinstorLists {
    pub controller_nodes: Vec<String>,
    pub satellite_nodes: Vec<String>,
    pub storage_pools: Vec<LinstorStoragePool>,
    pub resource_groups: Vec<LinstorResourceGroup>,
    pub resources: Vec<LinstorResourceSpawn>,
}

/// An optional text where it is not empty, `default` otherwise.
pub open spec fn unless_missing(o: Option<String>, default: Seq<char>) -> Seq<char> {
    match o {
        Some(s) => if s@.len() > 0 {
            s@
        } else {
            default
        },
        None => default,
    }
}

/// An optional text where it is not empty, `default` otherwise.
pub fn not_empty_or(o: &Option<String>, default: &str) -> (r: String)
    ensures
        r@ == unless_missing(*o, default@),
{
    match o {
        Some(s) => if s.as_str().unicode_len() > 0 {
            s.clone()
        } else {
            default.to_owned()
        },
        None => default.to_owned(),
    }
}

/// The deployment that a form describes. Storage and the highly available database are
/// deployed where they are switched on, and tokens are required unless that is switched
/// off.
pub fn linstor_config(form: &LinstorFormData, lists: LinstorLists) -> (r: LinstorConfig)
    ensures
        r.controller_nodes == lists.controller_nodes,
        r.satellite_nodes == lists.satellite_nodes,
        r.rpm_dir@ == form.rpm_dir@,
        r.storage_pools == lists.storage_pools,
        r.resource_groups == lists.resource_groups,
        r.resources == lists.resources,
        r.deploy_storage == is_on(form.deploy_storage),
        r.ha_database == is_on(form.ha_database),
        r.token_auth == (opt_view(form.token_auth) != Some("off"@)),
        r.pacemaker_managed,
{
    let token_auth = match &form.token_auth {
        Some(s) => !same(s.as_str(), "off"),
        None => true,
    };
    LinstorConfig {
        controller_nodes: lists.controller_nodes,
        satellite_nodes: lists.satellite_nodes,
        rpm_dir: form.rpm_dir.clone(),
        storage_pools: lists.storage_pools,
        resource_groups: lists.resource_groups,
        resources: lists.resources,
        deploy_storage: switched_on(&form.deploy_storage),
        ha_database: switched_on(&form.ha_database),
        token_auth,
        pacemaker_managed: default_true(),
    }
}

/// The files of a LINSTOR deployment. `node_ips` pairs host names with addresses.
pub fn linstor_result(
    form: &LinstorFormData,
    config: &LinstorConfig,
    node_ips: &Vec<(String, String)>,
) -> (r: LinstorResult)
    ensures
        ({
            let user = unless_missing(form.ansible_user, "root"@);
            let key = unless_missing(form.ansible_ssh_key, "~/.ssh/id_rsa"@);
            &&& r.requirements_yml@ == LINSTOR_REQUIREMENTS@
            &&& r.inventory@ == linstor_inventory(*config, node_ips@, user, key)
            &&& r.ansible_playbook@ == linstor_playbook(*config, user, key)
        }),
{
    let user = not_empty_or(&form.ansible_user, "root");
    let key = not_empty_or(&form.ansible_ssh_key, "~/.ssh/id_rsa");
    LinstorResult {
        requirements_yml: generate_linstor_requirements_yml(),
        inventory: generate_linstor_inventory(config, node_ips, user.as_str(), key.as_str()),
        ansible_playbook: generate_linstor_ansible_playbook(config, user.as_str(), key.as_str()),
    }
}

} // verus!
