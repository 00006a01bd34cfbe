//! Containers: the form, and the units that are made from it.

use crate::generators::quadlet::{container_file, generate_all_units, unit_files};
use crate::generators::quadlet_playbook::quadlet_playbook;
use crate::lines::flat;
use crate::models::quadlet::{
    QuadletConfig, QuadletContainer, QuadletNetwork, QuadletPod, QuadletVolume,
};
use crate::routes::quadlet::{QuadletFullForm, copy_opt, keep_not_blank, quadlet_result};
use crate::text::{is_blank, opt_view, views};
use vstd::prelude::*;
use vstd::string::*;

verus! {

/// A form that describes containers.
#[derive(Debug, Clone)]
pub struct ContainerFullForm {
    pub containers_json: Option<String>,
    pub pod_name: Option<String>,
    pub ansible_hosts: Option<String>,
    pub ansible_user: Option<String>,
    pub ansible_ssh_key: Option<String>,
}

impl ContainerFullForm {
    /// The form as one that describes a pod: the name of the pod and the login, and
    /// nothing else.
    pub fn as_quadlet_form(&self) -> (r: QuadletFullForm)
        ensures
            r.pod_name == self.pod_name,
            r.ansible_hosts == self.ansible_hosts,
            r.ansible_user == self.ansible_user,
            r.ansible_ssh_key == self.ansible_ssh_key,
            r.net_driver is None,
            r.net_interface is None,
            r.net_subnet is None,
            r.net_gateway is None,
            r.net_subnet6 is None,
            r.net_gateway6 is None,
            r.net_ipvlan_mode is None,
            r.pod_description is None,
            r.pod_hostname is None,
            r.pod_shm_size is None,
            r.pod_networks_json is None,
    {
        QuadletFullForm {
            net_driver: None,
            net_interface: None,
            net_subnet: None,
            net_gateway: None,
            net_subnet6: None,
            net_gateway6: None,
            net_ipvlan_mode: None,
            pod_name: copy_opt(&self.pod_name),
            pod_description: None,
            pod_hostname: None,
            pod_shm_size: None,
            pod_networks_json: None,
            ansible_hosts: copy_opt(&self.ansible_hosts),
            ansible_user: copy_opt(&self.ansible_user),
            ansible_ssh_key: copy_opt(&self.ansible_ssh_key),
        }
    }
}

/// The units and the playbook that deploys them.
#[derive(Debug, Clone)]
pub struct ContainerResult {
    pub files: Vec<(String, String)>,
    pub ansible_playbook: String,
}

/// A form with the output of `podman inspect`.
#[derive(Debug, Clone)]
pub struct InspectForm {
    pub inspect_json: String,
}

/// A container with the pod of the form, where it has none of its own.
pub open spec fn in_pod(c: QuadletContainer, pod: Option<String>) -> QuadletContainer {
    if c.pod is None {
        QuadletContainer { pod, ..c }
    } else {
        c
    }
}

/// The pod that a form names, unless its name is blank.
pub open spec fn form_pod(pod_name: Option<String>) -> Option<String> {
    match pod_name {
        Some(s) => if is_blank(s@) {
            None
        } else {
            pod_name
        },
        None => None,
    }
}

/// The units of containers. A container without a pod gets that of the form.
pub fn container_config(containers: Vec<QuadletContainer>, form: &ContainerFullForm) -> (r:
    QuadletConfig)
    ensures
        r.install_path@ == "/etc/containers/systemd"@,
        r.volumes@.len() == 0,
        r.networks@.len() == 0,
        r.pods@.len() == 0,
        r.containers@.len() == containers@.len(),
        forall|i: int|
            0 <= i < r.containers@.len() ==> #[trigger] r.containers@[i] == in_pod(
                containers@[i],
                form_pod(form.pod_name),
            ),
{
    let pod = keep_not_blank(&form.pod_name);
    let ghost all = containers@;
    let mut rest = containers;
    let mut out: Vec<QuadletContainer> = Vec::new();
    let total = rest.len();
    let mut i: usize = 0;
    assert(rest@ =~= all.skip(0));
    while i < total
        invariant
            i <= total,
            total == all.len(),
            rest@ == all.skip(i as int),
            pod == form_pod(form.pod_name),
            out@.len() == i,
            forall|k: int|
                0 <= k < i ==> #[trigger] out@[k] == in_pod(all[k], form_pod(form.pod_name)),
        decreases total - i,
    {
        let ghost before = rest@;
        let mut c = rest.remove(0);
        assert(rest@ =~= before.skip(1));
        assert(before.skip(1) =~= all.skip(i as int + 1));
        assert(c == all[i as int]);
        if c.pod.is_none() {
            c.pod = copy_opt(&pod);
        }
        out.push(c);
        i += 1;
    }
    QuadletConfig { containers: out, ..QuadletConfig::new() }
}

/// The unit files of a configuration and the playbook that deploys them.
pub fn container_result(config: &QuadletConfig, form: &ContainerFullForm) -> (r: ContainerResult)
    ensures
        views(r.files@) == unit_files(*config),
        r.ansible_playbook@ == quadlet_playbook(
            *config,
            r.files@,
            opt_view(form.ansible_hosts),
            opt_view(form.ansible_user),
            opt_view(form.ansible_ssh_key),
        ),
{
    let result = quadlet_result(config, &form.as_quadlet_form());
    ContainerResult { files: result.files, ansible_playbook: result.ansible_playbook }
}

/// The unit files of the containers that `podman inspect` has printed.
pub fn inspect_files(containers: Vec<QuadletContainer>) -> (r: Vec<(String, String)>)
    ensures
        views(r@) == flat(containers@, container_file()),
{
    let config = QuadletConfig { containers, ..QuadletConfig::new() };
    proof {
        assert(config.volumes@ =~= Seq::<QuadletVolume>::empty());
        assert(config.networks@ =~= Seq::<QuadletNetwork>::empty());
        assert(config.pods@ =~= Seq::<QuadletPod>::empty());
        assert(unit_files(config) =~= flat(containers@, container_file()));
    }
    generate_all_units(&config)
}

} // verus!
