//! Clusters: the form, the configuration that it describes, and what is made from it.

use crate::chars::lowercase;
use crate::generators::constraints::{
    LinkModel, colocations_of, default_links, generate_default_constraints, lemma_same_links,
    orders_of,
};
use crate::generators::pacemaker::{
    cib_xml, generate_cib_xml_snippet, generate_maintenance_script, generate_pcs_script,
    maintenance_script, pcs_script,
};
use crate::generators::pacemaker_playbook::{
    not_blank_or, pacemaker_playbook, unless_blank, write_pacemaker_playbook,
};
use crate::json::{Json, JsonModel, as_text, listed_items, member, read_items, text_at};
use crate::lines::{copy_lines, flat_indexed, lemma_flat_indexed_take, lemma_views_push};
use crate::models::pacemaker::{
    ClusterConfig, ClusterNode, ClusterNodeModel, ColocationConstraint, ColocationModel,
    DrbdPacemakerResource, FsResource, LocationConstraint, OrderConstraint, OrderModel,
    PacemakerConfig, ResourceGroup, StonithDevice, SystemdResource, SystemdResourceType,
};
use crate::res_file::or_text;
use crate::routes::drbd::{given_or, is_on, switched_on};
use crate::routes::quadlet::{copy_opt, keep_not_blank, not_blank};
use crate::text::{opt_view, same, views};
use vstd::prelude::*;
use vstd::string::*;

verus! {

/// A form that describes a cluster. Lists come as JSON.
#[derive(Debug, Clone)]
pub struct PacemakerFormData {
    pub cluster_name: String,
    pub nodes_json: Option<String>,
    pub stonith_enabled: Option<String>,
    pub no_quorum_policy: String,
    pub migration_threshold: Option<u32>,
    pub failure_timeout: Option<String>,
    pub drbd_resources_json: Option<String>,
    pub systemd_resources_json: Option<String>,
    pub resource_groups_json: Option<String>,
    pub stonith_devices_json: Option<String>,
    pub auto_constraints: Option<String>,
    pub order_constraints_json: Option<String>,
    pub colocation_constraints_json: Option<String>,
    pub location_constraints_json: Option<String>,
    pub ansible_hosts: Option<String>,
    pub ansible_user: Option<String>,
    pub ansible_ssh_key: Option<String>,
}

/// A DRBD resource of a form, with the file system on it.
#[derive(Debug, Clone)]
pub struct DrbdGroupInput {
    pub resource_name: String,
    pub drbd_resource_name: String,
    pub clone_name: String,
    pub notify: Option<bool>,
    pub on_fail: Option<String>,
    pub target_role_master_node: Option<String>,
    pub promote_timeout: Option<String>,
    pub demote_timeout: Option<String>,
    pub start_timeout: Option<String>,
    pub stop_timeout: Option<String>,
    pub fs: Option<FsResourceInput>,
}

/// A file system of a form.
#[derive(Debug, Clone)]
pub struct FsResourceInput {
    pub resource_name: String,
    pub device: String,
    pub directory: String,
    pub fstype: Option<String>,
    pub monitor_interval: Option<String>,
    pub start_timeout: Option<String>,
    pub stop_timeout: Option<String>,
}

/// A group of a form.
#[derive(Debug, Clone)]
pub struct ResourceGroupInput {
    pub group_name: String,
    pub members: Vec<String>,
    pub after_fs: Option<String>,
}

/// A systemd unit of a form.
#[derive(Debug, Clone)]
pub struct SystemdResourceInput {
    pub resource_name: String,
    pub systemd_unit: String,
    /// `container`, `pod` or `volume`.
    pub resource_type: String,
    pub monitor_interval: Option<String>,
    pub start_timeout: Option<String>,
    pub stop_timeout: Option<String>,
    pub clone: Option<bool>,
    pub clone_name: Option<String>,
}

/// What is made from a form.
#[derive(Debug, Clone)]
pub struct PacemakerResult {
    pub pcs_script: String,
    pub cib_xml: String,
    pub ansible_playbook: String,
    /// Empty where the nodes are not known.
    pub maintenance_script: String,
}

/// A request to ask the pcs daemon.
#[derive(Debug, Clone)]
pub struct PcsdFetchRequest {
    pub pcsd_url: String,
}

/// The lists of a form, read from its JSON.
#[derive(Debug, Clone)]
pub struct PacemakerLists {
    pub drbd_groups: Vec<DrbdGroupInput>,
    pub systemd_resources: Vec<SystemdResourceInput>,
    pub resource_groups: Vec<ResourceGroupInput>,
    pub stonith_devices: Vec<StonithDevice>,
    pub order_constraints: Vec<OrderConstraint>,
    pub colocation_constraints: Vec<ColocationConstraint>,
    pub location_constraints: Vec<LocationConstraint>,
}

/// The playbook of a cluster.
pub fn generate_pacemaker_ansible_playbook(
    form: &PacemakerFormData,
    config: &PacemakerConfig,
) -> (r: String)
    ensures
        r@ == pacemaker_playbook(
            form.ansible_hosts,
            form.ansible_user,
            form.ansible_ssh_key,
            *config,
        ),
{
    write_pacemaker_playbook(
        &form.ansible_hosts,
        &form.ansible_user,
        &form.ansible_ssh_key,
        config,
    )
}

// ---------------------------------------------------------------------------
// The cluster
// ---------------------------------------------------------------------------

/// The node that an item lists, where it has a name; its number is its place in the list.
pub open spec fn listed_node() -> spec_fn(int, JsonModel) -> Seq<ClusterNodeModel> {
    |i: int, n: JsonModel|
        match as_text(member(n, "hostname"@)) {
            Some(name) => if name.len() > 0 {
                seq![ClusterNodeModel { name, id: ((i + 1) % 0x1_0000_0000) as nat }]
            } else {
                Seq::empty()
            },
            None => Seq::empty(),
        }
}

/// The nodes that items list.
pub fn listed_nodes(items: &Vec<Json>) -> (r: Vec<ClusterNode>)
    ensures
        views(r@) == flat_indexed(views(items@), listed_node()),
{
    let ghost all = views(items@);
    let mut out: Vec<ClusterNode> = Vec::new();
    let mut i: usize = 0;
    assert(views(out@) =~= Seq::<ClusterNodeModel>::empty());
    while i < items.len()
        invariant
            all == views(items@),
            i <= items.len(),
            views(out@) == flat_indexed(all.take(i as int), listed_node()),
        decreases items.len() - i,
    {
        let ghost seen = views(out@);
        proof {
            lemma_flat_indexed_take(all, listed_node(), i as int);
            assert(all[i as int] == items@[i as int]@);
            assert(seen + Seq::<ClusterNodeModel>::empty() =~= seen);
        }
        if let Some(name) = text_at(Some(&items[i]), "hostname") {
            if name.unicode_len() > 0 {
                let id: u32 = ((i as u128 + 1) % 0x1_0000_0000) as u32;
                let node = ClusterNode { name: name.to_owned(), id };
                proof {
                    lemma_views_push(out@, node);
                }
                out.push(node);
                assert(views(out@) =~= seen + seq![node@]);
            }
        }
        i += 1;
    }
    assert(all.take(i as int) =~= all);
    out
}

/// The nodes that a form lists.
pub open spec fn form_nodes(nodes_json: Option<String>) -> Seq<ClusterNodeModel> {
    match nodes_json {
        Some(text) => flat_indexed(listed_items(text@), listed_node()),
        None => Seq::empty(),
    }
}

/// The settings of the cluster that a form describes.
pub fn build_cluster(form: &PacemakerFormData) -> (r: ClusterConfig)
    ensures
        r.cluster_name@ == form.cluster_name@,
        views(r.nodes@) == form_nodes(form.nodes_json),
        r.stonith_enabled == is_on(form.stonith_enabled),
        r.no_quorum_policy@ == form.no_quorum_policy@,
        r.migration_threshold == (match form.migration_threshold {
            Some(n) => n,
            None => 3,
        }),
        r.failure_timeout@ == or_text(opt_view(form.failure_timeout), "60s"@),
{
    let nodes = match &form.nodes_json {
        Some(text) => listed_nodes(&read_items(text.as_str())),
        None => {
            let none: Vec<ClusterNode> = Vec::new();
            assert(views(none@) =~= Seq::<ClusterNodeModel>::empty());
            none
        },
    };
    ClusterConfig {
        cluster_name: form.cluster_name.clone(),
        nodes,
        stonith_enabled: switched_on(&form.stonith_enabled),
        no_quorum_policy: form.no_quorum_policy.clone(),
        migration_threshold: match form.migration_threshold {
            Some(n) => n,
            None => 3,
        },
        failure_timeout: given_or(&form.failure_timeout, "60s"),
    }
}

// ---------------------------------------------------------------------------
// DRBD resources and file systems
// ---------------------------------------------------------------------------

/// The DRBD resources of a form that have a name.
pub open spec fn named_drbd(groups: Seq<DrbdGroupInput>) -> Seq<DrbdGroupInput>
    decreases groups.len(),
{
    if groups.len() == 0 {
        Seq::empty()
    } else if groups.last().resource_name@.len() > 0 {
        named_drbd(groups.drop_last()).push(groups.last())
    } else {
        named_drbd(groups.drop_last())
    }
}

/// Whether a resource is what a form says of it, with defaults for what is left out.
pub open spec fn is_drbd_of(d: DrbdPacemakerResource, g: DrbdGroupInput) -> bool {
    &&& d.resource_name@ == g.resource_name@
    &&& d.drbd_resource_name@ == g.drbd_resource_name@
    &&& d.clone_name@ == g.clone_name@
    &&& d.notify == (match g.notify {
        Some(b) => b,
        None => true,
    })
    &&& d.promotable
    &&& d.on_fail@ == or_text(opt_view(g.on_fail), "fence"@)
    &&& opt_view(d.target_role_master_node) == not_blank(g.target_role_master_node)
    &&& d.promote_timeout@ == unless_blank(g.promote_timeout, "90s"@)
    &&& d.demote_timeout@ == unless_blank(g.demote_timeout, "90s"@)
    &&& d.start_timeout@ == unless_blank(g.start_timeout, "240s"@)
    &&& d.stop_timeout@ == unless_blank(g.stop_timeout, "100s"@)
    &&& d.monitor_interval_promoted@ == "29s"@
    &&& d.monitor_interval_unpromoted@ == "31s"@
}

fn build_drbd(g: &DrbdGroupInput) -> (r: DrbdPacemakerResource)
    ensures
        is_drbd_of(r, *g),
{
    DrbdPacemakerResource {
        resource_name: g.resource_name.clone(),
        drbd_resource_name: g.drbd_resource_name.clone(),
        clone_name: g.clone_name.clone(),
        notify: match g.notify {
            Some(b) => b,
            None => true,
        },
        promotable: true,
        on_fail: given_or(&g.on_fail, "fence"),
        target_role_master_node: keep_not_blank(&g.target_role_master_node),
        promote_timeout: not_blank_or(&g.promote_timeout, "90s"),
        demote_timeout: not_blank_or(&g.demote_timeout, "90s"),
        start_timeout: not_blank_or(&g.start_timeout, "240s"),
        stop_timeout: not_blank_or(&g.stop_timeout, "100s"),
        ..DrbdPacemakerResource::default()
    }
}

/// The DRBD resources that a form describes.
pub fn build_drbd_resources(groups: &Vec<DrbdGroupInput>) -> (r: Vec<DrbdPacemakerResource>)
    ensures
        r@.len() == named_drbd(groups@).len(),
        forall|i: int| 0 <= i < r@.len() ==> is_drbd_of(#[trigger] r@[i], named_drbd(groups@)[i]),
{
    let mut out: Vec<DrbdPacemakerResource> = Vec::new();
    let mut i: usize = 0;
    while i < groups.len()
        invariant
            i <= groups.len(),
            out@.len() == named_drbd(groups@.take(i as int)).len(),
            forall|k: int|
                0 <= k < out@.len() ==> is_drbd_of(
                    #[trigger] out@[k],
                    named_drbd(groups@.take(i as int))[k],
                ),
        decreases groups.len() - i,
    {
        proof {
            assert(groups@.take(i as int + 1).drop_last() =~= groups@.take(i as int));
            assert(groups@.take(i as int + 1).last() == groups@[i as int]);
        }
        if groups[i].resource_name.as_str().unicode_len() > 0 {
            out.push(build_drbd(&groups[i]));
        }
        i += 1;
    }
    assert(groups@.take(i as int) =~= groups@);
    out
}

/// The file systems of a form that have a name and lie on a DRBD resource with a name, each
/// with the clone that it lies on.
pub open spec fn named_fs(groups: Seq<DrbdGroupInput>) -> Seq<(FsResourceInput, Seq<char>)>
    decreases groups.len(),
{
    if groups.len() == 0 {
        Seq::empty()
    } else {
        let front = named_fs(groups.drop_last());
        let g = groups.last();
        match g.fs {
            Some(fs) => if g.resource_name@.len() > 0 && fs.resource_name@.len() > 0 {
                front.push((fs, g.clone_name@))
            } else {
                front
            },
            None => front,
        }
    }
}

/// Whether a file system is what a form says of it, with defaults for what is left out.
pub open spec fn is_fs_of(f: FsResource, input: FsResourceInput, clone_name: Seq<char>) -> bool {
    &&& f.resource_name@ == input.resource_name@
    &&& f.device@ == input.device@
    &&& f.directory@ == input.directory@
    &&& f.fstype@ == or_text(opt_view(input.fstype), "xfs"@)
    &&& f.monitor_interval@ == or_text(opt_view(input.monitor_interval), "20s"@)
    &&& f.start_timeout@ == or_text(opt_view(input.start_timeout), "60s"@)
    &&& f.stop_timeout@ == or_text(opt_view(input.stop_timeout), "60s"@)
    &&& f.drbd_clone_name@ == clone_name
}

fn build_fs(input: &FsResourceInput, clone_name: &str) -> (r: FsResource)
    ensures
        is_fs_of(r, *input, clone_name@),
{
    FsResource {
        resource_name: input.resource_name.clone(),
        device: input.device.clone(),
        directory: input.directory.clone(),
        fstype: given_or(&input.fstype, "xfs"),
        monitor_interval: given_or(&input.monitor_interval, "20s"),
        start_timeout: given_or(&input.start_timeout, "60s"),
        stop_timeout: given_or(&input.stop_timeout, "60s"),
        drbd_clone_name: clone_name.to_owned(),
    }
}

/// The file systems that a form describes.
pub fn build_fs_resources(groups: &Vec<DrbdGroupInput>) -> (r: Vec<FsResource>)
    ensures
        r@.len() == named_fs(groups@).len(),
        forall|i: int|
            0 <= i < r@.len() ==> is_fs_of(
                #[trigger] r@[i],
                named_fs(groups@)[i].0,
                named_fs(groups@)[i].1,
            ),
{
    let mut out: Vec<FsResource> = Vec::new();
    let mut i: usize = 0;
    while i < groups.len()
        invariant
            i <= groups.len(),
            out@.len() == named_fs(groups@.take(i as int)).len(),
            forall|k: int|
                0 <= k < out@.len() ==> is_fs_of(
                    #[trigger] out@[k],
                    named_fs(groups@.take(i as int))[k].0,
                    named_fs(groups@.take(i as int))[k].1,
                ),
        decreases groups.len() - i,
    {
        proof {
            assert(groups@.take(i as int + 1).drop_last() =~= groups@.take(i as int));
            assert(groups@.take(i as int + 1).last() == groups@[i as int]);
        }
        let g = &groups[i];
        if g.resource_name.as_str().unicode_len() > 0 {
            if let Some(fs) = &g.fs {
                if fs.resource_name.as_str().unicode_len() > 0 {
                    out.push(build_fs(fs, g.clone_name.as_str()));
                }
            }
        }
        i += 1;
    }
    assert(groups@.take(i as int) =~= groups@);
    out
}

// ---------------------------------------------------------------------------
// Services, groups and fencing devices
// ---------------------------------------------------------------------------

/// The kind of unit that a form names.
pub open spec fn unit_type(name: Seq<char>) -> SystemdResourceType {
    if lowercase(name) == "pod"@ {
        SystemdResourceType::Pod
    } else if lowercase(name) == "volume"@ {
        SystemdResourceType::Volume
    } else {
        SystemdResourceType::Container
    }
}

/// Whether a service is what a form says of it, with defaults for what is left out.
pub open spec fn is_service_of(s: SystemdResource, input: SystemdResourceInput) -> bool {
    &&& s.resource_name@ == input.resource_name@
    &&& s.systemd_unit@ == input.systemd_unit@
    &&& s.resource_type == unit_type(input.resource_type@)
    &&& s.monitor_interval@ == or_text(opt_view(input.monitor_interval), "30s"@)
    &&& s.start_timeout@ == or_text(opt_view(input.start_timeout), "60s"@)
    &&& s.stop_timeout@ == or_text(opt_view(input.stop_timeout), "60s"@)
    &&& s.clone == (match input.clone {
        Some(b) => b,
        None => false,
    })
    &&& s.clone_name == input.clone_name
}

/// The services that a form describes.
pub fn build_services(inputs: &Vec<SystemdResourceInput>) -> (r: Vec<SystemdResource>)
    ensures
        r@.len() == inputs@.len(),
        forall|i: int| 0 <= i < r@.len() ==> is_service_of(#[trigger] r@[i], inputs@[i]),
{
    let mut out: Vec<SystemdResource> = Vec::new();
    let mut i: usize = 0;
    while i < inputs.len()
        invariant
            i <= inputs.len(),
            out@.len() == i,
            forall|k: int| 0 <= k < i ==> is_service_of(#[trigger] out@[k], inputs@[k]),
        decreases inputs.len() - i,
    {
        let input = &inputs[i];
        let kind = input.resource_type.as_str().to_lowercase();
        let resource_type = if same(kind.as_str(), "pod") {
            SystemdResourceType::Pod
        } else if same(kind.as_str(), "volume") {
            SystemdResourceType::Volume
        } else {
            SystemdResourceType::Container
        };
        out.push(
            SystemdResource {
                resource_name: input.resource_name.clone(),
                systemd_unit: input.systemd_unit.clone(),
                resource_type,
                monitor_interval: given_or(&input.monitor_interval, "30s"),
                start_timeout: given_or(&input.start_timeout, "60s"),
                stop_timeout: given_or(&input.stop_timeout, "60s"),
                clone: match input.clone {
                    Some(b) => b,
                    None => false,
                },
                clone_name: copy_opt(&input.clone_name),
            },
        );
        i += 1;
    }
    out
}

/// The groups of a form that have a name and members.
pub open spec fn filled_groups(groups: Seq<ResourceGroupInput>) -> Seq<ResourceGroupInput>
    decreases groups.len(),
{
    if groups.len() == 0 {
        Seq::empty()
    } else if groups.last().group_name@.len() > 0 && groups.last().members@.len() > 0 {
        filled_groups(groups.drop_last()).push(groups.last())
    } else {
        filled_groups(groups.drop_last())
    }
}

/// Whether a group is what a form says of it. An empty name of a file system stands for
/// none.
pub open spec fn is_group_of(g: ResourceGroup, input: ResourceGroupInput) -> bool {
    &&& g.group_name@ == input.group_name@
    &&& views(g.members@) == views(input.members@)
    &&& opt_view(g.after_fs) == (match input.after_fs {
        Some(s) => if s@.len() > 0 {
            Some(s@)
        } else {
            None
        },
        None => None,
    })
}

fn build_group(input: &ResourceGroupInput) -> (r: ResourceGroup)
    ensures
        is_group_of(r, *input),
{
    let after_fs = match &input.after_fs {
        Some(s) => if s.as_str().unicode_len() > 0 {
            Some(s.clone())
        } else {
            None
        },
        None => None,
    };
    ResourceGroup {
        group_name: input.group_name.clone(),
        members: copy_lines(&input.members),
        after_fs,
    }
}

/// The groups that a form describes.
pub fn build_groups(groups: &Vec<ResourceGroupInput>) -> (r: Vec<ResourceGroup>)
    ensures
        r@.len() == filled_groups(groups@).len(),
        forall|i: int|
            0 <= i < r@.len() ==> is_group_of(#[trigger] r@[i], filled_groups(groups@)[i]),
{
    let mut out: Vec<ResourceGroup> = Vec::new();
    let mut i: usize = 0;
    while i < groups.len()
        invariant
            i <= groups.len(),
            out@.len() == filled_groups(groups@.take(i as int)).len(),
            forall|k: int|
                0 <= k < out@.len() ==> is_group_of(
                    #[trigger] out@[k],
                    filled_groups(groups@.take(i as int))[k],
                ),
        decreases groups.len() - i,
    {
        proof {
            assert(groups@.take(i as int + 1).drop_last() =~= groups@.take(i as int));
            assert(groups@.take(i as int + 1).last() == groups@[i as int]);
        }
        if groups[i].group_name.as_str().unicode_len() > 0 && groups[i].members.len() > 0 {
            out.push(build_group(&groups[i]));
        }
        i += 1;
    }
    assert(groups@.take(i as int) =~= groups@);
    out
}

/// The fencing devices that can be reached: they have a node and an address.
pub open spec fn reachable(devices: Seq<StonithDevice>) -> Seq<StonithDevice>
    decreases devices.len(),
{
    if devices.len() == 0 {
        Seq::empty()
    } else if devices.last().node@.len() > 0 && devices.last().ipmi_ip@.len() > 0 {
        reachable(devices.drop_last()).push(devices.last())
    } else {
        reachable(devices.drop_last())
    }
}

/// The fencing devices that can be reached.
pub fn keep_reachable(devices: Vec<StonithDevice>) -> (r: Vec<StonithDevice>)
    ensures
        r@ == reachable(devices@),
{
    let ghost all = devices@;
    let mut rest = devices;
    let mut out: Vec<StonithDevice> = Vec::new();
    let total = rest.len();
    let mut i: usize = 0;
    assert(rest@ =~= all.skip(0));
    while i < total
        invariant
            i <= total,
            total == all.len(),
            rest@ == all.skip(i as int),
            out@ == reachable(all.take(i as int)),
        decreases total - i,
    {
        proof {
            assert(all.take(i as int + 1).drop_last() =~= all.take(i as int));
            assert(all.take(i as int + 1).last() == all[i as int]);
        }
        let ghost before = rest@;
        let device = rest.remove(0);
        assert(rest@ =~= before.skip(1));
        assert(before.skip(1) =~= all.skip(i as int + 1));
        if device.node.as_str().unicode_len() > 0 && device.ipmi_ip.as_str().unicode_len() > 0 {
            out.push(device);
        }
        i += 1;
    }
    assert(all.take(i as int) =~= all);
    out
}

// ---------------------------------------------------------------------------
// The configuration
// ---------------------------------------------------------------------------

/// The constraints that a configuration gets of its own: those that it needs, where the
/// form asks for them.
pub open spec fn own_links(form: PacemakerFormData, c: PacemakerConfig) -> Seq<LinkModel> {
    if is_on(form.auto_constraints) {
        default_links(c)
    } else {
        Seq::empty()
    }
}

/// The configuration that a form describes. Constraints of the form follow those that the
/// configuration gets of its own.
pub fn build_config(form: &PacemakerFormData, lists: PacemakerLists) -> (r: PacemakerConfig)
    ensures
        call_ensures(build_cluster, (form,), r.cluster),
        call_ensures(build_drbd_resources, (&lists.drbd_groups,), r.drbd_resources),
        call_ensures(build_fs_resources, (&lists.drbd_groups,), r.fs_resources),
        call_ensures(build_services, (&lists.systemd_resources,), r.systemd_resources),
        call_ensures(build_groups, (&lists.resource_groups,), r.resource_groups),
        r.stonith_devices@ == reachable(lists.stonith_devices@),
        views(r.order_constraints@) == orders_of(own_links(*form, r)) + views(
            lists.order_constraints@,
        ),
        views(r.colocation_constraints@) == colocations_of(own_links(*form, r)) + views(
            lists.colocation_constraints@,
        ),
        r.location_constraints@ == lists.location_constraints@,
{
    let mut config = PacemakerConfig::default();
    config.cluster = build_cluster(form);
    config.drbd_resources = build_drbd_resources(&lists.drbd_groups);
    config.fs_resources = build_fs_resources(&lists.drbd_groups);
    config.systemd_resources = build_services(&lists.systemd_resources);
    config.resource_groups = build_groups(&lists.resource_groups);
    config.stonith_devices = keep_reachable(lists.stonith_devices);
    let ghost base = config;
    assert(views(base.order_constraints@) =~= Seq::<OrderModel>::empty());
    assert(views(base.colocation_constraints@) =~= Seq::<ColocationModel>::empty());
    let auto = switched_on(&form.auto_constraints);
    if auto {
        generate_default_constraints(&mut config);
    }
    let ghost middle = config;
    proof {
        lemma_same_links(base, middle);
        assert(views(middle.order_constraints@) =~= orders_of(own_links(*form, middle)));
        assert(views(middle.colocation_constraints@) =~= colocations_of(
            own_links(*form, middle),
        ));
    }
    let mut orders = lists.order_constraints;
    let ghost more_orders = orders@;
    config.order_constraints.append(&mut orders);
    let mut colocations = lists.colocation_constraints;
    let ghost more_colocations = colocations@;
    config.colocation_constraints.append(&mut colocations);
    config.location_constraints = lists.location_constraints;
    proof {
        lemma_same_links(base, config);
        assert(views(config.order_constraints@) =~= views(middle.order_constraints@) + views(
            more_orders,
        ));
        assert(views(config.colocation_constraints@) =~= views(middle.colocation_constraints@)
            + views(more_colocations));
    }
    config
}

/// What is made from a form and the configuration that it describes.
pub fn pacemaker_result(form: &PacemakerFormData, config: &PacemakerConfig) -> (r: PacemakerResult)
    ensures
        r.pcs_script@ == pcs_script(*config),
        r.cib_xml@ == cib_xml(*config),
        r.ansible_playbook@ == pacemaker_playbook(
            form.ansible_hosts,
            form.ansible_user,
            form.ansible_ssh_key,
            *config,
        ),
        r.maintenance_script@ == maintenance_script(*config),
{
    PacemakerResult {
        pcs_script: generate_pcs_script(config),
        cib_xml: generate_cib_xml_snippet(config),
        ansible_playbook: generate_pacemaker_ansible_playbook(form, config),
        maintenance_script: generate_maintenance_script(config),
    }
}

} // verus!
