//! Pods: the form, and the units that are made from it.

use crate::db::DbNetwork;
use crate::generators::quadlet::{generate_all_units, unit_files};
use crate::generators::quadlet_playbook::{as_slice, quadlet_playbook, write_quadlet_playbook};
use crate::lines::lemma_views_push;
use crate::models::quadlet::{
    NetworkUnitModel, PodNetworkEntry, PodNetworkModel, QuadletConfig, QuadletNetwork, QuadletPod,
};
use crate::res_file::or_text;
use crate::routes::drbd::{given_or, or_empty};
use crate::text::{blank, is_blank, opt_view, same, trim, trimmed, views};
use vstd::prelude::*;
use vstd::string::*;

verus! {

/// A volume of a form.
#[derive(Debug, Clone)]
pub struct VolumeForm {
    pub name: String,
    pub driver: Option<String>,
    /// One option on each line.
    pub options: Option<String>,
}

/// A network of a form.
#[derive(Debug, Clone)]
pub struct NetworkForm {
    pub name: String,
    pub driver: String,
    pub interface: String,
    pub subnet: String,
    pub gateway: Option<String>,
    pub ipvlan_mode: Option<String>,
}

/// A pod of a form.
#[derive(Debug, Clone)]
pub struct PodForm {
    pub name: String,
    pub network: Option<String>,
    pub ip: Option<String>,
}

/// A form that describes a pod and, for networks that are not on record, a network.
#[derive(Debug, Clone)]
pub struct QuadletFullForm {
    pub net_driver: Option<String>,
    pub net_interface: Option<String>,
    pub net_subnet: Option<String>,
    pub net_gateway: Option<String>,
    pub net_subnet6: Option<String>,
    pub net_gateway6: Option<String>,
    pub net_ipvlan_mode: Option<String>,
    pub pod_name: Option<String>,
    pub pod_description: Option<String>,
    pub pod_hostname: Option<String>,
    pub pod_shm_size: Option<String>,
    pub pod_networks_json: Option<String>,
    pub ansible_hosts: Option<String>,
    pub ansible_user: Option<String>,
    pub ansible_ssh_key: Option<String>,
}

/// The units and the playbook that deploys them.
#[derive(Debug, Clone)]
pub struct QuadletResult {
    pub files: Vec<(String, String)>,
    pub ansible_playbook: String,
}

/// The playbook that deploys units to the hosts that a form names.
pub fn generate_quadlet_ansible_playbook(
    config: &QuadletConfig,
    files: &Vec<(String, String)>,
    form: &QuadletFullForm,
) -> (r: String)
    ensures
        r@ == quadlet_playbook(
            *config,
            files@,
            opt_view(form.ansible_hosts),
            opt_view(form.ansible_user),
            opt_view(form.ansible_ssh_key),
        ),
{
    write_quadlet_playbook(
        config,
        files,
        as_slice(&form.ansible_hosts),
        as_slice(&form.ansible_user),
        as_slice(&form.ansible_ssh_key),
    )
}

// ---------------------------------------------------------------------------
// Networks
// ---------------------------------------------------------------------------

/// The unit of a network on record.
pub open spec fn recorded_network(n: DbNetwork) -> NetworkUnitModel {
    NetworkUnitModel {
        name: n.name@,
        driver: n.driver@,
        interface: n.interface@,
        subnet: n.subnet@,
        gateway: n.gateway@,
        subnet6: n.subnet6@,
        gateway6: n.gateway6@,
        ipv6: n.ipv6,
        ipvlan_mode: n.ipvlan_mode@,
        internal: false,
        options: Seq::empty(),
    }
}

/// The unit of a network that is not on record, from what the form says.
pub open spec fn form_network(name: Seq<char>, form: QuadletFullForm) -> NetworkUnitModel {
    NetworkUnitModel {
        name,
        driver: or_text(opt_view(form.net_driver), "ipvlan"@),
        interface: or_empty(form.net_interface),
        subnet: or_empty(form.net_subnet),
        gateway: or_empty(form.net_gateway),
        subnet6: or_empty(form.net_subnet6),
        gateway6: or_empty(form.net_gateway6),
        ipv6: or_empty(form.net_subnet6).len() > 0,
        ipvlan_mode: or_text(opt_view(form.net_ipvlan_mode), "l2"@),
        internal: false,
        options: Seq::empty(),
    }
}

/// Whether a network of that name is listed.
pub open spec fn lists_network(v: Seq<NetworkUnitModel>, name: Seq<char>) -> bool {
    exists|i: int| 0 <= i < v.len() && (#[trigger] v[i]).name == name
}

/// `v` with a network more, unless one of its name is listed.
pub open spec fn with_network(v: Seq<NetworkUnitModel>, n: NetworkUnitModel) -> Seq<
    NetworkUnitModel,
> {
    if lists_network(v, n.name) {
        v
    } else {
        v.push(n)
    }
}

/// The networks that the entries of a pod need, each once: as on record, or else as the
/// form says. `found` holds what is on record for each entry.
pub open spec fn needed_networks(
    entries: Seq<PodNetworkEntry>,
    found: Seq<Option<DbNetwork>>,
    form: QuadletFullForm,
) -> Seq<NetworkUnitModel>
    decreases entries.len(),
{
    if entries.len() == 0 || found.len() != entries.len() {
        Seq::empty()
    } else {
        let front = needed_networks(entries.drop_last(), found.drop_last(), form);
        if entries.last().network@.len() == 0 {
            front
        } else {
            match found.last() {
                Some(n) => with_network(front, recorded_network(n)),
                None => with_network(front, form_network(entries.last().network@, form)),
            }
        }
    }
}

fn is_listed(v: &Vec<QuadletNetwork>, name: &str) -> (r: bool)
    ensures
        r == lists_network(views(v@), name@),
{
    let mut i: usize = 0;
    while i < v.len()
        invariant
            i <= v.len(),
            forall|j: int| 0 <= j < i ==> (#[trigger] views(v@)[j]).name != name@,
        decreases v.len() - i,
    {
        assert(views(v@)[i as int] == v@[i as int]@);
        if same(v[i].name.as_str(), name) {
            return true;
        }
        i += 1;
    }
    false
}

fn add_network(v: &mut Vec<QuadletNetwork>, n: QuadletNetwork)
    ensures
        views(final(v)@) == with_network(views(old(v)@), n@),
{
    if !is_listed(v, n.name.as_str()) {
        proof {
            lemma_views_push(v@, n);
        }
        v.push(n);
    }
}

fn network_of_record(n: &DbNetwork) -> (r: QuadletNetwork)
    ensures
        r@ == recorded_network(*n),
{
    let options: Vec<String> = Vec::new();
    assert(views(options@) =~= Seq::<Seq<char>>::empty());
    QuadletNetwork {
        name: n.name.clone(),
        driver: n.driver.clone(),
        interface: n.interface.clone(),
        subnet: n.subnet.clone(),
        gateway: n.gateway.clone(),
        subnet6: n.subnet6.clone(),
        gateway6: n.gateway6.clone(),
        ipv6: n.ipv6,
        ipvlan_mode: n.ipvlan_mode.clone(),
        internal: false,
        options,
    }
}

fn network_of_form(name: &str, form: &QuadletFullForm) -> (r: QuadletNetwork)
    ensures
        r@ == form_network(name@, *form),
{
    let options: Vec<String> = Vec::new();
    assert(views(options@) =~= Seq::<Seq<char>>::empty());
    let subnet6 = given_or(&form.net_subnet6, "");
    let ipv6 = subnet6.as_str().unicode_len() > 0;
    QuadletNetwork {
        name: name.to_owned(),
        driver: given_or(&form.net_driver, "ipvlan"),
        interface: given_or(&form.net_interface, ""),
        subnet: given_or(&form.net_subnet, ""),
        gateway: given_or(&form.net_gateway, ""),
        subnet6,
        gateway6: given_or(&form.net_gateway6, ""),
        ipv6,
        ipvlan_mode: given_or(&form.net_ipvlan_mode, "l2"),
        internal: false,
        options,
    }
}

/// The networks that the entries of a pod need, each once.
pub fn collect_networks(
    entries: &Vec<PodNetworkEntry>,
    found: &Vec<Option<DbNetwork>>,
    form: &QuadletFullForm,
) -> (r: Vec<QuadletNetwork>)
    requires
        entries.len() == found.len(),
    ensures
        views(r@) == needed_networks(entries@, found@, *form),
{
    let mut out: Vec<QuadletNetwork> = Vec::new();
    let mut i: usize = 0;
    assert(views(out@) =~= Seq::<NetworkUnitModel>::empty());
    while i < entries.len()
        invariant
            i <= entries.len(),
            entries.len() == found.len(),
            views(out@) == needed_networks(
                entries@.take(i as int),
                found@.take(i as int),
                *form,
            ),
        decreases entries.len() - i,
    {
        proof {
            assert(entries@.take(i as int + 1).drop_last() =~= entries@.take(i as int));
            assert(found@.take(i as int + 1).drop_last() =~= found@.take(i as int));
            assert(entries@.take(i as int + 1).last() == entries@[i as int]);
            assert(found@.take(i as int + 1).last() == found@[i as int]);
        }
        if entries[i].network.as_str().unicode_len() > 0 {
            match &found[i] {
                Some(n) => {
                    add_network(&mut out, network_of_record(n));
                },
                None => {
                    add_network(&mut out, network_of_form(entries[i].network.as_str(), form));
                },
            }
        }
        i += 1;
    }
    assert(entries@.take(i as int) =~= entries@);
    assert(found@.take(i as int) =~= found@);
    out
}

/// No two networks of the result have the same name.
pub proof fn law_needed_networks_are_distinct(
    entries: Seq<PodNetworkEntry>,
    found: Seq<Option<DbNetwork>>,
    form: QuadletFullForm,
)
    ensures
        forall|i: int, j: int|
            0 <= i < j < needed_networks(entries, found, form).len() ==> (
            #[trigger] needed_networks(entries, found, form)[i]).name != (
            #[trigger] needed_networks(entries, found, form)[j]).name,
    decreases entries.len(),
{
    if entries.len() > 0 && found.len() == entries.len() {
        law_needed_networks_are_distinct(entries.drop_last(), found.drop_last(), form);
        let front = needed_networks(entries.drop_last(), found.drop_last(), form);
        let all = needed_networks(entries, found, form);
        assert forall|i: int, j: int| 0 <= i < j < all.len() implies (#[trigger] all[i]).name != (
        #[trigger] all[j]).name by {
            assert(all[i] == front[i]);
            if j < front.len() {
                assert(all[j] == front[j]);
            } else {
                assert(!lists_network(front, all[j].name));
            }
        }
    }
}

// ---------------------------------------------------------------------------
// Gateways
// ---------------------------------------------------------------------------

/// The first entry of a network, from position `i` on.
pub open spec fn entry_of_network(v: Seq<PodNetworkModel>, name: Seq<char>, i: int) -> Option<int>
    decreases v.len() - i,
{
    if i < 0 || i >= v.len() {
        None
    } else if v[i].network == name {
        Some(i)
    } else {
        entry_of_network(v, name, i + 1)
    }
}

/// `o`, or `s` where there is nothing and `s` is not empty.
pub open spec fn filled(o: Option<Seq<char>>, s: Seq<char>) -> Option<Seq<char>> {
    if o is None && s.len() > 0 {
        Some(s)
    } else {
        o
    }
}

/// `v` with the gateways of a network in its first entry, where that has none.
pub open spec fn with_gateways(v: Seq<PodNetworkModel>, n: DbNetwork) -> Seq<PodNetworkModel> {
    match entry_of_network(v, n.name@, 0) {
        Some(k) => v.update(
            k,
            PodNetworkModel {
                gateway: filled(v[k].gateway, n.gateway@),
                gateway6: filled(v[k].gateway6, n.gateway6@),
                ..v[k]
            },
        ),
        None => v,
    }
}

/// `v` with the gateways of all networks that were found for its entries. An entry without
/// a name was not looked up.
pub open spec fn with_all_gateways(
    v: Seq<PodNetworkModel>,
    entries: Seq<PodNetworkEntry>,
    found: Seq<Option<DbNetwork>>,
) -> Seq<PodNetworkModel>
    decreases found.len(),
{
    if found.len() == 0 || found.len() != entries.len() {
        v
    } else {
        let front = with_all_gateways(v, entries.drop_last(), found.drop_last());
        match found.last() {
            Some(n) => if entries.last().network@.len() > 0 {
                with_gateways(front, n)
            } else {
                front
            },
            None => front,
        }
    }
}

fn copy_entry(e: &PodNetworkEntry) -> (r: PodNetworkEntry)
    ensures
        r@ == e@,
{
    PodNetworkEntry {
        network: e.network.clone(),
        ip: copy_opt(&e.ip),
        ip6: copy_opt(&e.ip6),
        gateway: copy_opt(&e.gateway),
        gateway6: copy_opt(&e.gateway6),
    }
}

/// A copy of an optional text.
pub fn copy_opt(o: &Option<String>) -> (r: Option<String>)
    ensures
        r == *o,
{
    match o {
        Some(s) => Some(s.clone()),
        None => None,
    }
}

fn fill(o: &Option<String>, s: &str) -> (r: Option<String>)
    ensures
        opt_view(r) == filled(opt_view(*o), s@),
{
    match o {
        Some(t) => Some(t.clone()),
        None => if s.unicode_len() > 0 {
            Some(s.to_owned())
        } else {
            None
        },
    }
}

fn set_gateways(v: &mut Vec<PodNetworkEntry>, n: &DbNetwork)
    ensures
        views(final(v)@) == with_gateways(views(old(v)@), *n),
{
    let ghost all = views(v@);
    let mut k: usize = 0;
    while k < v.len()
        invariant
            k <= v.len(),
            v@ == old(v)@,
            all == views(v@),
            entry_of_network(all, n.name@, 0) == entry_of_network(all, n.name@, k as int),
        decreases v.len() - k,
    {
        assert(all[k as int] == v@[k as int]@);
        if same(v[k].network.as_str(), n.name.as_str()) {
            let e = PodNetworkEntry {
                network: v[k].network.clone(),
                ip: copy_opt(&v[k].ip),
                ip6: copy_opt(&v[k].ip6),
                gateway: fill(&v[k].gateway, n.gateway.as_str()),
                gateway6: fill(&v[k].gateway6, n.gateway6.as_str()),
            };
            let ghost item = e@;
            v.set(k, e);
            assert(views(v@) =~= all.update(k as int, item));
            return ;
        }
        k += 1;
    }
}

/// The entries of a pod with the gateways of their networks.
pub fn inject_gateways(
    entries: &Vec<PodNetworkEntry>,
    found: &Vec<Option<DbNetwork>>,
) -> (r: Vec<PodNetworkEntry>)
    requires
        entries.len() == found.len(),
    ensures
        views(r@) == with_all_gateways(views(entries@), entries@, found@),
{
    let mut out: Vec<PodNetworkEntry> = Vec::new();
    let mut i: usize = 0;
    while i < entries.len()
        invariant
            i <= entries.len(),
            views(out@) =~= views(entries@).take(i as int),
        decreases entries.len() - i,
    {
        let e = copy_entry(&entries[i]);
        proof {
            lemma_views_push(out@, e);
            assert(views(entries@)[i as int] == e@);
        }
        out.push(e);
        i += 1;
    }
    assert(views(out@) =~= views(entries@));
    let ghost start = views(entries@);
    i = 0;
    while i < found.len()
        invariant
            i <= found.len(),
            entries.len() == found.len(),
            start == views(entries@),
            views(out@) == with_all_gateways(
                start,
                entries@.take(i as int),
                found@.take(i as int),
            ),
        decreases found.len() - i,
    {
        proof {
            assert(entries@.take(i as int + 1).drop_last() =~= entries@.take(i as int));
            assert(found@.take(i as int + 1).drop_last() =~= found@.take(i as int));
            assert(entries@.take(i as int + 1).last() == entries@[i as int]);
            assert(found@.take(i as int + 1).last() == found@[i as int]);
        }
        if let Some(n) = &found[i] {
            if entries[i].network.as_str().unicode_len() > 0 {
                set_gateways(&mut out, n);
            }
        }
        i += 1;
    }
    assert(entries@.take(i as int) =~= entries@);
    assert(found@.take(i as int) =~= found@);
    out
}

// ---------------------------------------------------------------------------
// The pod
// ---------------------------------------------------------------------------

/// An optional text, unless it is blank.
pub open spec fn not_blank(o: Option<String>) -> Option<Seq<char>> {
    match o {
        Some(s) => if is_blank(s@) {
            None
        } else {
            Some(s@)
        },
        None => None,
    }
}

/// An optional text, unless it is blank.
pub fn keep_not_blank(o: &Option<String>) -> (r: Option<String>)
    ensures
        opt_view(r) == not_blank(*o),
        r is Some ==> r == *o,
{
    match o {
        Some(s) => if blank(s.as_str()) {
            None
        } else {
            Some(s.clone())
        },
        None => None,
    }
}

/// The units that a form describes: the networks that its entries need, and its pod, where
/// it has a name. `found` holds what is on record for each entry.
pub fn build_pod_config(
    form: &QuadletFullForm,
    entries: &Vec<PodNetworkEntry>,
    found: &Vec<Option<DbNetwork>>,
) -> (r: QuadletConfig)
    requires
        entries.len() == found.len(),
    ensures
        r.install_path@ == "/etc/containers/systemd"@,
        r.volumes@.len() == 0,
        r.containers@.len() == 0,
        views(r.networks@) == needed_networks(entries@, found@, *form),
        not_blank(form.pod_name) is None ==> r.pods@.len() == 0,
        not_blank(form.pod_name) matches Some(name) ==> {
            &&& r.pods@.len() == 1
            &&& r.pods@[0].name@ == trimmed(name)
            &&& opt_view(r.pods@[0].description) == not_blank(form.pod_description)
            &&& opt_view(r.pods@[0].hostname) == not_blank(form.pod_hostname)
            &&& opt_view(r.pods@[0].shm_size) == not_blank(form.pod_shm_size)
            &&& views(r.pods@[0].networks@) == with_all_gateways(
                views(entries@),
                entries@,
                found@,
            )
            &&& r.pods@[0].labels@.len() == 0
        },
{
    let networks = collect_networks(entries, found, form);
    let mut pods: Vec<QuadletPod> = Vec::new();
    if let Some(name) = keep_not_blank(&form.pod_name) {
        pods.push(
            QuadletPod {
                name: trim(name.as_str()).to_owned(),
                description: keep_not_blank(&form.pod_description),
                hostname: keep_not_blank(&form.pod_hostname),
                shm_size: keep_not_blank(&form.pod_shm_size),
                networks: inject_gateways(entries, found),
                labels: Vec::new(),
            },
        );
    }
    QuadletConfig { networks, pods, ..QuadletConfig::new() }
}

/// The unit files of a configuration and the playbook that deploys them.
pub fn quadlet_result(config: &QuadletConfig, form: &QuadletFullForm) -> (r: QuadletResult)
    ensures
        views(r.files@) == unit_files(*config),
        r.ansible_playbook@ == quadlet_playbook(
            *config,
            r.files@,
            opt_view(form.ansible_hosts),
            opt_view(form.ansible_user),
            opt_view(form.ansible_ssh_key),
        ),
{
    let files = generate_all_units(config);
    let ansible_playbook = generate_quadlet_ansible_playbook(config, &files, form);
    QuadletResult { files, ansible_playbook }
}

} // verus!
