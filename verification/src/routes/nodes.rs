//! Nodes, networks and login profiles: what the forms give, and the files with which the
//! nodes are asked for their interfaces and their storage.

use crate::db::{DbAnsibleProfile, DbNetwork, DbNode, NetworkModel, NodeModel};
use crate::lines::{entry, flat, lemma_flat_take, push_when, wrap, wrap_entry};
use crate::res_file::or_text;
use crate::routes::drbd::{given_or, or_empty};
use crate::text::{given, opt_view, same, strip_prefix, trim_end_char, without_trailing};
use vstd::prelude::*;
use vstd::string::*;

verus! {

/// What a scan has added.
#[derive(Debug, Clone)]
pub struct ScanResult {
    pub nodes_added: usize,
    pub networks_added: usize,
}

/// A node of a form.
#[derive(Debug, Clone)]
pub struct NodeInput {
    pub hostname: String,
    pub ip: Option<String>,
    pub ssh_user: Option<String>,
}

/// A network of a form.
#[derive(Debug, Clone)]
pub struct NetworkInput {
    pub name: String,
    pub driver: Option<String>,
    pub subnet: Option<String>,
    pub gateway: Option<String>,
    pub subnet6: Option<String>,
    pub gateway6: Option<String>,
    pub ipv6: Option<bool>,
    pub ipvlan_mode: Option<String>,
}

/// A login profile of a form.
#[derive(Debug, Clone)]
pub struct AnsibleProfileInput {
    pub name: String,
    pub auth_method: Option<String>,
    pub ssh_user: Option<String>,
    pub ssh_key: Option<String>,
    pub ssh_password: Option<String>,
    pub do_become: Option<bool>,
    pub become_method: Option<String>,
    pub become_password: Option<String>,
}

/// A request to ask the nodes, with the profile to log in with.
#[derive(Debug, Clone)]
pub struct CollectInput {
    pub profile_name: Option<String>,
}

/// What asking for interfaces has given.
#[derive(Debug, Clone)]
pub struct CollectResult {
    pub interfaces_imported: usize,
    pub networks_matched: usize,
    pub ansible_output: String,
}

/// What asking for the storage has given.
#[derive(Debug, Clone)]
pub struct StorageBackendDetectResult {
    pub backend: String,
    pub detected_at: String,
    /// Each node, and whether it has the units of the LINSTOR controller and satellite.
    pub per_node: Vec<(String, bool, bool)>,
    pub ansible_output: String,
}

/// The record of a node that a form describes.
pub fn node_record(input: &NodeInput) -> (r: DbNode)
    ensures
        r@ == (NodeModel {
            id: 0,
            hostname: input.hostname@,
            ip: or_empty(input.ip),
            ssh_user: or_text(opt_view(input.ssh_user), "root"@),
            source: "manual"@,
            created_at: ""@,
        }),
{
    DbNode {
        id: 0,
        hostname: input.hostname.clone(),
        ip: given_or(&input.ip, ""),
        ssh_user: given_or(&input.ssh_user, "root"),
        source: "manual".to_owned(),
        created_at: "".to_owned(),
    }
}

/// The record of a network that a form describes. Its interface is found later; it has
/// IPv6 where the form says so or, where the form says nothing, where it has an IPv6
/// subnet.
pub fn network_record(input: &NetworkInput) -> (r: DbNetwork)
    ensures
        r@ == (NetworkModel {
            id: 0,
            name: input.name@,
            driver: or_text(opt_view(input.driver), "ipvlan"@),
            interface: ""@,
            subnet: or_empty(input.subnet),
            gateway: or_empty(input.gateway),
            subnet6: or_empty(input.subnet6),
            gateway6: or_empty(input.gateway6),
            ipv6: match input.ipv6 {
                Some(b) => b,
                None => or_empty(input.subnet6).len() > 0,
            },
            ipvlan_mode: or_text(opt_view(input.ipvlan_mode), "l2"@),
            source: "manual"@,
            created_at: ""@,
        }),
{
    let subnet6 = given_or(&input.subnet6, "");
    let ipv6 = match input.ipv6 {
        Some(b) => b,
        None => subnet6.as_str().unicode_len() > 0,
    };
    DbNetwork {
        id: 0,
        name: input.name.clone(),
        driver: given_or(&input.driver, "ipvlan"),
        interface: "".to_owned(),
        subnet: given_or(&input.subnet, ""),
        gateway: given_or(&input.gateway, ""),
        subnet6,
        gateway6: given_or(&input.gateway6, ""),
        ipv6,
        ipvlan_mode: given_or(&input.ipvlan_mode, "l2"),
        source: "manual".to_owned(),
        created_at: "".to_owned(),
    }
}

/// The record of a login profile that a form describes.
pub fn profile_record(input: &AnsibleProfileInput) -> (r: DbAnsibleProfile)
    ensures
        r.id == 0,
        r.name@ == input.name@,
        r.auth_method@ == or_text(opt_view(input.auth_method), "key"@),
        r.ssh_user@ == or_text(opt_view(input.ssh_user), "root"@),
        r.ssh_key@ == or_text(opt_view(input.ssh_key), "~/.ssh/id_rsa"@),
        r.ssh_password@ == or_empty(input.ssh_password),
        r.do_become == (match input.do_become {
            Some(b) => b,
            None => true,
        }),
        r.become_method@ == or_text(opt_view(input.become_method), "sudo"@),
        r.become_password@ == or_empty(input.become_password),
        r.created_at@ == ""@,
        r.updated_at@ == ""@,
{
    DbAnsibleProfile {
        id: 0,
        name: input.name.clone(),
        auth_method: given_or(&input.auth_method, "key"),
        ssh_user: given_or(&input.ssh_user, "root"),
        ssh_key: given_or(&input.ssh_key, "~/.ssh/id_rsa"),
        ssh_password: given_or(&input.ssh_password, ""),
        do_become: match input.do_become {
            Some(b) => b,
            None => true,
        },
        become_method: given_or(&input.become_method, "sudo"),
        become_password: given_or(&input.become_password, ""),
        created_at: "".to_owned(),
        updated_at: "".to_owned(),
    }
}

// ---------------------------------------------------------------------------
// Asking the nodes
// ---------------------------------------------------------------------------

/// The profile of a name, from position `i` on.
pub open spec fn profile_from(profiles: Seq<DbAnsibleProfile>, name: Seq<char>, i: int) -> Option<
    DbAnsibleProfile,
>
    decreases profiles.len() - i,
{
    if i < 0 || i >= profiles.len() {
        None
    } else if profiles[i].name@ == name {
        Some(profiles[i])
    } else {
        profile_from(profiles, name, i + 1)
    }
}

/// The profile to log in with: that of the name or, where none is named, the first.
pub open spec fn chosen_profile(profiles: Seq<DbAnsibleProfile>, name: Option<String>) -> Option<
    DbAnsibleProfile,
> {
    match name {
        Some(n) => profile_from(profiles, n@, 0),
        None => if profiles.len() > 0 {
            Some(profiles[0])
        } else {
            None
        },
    }
}

/// The profile to log in with.
pub fn choose_profile<'a>(
    profiles: &'a Vec<DbAnsibleProfile>,
    name: &Option<String>,
) -> (r: Option<&'a DbAnsibleProfile>)
    ensures
        referred(r) == chosen_profile(profiles@, *name),
{
    match name {
        Some(n) => {
            let mut i: usize = 0;
            while i < profiles.len()
                invariant
                    i <= profiles.len(),
                    *name == Some(*n),
                    profile_from(profiles@, n@, 0) == profile_from(profiles@, n@, i as int),
                decreases profiles.len() - i,
            {
                if same(profiles[i].name.as_str(), n.as_str()) {
                    return Some(&profiles[i]);
                }
                i += 1;
            }
            None
        },
        None => if profiles.len() > 0 {
            Some(&profiles[0])
        } else {
            None
        },
    }
}

/// How a profile logs in.
pub open spec fn login_vars(p: DbAnsibleProfile) -> Seq<char> {
    (if p.auth_method@ == "key"@ {
        entry(p.ssh_key@, " ansible_ssh_private_key_file="@, ""@)
    } else if p.auth_method@ == "password"@ {
        entry(p.ssh_password@, " ansible_ssh_pass="@, ""@)
    } else {
        Seq::empty()
    }) + given(
        p.do_become,
        " ansible_become=yes ansible_become_method="@ + p.become_method@ + entry(
            p.become_password@,
            " ansible_become_pass="@,
            ""@,
        ),
    )
}

/// The line of a node: how it is reached, and the login of the profile where there is one.
pub open spec fn node_line(profile: Option<DbAnsibleProfile>) -> spec_fn(DbNode) -> Seq<char> {
    |n: DbNode|
        n.hostname@ + " ansible_host="@ + (if n.ip@.len() == 0 {
            n.hostname@
        } else {
            n.ip@
        }) + " ansible_user="@ + (match profile {
            Some(p) => p.ssh_user@ + login_vars(p),
            None => n.ssh_user@,
        }) + "\n"@
}

/// The inventory with which the nodes are asked.
pub open spec fn nodes_inventory(nodes: Seq<DbNode>, profile: Option<DbAnsibleProfile>) -> Seq<
    char,
> {
    "[all]\n"@ + flat(nodes, node_line(profile))
        + "\n[all:vars]\nansible_host_key_checking=False"@
}

/// What an optional reference refers to.
pub open spec fn referred<T>(o: Option<&T>) -> Option<T> {
    match o {
        Some(p) => Some(*p),
        None => None,
    }
}

fn write_login_vars(p: &DbAnsibleProfile) -> (r: String)
    ensures
        r@ == login_vars(*p),
{
    let method = p.auth_method.as_str();
    let mut out = if same(method, "key") {
        wrap_entry(p.ssh_key.as_str(), " ansible_ssh_private_key_file=", "")
    } else if same(method, "password") {
        wrap_entry(p.ssh_password.as_str(), " ansible_ssh_pass=", "")
    } else {
        String::new()
    };
    let mut become_vars = " ansible_become=yes ansible_become_method=".to_owned();
    become_vars.push_str(p.become_method.as_str());
    become_vars.push_str(
        wrap_entry(p.become_password.as_str(), " ansible_become_pass=", "").as_str(),
    );
    push_when(&mut out, p.do_become, become_vars.as_str());
    out
}

fn write_node_line(n: &DbNode, profile: Option<&DbAnsibleProfile>) -> (r: String)
    ensures
        r@ == node_line(referred(profile))(*n),
{
    let mut out = n.hostname.clone();
    out.push_str(" ansible_host=");
    if n.ip.as_str().unicode_len() == 0 {
        out.push_str(n.hostname.as_str());
    } else {
        out.push_str(n.ip.as_str());
    }
    out.push_str(" ansible_user=");
    match profile {
        Some(p) => {
            let mut login = p.ssh_user.clone();
            login.push_str(write_login_vars(p).as_str());
            out.push_str(login.as_str());
        },
        None => {
            out.push_str(n.ssh_user.as_str());
        },
    }
    out.push_str("\n");
    out
}

/// The inventory with which the nodes are asked.
pub fn write_ansible_inventory(nodes: &Vec<DbNode>, profile: Option<&DbAnsibleProfile>) -> (r:
    String)
    ensures
        r@ == nodes_inventory(nodes@, referred(profile)),
{
    let mut hosts = String::new();
    let mut i: usize = 0;
    while i < nodes.len()
        invariant
            i <= nodes.len(),
            hosts@ == flat(nodes@.take(i as int), node_line(referred(profile))),
        decreases nodes.len() - i,
    {
        proof {
            lemma_flat_take(nodes@, node_line(referred(profile)), i as int);
        }
        hosts.push_str(write_node_line(&nodes[i], profile).as_str());
        i += 1;
    }
    assert(nodes@.take(i as int) =~= nodes@);
    wrap("[all]\n", hosts.as_str(), "\n[all:vars]\nansible_host_key_checking=False")
}

pub const COLLECT_HEAD: &'static str = "---
- name: Collect network interface information from the nodes
  hosts: all
  gather_facts: no
  tasks:
    - name: Collect IP address information (JSON)
      command: ip -j addr show
      register: ip_json
      changed_when: false

    - name: Save the collected data locally
      local_action:
        module: copy
        content: \"{{ ip_json.stdout }}\"
        dest: \"";

pub const COLLECT_TAIL: &'static str = "/ifaces_{{ inventory_hostname }}.json\"
        mode: '0600'
";

/// The playbook that asks the nodes for their interfaces and stores the answers in a
/// directory.
pub fn write_collect_playbook(temp_dir: &str) -> (r: String)
    ensures
        r@ == COLLECT_HEAD@ + temp_dir@ + COLLECT_TAIL@,
{
    wrap(COLLECT_HEAD, temp_dir, COLLECT_TAIL)
}

pub const DETECT_HEAD: &'static str = "---
- name: Detect whether LINSTOR is installed (PLAN.md D.1)
  hosts: all
  gather_facts: no
  tasks:
    - name: Check for the linstor-controller systemd unit
      ansible.builtin.stat:
        path: /usr/lib/systemd/system/linstor-controller.service
      register: _linstor_ctrl_stat

    - name: Check for the linstor-satellite systemd unit
      ansible.builtin.stat:
        path: /usr/lib/systemd/system/linstor-satellite.service
      register: _linstor_sat_stat

    - name: Save the detection result locally
      local_action:
        module: copy
        content: \"{{ {'controller': _linstor_ctrl_stat.stat.exists, 'satellite': _linstor_sat_stat.stat.exists} | to_json }}\"
        dest: \"";

pub const DETECT_TAIL: &'static str = "/linstor_detect_{{ inventory_hostname }}.json\"
        mode: '0600'
";

/// The playbook that asks the nodes for the units of LINSTOR and stores the answers in a
/// directory.
pub fn write_storage_backend_detect_playbook(temp_dir: &str) -> (r: String)
    ensures
        r@ == DETECT_HEAD@ + temp_dir@ + DETECT_TAIL@,
{
    wrap(DETECT_HEAD, temp_dir, DETECT_TAIL)
}

/// A path with the home directory for a leading tilde; the path as it is where no home
/// directory is known.
pub open spec fn expanded(home: Seq<char>, path: Seq<char>) -> Seq<char> {
    if home.len() == 0 {
        path
    } else if path == "~"@ {
        home
    } else if "~/"@.is_prefix_of(path) {
        without_trailing(home, '/') + "/"@ + path.skip(2)
    } else {
        path
    }
}

/// A path with the home directory for a leading tilde.
pub fn expand_home(home: &str, path: &str) -> (r: String)
    ensures
        r@ == expanded(home@, path@),
{
    proof {
        reveal_strlit("~/");
    }
    if home.unicode_len() == 0 {
        return path.to_owned();
    }
    if same(path, "~") {
        home.to_owned()
    } else if let Some(rest) = strip_prefix(path, "~/") {
        let mut out = trim_end_char(home, '/').to_owned();
        out.push_str("/");
        out.push_str(rest);
        out
    } else {
        path.to_owned()
    }
}

/// A path without a tilde at its start is kept, wherever else it has one.
pub proof fn law_only_a_leading_tilde_is_expanded(home: Seq<char>, path: Seq<char>)
    requires
        path.len() == 0 || path[0] != '~',
    ensures
        expanded(home, path) == path,
{
    reveal_strlit("~");
    reveal_strlit("~/");
    if "~/"@.is_prefix_of(path) {
        assert("~/"@[0] == path.subrange(0, 2)[0]);
    }
    assert("~"@[0] == '~');
}

/// The key that a profile logs in with, where it logs in with one.
pub fn private_key(profile: &DbAnsibleProfile, home: &str) -> (r: Option<String>)
    ensures
        opt_view(r) == if profile.auth_method@ == "key"@ && profile.ssh_key@.len() > 0 {
            Some(expanded(home@, profile.ssh_key@))
        } else {
            None
        },
{
    if same(profile.auth_method.as_str(), "key") && profile.ssh_key.as_str().unicode_len() > 0 {
        Some(expand_home(home, profile.ssh_key.as_str()))
    } else {
        None
    }
}

} // verus!
