//! The DRBD resource file, the global settings and the playbook that deploys them.

use crate::lines::{
    add_line, flat, flat_indexed, join, joined, lemma_flat_indexed_take, lemma_flat_take,
    lemma_views_push, lines, lines_of, push_when, wrap, wrap_all, wrap_slices, wrapped,
};
use crate::models::drbd::{
    AnsibleInventory, DrbdNetOptions, DrbdNode, DrbdResource, DrbdStartupOptions,
};
use crate::number::{decimal, decimal_text, push_number};
use crate::occurs::{
    holds_lines, lemma_before_in_part, lemma_before_in_sum, lemma_contains_middle,
    lemma_contains_sum, lemma_flat_indexed_parts, lemma_flat_parts, lemma_holds_lines,
    lemma_parts_before, lemma_parts_one, lemma_parts_push, lemma_parts_push_two, lemma_parts_three,
    lemma_regrouped, lemma_wrapped_contains, lemma_wrapped_sum, of_parts, stands_before,
};
use crate::text::{given, same, trim, trimmed, views};
use vstd::prelude::*;
use vstd::string::*;

verus! {

// ---------------------------------------------------------------------------
// The resource file
// ---------------------------------------------------------------------------

/// The value of `on-io-error` that DRBD takes for a configured one: the three values
/// that it knows as they are, the two former names under their present ones, and
/// `detach` for anything else.
pub open spec fn on_io_error_value(value: Seq<char>) -> Seq<char> {
    let v = trimmed(value);
    if v == "pass_on"@ || v == "passthrough"@ {
        "pass_on"@
    } else if v == "call-local-io-error"@ || v == "panic"@ {
        "call-local-io-error"@
    } else {
        "detach"@
    }
}

/// The value of `after-sb-1pri` that DRBD takes for a configured one: the values that it
/// knows as they are, a former name under its present one, and `discard-secondary` for
/// anything else.
pub open spec fn after_sb_1pri_value(value: Seq<char>) -> Seq<char> {
    let v = trimmed(value);
    if v == "disconnect"@ || v == "consensus"@ || v == "call-pri-lost-after-sb"@ || v
        == "violently-as0p"@ {
        v
    } else if v == "call-pri-lost"@ {
        "call-pri-lost-after-sb"@
    } else {
        "discard-secondary"@
    }
}

/// Whether DRBD accepts the value of `on-io-error`.
pub open spec fn accepted_on_io_error(v: Seq<char>) -> bool {
    v == "pass_on"@ || v == "call-local-io-error"@ || v == "detach"@
}

/// Whether DRBD accepts the value of `after-sb-1pri`.
pub open spec fn accepted_after_sb_1pri(v: Seq<char>) -> bool {
    v == "disconnect"@ || v == "consensus"@ || v == "discard-secondary"@ || v
        == "call-pri-lost-after-sb"@ || v == "violently-as0p"@
}

/// The first lines of the resource file, up to the options of the network.
pub open spec fn head_lines(r: DrbdResource) -> Seq<Seq<char>> {
    seq![
        "resource "@ + r.resource_name@ + " {"@,
        "    protocol "@ + r.protocol@ + ";"@,
        ""@,
        "    options {"@,
        "        quorum majority;"@,
        "        on-no-quorum io-error;"@,
        "    }"@,
        ""@,
        "    startup {"@,
        "        wfc-timeout      "@ + decimal(r.startup_options.wfc_timeout as nat) + ";"@,
        "        degr-wfc-timeout "@ + decimal(r.startup_options.degr_wfc_timeout as nat) + ";"@,
        "    }"@,
        ""@,
        "    disk {"@,
        "        on-io-error "@ + on_io_error_value(r.disk_options.on_io_error@) + ";"@,
        "    }"@,
        ""@,
        "    net {"@,
        "        fencing "@ + r.disk_options.fencing@ + ";"@,
        "        max-buffers 8000;"@,
        "        max-epoch-size 8000;"@,
    ]
}

/// The lines on what happens after the nodes have diverged.
pub open spec fn split_brain_lines(n: DrbdNetOptions) -> Seq<Seq<char>> {
    (if n.allow_two_primaries {
        seq!["        allow-two-primaries yes;"@]
    } else {
        Seq::empty()
    }) + seq![
        "        after-sb-0pri "@ + n.after_sb_0pri@ + ";"@,
        "        after-sb-1pri "@ + after_sb_1pri_value(n.after_sb_1pri@) + ";"@,
    ] + (if n.after_sb_2pri@ != "disconnect"@ || n.allow_two_primaries {
        seq!["        after-sb-2pri "@ + n.after_sb_2pri@ + ";"@]
    } else {
        Seq::empty()
    })
}

/// The `on` section of the node at position `i`.
pub open spec fn node_lines(r: DrbdResource) -> spec_fn(int, DrbdNode) -> Seq<Seq<char>> {
    |i: int, n: DrbdNode|
        seq![
            "    on "@ + n.hostname@ + " {"@,
            "        node-id   "@ + decimal(i as nat) + ";"@,
            "        device    /dev/drbd"@ + decimal(r.minor as nat) + ";"@,
            "        disk      "@ + n.disk_path(r.resource_name@) + ";"@,
            "        address   "@ + n.ip@ + ":"@ + decimal(n.port as nat) + ";"@,
            "        meta-disk "@ + n.meta_disk@ + ";"@,
            "    }"@,
        ]
}

/// The host names of the nodes.
pub open spec fn hostnames(nodes: Seq<DrbdNode>) -> Seq<Seq<char>> {
    Seq::new(nodes.len(), |i: int| nodes[i].hostname@)
}

/// The full mesh of connections, where there is something to connect.
pub open spec fn mesh_lines(nodes: Seq<DrbdNode>) -> Seq<Seq<char>> {
    if nodes.len() >= 2 {
        seq![
            ""@,
            "    connection-mesh {"@,
            "        hosts "@ + joined(hostnames(nodes), " "@) + " ;"@,
            "    }"@,
        ]
    } else {
        Seq::empty()
    }
}

/// The lines of the resource file.
pub open spec fn res_lines(r: DrbdResource) -> Seq<Seq<char>> {
    head_lines(r) + split_brain_lines(r.net_options) + seq![
        "    }"@,
        ""@,
        "    # node-id values are assigned 0, 1, 2 ... in inventory order."@,
    ] + flat_indexed(r.nodes@, node_lines(r)) + mesh_lines(r.nodes@) + seq!["}"@]
}

/// The content of the resource file.
pub open spec fn res_text(r: DrbdResource) -> Seq<char> {
    wrapped(res_lines(r), ""@, "\n"@)
}

/// The value of `on-io-error` that DRBD takes for a configured one.
pub fn normalize_on_io_error(value: &str) -> (r: &'static str)
    ensures
        r@ == on_io_error_value(value@),
{
    let v = trim(value);
    if same(v, "pass_on") || same(v, "passthrough") {
        "pass_on"
    } else if same(v, "call-local-io-error") || same(v, "panic") {
        "call-local-io-error"
    } else {
        "detach"
    }
}

/// The value of `after-sb-1pri` that DRBD takes for a configured one.
pub fn normalize_after_sb_1pri(value: &str) -> (r: &'static str)
    ensures
        r@ == after_sb_1pri_value(value@),
{
    let v = trim(value);
    if same(v, "disconnect") {
        "disconnect"
    } else if same(v, "consensus") {
        "consensus"
    } else if same(v, "call-pri-lost-after-sb") || same(v, "call-pri-lost") {
        proof {
            reveal_strlit("call-pri-lost");
            reveal_strlit("call-pri-lost-after-sb");
            reveal_strlit("disconnect");
            reveal_strlit("consensus");
            reveal_strlit("violently-as0p");
        }
        "call-pri-lost-after-sb"
    } else if same(v, "violently-as0p") {
        "violently-as0p"
    } else {
        "discard-secondary"
    }
}

fn add_number_line(lines: &mut Vec<String>, before: &str, n: u64)
    ensures
        views(final(lines)@) == views(old(lines)@).push(before@ + decimal(n as nat) + ";"@),
{
    add_line(lines, wrap(before, decimal_text(n).as_str(), ";").as_str());
}

fn add_value_line(lines: &mut Vec<String>, before: &str, value: &str)
    ensures
        views(final(lines)@) == views(old(lines)@).push(before@ + value@ + ";"@),
{
    add_line(lines, wrap(before, value, ";").as_str());
}

fn add_head_lines(lines: &mut Vec<String>, r: &DrbdResource)
    ensures
        views(final(lines)@) == views(old(lines)@) + head_lines(*r),
{
    add_line(lines, wrap("resource ", r.resource_name.as_str(), " {").as_str());
    add_value_line(lines, "    protocol ", r.protocol.as_str());
    add_line(lines, "");
    add_line(lines, "    options {");
    add_line(lines, "        quorum majority;");
    add_line(lines, "        on-no-quorum io-error;");
    add_line(lines, "    }");
    add_line(lines, "");
    add_line(lines, "    startup {");
    add_number_line(lines, "        wfc-timeout      ", r.startup_options.wfc_timeout as u64);
    add_number_line(lines, "        degr-wfc-timeout ", r.startup_options.degr_wfc_timeout as u64);
    add_line(lines, "    }");
    add_line(lines, "");
    add_line(lines, "    disk {");
    let on_io_error = normalize_on_io_error(r.disk_options.on_io_error.as_str());
    add_value_line(lines, "        on-io-error ", on_io_error);
    add_line(lines, "    }");
    add_line(lines, "");
    add_line(lines, "    net {");
    add_value_line(lines, "        fencing ", r.disk_options.fencing.as_str());
    add_line(lines, "        max-buffers 8000;");
    add_line(lines, "        max-epoch-size 8000;");
    assert(views(lines@) =~= views(old(lines)@) + head_lines(*r));
}

fn add_split_brain_lines(lines: &mut Vec<String>, n: &DrbdNetOptions)
    ensures
        views(final(lines)@) == views(old(lines)@) + split_brain_lines(*n),
{
    if n.allow_two_primaries {
        add_line(lines, "        allow-two-primaries yes;");
    }
    add_value_line(lines, "        after-sb-0pri ", n.after_sb_0pri.as_str());
    let one = normalize_after_sb_1pri(n.after_sb_1pri.as_str());
    add_value_line(lines, "        after-sb-1pri ", one);
    if !same(n.after_sb_2pri.as_str(), "disconnect") || n.allow_two_primaries {
        add_value_line(lines, "        after-sb-2pri ", n.after_sb_2pri.as_str());
    }
    assert(views(lines@) =~= views(old(lines)@) + split_brain_lines(*n));
}

fn add_node_lines(lines: &mut Vec<String>, r: &DrbdResource, i: usize, n: &DrbdNode)
    ensures
        views(final(lines)@) == views(old(lines)@) + node_lines(*r)(i as int, *n),
{
    add_line(lines, wrap("    on ", n.hostname.as_str(), " {").as_str());
    add_number_line(lines, "        node-id   ", i as u64);
    add_number_line(lines, "        device    /dev/drbd", r.minor as u64);
    let disk = n.effective_disk(r.resource_name.as_str());
    add_value_line(lines, "        disk      ", disk.as_str());
    add_number_line(
        lines,
        wrap("        address   ", n.ip.as_str(), ":").as_str(),
        n.port as u64,
    );
    add_value_line(lines, "        meta-disk ", n.meta_disk.as_str());
    add_line(lines, "    }");
    assert(views(lines@) =~= views(old(lines)@) + node_lines(*r)(i as int, *n));
}

fn collect_hostnames(nodes: &Vec<DrbdNode>) -> (r: Vec<String>)
    ensures
        views(r@) == hostnames(nodes@),
{
    let mut out: Vec<String> = Vec::new();
    let mut i: usize = 0;
    while i < nodes.len()
        invariant
            i <= nodes.len(),
            views(out@) =~= hostnames(nodes@).take(i as int),
        decreases nodes.len() - i,
    {
        add_line(&mut out, nodes[i].hostname.as_str());
        i += 1;
    }
    out
}

fn add_mesh_lines(lines: &mut Vec<String>, nodes: &Vec<DrbdNode>)
    ensures
        views(final(lines)@) == views(old(lines)@) + mesh_lines(nodes@),
{
    if nodes.len() >= 2 {
        let hosts = join(&collect_hostnames(nodes), " ");
        add_line(lines, "");
        add_line(lines, "    connection-mesh {");
        add_line(lines, wrap("        hosts ", hosts.as_str(), " ;").as_str());
        add_line(lines, "    }");
    }
    assert(views(lines@) =~= views(old(lines)@) + mesh_lines(nodes@));
}

/// The content of the resource file. Values that DRBD does not know are replaced by ones
/// that it does, and the node that is to become primary is left to Pacemaker.
pub fn generate_res_file(resource: &DrbdResource) -> (r: String)
    ensures
        r@ == res_text(*resource),
{
    let mut lines: Vec<String> = Vec::new();
    assert(views(lines@) =~= Seq::<Seq<char>>::empty());
    add_head_lines(&mut lines, resource);
    assert(views(lines@) =~= head_lines(*resource));
    add_split_brain_lines(&mut lines, &resource.net_options);
    let ghost options = views(lines@);
    add_line(&mut lines, "    }");
    add_line(&mut lines, "");
    add_line(&mut lines, "    # node-id values are assigned 0, 1, 2 ... in inventory order.");
    let ghost head = options + seq![
        "    }"@,
        ""@,
        "    # node-id values are assigned 0, 1, 2 ... in inventory order."@,
    ];
    assert(views(lines@) =~= head + flat_indexed(resource.nodes@.take(0), node_lines(*resource)));
    let mut i: usize = 0;
    while i < resource.nodes.len()
        invariant
            i <= resource.nodes.len(),
            views(lines@) == head + flat_indexed(
                resource.nodes@.take(i as int),
                node_lines(*resource),
            ),
        decreases resource.nodes.len() - i,
    {
        let ghost before = flat_indexed(resource.nodes@.take(i as int), node_lines(*resource));
        proof {
            lemma_flat_indexed_take(resource.nodes@, node_lines(*resource), i as int);
        }
        add_node_lines(&mut lines, resource, i, &resource.nodes[i]);
        assert(head + before + node_lines(*resource)(i as int, resource.nodes@[i as int]) =~= head
            + (before + node_lines(*resource)(i as int, resource.nodes@[i as int])));
        i += 1;
    }
    assert(resource.nodes@.take(i as int) =~= resource.nodes@);
    add_mesh_lines(&mut lines, &resource.nodes);
    let ghost all = views(lines@);
    add_line(&mut lines, "}");
    assert(views(lines@) =~= all + seq!["}"@]);
    wrap_all(&lines, "", "\n")
}

/// Whatever is configured, the resource file holds a value of `on-io-error` and of
/// `after-sb-1pri` that DRBD accepts.
pub proof fn law_res_values_are_accepted(r: DrbdResource)
    ensures
        accepted_on_io_error(on_io_error_value(r.disk_options.on_io_error@)),
        accepted_after_sb_1pri(after_sb_1pri_value(r.net_options.after_sb_1pri@)),
{
}

/// A value that DRBD accepts is kept, whatever white space surrounds it.
pub proof fn law_accepted_values_are_kept(value: Seq<char>)
    ensures
        accepted_on_io_error(trimmed(value)) ==> on_io_error_value(value) == trimmed(value),
        accepted_after_sb_1pri(trimmed(value)) ==> after_sb_1pri_value(value) == trimmed(value),
{
    reveal_strlit("pass_on");
    reveal_strlit("call-local-io-error");
    reveal_strlit("detach");
    reveal_strlit("passthrough");
    reveal_strlit("panic");
    reveal_strlit("discard-secondary");
    reveal_strlit("call-pri-lost");
    assert("detach"@[0] != "passthrough"@[0]);
    assert("detach"@[0] != "panic"@[0]);
    assert("call-local-io-error"@[0] != "passthrough"@[0]);
    assert("call-local-io-error"@[0] != "pass_on"@[0]);
    assert("detach"@[0] != "pass_on"@[0]);
    assert("detach"@[0] != "call-local-io-error"@[0]);
    assert("discard-secondary"@[0] != "call-pri-lost"@[0]);
}

/// Which node is to become primary has no influence on the resource file.
pub proof fn law_become_primary_on_is_ignored(r: DrbdResource, on: String)
    ensures
        res_text(
            (DrbdResource {
                startup_options: (DrbdStartupOptions {
                    become_primary_on: on,
                    ..r.startup_options
                }),
                ..r
            }),
        ) == res_text(r),
{
    let q = DrbdResource {
        startup_options: (DrbdStartupOptions { become_primary_on: on, ..r.startup_options }),
        ..r
    };
    lemma_node_lines_agree(q, r, r.nodes@);
}

proof fn lemma_node_lines_agree(a: DrbdResource, b: DrbdResource, nodes: Seq<DrbdNode>)
    requires
        a.resource_name@ == b.resource_name@,
        a.minor == b.minor,
    ensures
        flat_indexed(nodes, node_lines(a)) == flat_indexed(nodes, node_lines(b)),
    decreases nodes.len(),
{
    if nodes.len() > 0 {
        lemma_node_lines_agree(a, b, nodes.drop_last());
    }
}

// ---------------------------------------------------------------------------
// The global settings
// ---------------------------------------------------------------------------

/// The content of `global_common.conf`: the handlers that fencing needs.
pub const GLOBAL_COMMON_CONF: &'static str = "global {
    usage-count yes;
    udev-always-use-vnr;
}
common {
    handlers {
        fence-peer \"/usr/lib/drbd/crm-fence-peer.9.sh\";
        after-resync-target \"/usr/lib/drbd/crm-unfence-peer.9.sh\";
    }
    startup {
    }
    options {
    }
    disk {
    }
    net {
    }
}
";

/// The content of `global_common.conf`: the handlers that fencing needs.
pub fn generate_global_common_conf() -> (r: String)
    ensures
        r@ == GLOBAL_COMMON_CONF@,
{
    GLOBAL_COMMON_CONF.to_owned()
}

// ---------------------------------------------------------------------------
// The playbook
// ---------------------------------------------------------------------------

pub const PACKAGES_HEAD: &'static str = "' (auto-generated)

- name: Install DRBD packages
  hosts: all
  become: true
  remote_user: ";

pub const KEY_VAR: &'static str = "
  vars:
    ansible_ssh_private_key_file: ";

pub const PACKAGES_TASKS: &'static str = "
    kernel_packages:
      - kernel
      - kernel-devel
    drbd_packages:
      - drbd9x-utils
      - kmod-drbd9x
      - drbd-selinux
  tasks:
    - name: 1. Import the ELRepo GPG key
      ansible.builtin.rpm_key:
        state: present
        key: https://www.elrepo.org/RPM-GPG-KEY-elrepo.org

    - name: 2. Install the ELRepo repository (AlmaLinux 9)
      ansible.builtin.dnf:
        name: https://www.elrepo.org/elrepo-release-9.el9.elrepo.noarch.rpm
        state: present
        disable_gpg_check: yes

    - name: 3. Install dnf-plugin-versionlock
      ansible.builtin.dnf:
        name: python3-dnf-plugin-versionlock
        state: present

    - name: 4. Update kernel packages
      ansible.builtin.dnf:
        name: \"{{ kernel_packages }}\"
        state: latest
        enablerepo: baseos,appstream
      register: kernel_update_result

    - name: 5. Install the DRBD packages
      ansible.builtin.dnf:
        name: \"{{ drbd_packages }}\"
        state: latest
        enablerepo: elrepo

    - name: 6. Version-lock the installed kernel and DRBD modules
      ansible.builtin.command:
        cmd: \"dnf versionlock add {{ item }}\"
      loop: \"{{ kernel_packages + drbd_packages }}\"
      register: lock_result
      changed_when: \"'adding' in lock_result.stdout\"

    - name: 7. Reboot only if the kernel was updated
      ansible.builtin.reboot:
        reboot_timeout: 1800
      when: kernel_update_result.changed

    - name: 8. Configure automatic DRBD kernel module loading
      ansible.builtin.copy:
        content: \"drbd\"
        dest: /etc/modules-load.d/drbd.conf
        mode: '0644'

    - name: 9. Load the DRBD kernel module now
      community.general.modprobe:
        name: drbd
        state: present

    - name: 10. Open the firewall ports (DRBD ";

pub const FIREWALL_PORT: &'static str = ")
      ansible.posix.firewalld:
        zone: work
        port: \"";

pub const FIREWALL_TAIL: &'static str = "\"
        permanent: yes
        state: enabled
      notify: Reload Firewalld

";

pub const GLOBAL_CONF_HEAD: &'static str = "    - name: 11. Deploy the global DRBD settings (global_common.conf)
      # The resource-only fencing policy needs a fence-peer handler.
      # Without it, a promote hangs until the op timeout after a peer disconnect.
      ansible.builtin.copy:
        dest: /etc/drbd.d/global_common.conf
        content: |
";

pub const GLOBAL_CONF_TAIL: &'static str = "        mode: '0644'
        backup: yes
      notify: Adjust DRBD config

";

pub const HANDLERS: &'static str = "  handlers:
    - name: Reload Firewalld
      ansible.builtin.systemd:
        name: firewalld
        state: restarted

";

pub const ADJUST_HANDLER: &'static str = "    - name: Adjust DRBD config
      # drbdadm adjust only applies the diff between the local config file
      # and the kernel state, so it is a no-op when nothing changed and can
      # be re-run safely on every deployment without a reboot.
      ansible.builtin.command: drbdadm adjust all
      changed_when: true

";

pub const VOLUMES_HEAD: &'static str = "- name: Configure the DRBD LVM volumes and resource
  hosts: all
  become: true
  remote_user: ";

pub const LVOL_TASK: &'static str = "    - name: 1. Create the LVM logical volumes
      community.general.lvol:
        vg: \"{{ item.vg }}\"
        lv: \"{{ item.lv_name }}\"
        size: \"{{ item.size }}\"
      loop: \"{{ drbd_resources }}\"
      # Each node only creates an LV in its own VG --
      # without this guard, lvol fails on another node's VG name.
      when: item.host == inventory_hostname
      loop_control:
        label: \"{{ item.host }}:{{ item.vg }}/{{ item.lv_name }}\"

";

pub const RES_COPY: &'static str = "    - name: Deploy the DRBD resource file (.res)
      ansible.builtin.copy:
        dest: /etc/drbd.d/";

pub const RES_CONTENT: &'static str = ".res
        content: |
";

pub const STATUS_TASK: &'static str = "        mode: '0644'

    - name: Check whether the device is up (drbdadm status)
      ansible.builtin.command:
        cmd: \"drbdadm status ";

pub const DUMP_TASK: &'static str = "\"
      register: check_status
      failed_when: false
      changed_when: false

    - name: Check whether metadata exists (drbdadm dump-md)
      ansible.builtin.command:
        cmd: \"drbdadm dump-md ";

pub const CREATE_TASK: &'static str = "\"
      register: check_md
      failed_when: false
      changed_when: false

    - name: Create the DRBD metadata (only when missing)
      ansible.builtin.command:
        cmd: \"drbdadm create-md ";

pub const UP_TASK: &'static str = "\"
      when:
        - check_md.rc != 0
        - check_status.rc != 0

    - name: Bring the DRBD resource up
      ansible.builtin.command:
        cmd: \"drbdadm up ";

pub const PRIMARY_TASK: &'static str = "\"
      register: up_result
      changed_when: \"'already' not in up_result.stderr and up_result.rc == 0\"
      failed_when: \"up_result.rc != 0 and 'already' not in up_result.stderr\"

    - name: Force the initial Primary on the first node (";

pub const PRIMARY_COMMAND: &'static str = ") only
      ansible.builtin.command:
        cmd: \"drbdadm primary --force ";

pub const SYNC_TASK: &'static str = "\"
      register: primary_result
      changed_when: primary_result.rc == 0
      failed_when:
        - primary_result.rc != 0
        - \"'already' not in primary_result.stderr\"

    - name: Check the synchronization state
      ansible.builtin.command:
        cmd: \"drbdadm status ";

pub const SYNC_TAIL: &'static str = "\"
      changed_when: false
";

/// The lowest port of the nodes.
pub open spec fn min_port(nodes: Seq<DrbdNode>) -> u16
    decreases nodes.len(),
{
    if nodes.len() <= 1 {
        nodes[0].port
    } else {
        let m = min_port(nodes.drop_last());
        if nodes.last().port < m {
            nodes.last().port
        } else {
            m
        }
    }
}

/// The highest port of the nodes.
pub open spec fn max_port(nodes: Seq<DrbdNode>) -> u16
    decreases nodes.len(),
{
    if nodes.len() <= 1 {
        nodes[0].port
    } else {
        let m = max_port(nodes.drop_last());
        if nodes.last().port > m {
            nodes.last().port
        } else {
            m
        }
    }
}

/// The ports that the firewall opens: the one port of all nodes, or the range from the
/// lowest to the highest.
pub open spec fn firewall_range(nodes: Seq<DrbdNode>) -> Seq<char> {
    if min_port(nodes) == max_port(nodes) {
        decimal(min_port(nodes) as nat) + "/tcp"@
    } else {
        decimal(min_port(nodes) as nat) + "-"@ + decimal(max_port(nodes) as nat) + "/tcp"@
    }
}

/// The logical volume of a node, for the host that owns it.
pub open spec fn lvm_entry(r: DrbdResource, n: DrbdNode) -> Seq<char> {
    "{ host: "@ + n.hostname@ + ", name: "@ + r.resource_name@ + ", lv_name: "@ + r.resource_name@
        + ", vg: "@ + n.lvm_vg@ + ", size: "@ + (if n.lvm_size@.len() == 0 {
        "10G"@
    } else {
        n.lvm_size@
    }) + ", port: "@ + decimal(n.port as nat) + ", device: /dev/drbd"@ + decimal(r.minor as nat)
        + " }"@
}

pub open spec fn lvm_entry_of(r: DrbdResource) -> spec_fn(DrbdNode) -> Seq<Seq<char>> {
    |n: DrbdNode|
        if n.on_lvm() {
            seq![lvm_entry(r, n)]
        } else {
            Seq::empty()
        }
}

/// The logical volumes to be made: one for each node that has a volume group.
pub open spec fn lvm_entries(r: DrbdResource) -> Seq<Seq<char>> {
    flat(r.nodes@, lvm_entry_of(r))
}

/// The items of the playbook's list of resources: the logical volumes, or the resource
/// alone where there are none.
pub open spec fn resource_entries(r: DrbdResource) -> Seq<Seq<char>> {
    if lvm_entries(r).len() > 0 {
        lvm_entries(r)
    } else {
        seq![
            "{ name: "@ + r.resource_name@ + ", port: "@ + decimal(r.nodes@[0].port as nat)
                + ", device: /dev/drbd"@ + decimal(r.minor as nat) + " }"@,
        ]
    }
}

/// The play that installs DRBD.
pub open spec fn packages_play(r: DrbdResource, user: Seq<char>, key: Seq<char>) -> Seq<char> {
    let fenced = r.disk_options.fencing@ == "resource-only"@;
    "---\n# Deployment playbook for DRBD resource '"@ + r.resource_name@ + PACKAGES_HEAD@ + user
        + KEY_VAR@ + key + PACKAGES_TASKS@ + firewall_range(r.nodes@) + FIREWALL_PORT@
        + firewall_range(r.nodes@) + FIREWALL_TAIL@ + given(
        fenced,
        GLOBAL_CONF_HEAD@ + wrapped(lines_of(GLOBAL_COMMON_CONF@), "          "@, "\n"@)
            + GLOBAL_CONF_TAIL@,
    ) + HANDLERS@ + given(fenced, ADJUST_HANDLER@)
}

/// The play that makes the volumes and brings the resource up.
pub open spec fn resource_play(r: DrbdResource, user: Seq<char>, key: Seq<char>) -> Seq<char> {
    let name = r.resource_name@;
    VOLUMES_HEAD@ + user + KEY_VAR@ + key + "\n    drbd_resources:\n"@ + wrapped(
        resource_entries(r),
        "      - "@,
        "\n"@,
    ) + "  tasks:\n"@ + given(lvm_entries(r).len() > 0, LVOL_TASK@) + RES_COPY@ + name
        + RES_CONTENT@ + wrapped(lines_of(res_text(r)), "          "@, "\n"@) + STATUS_TASK@ + name
        + DUMP_TASK@ + name + CREATE_TASK@ + name + UP_TASK@ + name + PRIMARY_TASK@
        + r.nodes@[0].hostname@ + PRIMARY_COMMAND@ + name
        + "\"\n      when: inventory_hostname == \""@ + r.nodes@[0].hostname@ + SYNC_TASK@ + name
        + SYNC_TAIL@
}

/// The playbook that installs DRBD, makes the volumes and brings the resource up.
pub open spec fn drbd_playbook_text(r: DrbdResource, inventory: AnsibleInventory) -> Seq<char> {
    packages_play(r, inventory.ansible_user@, inventory.ansible_ssh_private_key_file@)
        + resource_play(r, inventory.ansible_user@, inventory.ansible_ssh_private_key_file@)
}

fn write_firewall_range(nodes: &Vec<DrbdNode>) -> (r: String)
    requires
        nodes.len() > 0,
    ensures
        r@ == firewall_range(nodes@),
{
    let mut low: u16 = nodes[0].port;
    let mut high: u16 = nodes[0].port;
    let mut i: usize = 1;
    while i < nodes.len()
        invariant
            1 <= i <= nodes.len(),
            low == min_port(nodes@.take(i as int)),
            high == max_port(nodes@.take(i as int)),
        decreases nodes.len() - i,
    {
        proof {
            assert(nodes@.take(i as int + 1).drop_last() =~= nodes@.take(i as int));
            assert(nodes@.take(i as int + 1).last() == nodes@[i as int]);
        }
        let port: u16 = nodes[i].port;
        if port < low {
            low = port;
        }
        if port > high {
            high = port;
        }
        i += 1;
    }
    assert(nodes@.take(i as int) =~= nodes@);
    let mut out = decimal_text(low as u64);
    if low != high {
        out.push_str("-");
        push_number(&mut out, high as u64);
    }
    out.push_str("/tcp");
    out
}

fn write_lvm_entry(r: &DrbdResource, n: &DrbdNode) -> (s: String)
    ensures
        s@ == lvm_entry(*r, *n),
{
    let mut out = "{ host: ".to_owned();
    out.push_str(n.hostname.as_str());
    out.push_str(", name: ");
    out.push_str(r.resource_name.as_str());
    out.push_str(", lv_name: ");
    out.push_str(r.resource_name.as_str());
    out.push_str(", vg: ");
    out.push_str(n.lvm_vg.as_str());
    out.push_str(", size: ");
    if n.lvm_size.as_str().unicode_len() == 0 {
        out.push_str("10G");
    } else {
        out.push_str(n.lvm_size.as_str());
    }
    out.push_str(", port: ");
    push_number(&mut out, n.port as u64);
    out.push_str(", device: /dev/drbd");
    push_number(&mut out, r.minor as u64);
    out.push_str(" }");
    out
}

fn write_lvm_entries(r: &DrbdResource) -> (s: Vec<String>)
    ensures
        views(s@) == lvm_entries(*r),
{
    let mut out: Vec<String> = Vec::new();
    let mut i: usize = 0;
    assert(views(out@) =~= Seq::<Seq<char>>::empty());
    while i < r.nodes.len()
        invariant
            i <= r.nodes.len(),
            views(out@) == flat(r.nodes@.take(i as int), lvm_entry_of(*r)),
        decreases r.nodes.len() - i,
    {
        let ghost before = views(out@);
        proof {
            lemma_flat_take(r.nodes@, lvm_entry_of(*r), i as int);
        }
        let node = &r.nodes[i];
        if node.is_on_lvm() {
            let line = write_lvm_entry(r, node);
            add_line(&mut out, line.as_str());
            assert(views(out@) =~= before + seq![line@]);
        } else {
            assert(views(out@) =~= before + Seq::<Seq<char>>::empty());
        }
        i += 1;
    }
    assert(r.nodes@.take(i as int) =~= r.nodes@);
    out
}

fn write_plain_entry(r: &DrbdResource) -> (s: String)
    requires
        r.nodes.len() > 0,
    ensures
        s@ == "{ name: "@ + r.resource_name@ + ", port: "@ + decimal(r.nodes@[0].port as nat)
            + ", device: /dev/drbd"@ + decimal(r.minor as nat) + " }"@,
{
    let mut out = "{ name: ".to_owned();
    out.push_str(r.resource_name.as_str());
    out.push_str(", port: ");
    push_number(&mut out, r.nodes[0].port as u64);
    out.push_str(", device: /dev/drbd");
    push_number(&mut out, r.minor as u64);
    out.push_str(" }");
    out
}

fn write_packages_play(r: &DrbdResource, user: &str, key: &str) -> (s: String)
    requires
        r.nodes.len() > 0,
    ensures
        s@ == packages_play(*r, user@, key@),
{
    let fenced = same(r.disk_options.fencing.as_str(), "resource-only");
    let range = write_firewall_range(&r.nodes);
    let conf = generate_global_common_conf();
    let mut deploy = GLOBAL_CONF_HEAD.to_owned();
    deploy.push_str(wrap_slices(&lines(conf.as_str()), "          ", "\n").as_str());
    deploy.push_str(GLOBAL_CONF_TAIL);
    let mut out = "---\n# Deployment playbook for DRBD resource '".to_owned();
    out.push_str(r.resource_name.as_str());
    out.push_str(PACKAGES_HEAD);
    out.push_str(user);
    out.push_str(KEY_VAR);
    out.push_str(key);
    out.push_str(PACKAGES_TASKS);
    out.push_str(range.as_str());
    out.push_str(FIREWALL_PORT);
    out.push_str(range.as_str());
    out.push_str(FIREWALL_TAIL);
    push_when(&mut out, fenced, deploy.as_str());
    out.push_str(HANDLERS);
    push_when(&mut out, fenced, ADJUST_HANDLER);
    out
}

fn write_resource_play(r: &DrbdResource, user: &str, key: &str) -> (s: String)
    requires
        r.nodes.len() > 0,
    ensures
        s@ == resource_play(*r, user@, key@),
{
    let name = r.resource_name.as_str();
    let first = r.nodes[0].hostname.as_str();
    let res = generate_res_file(r);
    let mut entries = write_lvm_entries(r);
    let has_lvm = entries.len() > 0;
    if !has_lvm {
        let entry = write_plain_entry(r);
        proof {
            lemma_views_push(entries@, entry);
            assert(views(entries@.push(entry)) =~= seq![entry@]);
        }
        entries.push(entry);
    }
    let mut out = VOLUMES_HEAD.to_owned();
    out.push_str(user);
    out.push_str(KEY_VAR);
    out.push_str(key);
    out.push_str("\n    drbd_resources:\n");
    out.push_str(wrap_all(&entries, "      - ", "\n").as_str());
    out.push_str("  tasks:\n");
    push_when(&mut out, has_lvm, LVOL_TASK);
    out.push_str(RES_COPY);
    out.push_str(name);
    out.push_str(RES_CONTENT);
    out.push_str(wrap_slices(&lines(res.as_str()), "          ", "\n").as_str());
    out.push_str(STATUS_TASK);
    out.push_str(name);
    out.push_str(DUMP_TASK);
    out.push_str(name);
    out.push_str(CREATE_TASK);
    out.push_str(name);
    out.push_str(UP_TASK);
    out.push_str(name);
    out.push_str(PRIMARY_TASK);
    out.push_str(first);
    out.push_str(PRIMARY_COMMAND);
    out.push_str(name);
    out.push_str("\"\n      when: inventory_hostname == \"");
    out.push_str(first);
    out.push_str(SYNC_TASK);
    out.push_str(name);
    out.push_str(SYNC_TAIL);
    out
}

/// The playbook that installs DRBD, makes the volumes and brings the resource up. The
/// handlers that fencing needs are deployed where the resource is fenced by them.
pub fn generate_ansible_playbook(resource: &DrbdResource, inventory: &AnsibleInventory) -> (r:
    String)
    requires
        resource.nodes.len() > 0,
    ensures
        r@ == drbd_playbook_text(*resource, *inventory),
{
    let user = inventory.ansible_user.as_str();
    let key = inventory.ansible_ssh_private_key_file.as_str();
    let mut out = write_packages_play(resource, user, key);
    out.push_str(write_resource_play(resource, user, key).as_str());
    out
}

/// The list of resources that the playbook loops over is never empty: it has one item for
/// each node with a volume group, or one item where no node has one.
pub proof fn law_resource_entries(r: DrbdResource)
    ensures
        resource_entries(r).len() > 0,
        lvm_entries(r).len() == lvm_count(r.nodes@),
        resource_entries(r).len() == if lvm_count(r.nodes@) > 0 {
            lvm_count(r.nodes@)
        } else {
            1
        },
{
    lemma_lvm_count(r, r.nodes@);
}

/// The number of nodes with a volume group.
pub open spec fn lvm_count(nodes: Seq<DrbdNode>) -> nat
    decreases nodes.len(),
{
    if nodes.len() == 0 {
        0
    } else {
        lvm_count(nodes.drop_last()) + if nodes.last().on_lvm() {
            1nat
        } else {
            0nat
        }
    }
}

proof fn lemma_lvm_count(r: DrbdResource, nodes: Seq<DrbdNode>)
    ensures
        flat(nodes, lvm_entry_of(r)).len() == lvm_count(nodes),
    decreases nodes.len(),
{
    if nodes.len() > 0 {
        lemma_lvm_count(r, nodes.drop_last());
    }
}

/// The firewall range covers the port of every node, and both its ends are ports of nodes.
pub proof fn law_firewall_range_covers_ports(nodes: Seq<DrbdNode>)
    requires
        nodes.len() > 0,
    ensures
        forall|i: int|
            0 <= i < nodes.len() ==> min_port(nodes) <= (#[trigger] nodes[i]).port && nodes[i].port
                <= max_port(nodes),
        exists|i: int| 0 <= i < nodes.len() && (#[trigger] nodes[i]).port == min_port(nodes),
        exists|i: int| 0 <= i < nodes.len() && (#[trigger] nodes[i]).port == max_port(nodes),
    decreases nodes.len(),
{
    if nodes.len() > 1 {
        let front = nodes.drop_last();
        law_firewall_range_covers_ports(front);
        assert forall|i: int| 0 <= i < nodes.len() implies min_port(nodes) <= (
        #[trigger] nodes[i]).port && nodes[i].port <= max_port(nodes) by {
            if i < front.len() {
                assert(front[i] == nodes[i]);
            }
        }
        let a = choose|i: int| 0 <= i < front.len() && (#[trigger] front[i]).port == min_port(front);
        let b = choose|i: int| 0 <= i < front.len() && (#[trigger] front[i]).port == max_port(front);
        assert(nodes[a] == front[a]);
        assert(nodes[b] == front[b]);
        assert(nodes[nodes.len() - 1] == nodes.last());
    } else {
        assert(nodes[0].port == min_port(nodes));
        assert(nodes[0].port == max_port(nodes));
    }
}

// ---------------------------------------------------------------------------
// The commands
// ---------------------------------------------------------------------------

pub open spec fn create_md_of(r: DrbdResource) -> spec_fn(DrbdNode) -> Seq<Seq<char>> {
    |n: DrbdNode| seq!["# ["@ + n.hostname@ + "] drbdadm create-md "@ + r.resource_name@]
}

pub open spec fn enable_of() -> spec_fn(DrbdNode) -> Seq<Seq<char>> {
    |n: DrbdNode| seq!["# ["@ + n.hostname@ + "] systemctl enable --now drbd"@]
}

/// The commands that initialise the resource by hand.
pub open spec fn init_commands(r: DrbdResource) -> Seq<Seq<char>> {
    seq!["# Run on every node: initialize the DRBD metadata"@] + flat(r.nodes@, create_md_of(r))
        + seq!["# Run on every node: start the DRBD service"@] + flat(r.nodes@, enable_of())
        + seq!["# Force the initial sync from the first node"@] + if r.nodes@.len() > 0 {
        seq![
            "# ["@ + r.nodes@[0].hostname@ + "] drbdadm -- --overwrite-data-of-peer primary "@
                + r.resource_name@,
        ]
    } else {
        Seq::empty()
    }
}

/// The commands that initialise the resource by hand, as comments for each node.
pub fn generate_drbd_init_commands(resource: &DrbdResource) -> (r: Vec<String>)
    ensures
        views(r@) == init_commands(*resource),
{
    let nodes = &resource.nodes;
    let mut cmds: Vec<String> = Vec::new();
    add_line(&mut cmds, "# Run on every node: initialize the DRBD metadata");
    let ghost s1 = views(cmds@);
    assert(s1 =~= seq!["# Run on every node: initialize the DRBD metadata"@]);
    assert(s1 + flat(nodes@.take(0), create_md_of(*resource)) =~= s1);
    let mut i: usize = 0;
    while i < nodes.len()
        invariant
            nodes@ == resource.nodes@,
            i <= nodes.len(),
            views(cmds@) == s1 + flat(nodes@.take(i as int), create_md_of(*resource)),
        decreases nodes.len() - i,
    {
        proof {
            lemma_flat_take(nodes@, create_md_of(*resource), i as int);
        }
        let mut line = "# [".to_owned();
        line.push_str(nodes[i].hostname.as_str());
        line.push_str("] drbdadm create-md ");
        line.push_str(resource.resource_name.as_str());
        add_line(&mut cmds, line.as_str());
        i += 1;
        assert(views(cmds@) =~= s1 + flat(nodes@.take(i as int), create_md_of(*resource)));
    }
    add_line(&mut cmds, "# Run on every node: start the DRBD service");
    assert(nodes@.take(i as int) =~= nodes@);
    let ghost s2 = views(cmds@);
    assert(s2 =~= s1 + flat(nodes@, create_md_of(*resource)) + seq![
        "# Run on every node: start the DRBD service"@,
    ]);
    assert(s2 + flat(nodes@.take(0), enable_of()) =~= s2);
    i = 0;
    while i < nodes.len()
        invariant
            nodes@ == resource.nodes@,
            i <= nodes.len(),
            views(cmds@) == s2 + flat(nodes@.take(i as int), enable_of()),
        decreases nodes.len() - i,
    {
        proof {
            lemma_flat_take(nodes@, enable_of(), i as int);
        }
        add_line(
            &mut cmds,
            wrap("# [", nodes[i].hostname.as_str(), "] systemctl enable --now drbd").as_str(),
        );
        i += 1;
        assert(views(cmds@) =~= s2 + flat(nodes@.take(i as int), enable_of()));
    }
    assert(nodes@.take(i as int) =~= nodes@);
    add_line(&mut cmds, "# Force the initial sync from the first node");
    let ghost s3 = views(cmds@);
    assert(s3 =~= s2 + flat(nodes@, enable_of()) + seq![
        "# Force the initial sync from the first node"@,
    ]);
    if nodes.len() > 0 {
        let mut line = "# [".to_owned();
        line.push_str(nodes[0].hostname.as_str());
        line.push_str("] drbdadm -- --overwrite-data-of-peer primary ");
        line.push_str(resource.resource_name.as_str());
        add_line(&mut cmds, line.as_str());
    }
    assert(views(cmds@) =~= init_commands(*resource));
    cmds
}

/// Where the resource has nodes, the last command forces the initial synchronisation on the
/// first node, the one with the identifier 0, and no other command does. Before it stand,
/// below their headings, one command for each node that makes its metadata and then one for
/// each that starts the service.
pub proof fn law_the_first_node_is_synchronised_from(r: DrbdResource)
    ensures
        ({
            let v = init_commands(r);
            let n = r.nodes@.len() as int;
            &&& v.len() == if n > 0 {
                2 * n + 4
            } else {
                3
            }
            &&& n > 0 ==> v.last() == "# ["@ + r.nodes@[0].hostname@
                + "] drbdadm -- --overwrite-data-of-peer primary "@ + r.resource_name@
            &&& forall|i: int|
                0 <= i < n ==> v[i + 1] == "# ["@ + (#[trigger] r.nodes@[i]).hostname@
                    + "] drbdadm create-md "@ + r.resource_name@
            &&& forall|i: int|
                0 <= i < n ==> v[n + 2 + i] == "# ["@ + (#[trigger] r.nodes@[i]).hostname@
                    + "] systemctl enable --now drbd"@
            &&& v[0] == "# Run on every node: initialize the DRBD metadata"@
            &&& v[n + 1] == "# Run on every node: start the DRBD service"@
            &&& v[2 * n + 2] == "# Force the initial sync from the first node"@
        }),
{
    lemma_one_each(r.nodes@, create_md_of(r));
    lemma_one_each(r.nodes@, enable_of());
}

proof fn lemma_one_each<T, U>(v: Seq<T>, f: spec_fn(T) -> Seq<U>)
    requires
        forall|x: T| (#[trigger] f(x)).len() == 1,
    ensures
        flat(v, f).len() == v.len(),
        forall|i: int| 0 <= i < v.len() ==> #[trigger] flat(v, f)[i] == f(v[i])[0],
        forall|i: int| 0 <= i < v.len() ==> flat(v, f)[i] == f(#[trigger] v[i])[0],
    decreases v.len(),
{
    if v.len() > 0 {
        lemma_one_each(v.drop_last(), f);
        assert(f(v.last()).len() == 1);
        assert forall|i: int| 0 <= i < v.len() implies #[trigger] flat(v, f)[i] == f(v[i])[0] by {
            if i < v.len() - 1 {
                assert(flat(v, f)[i] == flat(v.drop_last(), f)[i]);
                assert(v.drop_last()[i] == v[i]);
            }
        }
    }
}

/// The resource file has, for the node at each position, a section with that position as its
/// identifier, the device of the resource, and the disk, address and metadata of the node.
pub proof fn law_each_node_has_its_section(r: DrbdResource, i: int)
    requires
        0 <= i < r.nodes@.len(),
    ensures
        ({
            let n = r.nodes@[i];
            holds_lines(
                res_text(r),
                seq![
                    "    on "@ + n.hostname@ + " {"@,
                    "        node-id   "@ + decimal(i as nat) + ";"@,
                    "        device    /dev/drbd"@ + decimal(r.minor as nat) + ";"@,
                    "        disk      "@ + (if n.disk_type@ == "lvm"@ && n.lvm_vg@.len() > 0 {
                        "/dev/"@ + n.lvm_vg@ + "/"@ + r.resource_name@
                    } else {
                        n.disk_device@
                    }) + ";"@,
                    "        address   "@ + n.ip@ + ":"@ + decimal(n.port as nat) + ";"@,
                    "        meta-disk "@ + n.meta_disk@ + ";"@,
                    "    }"@,
                ],
            )
        }),
{
    let before = head_lines(r) + split_brain_lines(r.net_options) + seq![
        "    }"@,
        ""@,
        "    # node-id values are assigned 0, 1, 2 ... in inventory order."@,
    ];
    let q = lemma_flat_indexed_parts(r.nodes@, node_lines(r), i);
    let section = node_lines(r)(i, r.nodes@[i]);
    let after = q.1 + mesh_lines(r.nodes@) + seq!["}"@];
    assert(res_lines(r) =~= (before + q.0) + section + after);
    lemma_holds_lines(before + q.0, section, after);
}

/// The resource file has the sections of the resource: it asks for a majority, waits as long
/// as it is told to, takes a value for failed disks that DRBD accepts, and fences as it is
/// told to. Two nodes and more are connected with each other, in their order.
pub proof fn law_resource_files_hold_the_options(r: DrbdResource)
    ensures
        ({
            let text = res_text(r);
            &&& ("resource "@ + r.resource_name@ + " {\n"@).is_prefix_of(text)
            &&& holds_lines(text, seq!["    protocol "@ + r.protocol@ + ";"@])
            &&& holds_lines(
                text,
                seq![
                    "    options {"@,
                    "        quorum majority;"@,
                    "        on-no-quorum io-error;"@,
                    "    }"@,
                ],
            )
            &&& holds_lines(
                text,
                seq![
                    "    startup {"@,
                    "        wfc-timeout      "@ + decimal(r.startup_options.wfc_timeout as nat)
                        + ";"@,
                    "        degr-wfc-timeout "@ + decimal(
                        r.startup_options.degr_wfc_timeout as nat,
                    ) + ";"@,
                    "    }"@,
                ],
            )
            &&& holds_lines(
                text,
                seq![
                    "    disk {"@,
                    "        on-io-error "@ + (if trimmed(r.disk_options.on_io_error@)
                        == "pass_on"@ || trimmed(r.disk_options.on_io_error@) == "passthrough"@ {
                        "pass_on"@
                    } else if trimmed(r.disk_options.on_io_error@) == "call-local-io-error"@
                        || trimmed(r.disk_options.on_io_error@) == "panic"@ {
                        "call-local-io-error"@
                    } else {
                        "detach"@
                    }) + ";"@,
                    "    }"@,
                ],
            )
            &&& holds_lines(
                text,
                seq![
                    "    net {"@,
                    "        fencing "@ + r.disk_options.fencing@ + ";"@,
                    "        max-buffers 8000;"@,
                    "        max-epoch-size 8000;"@,
                ],
            )
            &&& r.net_options.allow_two_primaries ==> holds_lines(
                text,
                seq![
                    "        allow-two-primaries yes;"@,
                    "        after-sb-0pri "@ + r.net_options.after_sb_0pri@ + ";"@,
                ],
            )
            &&& !r.net_options.allow_two_primaries ==> holds_lines(
                text,
                seq![
                    "        max-epoch-size 8000;"@,
                    "        after-sb-0pri "@ + r.net_options.after_sb_0pri@ + ";"@,
                ],
            )
            &&& r.net_options.allow_two_primaries || r.net_options.after_sb_2pri@ != "disconnect"@
                ==> holds_lines(
                text,
                seq!["        after-sb-2pri "@ + r.net_options.after_sb_2pri@ + ";"@, "    }"@],
            )
            &&& r.nodes@.len() >= 2 ==> holds_lines(
                text,
                seq![
                    ""@,
                    "    connection-mesh {"@,
                    "        hosts "@ + joined(
                        Seq::new(r.nodes@.len(), |i: int| r.nodes@[i].hostname@),
                        " "@,
                    ) + " ;"@,
                    "    }"@,
                    "}"@,
                ],
            )
        }),
{
    let text = res_text(r);
    let all = res_lines(r);
    let head = head_lines(r);
    let net = split_brain_lines(r.net_options);
    assert(all.len() >= 24);
    assert(forall|k: int| 0 <= k < 21 ==> #[trigger] all[k] == head[k]);
    assert(("resource "@ + r.resource_name@ + " {\n"@).is_prefix_of(text)) by {
        reveal_strlit("");
        reveal_strlit("\n");
        reveal_strlit(" {");
        reveal_strlit(" {\n");
        let line = "resource "@ + r.resource_name@ + " {"@;
        lemma_wrapped_sum(all.take(1), all.skip(1), ""@, "\n"@);
        assert(all =~= all.take(1) + all.skip(1));
        assert(all.take(1) =~= seq![line]);
        assert(seq![line].drop_last() =~= Seq::<Seq<char>>::empty());
        reveal_with_fuel(wrapped, 2);
        assert(wrapped(seq![line], ""@, "\n"@) =~= "resource "@ + r.resource_name@ + " {\n"@);
        let w = wrapped(seq![line], ""@, "\n"@);
        assert(text.take(w.len() as int) =~= w);
    }
    assert forall|a: int, b: int| 0 <= a <= b <= all.len() implies holds_lines(
        text,
        #[trigger] all.subrange(a, b),
    ) by {
        assert(all =~= all.take(a) + all.subrange(a, b) + all.skip(b));
        lemma_holds_lines(all.take(a), all.subrange(a, b), all.skip(b));
    }
    assert(all.subrange(1, 2) =~= seq![head[1]]);
    assert(all.subrange(3, 7) =~= seq![head[3], head[4], head[5], head[6]]);
    assert(all.subrange(8, 12) =~= seq![head[8], head[9], head[10], head[11]]);
    assert(all.subrange(13, 16) =~= seq![head[13], head[14], head[15]]);
    assert(all.subrange(17, 21) =~= seq![head[17], head[18], head[19], head[20]]);
    let n = net.len() as int;
    assert(forall|k: int| 0 <= k < n ==> all[21 + k] == #[trigger] net[k]);
    assert(all[21 + n] == "    }"@);
    if r.net_options.allow_two_primaries {
        assert(all.subrange(21, 23) =~= seq![net[0], net[1]]);
    } else {
        assert(all.subrange(20, 22) =~= seq![head[20], net[0]]);
    }
    if r.net_options.allow_two_primaries || r.net_options.after_sb_2pri@ != "disconnect"@ {
        assert(all.subrange(20 + n, 22 + n) =~= seq![net[n - 1], "    }"@]);
    }
    if r.nodes@.len() >= 2 {
        let m = all.len() as int;
        let mesh = mesh_lines(r.nodes@);
        assert(hostnames(r.nodes@) =~= Seq::new(
            r.nodes@.len(),
            |i: int| r.nodes@[i].hostname@,
        ));
        assert(all.subrange(m - 5, m) =~= mesh + seq!["}"@]);
        assert(mesh + seq!["}"@] =~= seq![
            ""@,
            "    connection-mesh {"@,
            "        hosts "@ + joined(hostnames(r.nodes@), " "@) + " ;"@,
            "    }"@,
            "}"@,
        ]);
    }
}

/// The texts of the tasks, cut where commands start and end.
proof fn lemma_task_parts()
    ensures
        RES_COPY@ == "    - name: Deploy the DRBD resource file (.res)\n      ansible.builtin.copy:\n        "@ + "dest: /etc/drbd.d/"@,
        RES_CONTENT@ == ".res\n        content: |\n"@,
        CREATE_TASK@ == "\"\n      register: check_md\n      failed_when: false\n      changed_when: false\n\n    - name: Create the DRBD metadata (only when missing)\n      ansible.builtin.command:\n        "@ + "cmd: \"drbdadm create-md "@,
        UP_TASK@ == "\"\n      when:\n        - check_md.rc != 0\n        - check_status.rc != 0\n"@ + "\n    - name: Bring the DRBD resource up\n      ansible.builtin.command:\n        "@ + "cmd: \"drbdadm up "@,
        PRIMARY_TASK@ == "\"\n"@ + "      register: up_result\n      changed_when: \"'already' not in up_result.stderr and up_result.rc == 0\"\n      failed_when: \"up_result.rc != 0 and 'already' not in up_result.stderr\"\n\n    - name: Force the initial Primary on the first node ("@,
        PRIMARY_COMMAND@ == ") only\n      ansible.builtin.command:\n        "@ + "cmd: \"drbdadm primary --force "@,
        SYNC_TASK@ == "\"\n"@ + "      register: primary_result\n      changed_when: primary_result.rc == 0\n      failed_when:\n        - primary_result.rc != 0\n        - \"'already' not in primary_result.stderr\"\n\n    - name: Check the synchronization state\n      ansible.builtin.command:\n        cmd: \"drbdadm status "@,
{
    assert(RES_COPY@ == "    - name: Deploy the DRBD resource file (.res)\n      ansible.builtin.copy:\n        "@ + "dest: /etc/drbd.d/"@) by {
        reveal_strlit("    - name: Deploy the DRBD resource file (.res)\n      ansible.builtin.copy:\n        dest: /etc/drbd.d/");
        reveal_strlit("    - name: Deploy the DRBD resource file (.res)\n      ansible.builtin.copy:\n        ");
        reveal_strlit("dest: /etc/drbd.d/");
        assert(RES_COPY@ =~= "    - name: Deploy the DRBD resource file (.res)\n      ansible.builtin.copy:\n        "@ + "dest: /etc/drbd.d/"@);
    }
    assert(CREATE_TASK@ == "\"\n      register: check_md\n      failed_when: false\n      changed_when: false\n\n    - name: Create the DRBD metadata (only when missing)\n      ansible.builtin.command:\n        "@ + "cmd: \"drbdadm create-md "@) by {
        reveal_strlit("\"\n      register: check_md\n      failed_when: false\n      changed_when: false\n\n    - name: Create the DRBD metadata (only when missing)\n      ansible.builtin.command:\n        cmd: \"drbdadm create-md ");
        reveal_strlit("\"\n      register: check_md\n      failed_when: false\n      changed_when: false\n\n    - name: Create the DRBD metadata (only when missing)\n      ansible.builtin.command:\n        ");
        reveal_strlit("cmd: \"drbdadm create-md ");
        assert(CREATE_TASK@ =~= "\"\n      register: check_md\n      failed_when: false\n      changed_when: false\n\n    - name: Create the DRBD metadata (only when missing)\n      ansible.builtin.command:\n        "@ + "cmd: \"drbdadm create-md "@);
    }
    assert(UP_TASK@ == "\"\n      when:\n        - check_md.rc != 0\n        - check_status.rc != 0\n"@ + "\n    - name: Bring the DRBD resource up\n      ansible.builtin.command:\n        "@ + "cmd: \"drbdadm up "@) by {
        reveal_strlit("\"\n      when:\n        - check_md.rc != 0\n        - check_status.rc != 0\n\n    - name: Bring the DRBD resource up\n      ansible.builtin.command:\n        cmd: \"drbdadm up ");
        reveal_strlit("\"\n      when:\n        - check_md.rc != 0\n        - check_status.rc != 0\n");
        reveal_strlit("\n    - name: Bring the DRBD resource up\n      ansible.builtin.command:\n        ");
        reveal_strlit("cmd: \"drbdadm up ");
        assert(UP_TASK@ =~= "\"\n      when:\n        - check_md.rc != 0\n        - check_status.rc != 0\n"@ + "\n    - name: Bring the DRBD resource up\n      ansible.builtin.command:\n        "@ + "cmd: \"drbdadm up "@);
    }
    assert(PRIMARY_TASK@ == "\"\n"@ + "      register: up_result\n      changed_when: \"'already' not in up_result.stderr and up_result.rc == 0\"\n      failed_when: \"up_result.rc != 0 and 'already' not in up_result.stderr\"\n\n    - name: Force the initial Primary on the first node ("@) by {
        reveal_strlit("\"\n      register: up_result\n      changed_when: \"'already' not in up_result.stderr and up_result.rc == 0\"\n      failed_when: \"up_result.rc != 0 and 'already' not in up_result.stderr\"\n\n    - name: Force the initial Primary on the first node (");
        reveal_strlit("\"\n");
        reveal_strlit("      register: up_result\n      changed_when: \"'already' not in up_result.stderr and up_result.rc == 0\"\n      failed_when: \"up_result.rc != 0 and 'already' not in up_result.stderr\"\n\n    - name: Force the initial Primary on the first node (");
        assert(PRIMARY_TASK@ =~= "\"\n"@ + "      register: up_result\n      changed_when: \"'already' not in up_result.stderr and up_result.rc == 0\"\n      failed_when: \"up_result.rc != 0 and 'already' not in up_result.stderr\"\n\n    - name: Force the initial Primary on the first node ("@);
    }
    assert(PRIMARY_COMMAND@ == ") only\n      ansible.builtin.command:\n        "@ + "cmd: \"drbdadm primary --force "@) by {
        reveal_strlit(") only\n      ansible.builtin.command:\n        cmd: \"drbdadm primary --force ");
        reveal_strlit(") only\n      ansible.builtin.command:\n        ");
        reveal_strlit("cmd: \"drbdadm primary --force ");
        assert(PRIMARY_COMMAND@ =~= ") only\n      ansible.builtin.command:\n        "@ + "cmd: \"drbdadm primary --force "@);
    }
    assert(SYNC_TASK@ == "\"\n"@ + "      register: primary_result\n      changed_when: primary_result.rc == 0\n      failed_when:\n        - primary_result.rc != 0\n        - \"'already' not in primary_result.stderr\"\n\n    - name: Check the synchronization state\n      ansible.builtin.command:\n        cmd: \"drbdadm status "@) by {
        reveal_strlit("\"\n      register: primary_result\n      changed_when: primary_result.rc == 0\n      failed_when:\n        - primary_result.rc != 0\n        - \"'already' not in primary_result.stderr\"\n\n    - name: Check the synchronization state\n      ansible.builtin.command:\n        cmd: \"drbdadm status ");
        reveal_strlit("\"\n");
        reveal_strlit("      register: primary_result\n      changed_when: primary_result.rc == 0\n      failed_when:\n        - primary_result.rc != 0\n        - \"'already' not in primary_result.stderr\"\n\n    - name: Check the synchronization state\n      ansible.builtin.command:\n        cmd: \"drbdadm status ");
        assert(SYNC_TASK@ =~= "\"\n"@ + "      register: primary_result\n      changed_when: primary_result.rc == 0\n      failed_when:\n        - primary_result.rc != 0\n        - \"'already' not in primary_result.stderr\"\n\n    - name: Check the synchronization state\n      ansible.builtin.command:\n        cmd: \"drbdadm status "@);
    }
}

/// The playbook deploys the resource file, makes metadata only where there is none and the
/// device is down, brings the resource up and forces it primary on the first node alone, in
/// this order.
pub proof fn law_the_playbook_promotes_the_first_node(r: DrbdResource, inventory: AnsibleInventory)
    requires
        r.nodes@.len() > 0,
    ensures
        ({
            let text = drbd_playbook_text(r, inventory);
            let name = r.resource_name@;
            let file = "dest: /etc/drbd.d/"@ + name + ".res\n        content: |\n"@ + wrapped(
                lines_of(res_text(r)),
                "          "@,
                "\n"@,
            );
            let create = "cmd: \"drbdadm create-md "@ + name
                + "\"\n      when:\n        - check_md.rc != 0\n        - check_status.rc != 0\n"@;
            let up = "cmd: \"drbdadm up "@ + name + "\"\n"@;
            let primary = "cmd: \"drbdadm primary --force "@ + name
                + "\"\n      when: inventory_hostname == \""@ + r.nodes@[0].hostname@ + "\"\n"@;
            &&& stands_before(text, file, create)
            &&& stands_before(text, create, up)
            &&& stands_before(text, up, primary)
        }),
{
    let name = r.resource_name@;
    let host = r.nodes@[0].hostname@;
    let user = inventory.ansible_user@;
    let key = inventory.ansible_ssh_private_key_file@;
    let body = wrapped(lines_of(res_text(r)), "          "@, "\n"@);
    lemma_task_parts();
    let a0 = VOLUMES_HEAD@ + user + KEY_VAR@ + key + "\n    drbd_resources:\n"@ + wrapped(
        resource_entries(r),
        "      - "@,
        "\n"@,
    ) + "  tasks:\n"@ + given(lvm_entries(r).len() > 0, LVOL_TASK@);
    let when = "\"\n      when: inventory_hostname == \""@;
    let v0 = seq![a0];
    lemma_parts_one(a0);
    let v1 = v0.push("    - name: Deploy the DRBD resource file (.res)\n      ansible.builtin.copy:\n        "@).push("dest: /etc/drbd.d/"@);
    lemma_parts_push_two(v0, "    - name: Deploy the DRBD resource file (.res)\n      ansible.builtin.copy:\n        "@, "dest: /etc/drbd.d/"@);
    let v2 = v1.push(name);
    lemma_parts_push(v1, name);
    let v3 = v2.push(RES_CONTENT@);
    lemma_parts_push(v2, RES_CONTENT@);
    let v4 = v3.push(body);
    lemma_parts_push(v3, body);
    let v5 = v4.push(STATUS_TASK@);
    lemma_parts_push(v4, STATUS_TASK@);
    let v6 = v5.push(name);
    lemma_parts_push(v5, name);
    let v7 = v6.push(DUMP_TASK@);
    lemma_parts_push(v6, DUMP_TASK@);
    let v8 = v7.push(name);
    lemma_parts_push(v7, name);
    let v9 = v8.push("\"\n      register: check_md\n      failed_when: false\n      changed_when: false\n\n    - name: Create the DRBD metadata (only when missing)\n      ansible.builtin.command:\n        "@).push("cmd: \"drbdadm create-md "@);
    lemma_parts_push_two(v8, "\"\n      register: check_md\n      failed_when: false\n      changed_when: false\n\n    - name: Create the DRBD metadata (only when missing)\n      ansible.builtin.command:\n        "@, "cmd: \"drbdadm create-md "@);
    let v10 = v9.push(name);
    lemma_parts_push(v9, name);
    let v11 = v10.push("\"\n      when:\n        - check_md.rc != 0\n        - check_status.rc != 0\n"@).push("\n    - name: Bring the DRBD resource up\n      ansible.builtin.command:\n        "@);
    lemma_parts_push_two(v10, "\"\n      when:\n        - check_md.rc != 0\n        - check_status.rc != 0\n"@, "\n    - name: Bring the DRBD resource up\n      ansible.builtin.command:\n        "@);
    let v12 = v11.push("cmd: \"drbdadm up "@);
    lemma_parts_push(v11, "cmd: \"drbdadm up "@);
    lemma_regrouped(of_parts(v10), "\"\n      when:\n        - check_md.rc != 0\n        - check_status.rc != 0\n"@ + "\n    - name: Bring the DRBD resource up\n      ansible.builtin.command:\n        "@, "cmd: \"drbdadm up "@);
    let v13 = v12.push(name);
    lemma_parts_push(v12, name);
    let v14 = v13.push("\"\n"@).push("      register: up_result\n      changed_when: \"'already' not in up_result.stderr and up_result.rc == 0\"\n      failed_when: \"up_result.rc != 0 and 'already' not in up_result.stderr\"\n\n    - name: Force the initial Primary on the first node ("@);
    lemma_parts_push_two(v13, "\"\n"@, "      register: up_result\n      changed_when: \"'already' not in up_result.stderr and up_result.rc == 0\"\n      failed_when: \"up_result.rc != 0 and 'already' not in up_result.stderr\"\n\n    - name: Force the initial Primary on the first node ("@);
    let v15 = v14.push(host);
    lemma_parts_push(v14, host);
    let v16 = v15.push(") only\n      ansible.builtin.command:\n        "@).push("cmd: \"drbdadm primary --force "@);
    lemma_parts_push_two(v15, ") only\n      ansible.builtin.command:\n        "@, "cmd: \"drbdadm primary --force "@);
    let v17 = v16.push(name);
    lemma_parts_push(v16, name);
    let v18 = v17.push(when);
    lemma_parts_push(v17, when);
    let v19 = v18.push(host);
    lemma_parts_push(v18, host);
    let v20 = v19.push("\"\n"@).push("      register: primary_result\n      changed_when: primary_result.rc == 0\n      failed_when:\n        - primary_result.rc != 0\n        - \"'already' not in primary_result.stderr\"\n\n    - name: Check the synchronization state\n      ansible.builtin.command:\n        cmd: \"drbdadm status "@);
    lemma_parts_push_two(v19, "\"\n"@, "      register: primary_result\n      changed_when: primary_result.rc == 0\n      failed_when:\n        - primary_result.rc != 0\n        - \"'already' not in primary_result.stderr\"\n\n    - name: Check the synchronization state\n      ansible.builtin.command:\n        cmd: \"drbdadm status "@);
    let v21 = v20.push(name);
    lemma_parts_push(v20, name);
    let v22 = v21.push(SYNC_TAIL@);
    lemma_parts_push(v21, SYNC_TAIL@);
    let parts = v22;
    assert(of_parts(parts) == resource_play(r, user, key));
    lemma_parts_before(parts, 2, 6, 11, 14);
    lemma_parts_before(parts, 11, 14, 15, 18);
    lemma_parts_before(parts, 15, 18, 21, 26);
    let last = parts.subrange(21, 26);
    lemma_command_parts(
        parts.subrange(2, 6),
        parts.subrange(11, 14),
        parts.subrange(15, 18),
        last,
    );
    let text = drbd_playbook_text(r, inventory);
    let packages = packages_play(r, user, key);
    let play = resource_play(r, user, key);
    let none = Seq::<char>::empty();
    assert(packages + play + none =~= text);
    let file = of_parts(parts.subrange(2, 6));
    let create = of_parts(parts.subrange(11, 14));
    let up = of_parts(parts.subrange(15, 18));
    let primary = of_parts(last);
    lemma_before_in_part(packages, play, none, file, create);
    lemma_before_in_part(packages, play, none, create, up);
    lemma_before_in_part(packages, play, none, up, primary);
}

proof fn lemma_command_parts(
    file: Seq<Seq<char>>,
    create: Seq<Seq<char>>,
    up: Seq<Seq<char>>,
    primary: Seq<Seq<char>>,
)
    requires
        file.len() == 4,
        create.len() == 3,
        up.len() == 3,
        primary.len() == 5,
    ensures
        of_parts(file) == file[0] + file[1] + file[2] + file[3],
        of_parts(create) == create[0] + create[1] + create[2],
        of_parts(up) == up[0] + up[1] + up[2],
        of_parts(primary) == primary[0] + primary[1] + primary[2] + primary[3] + primary[4],
{
    lemma_parts_three(file[0], file[1], file[2]);
    lemma_parts_push(seq![file[0], file[1], file[2]], file[3]);
    assert(file =~= seq![file[0], file[1], file[2]].push(file[3]));
    lemma_parts_three(create[0], create[1], create[2]);
    assert(create =~= seq![create[0], create[1], create[2]]);
    lemma_parts_three(up[0], up[1], up[2]);
    assert(up =~= seq![up[0], up[1], up[2]]);
    let three = seq![primary[0], primary[1], primary[2]];
    lemma_parts_three(primary[0], primary[1], primary[2]);
    lemma_parts_push(three, primary[3]);
    lemma_parts_push(three.push(primary[3]), primary[4]);
    assert(primary =~= three.push(primary[3]).push(primary[4]));
}

proof fn lemma_volume_task()
    ensures
        LVOL_TASK@ == "    - name: 1. Create the LVM logical volumes\n      community.general.lvol:\n"@ + "        vg: \"{{ item.vg }}\"\n        lv: \"{{ item.lv_name }}\"\n        size: \"{{ item.size }}\"\n      loop: \"{{ drbd_resources }}\"\n      # Each node only creates an LV in its own VG --\n      # without this guard, lvol fails on another node's VG name.\n      when: item.host == inventory_hostname\n"@ + "      loop_control:\n        label: \"{{ item.host }}:{{ item.vg }}/{{ item.lv_name }}\"\n\n"@,
{
    reveal_strlit("    - name: 1. Create the LVM logical volumes\n      community.general.lvol:\n        vg: \"{{ item.vg }}\"\n        lv: \"{{ item.lv_name }}\"\n        size: \"{{ item.size }}\"\n      loop: \"{{ drbd_resources }}\"\n      # Each node only creates an LV in its own VG --\n      # without this guard, lvol fails on another node's VG name.\n      when: item.host == inventory_hostname\n      loop_control:\n        label: \"{{ item.host }}:{{ item.vg }}/{{ item.lv_name }}\"\n\n");
    reveal_strlit("    - name: 1. Create the LVM logical volumes\n      community.general.lvol:\n");
    reveal_strlit("        vg: \"{{ item.vg }}\"\n        lv: \"{{ item.lv_name }}\"\n        size: \"{{ item.size }}\"\n      loop: \"{{ drbd_resources }}\"\n      # Each node only creates an LV in its own VG --\n      # without this guard, lvol fails on another node's VG name.\n      when: item.host == inventory_hostname\n");
    reveal_strlit("      loop_control:\n        label: \"{{ item.host }}:{{ item.vg }}/{{ item.lv_name }}\"\n\n");
    assert(LVOL_TASK@ =~= "    - name: 1. Create the LVM logical volumes\n      community.general.lvol:\n"@ + "        vg: \"{{ item.vg }}\"\n        lv: \"{{ item.lv_name }}\"\n        size: \"{{ item.size }}\"\n      loop: \"{{ drbd_resources }}\"\n      # Each node only creates an LV in its own VG --\n      # without this guard, lvol fails on another node's VG name.\n      when: item.host == inventory_hostname\n"@ + "      loop_control:\n        label: \"{{ item.host }}:{{ item.vg }}/{{ item.lv_name }}\"\n\n"@);
}

proof fn lemma_shown_volume(r: DrbdResource, n: DrbdNode)
    ensures
        "      - "@ + lvm_entry(r, n) + "\n"@ == "      - { host: "@ + n.hostname@ + ", name: "@ + r.resource_name@ + ", lv_name: "@
        + r.resource_name@ + ", vg: "@ + n.lvm_vg@ + ", size: "@ + (if n.lvm_size@.len() == 0 {
        "10G"@
    } else {
        n.lvm_size@
    }) + ", port: "@ + decimal(n.port as nat) + ", device: /dev/drbd"@ + decimal(r.minor as nat)
        + " }\n"@,
{
    let entry = lvm_entry(r, n);
    let line = "      - "@ + entry + "\n"@;
    let shown = "      - { host: "@ + n.hostname@ + ", name: "@ + r.resource_name@ + ", lv_name: "@
        + r.resource_name@ + ", vg: "@ + n.lvm_vg@ + ", size: "@ + (if n.lvm_size@.len() == 0 {
        "10G"@
    } else {
        n.lvm_size@
    }) + ", port: "@ + decimal(n.port as nat) + ", device: /dev/drbd"@ + decimal(r.minor as nat)
        + " }\n"@;
    reveal_strlit("      - ");
    reveal_strlit("\n");
    reveal_strlit(" }");
    reveal_strlit(" }\n");
    reveal_strlit("{ host: ");
    reveal_strlit("      - { host: ");
    let mid = n.hostname@ + ", name: "@ + r.resource_name@ + ", lv_name: "@ + r.resource_name@
        + ", vg: "@ + n.lvm_vg@ + ", size: "@ + (if n.lvm_size@.len() == 0 {
        "10G"@
    } else {
        n.lvm_size@
    }) + ", port: "@ + decimal(n.port as nat) + ", device: /dev/drbd"@ + decimal(
        r.minor as nat,
    );
    assert(entry =~= "{ host: "@ + mid + " }"@);
    assert(shown =~= "      - { host: "@ + mid + " }\n"@);
    assert(line =~= shown);
}

/// Every node with a volume group gets a logical volume: the playbook lists it with its host,
/// group, size (10G where none is given), port and device, and has the task that makes it.
pub proof fn law_volumes_are_made_for_their_hosts(
    r: DrbdResource,
    inventory: AnsibleInventory,
    i: int,
)
    requires
        0 <= i < r.nodes@.len(),
        r.nodes@[i].disk_type@ == "lvm"@,
        r.nodes@[i].lvm_vg@.len() > 0,
    ensures
        ({
            let n = r.nodes@[i];
            let text = drbd_playbook_text(r, inventory);
            stands_before(
                text,
                "      - { host: "@ + n.hostname@ + ", name: "@ + r.resource_name@ + ", lv_name: "@
                    + r.resource_name@ + ", vg: "@ + n.lvm_vg@ + ", size: "@ + (if n.lvm_size@.len()
                    == 0 {
                    "10G"@
                } else {
                    n.lvm_size@
                }) + ", port: "@ + decimal(n.port as nat) + ", device: /dev/drbd"@ + decimal(
                    r.minor as nat,
                ) + " }\n"@,
                "        vg: \"{{ item.vg }}\"\n        lv: \"{{ item.lv_name }}\"\n        size: \"{{ item.size }}\"\n      loop: \"{{ drbd_resources }}\"\n      # Each node only creates an LV in its own VG --\n      # without this guard, lvol fails on another node's VG name.\n      when: item.host == inventory_hostname\n"@,
            )
        }),
{
    let n = r.nodes@[i];
    let user = inventory.ansible_user@;
    let key = inventory.ansible_ssh_private_key_file@;
    let text = drbd_playbook_text(r, inventory);
    let entry = lvm_entry(r, n);
    let line = "      - "@ + entry + "\n"@;
    let shown = "      - { host: "@ + n.hostname@ + ", name: "@ + r.resource_name@ + ", lv_name: "@
        + r.resource_name@ + ", vg: "@ + n.lvm_vg@ + ", size: "@ + (if n.lvm_size@.len() == 0 {
        "10G"@
    } else {
        n.lvm_size@
    }) + ", port: "@ + decimal(n.port as nat) + ", device: /dev/drbd"@ + decimal(r.minor as nat)
        + " }\n"@;
    lemma_shown_volume(r, n);
    let entries = lvm_entries(r);
    let q = lemma_flat_parts(r.nodes@, lvm_entry_of(r), i);
    let at = q.0.len() as int;
    assert(entries[at] == entry);
    assert(entries.len() > 0);
    let list = wrapped(entries, "      - "@, "\n"@);
    lemma_wrapped_contains(entries, "      - "@, "\n"@, at);
    let task = "        vg: \"{{ item.vg }}\"\n        lv: \"{{ item.lv_name }}\"\n        size: \"{{ item.size }}\"\n      loop: \"{{ drbd_resources }}\"\n      # Each node only creates an LV in its own VG --\n      # without this guard, lvol fails on another node's VG name.\n      when: item.host == inventory_hostname\n"@;
    let t0 = "    - name: 1. Create the LVM logical volumes\n      community.general.lvol:\n"@;
    let t2 = "      loop_control:\n        label: \"{{ item.host }}:{{ item.vg }}/{{ item.lv_name }}\"\n\n"@;
    lemma_volume_task();
    lemma_contains_middle(t0, task, t2);
    let a = packages_play(r, user, key) + (VOLUMES_HEAD@ + user + KEY_VAR@ + key
        + "\n    drbd_resources:\n"@);
    let b = "  tasks:\n"@ + LVOL_TASK@;
    lemma_contains_sum("  tasks:\n"@, LVOL_TASK@, task);
    lemma_before_in_sum(list, b, line, task);
    let name = r.resource_name@;
    let c = RES_COPY@ + name + RES_CONTENT@ + wrapped(lines_of(res_text(r)), "          "@, "\n"@)
        + STATUS_TASK@ + name + DUMP_TASK@ + name + CREATE_TASK@ + name + UP_TASK@ + name
        + PRIMARY_TASK@ + r.nodes@[0].hostname@ + PRIMARY_COMMAND@ + name
        + "\"\n      when: inventory_hostname == \""@ + r.nodes@[0].hostname@ + SYNC_TASK@ + name
        + SYNC_TAIL@;
    lemma_before_in_part(a, list + b, c, line, task);
    assert(text == a + (list + b) + c) by {
        lemma_tail_regrouped(r, a, list + b, user, key);
    }
}

/// The play of a resource is what leads up to the task that copies its file, and the rest.
proof fn lemma_tail_regrouped(
    r: DrbdResource,
    a: Seq<char>,
    mid: Seq<char>,
    user: Seq<char>,
    key: Seq<char>,
)
    requires
        lvm_entries(r).len() > 0,
        a == packages_play(r, user, key) + (VOLUMES_HEAD@ + user + KEY_VAR@ + key
            + "\n    drbd_resources:\n"@),
        mid == wrapped(lvm_entries(r), "      - "@, "\n"@) + ("  tasks:\n"@ + LVOL_TASK@),
    ensures
        ({
            let name = r.resource_name@;
            packages_play(r, user, key) + resource_play(r, user, key) == a + mid + (RES_COPY@ + name
                + RES_CONTENT@ + wrapped(lines_of(res_text(r)), "          "@, "\n"@) + STATUS_TASK@
                + name + DUMP_TASK@ + name + CREATE_TASK@ + name + UP_TASK@ + name + PRIMARY_TASK@
                + r.nodes@[0].hostname@ + PRIMARY_COMMAND@ + name
                + "\"\n      when: inventory_hostname == \""@ + r.nodes@[0].hostname@ + SYNC_TASK@
                + name + SYNC_TAIL@)
        }),
{
    let name = r.resource_name@;
    let host = r.nodes@[0].hostname@;
    let body = wrapped(lines_of(res_text(r)), "          "@, "\n"@);
    let h = VOLUMES_HEAD@ + user + KEY_VAR@ + key + "\n    drbd_resources:\n"@;
    let list = wrapped(lvm_entries(r), "      - "@, "\n"@);
    let when = "\"\n      when: inventory_hostname == \""@;
    let base = h + list + "  tasks:\n"@ + LVOL_TASK@;
    let p0 = packages_play(r, user, key);
    assert(p0 + base =~= a + mid);
    let x1 = RES_COPY@ + name;
    let x2 = x1 + RES_CONTENT@;
    let x3 = x2 + body;
    let x4 = x3 + STATUS_TASK@;
    let x5 = x4 + name;
    let x6 = x5 + DUMP_TASK@;
    let x7 = x6 + name;
    let x8 = x7 + CREATE_TASK@;
    let x9 = x8 + name;
    let x10 = x9 + UP_TASK@;
    let x11 = x10 + name;
    let x12 = x11 + PRIMARY_TASK@;
    let x13 = x12 + host;
    let x14 = x13 + PRIMARY_COMMAND@;
    let x15 = x14 + name;
    let x16 = x15 + when;
    let x17 = x16 + host;
    let x18 = x17 + SYNC_TASK@;
    let x19 = x18 + name;
    lemma_regrouped(base, RES_COPY@, name);
    lemma_regrouped(base, x1, RES_CONTENT@);
    lemma_regrouped(base, x2, body);
    lemma_regrouped(base, x3, STATUS_TASK@);
    lemma_regrouped(base, x4, name);
    lemma_regrouped(base, x5, DUMP_TASK@);
    lemma_regrouped(base, x6, name);
    lemma_regrouped(base, x7, CREATE_TASK@);
    lemma_regrouped(base, x8, name);
    lemma_regrouped(base, x9, UP_TASK@);
    lemma_regrouped(base, x10, name);
    lemma_regrouped(base, x11, PRIMARY_TASK@);
    lemma_regrouped(base, x12, host);
    lemma_regrouped(base, x13, PRIMARY_COMMAND@);
    lemma_regrouped(base, x14, name);
    lemma_regrouped(base, x15, when);
    lemma_regrouped(base, x16, host);
    lemma_regrouped(base, x17, SYNC_TASK@);
    lemma_regrouped(base, x18, name);
    lemma_regrouped(base, x19, SYNC_TAIL@);
    let c = x19 + SYNC_TAIL@;
    assert(resource_play(r, user, key) == base + c);
    lemma_regrouped(p0, base, c);
}

} // verus!
