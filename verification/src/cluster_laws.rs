//! What the scripts and playbooks of a cluster create, and in which order.

use crate::generators::pacemaker::{
    CIB_HEAD, CIB_TAIL, COLOCATION_TITLE, CONSTRAINTS_REMOVAL, DRBD_REMOVAL, DRBD_TITLE,
    FS_REMOVAL, FS_TITLE, GROUPS_REMOVAL, GROUP_TITLE, LOCATION_TITLE, MAINTENANCE_HEAD,
    MAINTENANCE_NODES, MAINTENANCE_STEPS, ORDER_TITLE, PCS_DONE, PCS_HEAD, STONITH_REMOVAL,
    STONITH_TITLE, SYSTEMD_REMOVAL, SYSTEMD_TITLE, TEARDOWN_DONE, TEARDOWN_HEAD, cib_xml,
    clone_count, colocation_part, colocation_removal, constraint_removal, constraints_removal,
    drbd_part, drbd_removal, drbd_xml, fence_warning, fs_part, fs_removal, fs_xml, group_part,
    group_removal, group_xml, guarded_constraint, guarded_resource, in_some_group,
    lemma_section_contains, location_part, location_removal, maintenance_script, node_names,
    order_part, order_removal, pcs_script, resource_removal, section, stonith_part,
    stonith_removal, systemd_part, systemd_removal, systemd_xml, teardown_script,
};
use crate::generators::pacemaker_cmds::{
    colocation_cmd, drbd_cmds, fs_cmds, shell_quoted, stonith_cmds, stonith_id, stonith_name,
    systemd_cmds, yaml_double_quoted, yaml_single_quoted,
};
use crate::generators::pacemaker_playbook::{
    GROUP_TAIL, RUN_ONCE, colocation_pattern, colocation_task, constraint_task, drbd_task, fs_task,
    group_task, law_playbook_guards_constraints, law_playbook_guards_resources,
    lemma_task_in_playbook, location_task, order_task, pacemaker_playbook, resource_task,
    systemd_task,
};
use crate::lines::{flat, joined, wrapped};
use crate::models::pacemaker::{
    ColocationConstraint, DrbdPacemakerResource, FsResource, LocationConstraint, OrderConstraint,
    PacemakerConfig, ResourceGroup, StonithDevice, SystemdResource,
};
use crate::number::{decimal, flag};
use crate::occurs::{
    lemma_before_in_part, lemma_before_in_sum, lemma_contains_at, lemma_contains_middle,
    lemma_contains_self, lemma_contains_sum, lemma_contains_trans, lemma_flat_contains,
    lemma_parts_before, lemma_parts_one, lemma_parts_push, lemma_parts_stand, lemma_parts_sum,
    lemma_regrouped, of_parts, stands_before,
};
use crate::text::{contains_text, given, has_text, occurs_at, trimmed, views};
use vstd::prelude::*;
use vstd::string::*;

verus! {

// ---------------------------------------------------------------------------
// The commands
// ---------------------------------------------------------------------------

/// The command that creates the fencing device of a node.
pub open spec fn fencing_lines(d: StonithDevice) -> Seq<Seq<char>> {
    seq![
        "pcs stonith create "@ + ("stonith-ipmi-"@ + stonith_id(d.node@)) + " fence_ipmilan \\"@,
        "    pcmk_host_list="@ + shell_quoted(d.node@) + " \\"@,
        "    ip="@ + shell_quoted(d.ipmi_ip@) + " user="@ + shell_quoted(d.ipmi_user@)
            + " password="@ + shell_quoted(d.ipmi_password@) + " \\"@,
        "    "@
            + "lanplus=1 power_wait=5 pcmk_reboot_timeout=300 pcmk_monitor_timeout=60 pcmk_reboot_action=reboot"@
            + wrapped(views(d.extra_opts@), " "@, ""@),
    ]
}

/// The commands that create a DRBD resource and its promotable clone, which has one promoted
/// copy and one copy on each node, three where the nodes are not known; and that let it prefer
/// a node, where one is named.
pub open spec fn clone_lines(c: PacemakerConfig, d: DrbdPacemakerResource) -> Seq<Seq<char>> {
    let name = d.resource_name@;
    let nodes: nat = c.cluster.nodes@.len();
    seq![
        "pcs resource create "@ + name + " ocf:linbit:drbd \\"@,
        "    drbd_resource="@ + d.drbd_resource_name@ + " \\"@,
        "    op demote  interval=0s timeout="@ + d.demote_timeout@ + " \\"@,
        if trimmed(d.on_fail@).len() > 0 {
            "    op monitor interval="@ + d.monitor_interval_promoted@ + " role=Promoted"@ + (
            " on-fail="@ + trimmed(d.on_fail@)) + " \\"@
        } else {
            "    op monitor interval="@ + d.monitor_interval_promoted@ + " role=Promoted"@ + " \\"@
        },
        "    op monitor interval="@ + d.monitor_interval_unpromoted@ + " role=Unpromoted \\"@,
        "    op notify  interval=0s timeout=90s \\"@,
        "    op promote interval=0s timeout="@ + d.promote_timeout@ + " \\"@,
        "    op reload  interval=0s timeout=30s \\"@,
        "    op start   interval=0s timeout="@ + d.start_timeout@ + " \\"@,
        "    op stop    interval=0s timeout="@ + d.stop_timeout@,
        "pcs resource promotable "@ + name + " \\"@,
        "    promoted-max=1 promoted-node-max=1 \\"@,
        "    clone-max="@ + decimal(
            if nodes == 0 {
                3
            } else {
                nodes
            },
        ) + " clone-node-max=1 \\"@,
        "    notify="@ + (if d.notify {
            "true"@
        } else {
            "false"@
        }) + " \\"@,
        "    id="@ + d.clone_name@,
    ] + (if d.target_role_master_node is Some {
        seq![
            "pcs constraint location "@ + d.clone_name@ + " prefers "@
                + d.target_role_master_node->0@ + "=200"@,
        ]
    } else {
        Seq::empty()
    })
}

/// The command that creates a file system.
pub open spec fn mount_lines(f: FsResource) -> Seq<Seq<char>> {
    seq![
        "pcs resource create "@ + f.resource_name@ + " ocf:heartbeat:Filesystem \\"@,
        "    device="@ + f.device@ + " \\"@,
        "    directory="@ + f.directory@ + " \\"@,
        "    fstype="@ + f.fstype@ + " \\"@,
        "    op monitor interval="@ + f.monitor_interval@ + " \\"@,
        "    op start  timeout="@ + f.start_timeout@ + " \\"@,
        "    op stop   timeout="@ + f.stop_timeout@,
    ]
}

/// The commands that create a service, and its clone where it is cloned under a name.
pub open spec fn service_lines(s: SystemdResource) -> Seq<Seq<char>> {
    seq![
        "pcs resource create "@ + s.resource_name@ + " systemd:"@ + s.systemd_unit@ + " \\"@,
        "    op monitor interval="@ + s.monitor_interval@ + " \\"@,
        "    op start timeout="@ + s.start_timeout@ + " \\"@,
        "    op stop timeout="@ + s.stop_timeout@,
    ] + (if s.clone && s.clone_name is Some {
        seq!["pcs resource clone "@ + s.resource_name@ + " id="@ + s.clone_name->0@]
    } else {
        Seq::empty()
    })
}

/// The command that puts the members of a group into it, in their order.
pub open spec fn member_command(g: ResourceGroup) -> Seq<char> {
    "pcs resource group add "@ + g.group_name@ + " "@ + joined(views(g.members@), " "@)
}

/// The command that lets one resource follow another.
pub open spec fn following_command(o: OrderConstraint) -> Seq<char> {
    "pcs constraint order "@ + o.first_action@ + " "@ + o.first@ + " then "@ + o.then_action@ + " "@
        + o.then_rsc@ + " kind="@ + o.kind@ + " id="@ + o.id@
}

/// The command that keeps one resource with another; a role stands before the resource that
/// has it.
pub open spec fn keeping_command(k: ColocationConstraint) -> Seq<char> {
    "pcs constraint colocation add "@ + (if k.rsc_role is Some {
        k.rsc_role->0@ + " "@
    } else {
        Seq::empty()
    }) + k.rsc@ + " with "@ + (if k.with_rsc_role is Some {
        k.with_rsc_role->0@ + " "@
    } else {
        Seq::empty()
    }) + k.with_rsc@ + " score="@ + k.score@ + " id="@ + k.id@
}

/// The command that lets a resource prefer a node.
pub open spec fn preferring_command(l: LocationConstraint) -> Seq<char> {
    "pcs constraint location "@ + l.rsc@ + " prefers "@ + l.node@ + "="@ + l.score@ + " id="@ + l.id@
}

/// A command that runs where no resource has the identifier.
pub open spec fn unless_resource(id: Seq<char>, lines: Seq<Seq<char>>) -> Seq<char> {
    "if ! pcs resource config "@ + shell_quoted(id) + " >/dev/null 2>&1; then\n"@ + wrapped(
        lines,
        "  "@,
        "\n"@,
    ) + "else\n"@
}

/// A command that runs where no constraint has the identifier.
pub open spec fn unless_constraint(id: Seq<char>, command: Seq<char>) -> Seq<char> {
    "if ! pcs constraint --full 2>/dev/null | grep -q \"(id: "@ + id + ")\"; then\n  "@ + command
        + "\nelse\n"@
}

// ---------------------------------------------------------------------------
// What the script creates
// ---------------------------------------------------------------------------

/// The kinds of what a cluster has, in the order in which they depend on each other.
pub enum Kind {
    Fencing,
    Clone,
    Mount,
    Service,
    Group,
    Order,
    Colocation,
    Location,
}

/// The place of a kind among the others.
pub open spec fn rank(kind: Kind) -> int {
    match kind {
        Kind::Fencing => 0,
        Kind::Clone => 1,
        Kind::Mount => 2,
        Kind::Service => 3,
        Kind::Group => 4,
        Kind::Order => 5,
        Kind::Colocation => 6,
        Kind::Location => 7,
    }
}

/// How many a cluster has of a kind.
pub open spec fn count_of_kind(c: PacemakerConfig, kind: Kind) -> nat {
    match kind {
        Kind::Fencing => c.stonith_devices@.len(),
        Kind::Clone => c.drbd_resources@.len(),
        Kind::Mount => c.fs_resources@.len(),
        Kind::Service => c.systemd_resources@.len(),
        Kind::Group => c.resource_groups@.len(),
        Kind::Order => c.order_constraints@.len(),
        Kind::Colocation => c.colocation_constraints@.len(),
        Kind::Location => c.location_constraints@.len(),
    }
}

/// What creates the item of a kind: behind a test that there is none yet, but for groups, to
/// which members can be added again.
pub open spec fn creation(c: PacemakerConfig, kind: Kind, i: int) -> Seq<char> {
    match kind {
        Kind::Fencing => unless_resource(
            "stonith-ipmi-"@ + stonith_id(c.stonith_devices@[i].node@),
            fencing_lines(c.stonith_devices@[i]),
        ),
        Kind::Clone => unless_resource(
            c.drbd_resources@[i].resource_name@,
            clone_lines(c, c.drbd_resources@[i]),
        ),
        Kind::Mount => unless_resource(
            c.fs_resources@[i].resource_name@,
            mount_lines(c.fs_resources@[i]),
        ),
        Kind::Service => unless_resource(
            c.systemd_resources@[i].resource_name@,
            service_lines(c.systemd_resources@[i]),
        ),
        Kind::Group => member_command(c.resource_groups@[i]) + "\n"@,
        Kind::Order => unless_constraint(
            c.order_constraints@[i].id@,
            following_command(c.order_constraints@[i]),
        ),
        Kind::Colocation => unless_constraint(
            c.colocation_constraints@[i].id@,
            keeping_command(c.colocation_constraints@[i]),
        ),
        Kind::Location => unless_constraint(
            c.location_constraints@[i].id@,
            preferring_command(c.location_constraints@[i]),
        ),
    }
}

spec fn script_section(c: PacemakerConfig, kind: Kind) -> Seq<char> {
    match kind {
        Kind::Fencing => section(c.stonith_devices@, STONITH_TITLE@, stonith_part()),
        Kind::Clone => section(c.drbd_resources@, DRBD_TITLE@, drbd_part(clone_count(c))),
        Kind::Mount => section(c.fs_resources@, FS_TITLE@, fs_part()),
        Kind::Service => section(c.systemd_resources@, SYSTEMD_TITLE@, systemd_part()),
        Kind::Group => section(c.resource_groups@, GROUP_TITLE@, group_part()),
        Kind::Order => section(c.order_constraints@, ORDER_TITLE@, order_part()),
        Kind::Colocation => section(
            c.colocation_constraints@,
            COLOCATION_TITLE@,
            colocation_part(),
        ),
        Kind::Location => section(c.location_constraints@, LOCATION_TITLE@, location_part()),
    }
}

spec fn script_head(c: PacemakerConfig) -> Seq<char> {
    PCS_HEAD@ + flag(c.cluster.stonith_enabled) + "\npcs property set no-quorum-policy="@
        + c.cluster.no_quorum_policy@ + "\npcs resource defaults migration-threshold="@ + decimal(
        c.cluster.migration_threshold as nat,
    ) + "\npcs resource defaults failure-timeout="@ + c.cluster.failure_timeout@ + "\n\n"@
}

spec fn script_parts(c: PacemakerConfig) -> Seq<Seq<char>> {
    seq![
        script_head(c),
        script_section(c, Kind::Fencing),
        fence_warning(c),
        script_section(c, Kind::Clone),
        script_section(c, Kind::Mount),
        script_section(c, Kind::Service),
        script_section(c, Kind::Group),
        script_section(c, Kind::Order),
        script_section(c, Kind::Colocation),
        script_section(c, Kind::Location),
        PCS_DONE@,
    ]
}

/// Where the section of a kind stands among the parts of the script.
spec fn place_of_kind(kind: Kind) -> int {
    if rank(kind) == 0 {
        1
    } else {
        rank(kind) + 2
    }
}

#[verifier::rlimit(60)]
proof fn lemma_script_parts(c: PacemakerConfig)
    ensures
        of_parts(script_parts(c)) == pcs_script(c),
{
    let p = script_parts(c);
    let s0 = Seq::<Seq<char>>::empty();
    let s1 = s0.push(p[0]);
    let s2 = s1.push(p[1]);
    let s3 = s2.push(p[2]);
    let s4 = s3.push(p[3]);
    let s5 = s4.push(p[4]);
    let s6 = s5.push(p[5]);
    let s7 = s6.push(p[6]);
    let s8 = s7.push(p[7]);
    let s9 = s8.push(p[8]);
    let s10 = s9.push(p[9]);
    lemma_parts_push(s0, p[0]);
    lemma_parts_push(s1, p[1]);
    lemma_parts_push(s2, p[2]);
    lemma_parts_push(s3, p[3]);
    lemma_parts_push(s4, p[4]);
    lemma_parts_push(s5, p[5]);
    lemma_parts_push(s6, p[6]);
    lemma_parts_push(s7, p[7]);
    lemma_parts_push(s8, p[8]);
    lemma_parts_push(s9, p[9]);
    lemma_parts_push(s10, p[10]);
    assert(s10.push(p[10]) =~= p);
    assert(of_parts(s0) + p[0] =~= p[0]);
}

/// A test with its command stands at the head of the whole of it.
proof fn lemma_unless_resource(id: Seq<char>, lines: Seq<Seq<char>>)
    ensures
        contains_text(guarded_resource(id, lines), unless_resource(id, lines)),
{
    let a = "if ! pcs resource config "@ + shell_quoted(id) + " >/dev/null 2>&1; then\n"@ + wrapped(
        lines,
        "  "@,
        "\n"@,
    );
    assert("else\n  echo \"  - "@ =~= "else\n"@ + "  echo \"  - "@) by {
        reveal_strlit("else\n  echo \"  - ");
        reveal_strlit("else\n");
        reveal_strlit("  echo \"  - ");
    }
    lemma_regrouped(a, "else\n"@, "  echo \"  - "@);
    let t = unless_resource(id, lines);
    lemma_contains_self(t);
    lemma_contains_sum(t, "  echo \"  - "@, t);
    lemma_contains_sum(t + "  echo \"  - "@, id, t);
    lemma_contains_sum(
        t + "  echo \"  - "@ + id,
        " 는 이미 있어 건너뜁니다\"\nfi\n"@,
        t,
    );
}

proof fn lemma_unless_constraint(id: Seq<char>, command: Seq<char>)
    ensures
        contains_text(guarded_constraint(id, command), unless_constraint(id, command)),
{
    let a = "if ! pcs constraint --full 2>/dev/null | grep -q \"(id: "@ + id + ")\"; then\n  "@
        + command;
    let rest = "  echo \"  - 제약조건 "@;
    assert("\nelse\n  echo \"  - 제약조건 "@ =~= "\nelse\n"@ + rest) by {
        reveal_strlit("\nelse\n  echo \"  - 제약조건 ");
        reveal_strlit("\nelse\n");
        reveal_strlit("  echo \"  - 제약조건 ");
    }
    lemma_regrouped(a, "\nelse\n"@, rest);
    let t = unless_constraint(id, command);
    lemma_contains_self(t);
    lemma_contains_sum(t, rest, t);
    lemma_contains_sum(t + rest, id, t);
    lemma_contains_sum(t + rest + id, " 는 이미 있어 건너뜁니다\"\nfi\n"@, t);
}

proof fn lemma_commands(c: PacemakerConfig, d: DrbdPacemakerResource)
    ensures
        drbd_cmds(d, clone_count(c)) == clone_lines(c, d),
{
    let on_fail = trimmed(d.on_fail@);
    let front = "    op monitor interval="@ + d.monitor_interval_promoted@ + " role=Promoted"@;
    assert(front + Seq::<char>::empty() =~= front);
    assert(drbd_cmds(d, clone_count(c)) =~= clone_lines(c, d));
}

proof fn lemma_service_commands(s: SystemdResource)
    ensures
        systemd_cmds(s) == service_lines(s),
{
    assert(systemd_cmds(s) =~= service_lines(s));
}

/// The part of the script for an item.
spec fn script_item(c: PacemakerConfig, kind: Kind, i: int) -> Seq<char> {
    match kind {
        Kind::Fencing => stonith_part()(c.stonith_devices@[i]),
        Kind::Clone => drbd_part(clone_count(c))(c.drbd_resources@[i]),
        Kind::Mount => fs_part()(c.fs_resources@[i]),
        Kind::Service => systemd_part()(c.systemd_resources@[i]),
        Kind::Group => group_part()(c.resource_groups@[i]),
        Kind::Order => order_part()(c.order_constraints@[i]),
        Kind::Colocation => colocation_part()(c.colocation_constraints@[i]),
        Kind::Location => location_part()(c.location_constraints@[i]),
    }
}

#[verifier::rlimit(60)]
proof fn lemma_item_creates(c: PacemakerConfig, kind: Kind, i: int)
    requires
        0 <= i < count_of_kind(c, kind),
    ensures
        contains_text(script_item(c, kind, i), creation(c, kind, i)),
{
    match kind {
        Kind::Fencing => {
            let d = c.stonith_devices@[i];
            assert(stonith_cmds(d) =~= fencing_lines(d));
            lemma_unless_resource(stonith_name(d.node@), fencing_lines(d));
        },
        Kind::Clone => {
            let d = c.drbd_resources@[i];
            lemma_commands(c, d);
            lemma_unless_resource(d.resource_name@, clone_lines(c, d));
        },
        Kind::Mount => {
            let f = c.fs_resources@[i];
            assert(fs_cmds(f) =~= mount_lines(f));
            lemma_unless_resource(f.resource_name@, mount_lines(f));
        },
        Kind::Service => {
            let s = c.systemd_resources@[i];
            lemma_service_commands(s);
            lemma_unless_resource(s.resource_name@, service_lines(s));
        },
        Kind::Group => {
            lemma_contains_self(creation(c, kind, i));
        },
        Kind::Order => {
            let o = c.order_constraints@[i];
            lemma_unless_constraint(o.id@, following_command(o));
        },
        Kind::Colocation => {
            let k = c.colocation_constraints@[i];
            assert(colocation_cmd(k@) == keeping_command(k));
            lemma_unless_constraint(k.id@, keeping_command(k));
        },
        Kind::Location => {
            let l = c.location_constraints@[i];
            lemma_unless_constraint(l.id@, preferring_command(l));
        },
    }
}

/// What stands before an item of a list, and behind it.
proof fn lemma_flat_around<T, U>(v: Seq<T>, f: spec_fn(T) -> Seq<U>, j: int) -> (rest: Seq<U>)
    requires
        0 <= j < v.len(),
    ensures
        flat(v, f) == flat(v.take(j), f) + f(v[j]) + rest,
    decreases v.len(),
{
    if j == v.len() - 1 {
        assert(v.drop_last() =~= v.take(j));
        assert(flat(v, f) + Seq::<U>::empty() =~= flat(v, f));
        Seq::empty()
    } else {
        let front = v.drop_last();
        let rest = lemma_flat_around(front, f, j);
        assert(front.take(j) =~= v.take(j));
        assert(flat(v.take(j), f) + f(v[j]) + rest + f(v.last()) =~= flat(v.take(j), f) + f(v[j]) + (
        rest + f(v.last())));
        rest + f(v.last())
    }
}

/// Two items of a list stand in their order.
proof fn lemma_in_order<T>(v: Seq<T>, title: Seq<char>, f: spec_fn(T) -> Seq<char>, i: int, j: int)
    requires
        0 <= i < j < v.len(),
    ensures
        stands_before(section(v, title, f), f(v[i]), f(v[j])),
{
    let front = v.take(j);
    lemma_flat_contains(front, f, i);
    assert(front[i] == v[i]);
    let rest = lemma_flat_around(v, f, j);
    lemma_contains_self(f(v[j]));
    lemma_before_in_sum(flat(front, f), f(v[j]), f(v[i]), f(v[j]));
    lemma_before_in_part(title, flat(front, f) + f(v[j]), rest + "\n"@, f(v[i]), f(v[j]));
    assert(title + (flat(front, f) + f(v[j]) + rest) + "\n"@ =~= title + (flat(front, f) + f(v[j]))
        + (rest + "\n"@));
}

proof fn lemma_item_in_section(c: PacemakerConfig, kind: Kind, i: int)
    requires
        0 <= i < count_of_kind(c, kind),
    ensures
        contains_text(script_section(c, kind), script_item(c, kind, i)),
{
    match kind {
        Kind::Fencing => {
            lemma_section_contains(c.stonith_devices@, STONITH_TITLE@, stonith_part(), i);
        },
        Kind::Clone => {
            lemma_section_contains(c.drbd_resources@, DRBD_TITLE@, drbd_part(clone_count(c)), i);
        },
        Kind::Mount => {
            lemma_section_contains(c.fs_resources@, FS_TITLE@, fs_part(), i);
        },
        Kind::Service => {
            lemma_section_contains(c.systemd_resources@, SYSTEMD_TITLE@, systemd_part(), i);
        },
        Kind::Group => {
            lemma_section_contains(c.resource_groups@, GROUP_TITLE@, group_part(), i);
        },
        Kind::Order => {
            lemma_section_contains(c.order_constraints@, ORDER_TITLE@, order_part(), i);
        },
        Kind::Colocation => {
            lemma_section_contains(
                c.colocation_constraints@,
                COLOCATION_TITLE@,
                colocation_part(),
                i,
            );
        },
        Kind::Location => {
            lemma_section_contains(c.location_constraints@, LOCATION_TITLE@, location_part(), i);
        },
    }
}

proof fn lemma_items_in_order(c: PacemakerConfig, kind: Kind, i: int, j: int)
    requires
        0 <= i < j < count_of_kind(c, kind),
    ensures
        stands_before(
            script_section(c, kind),
            script_item(c, kind, i),
            script_item(c, kind, j),
        ),
{
    match kind {
        Kind::Fencing => {
            lemma_in_order(c.stonith_devices@, STONITH_TITLE@, stonith_part(), i, j);
        },
        Kind::Clone => {
            lemma_in_order(c.drbd_resources@, DRBD_TITLE@, drbd_part(clone_count(c)), i, j);
        },
        Kind::Mount => {
            lemma_in_order(c.fs_resources@, FS_TITLE@, fs_part(), i, j);
        },
        Kind::Service => {
            lemma_in_order(c.systemd_resources@, SYSTEMD_TITLE@, systemd_part(), i, j);
        },
        Kind::Group => {
            lemma_in_order(c.resource_groups@, GROUP_TITLE@, group_part(), i, j);
        },
        Kind::Order => {
            lemma_in_order(c.order_constraints@, ORDER_TITLE@, order_part(), i, j);
        },
        Kind::Colocation => {
            lemma_in_order(c.colocation_constraints@, COLOCATION_TITLE@, colocation_part(), i, j);
        },
        Kind::Location => {
            lemma_in_order(c.location_constraints@, LOCATION_TITLE@, location_part(), i, j);
        },
    }
}

/// What stands in two texts in an order holds their parts in that order.
proof fn lemma_parts_in_order(s: Seq<char>, p: Seq<char>, q: Seq<char>, x: Seq<char>, y: Seq<char>)
    requires
        stands_before(s, p, q),
        contains_text(p, x),
        contains_text(q, y),
    ensures
        stands_before(s, x, y),
{
    let k = choose|k: int|
        0 <= k <= s.len() && contains_text(#[trigger] s.take(k), p) && contains_text(s.skip(k), q);
    lemma_contains_trans(s.take(k), p, x);
    lemma_contains_trans(s.skip(k), q, y);
}

proof fn lemma_creation_in_section(c: PacemakerConfig, kind: Kind, i: int)
    requires
        0 <= i < count_of_kind(c, kind),
    ensures
        contains_text(script_section(c, kind), creation(c, kind, i)),
{
    lemma_item_in_section(c, kind, i);
    lemma_item_creates(c, kind, i);
    lemma_contains_trans(
        script_section(c, kind),
        script_item(c, kind, i),
        creation(c, kind, i),
    );
}

proof fn lemma_creations_in_order(c: PacemakerConfig, kind: Kind, i: int, j: int)
    requires
        0 <= i < j < count_of_kind(c, kind),
    ensures
        stands_before(script_section(c, kind), creation(c, kind, i), creation(c, kind, j)),
{
    lemma_items_in_order(c, kind, i, j);
    lemma_item_creates(c, kind, i);
    lemma_item_creates(c, kind, j);
    lemma_parts_in_order(
        script_section(c, kind),
        script_item(c, kind, i),
        script_item(c, kind, j),
        creation(c, kind, i),
        creation(c, kind, j),
    );
}

proof fn lemma_section_place(c: PacemakerConfig, kind: Kind)
    ensures
        script_parts(c).len() == 11,
        0 <= place_of_kind(kind) < 11,
        script_parts(c)[place_of_kind(kind)] == script_section(c, kind),
{
}

/// What stands in one of the parts of a text.
proof fn lemma_in_one_part(parts: Seq<Seq<char>>, a: int, x: Seq<char>)
    requires
        0 <= a < parts.len(),
        contains_text(parts[a], x),
    ensures
        contains_text(of_parts(parts), x),
{
    lemma_parts_one(parts[a]);
    assert(parts.subrange(a, a + 1) =~= seq![parts[a]]);
    lemma_parts_stand(parts, a, a + 1);
    lemma_contains_trans(of_parts(parts), parts[a], x);
}

/// What stands in two of the parts of a text.
proof fn lemma_in_two_parts(parts: Seq<Seq<char>>, a: int, b: int, x: Seq<char>, y: Seq<char>)
    requires
        0 <= a < b < parts.len(),
        contains_text(parts[a], x),
        contains_text(parts[b], y),
    ensures
        stands_before(of_parts(parts), x, y),
{
    lemma_parts_one(parts[a]);
    lemma_parts_one(parts[b]);
    assert(parts.subrange(a, a + 1) =~= seq![parts[a]]);
    assert(parts.subrange(b, b + 1) =~= seq![parts[b]]);
    lemma_parts_before(parts, a, a + 1, b, b + 1);
    lemma_parts_in_order(of_parts(parts), parts[a], parts[b], x, y);
}

/// What stands in order in one of the parts of a text.
proof fn lemma_in_order_in_part(parts: Seq<Seq<char>>, a: int, x: Seq<char>, y: Seq<char>)
    requires
        0 <= a < parts.len(),
        stands_before(parts[a], x, y),
    ensures
        stands_before(of_parts(parts), x, y),
{
    let front = parts.take(a);
    let back = parts.skip(a + 1);
    let one = seq![parts[a]];
    lemma_parts_one(parts[a]);
    lemma_parts_sum(front, one);
    lemma_parts_sum(front + one, back);
    assert(front + one + back =~= parts);
    lemma_before_in_part(of_parts(front), parts[a], of_parts(back), x, y);
}

/// The script creates all that the cluster has, each behind a test that it is not there yet.
/// What depends on another comes behind it: fencing first, then DRBD clones, file systems,
/// services, groups and the constraints; and of each kind, each in its place.
#[verifier::rlimit(60)]
pub proof fn law_script_creates_in_order(
    c: PacemakerConfig,
    kind: Kind,
    i: int,
    later: Kind,
    j: int,
)
    requires
        0 <= i < count_of_kind(c, kind),
        0 <= j < count_of_kind(c, later),
    ensures
        contains_text(pcs_script(c), creation(c, kind, i)),
        rank(kind) < rank(later) || kind == later && i < j ==> stands_before(
            pcs_script(c),
            creation(c, kind, i),
            creation(c, later, j),
        ),
{
    lemma_script_parts(c);
    lemma_section_place(c, kind);
    lemma_section_place(c, later);
    lemma_creation_in_section(c, kind, i);
    lemma_creation_in_section(c, later, j);
    let parts = script_parts(c);
    let a = place_of_kind(kind);
    let b = place_of_kind(later);
    lemma_in_one_part(parts, a, creation(c, kind, i));
    if rank(kind) < rank(later) {
        lemma_in_two_parts(parts, a, b, creation(c, kind, i), creation(c, later, j));
    } else if kind == later && i < j {
        lemma_creations_in_order(c, kind, i, j);
        lemma_in_order_in_part(parts, a, creation(c, kind, i), creation(c, later, j));
    }
}

// ---------------------------------------------------------------------------
// What the teardown removes
// ---------------------------------------------------------------------------

/// The deletion of a constraint, behind a test that it exists.
pub open spec fn if_constraint(id: Seq<char>) -> Seq<char> {
    "if pcs constraint --full 2>/dev/null | grep -q \"(id: "@ + id
        + ")\"; then\n  pcs constraint delete "@ + shell_quoted(id) + "\nelse\n"@
}

/// The deletion of a resource, behind a test that it exists.
pub open spec fn if_resource(id: Seq<char>) -> Seq<char> {
    "if pcs resource config "@ + shell_quoted(id)
        + " >/dev/null 2>&1; then\n  pcs resource delete "@ + shell_quoted(id) + "\nelse\n"@
}

/// What removes the item of a kind. A DRBD resource goes with its clone.
pub open spec fn removal(c: PacemakerConfig, kind: Kind, i: int) -> Seq<char> {
    match kind {
        Kind::Fencing => if_resource("stonith-ipmi-"@ + stonith_id(c.stonith_devices@[i].node@)),
        Kind::Clone => if_resource(c.drbd_resources@[i].clone_name@),
        Kind::Mount => if_resource(c.fs_resources@[i].resource_name@),
        Kind::Service => if_resource(c.systemd_resources@[i].resource_name@),
        Kind::Group => if_resource(c.resource_groups@[i].group_name@),
        Kind::Order => if_constraint(c.order_constraints@[i].id@),
        Kind::Colocation => if_constraint(c.colocation_constraints@[i].id@),
        Kind::Location => if_constraint(c.location_constraints@[i].id@),
    }
}

spec fn has_constraints(c: PacemakerConfig) -> bool {
    c.order_constraints@.len() > 0 || c.colocation_constraints@.len() > 0
        || c.location_constraints@.len() > 0
}

spec fn teardown_section(c: PacemakerConfig, kind: Kind) -> Seq<char> {
    match kind {
        Kind::Fencing => section(c.stonith_devices@, STONITH_REMOVAL@, stonith_removal()),
        Kind::Clone => section(c.drbd_resources@, DRBD_REMOVAL@, drbd_removal()),
        Kind::Mount => section(c.fs_resources@, FS_REMOVAL@, fs_removal()),
        Kind::Service => section(c.systemd_resources@, SYSTEMD_REMOVAL@, systemd_removal()),
        Kind::Group => section(c.resource_groups@, GROUPS_REMOVAL@, group_removal()),
        Kind::Order => flat(c.order_constraints@, order_removal()),
        Kind::Colocation => flat(c.colocation_constraints@, colocation_removal()),
        Kind::Location => flat(c.location_constraints@, location_removal()),
    }
}

spec fn teardown_parts(c: PacemakerConfig) -> Seq<Seq<char>> {
    seq![
        TEARDOWN_HEAD@,
        given(has_constraints(c), CONSTRAINTS_REMOVAL@),
        teardown_section(c, Kind::Location),
        teardown_section(c, Kind::Colocation),
        teardown_section(c, Kind::Order),
        given(has_constraints(c), "\n"@),
        teardown_section(c, Kind::Group),
        teardown_section(c, Kind::Service),
        teardown_section(c, Kind::Mount),
        teardown_section(c, Kind::Clone),
        teardown_section(c, Kind::Fencing),
        TEARDOWN_DONE@,
    ]
}

/// Where the section of a kind stands among the parts of the teardown.
spec fn teardown_place(kind: Kind) -> int {
    if rank(kind) >= 5 {
        9 - rank(kind)
    } else {
        10 - rank(kind)
    }
}

#[verifier::rlimit(60)]
proof fn lemma_teardown_parts(c: PacemakerConfig)
    ensures
        of_parts(teardown_parts(c)) == teardown_script(c),
{
    let p = teardown_parts(c);
    let s0 = Seq::<Seq<char>>::empty();
    let s1 = s0.push(p[0]);
    lemma_parts_push(s0, p[0]);
    let s2 = s1.push(p[1]);
    lemma_parts_push(s1, p[1]);
    let s3 = s2.push(p[2]);
    lemma_parts_push(s2, p[2]);
    let s4 = s3.push(p[3]);
    lemma_parts_push(s3, p[3]);
    let s5 = s4.push(p[4]);
    lemma_parts_push(s4, p[4]);
    let s6 = s5.push(p[5]);
    lemma_parts_push(s5, p[5]);
    let s7 = s6.push(p[6]);
    lemma_parts_push(s6, p[6]);
    let s8 = s7.push(p[7]);
    lemma_parts_push(s7, p[7]);
    let s9 = s8.push(p[8]);
    lemma_parts_push(s8, p[8]);
    let s10 = s9.push(p[9]);
    lemma_parts_push(s9, p[9]);
    let s11 = s10.push(p[10]);
    lemma_parts_push(s10, p[10]);
    let s12 = s11.push(p[11]);
    lemma_parts_push(s11, p[11]);
    assert(s12 =~= p);
    assert(of_parts(s0) + p[0] =~= p[0]);
    let head = TEARDOWN_HEAD@;
    if has_constraints(c) {
        assert(head + (p[1] + p[2] + p[3] + p[4] + p[5]) =~= head + p[1] + p[2] + p[3] + p[4]
            + p[5]);
    } else {
        assert(head + Seq::<char>::empty() =~= head);
    }
    assert(head + constraints_removal(c) == of_parts(s6));
}

proof fn lemma_if_constraint(id: Seq<char>)
    ensures
        contains_text(constraint_removal(id), if_constraint(id)),
{
    let a = "if pcs constraint --full 2>/dev/null | grep -q \"(id: "@ + id
        + ")\"; then\n  pcs constraint delete "@ + shell_quoted(id);
    let rest = "  echo \"  - 제약조건 "@;
    assert("\nelse\n  echo \"  - 제약조건 "@ =~= "\nelse\n"@ + rest) by {
        reveal_strlit("\nelse\n  echo \"  - 제약조건 ");
        reveal_strlit("\nelse\n");
        reveal_strlit("  echo \"  - 제약조건 ");
    }
    lemma_regrouped(a, "\nelse\n"@, rest);
    let t = if_constraint(id);
    lemma_contains_self(t);
    lemma_contains_sum(t, rest, t);
    lemma_contains_sum(t + rest, id, t);
    lemma_contains_sum(t + rest + id, " 없음 (건너뜀)\"\nfi\n"@, t);
}

proof fn lemma_if_resource(id: Seq<char>)
    ensures
        contains_text(resource_removal(id), if_resource(id)),
{
    let a = "if pcs resource config "@ + shell_quoted(id)
        + " >/dev/null 2>&1; then\n  pcs resource delete "@ + shell_quoted(id);
    let rest = "  echo \"  - 리소스 "@;
    assert("\nelse\n  echo \"  - 리소스 "@ =~= "\nelse\n"@ + rest) by {
        reveal_strlit("\nelse\n  echo \"  - 리소스 ");
        reveal_strlit("\nelse\n");
        reveal_strlit("  echo \"  - 리소스 ");
    }
    lemma_regrouped(a, "\nelse\n"@, rest);
    let t = if_resource(id);
    lemma_contains_self(t);
    lemma_contains_sum(t, rest, t);
    lemma_contains_sum(t + rest, id, t);
    lemma_contains_sum(t + rest + id, " 없음 (건너뜀)\"\nfi\n"@, t);
}

/// The part of the teardown for an item.
spec fn teardown_item(c: PacemakerConfig, kind: Kind, i: int) -> Seq<char> {
    match kind {
        Kind::Fencing => resource_removal(stonith_name(c.stonith_devices@[i].node@)),
        Kind::Clone => resource_removal(c.drbd_resources@[i].clone_name@),
        Kind::Mount => resource_removal(c.fs_resources@[i].resource_name@),
        Kind::Service => resource_removal(c.systemd_resources@[i].resource_name@),
        Kind::Group => resource_removal(c.resource_groups@[i].group_name@),
        Kind::Order => constraint_removal(c.order_constraints@[i].id@),
        Kind::Colocation => constraint_removal(c.colocation_constraints@[i].id@),
        Kind::Location => constraint_removal(c.location_constraints@[i].id@),
    }
}

proof fn lemma_item_removes(c: PacemakerConfig, kind: Kind, i: int)
    ensures
        contains_text(teardown_item(c, kind, i), removal(c, kind, i)),
{
    match kind {
        Kind::Fencing => lemma_if_resource(stonith_name(c.stonith_devices@[i].node@)),
        Kind::Clone => lemma_if_resource(c.drbd_resources@[i].clone_name@),
        Kind::Mount => lemma_if_resource(c.fs_resources@[i].resource_name@),
        Kind::Service => lemma_if_resource(c.systemd_resources@[i].resource_name@),
        Kind::Group => lemma_if_resource(c.resource_groups@[i].group_name@),
        Kind::Order => lemma_if_constraint(c.order_constraints@[i].id@),
        Kind::Colocation => lemma_if_constraint(c.colocation_constraints@[i].id@),
        Kind::Location => lemma_if_constraint(c.location_constraints@[i].id@),
    }
}

/// Two items of a bare list stand in their order.
proof fn lemma_in_list_order<T>(v: Seq<T>, f: spec_fn(T) -> Seq<char>, i: int, j: int)
    requires
        0 <= i < j < v.len(),
    ensures
        stands_before(flat(v, f), f(v[i]), f(v[j])),
{
    let front = v.take(j);
    lemma_flat_contains(front, f, i);
    assert(front[i] == v[i]);
    let rest = lemma_flat_around(v, f, j);
    lemma_contains_self(f(v[j]));
    lemma_before_in_sum(flat(front, f), f(v[j]), f(v[i]), f(v[j]));
    let none = Seq::<char>::empty();
    lemma_before_in_part(none, flat(front, f) + f(v[j]), rest, f(v[i]), f(v[j]));
    assert(none + (flat(front, f) + f(v[j])) + rest =~= flat(v, f));
}

proof fn lemma_removal_in_section(c: PacemakerConfig, kind: Kind, i: int)
    requires
        0 <= i < count_of_kind(c, kind),
    ensures
        contains_text(teardown_section(c, kind), teardown_item(c, kind, i)),
{
    match kind {
        Kind::Fencing => lemma_section_contains(c.stonith_devices@, STONITH_REMOVAL@, stonith_removal(), i),
        Kind::Clone => lemma_section_contains(c.drbd_resources@, DRBD_REMOVAL@, drbd_removal(), i),
        Kind::Mount => lemma_section_contains(c.fs_resources@, FS_REMOVAL@, fs_removal(), i),
        Kind::Service => lemma_section_contains(c.systemd_resources@, SYSTEMD_REMOVAL@, systemd_removal(), i),
        Kind::Group => lemma_section_contains(c.resource_groups@, GROUPS_REMOVAL@, group_removal(), i),
        Kind::Order => lemma_flat_contains(c.order_constraints@, order_removal(), i),
        Kind::Colocation => lemma_flat_contains(c.colocation_constraints@, colocation_removal(), i),
        Kind::Location => lemma_flat_contains(c.location_constraints@, location_removal(), i),
    }
}

proof fn lemma_removals_in_order(c: PacemakerConfig, kind: Kind, i: int, j: int)
    requires
        0 <= i < j < count_of_kind(c, kind),
    ensures
        stands_before(
            teardown_section(c, kind),
            teardown_item(c, kind, i),
            teardown_item(c, kind, j),
        ),
{
    match kind {
        Kind::Fencing => lemma_in_order(c.stonith_devices@, STONITH_REMOVAL@, stonith_removal(), i, j),
        Kind::Clone => lemma_in_order(c.drbd_resources@, DRBD_REMOVAL@, drbd_removal(), i, j),
        Kind::Mount => lemma_in_order(c.fs_resources@, FS_REMOVAL@, fs_removal(), i, j),
        Kind::Service => lemma_in_order(c.systemd_resources@, SYSTEMD_REMOVAL@, systemd_removal(), i, j),
        Kind::Group => lemma_in_order(c.resource_groups@, GROUPS_REMOVAL@, group_removal(), i, j),
        Kind::Order => lemma_in_list_order(c.order_constraints@, order_removal(), i, j),
        Kind::Colocation => lemma_in_list_order(c.colocation_constraints@, colocation_removal(), i, j),
        Kind::Location => lemma_in_list_order(c.location_constraints@, location_removal(), i, j),
    }
}

proof fn lemma_teardown_place(c: PacemakerConfig, kind: Kind)
    ensures
        teardown_parts(c).len() == 12,
        0 <= teardown_place(kind) < 12,
        teardown_parts(c)[teardown_place(kind)] == teardown_section(c, kind),
{
}

/// The teardown removes all that the script creates, each behind a test that it is there, and
/// against the order of its creation: constraints first, then groups, services, file systems,
/// DRBD clones and fencing; of each kind, each in its place.
#[verifier::rlimit(60)]
pub proof fn law_teardown_removes_in_reverse(
    c: PacemakerConfig,
    kind: Kind,
    i: int,
    later: Kind,
    j: int,
)
    requires
        0 <= i < count_of_kind(c, kind),
        0 <= j < count_of_kind(c, later),
    ensures
        contains_text(teardown_script(c), removal(c, kind, i)),
        rank(kind) > rank(later) || kind == later && i < j ==> stands_before(
            teardown_script(c),
            removal(c, kind, i),
            removal(c, later, j),
        ),
{
    lemma_teardown_parts(c);
    lemma_teardown_place(c, kind);
    lemma_teardown_place(c, later);
    lemma_removal_in_section(c, kind, i);
    lemma_removal_in_section(c, later, j);
    lemma_item_removes(c, kind, i);
    lemma_item_removes(c, later, j);
    let x = removal(c, kind, i);
    let y = removal(c, later, j);
    let parts = teardown_parts(c);
    let a = teardown_place(kind);
    let b = teardown_place(later);
    lemma_contains_trans(teardown_section(c, kind), teardown_item(c, kind, i), x);
    lemma_contains_trans(teardown_section(c, later), teardown_item(c, later, j), y);
    lemma_in_one_part(parts, a, x);
    if rank(kind) > rank(later) {
        lemma_in_two_parts(parts, a, b, x, y);
    } else if kind == later && i < j {
        lemma_removals_in_order(c, kind, i, j);
        lemma_parts_in_order(
            teardown_section(c, kind),
            teardown_item(c, kind, i),
            teardown_item(c, kind, j),
            x,
            y,
        );
        lemma_in_order_in_part(parts, a, x, y);
    }
}

// ---------------------------------------------------------------------------
// The settings of the cluster
// ---------------------------------------------------------------------------

/// The script sets the properties of the cluster as they are configured.
#[verifier::rlimit(60)]
pub proof fn law_script_sets_the_properties(c: PacemakerConfig)
    ensures
        contains_text(
            pcs_script(c),
            "pcs property set stonith-enabled="@ + (if c.cluster.stonith_enabled {
                "true"@
            } else {
                "false"@
            }) + "\npcs property set no-quorum-policy="@ + c.cluster.no_quorum_policy@
                + "\npcs resource defaults migration-threshold="@ + decimal(
                c.cluster.migration_threshold as nat,
            ) + "\npcs resource defaults failure-timeout="@ + c.cluster.failure_timeout@
                + "\n\n"@,
        ),
{
    let n: int = PCS_HEAD@.len() - 33;
    let front = PCS_HEAD@.take(n);
    let key = "pcs property set stonith-enabled="@;
    assert(PCS_HEAD@ =~= front + key) by {
        reveal_strlit("pcs property set stonith-enabled=");
        lemma_head_ends();
    }
    let f = flag(c.cluster.stonith_enabled);
    let a = "\npcs property set no-quorum-policy="@;
    let b = c.cluster.no_quorum_policy@;
    let d = "\npcs resource defaults migration-threshold="@;
    let e = decimal(c.cluster.migration_threshold as nat);
    let g = "\npcs resource defaults failure-timeout="@;
    let h = c.cluster.failure_timeout@;
    let i = "\n\n"@;
    let text = key + f + a + b + d + e + g + h + i;
    lemma_contains_self(text);
    lemma_contains_sum(front, text, text);
    assert(script_head(c) =~= front + text);
    lemma_script_parts(c);
    lemma_in_one_part(script_parts(c), 0, text);
}

#[verifier::rlimit(60)]
proof fn lemma_head_ends()
    ensures
        PCS_HEAD@.len() >= 33,
        PCS_HEAD@.skip(PCS_HEAD@.len() - 33) == "pcs property set stonith-enabled="@,
{
    reveal_strlit("#!/bin/bash
# Pacemaker 설정 스크립트 (pcs 명령)
# AlmaLinux9 / RHEL9 + pacemaker + corosync
# 반드시 클러스터 노드 중 하나에서 root 권한으로 실행하세요.

set -euo pipefail

# ─── 클러스터 전역 속성 ───────────────────────────────────────
pcs property set stonith-enabled=");
    reveal_strlit("pcs property set stonith-enabled=");
    assert(PCS_HEAD@.skip(PCS_HEAD@.len() - 33) =~= "pcs property set stonith-enabled="@);
}

// ---------------------------------------------------------------------------
// The resources as XML
// ---------------------------------------------------------------------------

/// The snippet lists every DRBD resource in its clone, every file system with what it mounts,
/// every group with its members, and every service that is in no group.
#[verifier::rlimit(60)]
pub proof fn law_cib_lists_the_resources(c: PacemakerConfig, i: int)
    ensures
        0 <= i < c.drbd_resources@.len() ==> contains_text(
            cib_xml(c),
            "      <clone id=\""@ + c.drbd_resources@[i].clone_name@
                + "\" promotable=\"true\">\n        <primitive id=\""@
                + c.drbd_resources@[i].resource_name@
                + "\" class=\"ocf\" provider=\"linbit\" type=\"drbd\">\n          <instance_attributes>\n            <nvpair name=\"drbd_resource\" value=\""@
                + c.drbd_resources@[i].drbd_resource_name@
                + "\"/>\n          </instance_attributes>\n        </primitive>\n      </clone>\n"@,
        ),
        0 <= i < c.fs_resources@.len() ==> contains_text(
            cib_xml(c),
            "      <primitive id=\""@ + c.fs_resources@[i].resource_name@
                + "\" class=\"ocf\" provider=\"heartbeat\" type=\"Filesystem\">\n        <instance_attributes>\n          <nvpair name=\"device\" value=\""@
                + c.fs_resources@[i].device@
                + "\"/>\n          <nvpair name=\"directory\" value=\""@
                + c.fs_resources@[i].directory@
                + "\"/>\n          <nvpair name=\"fstype\" value=\""@ + c.fs_resources@[i].fstype@
                + "\"/>\n        </instance_attributes>\n      </primitive>\n"@,
        ),
        0 <= i < c.resource_groups@.len() ==> contains_text(
            cib_xml(c),
            "      <group id=\""@ + c.resource_groups@[i].group_name@ + "\">\n"@ + wrapped(
                views(c.resource_groups@[i].members@),
                "        <primitive id=\""@,
                "\"/>\n"@,
            ) + "      </group>\n"@,
        ),
        0 <= i < c.systemd_resources@.len() && !is_member(
            c.resource_groups@,
            c.systemd_resources@[i].resource_name@,
        ) ==> contains_text(
            cib_xml(c),
            "      <primitive id=\""@ + c.systemd_resources@[i].resource_name@
                + "\" class=\"systemd\" type=\""@ + c.systemd_resources@[i].systemd_unit@
                + "\"/>\n"@,
        ),
{
    if 0 <= i < c.drbd_resources@.len() {
        lemma_flat_contains(c.drbd_resources@, drbd_xml(), i);
        lemma_in_cib(c, drbd_xml()(c.drbd_resources@[i]));
    }
    if 0 <= i < c.fs_resources@.len() {
        lemma_flat_contains(c.fs_resources@, fs_xml(), i);
        lemma_in_cib(c, fs_xml()(c.fs_resources@[i]));
    }
    if 0 <= i < c.resource_groups@.len() {
        lemma_flat_contains(c.resource_groups@, group_xml(), i);
        lemma_in_cib(c, group_xml()(c.resource_groups@[i]));
    }
    if 0 <= i < c.systemd_resources@.len() {
        lemma_member(c.resource_groups@, c.systemd_resources@[i].resource_name@);
        lemma_flat_contains(c.systemd_resources@, systemd_xml(c.resource_groups@), i);
        lemma_in_cib(c, systemd_xml(c.resource_groups@)(c.systemd_resources@[i]));
    }
}

/// Whether some group has a member of that name.
pub open spec fn is_member(groups: Seq<ResourceGroup>, name: Seq<char>) -> bool {
    exists|g: int, m: int|
        0 <= g < groups.len() && 0 <= m < groups[g].members@.len() && (
        #[trigger] groups[g].members@[m])@ == name
}

proof fn lemma_member(groups: Seq<ResourceGroup>, name: Seq<char>)
    ensures
        in_some_group(groups, name) == is_member(groups, name),
{
    if in_some_group(groups, name) {
        let g = choose|g: int|
            0 <= g < groups.len() && has_text((#[trigger] groups[g]).members@, name);
        let m = choose|m: int|
            0 <= m < groups[g].members@.len() && (#[trigger] groups[g].members@[m])@ == name;
        assert(groups[g].members@[m]@ == name);
    }
    if is_member(groups, name) {
        let (g, m) = choose|g: int, m: int|
            0 <= g < groups.len() && 0 <= m < groups[g].members@.len() && (
            #[trigger] groups[g].members@[m])@ == name;
        assert(has_text(groups[g].members@, name));
    }
}

proof fn lemma_in_cib(c: PacemakerConfig, x: Seq<char>)
    requires
        contains_text(flat(c.drbd_resources@, drbd_xml()), x) || contains_text(
            flat(c.fs_resources@, fs_xml()),
            x,
        ) || contains_text(flat(c.resource_groups@, group_xml()), x) || contains_text(
            flat(c.systemd_resources@, systemd_xml(c.resource_groups@)),
            x,
        ),
    ensures
        contains_text(cib_xml(c), x),
{
    let a = flat(c.drbd_resources@, drbd_xml());
    let b = flat(c.fs_resources@, fs_xml());
    let d = flat(c.resource_groups@, group_xml());
    let e = flat(c.systemd_resources@, systemd_xml(c.resource_groups@));
    lemma_contains_sum(CIB_HEAD@, a, x);
    lemma_contains_sum(CIB_HEAD@ + a, b, x);
    lemma_contains_sum(CIB_HEAD@ + a + b, d, x);
    lemma_contains_sum(CIB_HEAD@ + a + b + d, e, x);
    lemma_contains_sum(CIB_HEAD@ + a + b + d + e, CIB_TAIL@, x);
}

/// The services that are in no group.
pub open spec fn is_ungrouped(groups: Seq<ResourceGroup>) -> spec_fn(SystemdResource) -> bool {
    |s: SystemdResource| !is_member(groups, s.resource_name@)
}

proof fn lemma_ungrouped(groups: Seq<ResourceGroup>, v: Seq<SystemdResource>)
    ensures
        flat(v, systemd_xml(groups)) == flat(v.filter(is_ungrouped(groups)), systemd_xml(groups)),
    decreases v.len(),
{
    reveal(Seq::filter);
    let p = is_ungrouped(groups);
    let f = systemd_xml(groups);
    if v.len() > 0 {
        let front = v.drop_last();
        lemma_ungrouped(groups, front);
        lemma_member(groups, v.last().resource_name@);
        if p(v.last()) {
            assert(v.filter(p) == front.filter(p).push(v.last()));
            assert(front.filter(p).push(v.last()).drop_last() =~= front.filter(p));
        } else {
            assert(v.filter(p) == front.filter(p));
            assert(f(v.last()) =~= Seq::<char>::empty());
            assert(flat(front, f) + f(v.last()) =~= flat(front, f));
        }
    }
}

/// A service in a group is listed with its group alone: without it the snippet is the same.
pub proof fn law_grouped_services_are_listed_once(c: PacemakerConfig, d: PacemakerConfig)
    requires
        d.drbd_resources == c.drbd_resources,
        d.fs_resources == c.fs_resources,
        d.resource_groups == c.resource_groups,
        d.systemd_resources@ == c.systemd_resources@.filter(is_ungrouped(c.resource_groups@)),
    ensures
        cib_xml(d) == cib_xml(c),
{
    lemma_ungrouped(c.resource_groups@, c.systemd_resources@);
}

// ---------------------------------------------------------------------------
// Maintenance
// ---------------------------------------------------------------------------

/// Each of the texts in its place in another.
spec fn steps_at(s: Seq<char>) -> bool {
    &&& occurs_at(s, "pcs node standby $node"@, 382)
    &&& occurs_at(s, "pcs cluster stop"@, 626)
    &&& occurs_at(s, "dnf update -y"@, 761)
    &&& occurs_at(s, "\"reboot\""@, 828)
    &&& occurs_at(s, "pcs cluster start"@, 1082)
    &&& occurs_at(s, "pcs node unstandby $node"@, 1203)
}

#[verifier::rlimit(60)]
proof fn lemma_steps()
    ensures
        steps_at(MAINTENANCE_STEPS@),
        MAINTENANCE_STEPS@.len() > 1227,
        MAINTENANCE_STEPS@[0] == ')',
{
    reveal_strlit(")
LOCK_PACKAGES=\"pacemaker corosync pcs\"

pcs_status() { ssh \"$CONTROLLER\" pcs status; }

for node in \"${NODES[@]}\"; do
  echo \"=== [$node] 유지보수 시작 ===\"

  echo \"[$node] 1. 온라인 노드 수 확인 (과반수 유지 필요)\"
  pcs_status

  echo \"[$node] 2. pacemaker/corosync/pcs versionlock 해제\"
  ssh \"$node\" \"dnf versionlock delete $LOCK_PACKAGES\" || true

  echo \"[$node] 3. standby\"
  ssh \"$CONTROLLER\" \"pcs node standby $node\"

  echo \"[$node] 4. 리소스가 다른 노드로 모두 이동했는지 확인\"
  pcs_status
  read -r -p \"[$node] Failed Resource Actions 없이 리소스가 이동했습니까? 계속하려면 Enter, 중단하려면 Ctrl+C: \"

  echo \"[$node] 5. 클러스터 멤버십에서 완전히 이탈 (STONITH 오발동 방지)\"
  ssh \"$node\" \"pcs cluster stop\"

  echo \"[$node] 6. 다른 노드 관점에서 Offline 확인\"
  pcs_status

  echo \"[$node] 7. 패키지 업데이트 (커널/DRBD 모듈 포함)\"
  ssh \"$node\" \"dnf update -y\"

  echo \"[$node] 8. 재부팅 후 SSH 재접속 대기\"
  ssh \"$node\" \"reboot\" || true
  until ssh -o ConnectTimeout=5 -o StrictHostKeyChecking=no \"$node\" true 2>/dev/null; do sleep 5; done

  echo \"[$node] 9. versionlock 재설정\"
  ssh \"$node\" \"dnf versionlock add $LOCK_PACKAGES\"

  echo \"[$node] 10. 클러스터 재합류\"
  ssh \"$node\" \"pcs cluster start\"

  echo \"[$node] 11. Online 재합류 확인\"
  pcs_status

  echo \"[$node] 12. unstandby\"
  ssh \"$CONTROLLER\" \"pcs node unstandby $node\"

  echo \"[$node] 13. 최종 확인\"
  pcs_status
  read -r -p \"[$node] Failed Resource Actions 없습니까? 다음 노드로 진행하려면 Enter, 중단하려면 Ctrl+C: \"

  echo \"=== [$node] 유지보수 완료 ===\"
done

echo '✅ 모든 노드 유지보수 완료'");
    reveal_strlit("pcs node standby $node");
    reveal_strlit("pcs cluster stop");
    reveal_strlit("dnf update -y");
    reveal_strlit("\"reboot\"");
    reveal_strlit("pcs cluster start");
    reveal_strlit("pcs node unstandby $node");
    assert(MAINTENANCE_STEPS@.subrange(382, 404) =~= "pcs node standby $node"@);
    assert(MAINTENANCE_STEPS@.subrange(626, 642) =~= "pcs cluster stop"@);
    assert(MAINTENANCE_STEPS@.subrange(761, 774) =~= "dnf update -y"@);
    assert(MAINTENANCE_STEPS@.subrange(828, 836) =~= "\"reboot\""@);
    assert(MAINTENANCE_STEPS@.subrange(1082, 1099) =~= "pcs cluster start"@);
    assert(MAINTENANCE_STEPS@.subrange(1203, 1227) =~= "pcs node unstandby $node"@);
}

#[verifier::rlimit(60)]
proof fn lemma_maintenance_head()
    ensures
        MAINTENANCE_HEAD@.len() >= 12,
        MAINTENANCE_HEAD@.skip(MAINTENANCE_HEAD@.len() - 12) == "CONTROLLER=\""@,
{
    reveal_strlit("#!/bin/bash
# Pacemaker 클러스터 롤링 유지보수 스크립트 (가이드 5.1절 절차)
# 노드를 한 번에 하나씩, 완전히 정상화를 확인한 뒤 다음 노드로 진행합니다.
# set -e로 인해 어느 단계든 실패하면 즉시 중단되고 다음 노드로 넘어가지 않습니다.
#
# 알려진 공백(가이드 8.4절): Pacemaker가 관리하지 않는 podman 컨테이너
# (Restart=always + WantedBy=multi-user.target로 구성된 Quadlet 유닛)는
# 이 스크립트가 건드리지 않습니다 — 재부팅 전에 별도로
# `systemctl stop <unit>`을 실행하세요. `podman kill`/`podman rm -f`로
# 직접 종료하면 Restart=always 때문에 systemd가 즉시 재기동시킵니다.

set -euo pipefail

CONTROLLER=\"");
    reveal_strlit("CONTROLLER=\"");
    assert(MAINTENANCE_HEAD@.skip(MAINTENANCE_HEAD@.len() - 12) =~= "CONTROLLER=\""@);
}

proof fn lemma_maintenance_nodes()
    ensures
        MAINTENANCE_NODES@.len() >= 7,
        MAINTENANCE_NODES@[0] == '"',
        MAINTENANCE_NODES@.skip(MAINTENANCE_NODES@.len() - 7) == "NODES=("@,
{
    reveal_strlit("\"  # pcs 상태 조회는 이 노드를 통해 실행
NODES=(");
    reveal_strlit("NODES=(");
    assert(MAINTENANCE_NODES@.skip(MAINTENANCE_NODES@.len() - 7) =~= "NODES=("@);
}

/// Two texts that occur one behind the other.
proof fn lemma_occur_in_order(s: Seq<char>, p: Seq<char>, i: int, q: Seq<char>, j: int)
    requires
        occurs_at(s, p, i),
        occurs_at(s, q, j),
        i + p.len() <= j,
    ensures
        stands_before(s, p, q),
{
    assert(s.take(j).subrange(i, i + p.len()) =~= p);
    assert(s.skip(j).subrange(0, q.len() as int) =~= q);
    lemma_contains_at(s.take(j), p, i);
    lemma_contains_at(s.skip(j), q, 0);
}

/// The names of the nodes, in their order.
pub open spec fn names_of(c: PacemakerConfig) -> Seq<Seq<char>> {
    Seq::new(c.cluster.nodes@.len(), |i: int| c.cluster.nodes@[i].name@)
}

/// The maintenance script goes through all nodes in their order, and watches the cluster from
/// the first one. Each node is emptied, leaves the cluster, is updated and started again, and
/// is filled only after it has joined again. Without nodes there is no script.
#[verifier::rlimit(60)]
pub proof fn law_nodes_are_maintained_in_turn(c: PacemakerConfig)
    ensures
        c.cluster.nodes@.len() == 0 ==> maintenance_script(c).len() == 0,
        c.cluster.nodes@.len() > 0 ==> {
            &&& contains_text(
                maintenance_script(c),
                "CONTROLLER=\""@ + c.cluster.nodes@[0].name@ + seq!['"'],
            )
            &&& contains_text(
                maintenance_script(c),
                "NODES=("@ + joined(names_of(c), " "@) + seq![')'],
            )
            &&& stands_before(maintenance_script(c), "pcs node standby $node"@, "pcs cluster stop"@)
            &&& stands_before(maintenance_script(c), "pcs cluster stop"@, "dnf update -y"@)
            &&& stands_before(maintenance_script(c), "dnf update -y"@, "\"reboot\""@)
            &&& stands_before(maintenance_script(c), "\"reboot\""@, "pcs cluster start"@)
            &&& stands_before(maintenance_script(c), "pcs cluster start"@, "pcs node unstandby $node"@)
        },
{
    if c.cluster.nodes@.len() > 0 {
        let h = MAINTENANCE_HEAD@;
        let a = c.cluster.nodes@[0].name@;
        let n = MAINTENANCE_NODES@;
        let b = joined(names_of(c), " "@);
        let s = MAINTENANCE_STEPS@;
        let script = maintenance_script(c);
        assert(node_names(c.cluster.nodes@) =~= names_of(c));
        assert(script == h + a + n + b + s);
        lemma_steps();
        lemma_maintenance_head();
        lemma_maintenance_nodes();
        let x = "CONTROLLER=\""@ + a + seq!['"'];
        let i: int = h.len() - 12;
        assert(script.subrange(i, i + x.len()) =~= x) by {
            assert(h =~= h.take(i) + h.skip(i));
            assert(n =~= seq!['"'] + n.skip(1));
            reveal_strlit("CONTROLLER=\"");
        }
        lemma_contains_at(script, x, i);
        let y = "NODES=("@ + b + seq![')'];
        let j: int = (h + a + n).len() - 7;
        assert(script.subrange(j, j + y.len()) =~= y) by {
            assert(n =~= n.take(n.len() - 7) + n.skip(n.len() - 7));
            assert(s =~= seq![')'] + s.skip(1));
            reveal_strlit("NODES=(");
        }
        lemma_contains_at(script, y, j);
        lemma_step_lengths();
        let none = Seq::<char>::empty();
        assert(script =~= (h + a + n + b) + s + none);
        lemma_occur_in_order(s, "pcs node standby $node"@, 382, "pcs cluster stop"@, 626);
        lemma_before_in_part(h + a + n + b, s, none, "pcs node standby $node"@, "pcs cluster stop"@);
        lemma_occur_in_order(s, "pcs cluster stop"@, 626, "dnf update -y"@, 761);
        lemma_before_in_part(h + a + n + b, s, none, "pcs cluster stop"@, "dnf update -y"@);
        lemma_occur_in_order(s, "dnf update -y"@, 761, "\"reboot\""@, 828);
        lemma_before_in_part(h + a + n + b, s, none, "dnf update -y"@, "\"reboot\""@);
        lemma_occur_in_order(s, "\"reboot\""@, 828, "pcs cluster start"@, 1082);
        lemma_before_in_part(h + a + n + b, s, none, "\"reboot\""@, "pcs cluster start"@);
        lemma_occur_in_order(s, "pcs cluster start"@, 1082, "pcs node unstandby $node"@, 1203);
        lemma_before_in_part(h + a + n + b, s, none, "pcs cluster start"@, "pcs node unstandby $node"@);
    }
}

proof fn lemma_step_lengths()
    ensures
        "pcs node standby $node"@.len() == 22,
        "pcs cluster stop"@.len() == 16,
        "dnf update -y"@.len() == 13,
        "\"reboot\""@.len() == 8,
        "pcs cluster start"@.len() == 17,
        "pcs node unstandby $node"@.len() == 24,
{
    reveal_strlit("pcs node standby $node");
    reveal_strlit("pcs cluster stop");
    reveal_strlit("dnf update -y");
    reveal_strlit("\"reboot\"");
    reveal_strlit("pcs cluster start");
    reveal_strlit("pcs node unstandby $node");
}

// ---------------------------------------------------------------------------
// The playbook
// ---------------------------------------------------------------------------

/// A task that runs commands once, where the configuration does not show the resource.
pub open spec fn shell_task(id: Seq<char>, lines: Seq<Seq<char>>) -> Seq<char> {
    "\n      ansible.builtin.shell: |\n"@ + wrapped(lines, "        "@, "\n"@)
        + "      run_once: true
      delegate_to: \"{{ ansible_play_batch | first }}\"
      when: "@
        + yaml_single_quoted(
        "existing_resource_config.stdout is not search(\"Resource: "@ + id + " (\")"@,
    )
}

/// A task that runs a command once, where the constraints do not show the pattern.
pub open spec fn command_task(command: Seq<char>, pattern: Seq<char>) -> Seq<char> {
    "\n      ansible.builtin.command: "@ + yaml_double_quoted(command) + "\n"@
        + "      run_once: true
      delegate_to: \"{{ ansible_play_batch | first }}\"
      when: "@
        + yaml_single_quoted("existing_constraints.stdout is not search(\""@ + pattern + "\")"@)
}

/// What stands before the last character of a text.
proof fn lemma_before_the_last(a: Seq<char>, x: Seq<char>, b: Seq<char>)
    requires
        b.len() > 0,
    ensures
        contains_text((a + x + b).drop_last(), x),
{
    lemma_contains_middle(a, x, b.drop_last());
    assert((a + x + b).drop_last() =~= a + x + b.drop_last());
}

proof fn lemma_shell_task(name: Seq<char>, lines: Seq<Seq<char>>, id: Seq<char>)
    ensures
        contains_text(resource_task(name, lines, id).drop_last(), shell_task(id, lines)),
{
    let a = "    - name: "@ + name;
    let b = "\n      ansible.builtin.shell: |\n"@;
    let w = wrapped(lines, "        "@, "\n"@);
    let q = yaml_single_quoted(
        "existing_resource_config.stdout is not search(\"Resource: "@ + id + " (\")"@,
    );
    let end = "\n      changed_when: true\n\n"@;
    reveal_strlit("\n      changed_when: true\n\n");
    lemma_before_the_last(a, b + w + RUN_ONCE@ + q, end);
    assert(a + (b + w + RUN_ONCE@ + q) + end =~= a + b + w + RUN_ONCE@ + q + end);
}

proof fn lemma_command_task(name: Seq<char>, command: Seq<char>, pattern: Seq<char>)
    ensures
        contains_text(
            constraint_task(name, command, pattern).drop_last(),
            command_task(command, pattern),
        ),
{
    let a = "    - name: "@ + name;
    let b = "\n      ansible.builtin.command: "@;
    let w = yaml_double_quoted(command);
    let n = "\n"@;
    let q = yaml_single_quoted("existing_constraints.stdout is not search(\""@ + pattern + "\")"@);
    let end = "\n      changed_when: true\n\n"@;
    reveal_strlit("\n      changed_when: true\n\n");
    lemma_before_the_last(a, b + w + n + RUN_ONCE@ + q, end);
    assert(a + (b + w + n + RUN_ONCE@ + q) + end =~= a + b + w + n + RUN_ONCE@ + q + end);
}

/// The playbook creates the resources with the commands of the script, each once and behind a
/// test that the resource is not there yet.
#[verifier::rlimit(60)]
pub proof fn law_playbook_creates_the_resources(
    ansible_hosts: Option<String>,
    ansible_user: Option<String>,
    ansible_ssh_key: Option<String>,
    c: PacemakerConfig,
    i: int,
)
    ensures
        0 <= i < c.drbd_resources@.len() ==> contains_text(
            pacemaker_playbook(ansible_hosts, ansible_user, ansible_ssh_key, c),
            shell_task(
                c.drbd_resources@[i].resource_name@,
                clone_lines(c, c.drbd_resources@[i]),
            ),
        ),
        0 <= i < c.fs_resources@.len() ==> contains_text(
            pacemaker_playbook(ansible_hosts, ansible_user, ansible_ssh_key, c),
            shell_task(c.fs_resources@[i].resource_name@, mount_lines(c.fs_resources@[i])),
        ),
        0 <= i < c.systemd_resources@.len() ==> contains_text(
            pacemaker_playbook(ansible_hosts, ansible_user, ansible_ssh_key, c),
            shell_task(
                c.systemd_resources@[i].resource_name@,
                service_lines(c.systemd_resources@[i]),
            ),
        ),
        0 <= i < c.resource_groups@.len() ==> contains_text(
            pacemaker_playbook(ansible_hosts, ansible_user, ansible_ssh_key, c),
            "\n      ansible.builtin.command: "@ + yaml_double_quoted(
                member_command(c.resource_groups@[i]),
            ),
        ),
{
    let book = pacemaker_playbook(ansible_hosts, ansible_user, ansible_ssh_key, c);
    law_playbook_guards_resources(ansible_hosts, ansible_user, ansible_ssh_key, c, i);
    if 0 <= i < c.drbd_resources@.len() {
        let d = c.drbd_resources@[i];
        lemma_commands(c, d);
        lemma_shell_task(
            "DRBD Promotable Clone 생성 ("@ + d.resource_name@ + ")"@,
            clone_lines(c, d),
            d.resource_name@,
        );
        lemma_contains_trans(
            book,
            drbd_task(clone_count(c))(d).drop_last(),
            shell_task(d.resource_name@, clone_lines(c, d)),
        );
    }
    if 0 <= i < c.fs_resources@.len() {
        let f = c.fs_resources@[i];
        assert(fs_cmds(f) =~= mount_lines(f));
        lemma_shell_task(
            "Filesystem 리소스 생성 ("@ + f.resource_name@ + ")"@,
            mount_lines(f),
            f.resource_name@,
        );
        lemma_contains_trans(
            book,
            fs_task()(f).drop_last(),
            shell_task(f.resource_name@, mount_lines(f)),
        );
    }
    if 0 <= i < c.systemd_resources@.len() {
        let s = c.systemd_resources@[i];
        lemma_service_commands(s);
        lemma_shell_task(
            "Systemd 리소스 생성 ("@ + s.resource_name@ + ")"@,
            service_lines(s),
            s.resource_name@,
        );
        lemma_contains_trans(
            book,
            systemd_task()(s).drop_last(),
            shell_task(s.resource_name@, service_lines(s)),
        );
    }
    if 0 <= i < c.resource_groups@.len() {
        lemma_group_in_playbook(ansible_hosts, ansible_user, ansible_ssh_key, c, i);
    }
}

proof fn lemma_group_in_playbook(
    ansible_hosts: Option<String>,
    ansible_user: Option<String>,
    ansible_ssh_key: Option<String>,
    c: PacemakerConfig,
    i: int,
)
    requires
        0 <= i < c.resource_groups@.len(),
    ensures
        contains_text(
            pacemaker_playbook(ansible_hosts, ansible_user, ansible_ssh_key, c),
            "\n      ansible.builtin.command: "@ + yaml_double_quoted(
                member_command(c.resource_groups@[i]),
            ),
        ),
{
    let g = c.resource_groups@[i];
    let task = group_task()(g);
    let a = "    - name: 리소스 그룹 구성 ("@ + g.group_name@ + ")"@;
    let b = "\n      ansible.builtin.command: "@;
    let w = yaml_double_quoted(member_command(g));
    assert(")\n      ansible.builtin.command: "@ =~= ")"@ + b) by {
        reveal_strlit(")\n      ansible.builtin.command: ");
        reveal_strlit(")");
        reveal_strlit("\n      ansible.builtin.command: ");
    }
    let tail = GROUP_TAIL@;
    assert(tail.len() >= 3 && tail[tail.len() - 1] == '\n' && tail[tail.len() - 2] == '\n'
        && tail[tail.len() - 3] != '\n') by {
        reveal_strlit("
      run_once: true
      delegate_to: \"{{ ansible_play_batch | first }}\"
      changed_when: true

");
    }
    assert(task =~= a + (b + w) + tail);
    lemma_before_the_last(a, b + w, tail);
    lemma_flat_contains(c.resource_groups@, group_task(), i);
    lemma_task_in_playbook(ansible_hosts, ansible_user, ansible_ssh_key, c, task);
    lemma_contains_trans(
        pacemaker_playbook(ansible_hosts, ansible_user, ansible_ssh_key, c),
        task.drop_last(),
        b + w,
    );
}

/// The playbook adds the constraints with the commands of the script, each once and behind a
/// test that the constraint is not there yet.
#[verifier::rlimit(60)]
pub proof fn law_playbook_adds_the_constraints(
    ansible_hosts: Option<String>,
    ansible_user: Option<String>,
    ansible_ssh_key: Option<String>,
    c: PacemakerConfig,
    i: int,
)
    ensures
        0 <= i < c.order_constraints@.len() ==> contains_text(
            pacemaker_playbook(ansible_hosts, ansible_user, ansible_ssh_key, c),
            command_task(
                following_command(c.order_constraints@[i]),
                c.order_constraints@[i].first_action@ + " resource '"@
                    + c.order_constraints@[i].first@ + "' then "@
                    + c.order_constraints@[i].then_action@ + " resource '"@
                    + c.order_constraints@[i].then_rsc@ + "'"@,
            ),
        ),
        0 <= i < c.colocation_constraints@.len() ==> contains_text(
            pacemaker_playbook(ansible_hosts, ansible_user, ansible_ssh_key, c),
            command_task(
                keeping_command(c.colocation_constraints@[i]),
                shown_colocation(c.colocation_constraints@[i]),
            ),
        ),
        0 <= i < c.location_constraints@.len() ==> contains_text(
            pacemaker_playbook(ansible_hosts, ansible_user, ansible_ssh_key, c),
            command_task(
                preferring_command(c.location_constraints@[i]),
                "resource '"@ + c.location_constraints@[i].rsc@ + "' prefers node '"@
                    + c.location_constraints@[i].node@ + "'"@,
            ),
        ),
{
    let book = pacemaker_playbook(ansible_hosts, ansible_user, ansible_ssh_key, c);
    law_playbook_guards_constraints(ansible_hosts, ansible_user, ansible_ssh_key, c, i);
    if 0 <= i < c.order_constraints@.len() {
        let o = c.order_constraints@[i];
        let pattern = o.first_action@ + " resource '"@ + o.first@ + "' then "@ + o.then_action@
            + " resource '"@ + o.then_rsc@ + "'"@;
        lemma_command_task(
            "Order 제약조건 ("@ + o.first@ + " → "@ + o.then_rsc@ + ")"@,
            following_command(o),
            pattern,
        );
        lemma_contains_trans(
            book,
            order_task()(o).drop_last(),
            command_task(following_command(o), pattern),
        );
    }
    if 0 <= i < c.colocation_constraints@.len() {
        let k = c.colocation_constraints@[i];
        assert(colocation_cmd(k@) == keeping_command(k));
        assert(colocation_pattern(k@) =~= shown_colocation(k));
        lemma_command_task(
            "Colocation 제약조건 ("@ + k.rsc@ + " with "@ + k.with_rsc@ + ")"@,
            keeping_command(k),
            shown_colocation(k),
        );
        lemma_contains_trans(
            book,
            colocation_task()(k).drop_last(),
            command_task(keeping_command(k), shown_colocation(k)),
        );
    }
    if 0 <= i < c.location_constraints@.len() {
        let l = c.location_constraints@[i];
        let pattern = "resource '"@ + l.rsc@ + "' prefers node '"@ + l.node@ + "'"@;
        lemma_command_task(
            "Location 제약조건 ("@ + l.rsc@ + " → "@ + l.node@ + ")"@,
            preferring_command(l),
            pattern,
        );
        lemma_contains_trans(
            book,
            location_task()(l).drop_last(),
            command_task(preferring_command(l), pattern),
        );
    }
}

/// How a colocation is shown: with the roles, where the second resource has one.
pub open spec fn shown_colocation(k: ColocationConstraint) -> Seq<char> {
    if k.with_rsc_role is Some {
        (if k.rsc_role is Some {
            k.rsc_role->0@ + " "@
        } else {
            Seq::empty()
        }) + "resource '"@ + k.rsc@ + "' with "@ + k.with_rsc_role->0@ + " resource '"@ + k.with_rsc@
            + "'"@
    } else {
        "resource '"@ + k.rsc@ + "' with resource '"@ + k.with_rsc@ + "'"@
    }
}

} // verus!
