//! The scripts that configure a cluster, undo that, and maintain it.

use crate::generators::pacemaker_cmds::{
    colocation_cmd, drbd_cmds, fs_cmds, generate_colocation_constraint,
    generate_drbd_resource_cmds, generate_fs_resource_cmds, generate_location_constraint,
    generate_order_constraint, generate_resource_group_cmd, generate_stonith_cmds,
    generate_systemd_resource_cmds, group_cmd, location_cmd, order_cmd, shell_quote, shell_quoted,
    stonith_cmds, stonith_device_name, stonith_name, systemd_cmds,
};
use crate::lines::{
    add_line, flat, join, joined, keep_when, lemma_flat_take, wrap, wrap_all, wrapped,
};
use crate::models::pacemaker::{
    ClusterNode, ColocationConstraint, DrbdPacemakerResource, FsResource, LocationConstraint,
    OrderConstraint, PacemakerConfig, ResourceGroup, StonithDevice, SystemdResource,
};
use crate::number::{decimal, flag, flag_text, push_number};
use crate::occurs::{
    lemma_before_in_part, lemma_before_in_sum, lemma_contains_self, lemma_contains_sum,
    lemma_contains_trans, lemma_flat_contains, lemma_wrapped_contains, stands_before,
};
use crate::text::{contains_text, given, has_text, holds_text, same, trim, trimmed, views};
use vstd::prelude::*;
use vstd::string::*;

verus! {

// ---------------------------------------------------------------------------
// The configuration script
// ---------------------------------------------------------------------------

pub const PCS_HEAD: &'static str = "#!/bin/bash
# Pacemaker 설정 스크립트 (pcs 명령)
# AlmaLinux9 / RHEL9 + pacemaker + corosync
# 반드시 클러스터 노드 중 하나에서 root 권한으로 실행하세요.

set -euo pipefail

# ─── 클러스터 전역 속성 ───────────────────────────────────────
pcs property set stonith-enabled=";

pub const STONITH_TITLE: &'static str = "# ─── STONITH(fencing) 리소스 ─────────────────────────────────
";

/// The warning that fencing does not happen as long as it is disabled.
pub const FENCE_WARNING: &'static str = "# ⚠️  주의: 아래 리소스에 on-fail=fence 가 지정돼 있지만
#     stonith-enabled=false 입니다. Pacemaker 는 이 조합에서
#     on-fail 을 조용히 stop 으로 격하시키므로 펜싱이 일어나지
#     않습니다. STONITH 를 켜거나 on-fail 을 바꾸세요.
#     해당 리소스: ";

pub const DRBD_TITLE: &'static str = "# ─── DRBD Promotable Clone 리소스 ───────────────────────────
";

pub const FS_TITLE: &'static str = "# ─── Filesystem 리소스 (ocf:heartbeat:Filesystem) ───────────
# DRBD가 Primary로 승격된 후 볼륨을 마운트합니다.
";

pub const SYSTEMD_TITLE: &'static str = "# ─── Quadlet Systemd 리소스 (Pod / Container) ───────────────
";

pub const GROUP_TITLE: &'static str = "# ─── 리소스 그룹 (Pod → Container 순서 보장) ───────────────
# 그룹 내 start: members 순서대로, stop: 역순 자동 처리
# (pcs resource group add 는 자체적으로 멱등이라 가드를 두지 않는다)
";

pub const ORDER_TITLE: &'static str = "# ─── Order 제약조건 ──────────────────────────────────────────
";

pub const COLOCATION_TITLE: &'static str = "# ─── Colocation 제약조건 ────────────────────────────────────
";

pub const LOCATION_TITLE: &'static str = "# ─── Location 제약조건 (선호 노드) ─────────────────────────
";

pub const PCS_DONE: &'static str = "echo '✅ Pacemaker 설정 완료'";

/// Commands that are run only where the resource does not exist yet.
pub open spec fn guarded_resource(id: Seq<char>, body: Seq<Seq<char>>) -> Seq<char> {
    "if ! pcs resource config "@ + shell_quoted(id) + " >/dev/null 2>&1; then\n"@ + wrapped(
        body,
        "  "@,
        "\n"@,
    ) + "else\n  echo \"  - "@ + id + " 는 이미 있어 건너뜁니다\"\nfi\n"@
}

/// A command that is run only where the constraint does not exist yet.
pub open spec fn guarded_constraint(id: Seq<char>, cmd: Seq<char>) -> Seq<char> {
    "if ! pcs constraint --full 2>/dev/null | grep -q \"(id: "@ + id + ")\"; then\n  "@ + cmd
        + "\nelse\n  echo \"  - 제약조건 "@ + id + " 는 이미 있어 건너뜁니다\"\nfi\n"@
}

/// How many copies of a DRBD resource there are: one for each node, or three where the
/// nodes are not known.
pub open spec fn clone_count(c: PacemakerConfig) -> nat {
    if c.cluster.nodes@.len() == 0 {
        3
    } else {
        c.cluster.nodes@.len()
    }
}

/// The resources that are to be fenced when they fail.
pub open spec fn fenced_name() -> spec_fn(DrbdPacemakerResource) -> Seq<Seq<char>> {
    |d: DrbdPacemakerResource|
        if trimmed(d.on_fail@) == "fence"@ {
            seq![d.resource_name@]
        } else {
            Seq::empty()
        }
}

/// The warning that fencing does not happen, where it is asked for but disabled.
pub open spec fn fence_warning(c: PacemakerConfig) -> Seq<char> {
    let names = flat(c.drbd_resources@, fenced_name());
    given(
        names.len() > 0 && !c.cluster.stonith_enabled,
        FENCE_WARNING@ + joined(names, ", "@) + "\n"@,
    )
}

pub open spec fn stonith_part() -> spec_fn(StonithDevice) -> Seq<char> {
    |d: StonithDevice| guarded_resource(stonith_name(d.node@), stonith_cmds(d))
}

pub open spec fn drbd_part(copies: nat) -> spec_fn(DrbdPacemakerResource) -> Seq<char> {
    |d: DrbdPacemakerResource| guarded_resource(d.resource_name@, drbd_cmds(d, copies))
}

pub open spec fn fs_part() -> spec_fn(FsResource) -> Seq<char> {
    |f: FsResource| guarded_resource(f.resource_name@, fs_cmds(f))
}

pub open spec fn systemd_part() -> spec_fn(SystemdResource) -> Seq<char> {
    |s: SystemdResource| guarded_resource(s.resource_name@, systemd_cmds(s))
}

pub open spec fn group_part() -> spec_fn(ResourceGroup) -> Seq<char> {
    |g: ResourceGroup| group_cmd(g) + "\n"@
}

pub open spec fn order_part() -> spec_fn(OrderConstraint) -> Seq<char> {
    |o: OrderConstraint| guarded_constraint(o.id@, order_cmd(o@))
}

pub open spec fn colocation_part() -> spec_fn(ColocationConstraint) -> Seq<char> {
    |k: ColocationConstraint| guarded_constraint(k.id@, colocation_cmd(k@))
}

pub open spec fn location_part() -> spec_fn(LocationConstraint) -> Seq<char> {
    |l: LocationConstraint| guarded_constraint(l.id@, location_cmd(l))
}

/// A titled section and the empty line behind it, or nothing where there are no items.
pub open spec fn section<T>(v: Seq<T>, title: Seq<char>, f: spec_fn(T) -> Seq<char>) -> Seq<char> {
    given(v.len() > 0, title + flat(v, f) + "\n"@)
}

/// The script that configures the cluster.
pub open spec fn pcs_script(c: PacemakerConfig) -> Seq<char> {
    PCS_HEAD@ + flag(c.cluster.stonith_enabled) + "\npcs property set no-quorum-policy="@
        + c.cluster.no_quorum_policy@ + "\npcs resource defaults migration-threshold="@ + decimal(
        c.cluster.migration_threshold as nat,
    ) + "\npcs resource defaults failure-timeout="@ + c.cluster.failure_timeout@ + "\n\n"@
        + section(c.stonith_devices@, STONITH_TITLE@, stonith_part()) + fence_warning(c) + section(
        c.drbd_resources@,
        DRBD_TITLE@,
        drbd_part(clone_count(c)),
    ) + section(c.fs_resources@, FS_TITLE@, fs_part()) + section(
        c.systemd_resources@,
        SYSTEMD_TITLE@,
        systemd_part(),
    ) + section(c.resource_groups@, GROUP_TITLE@, group_part()) + section(
        c.order_constraints@,
        ORDER_TITLE@,
        order_part(),
    ) + section(c.colocation_constraints@, COLOCATION_TITLE@, colocation_part()) + section(
        c.location_constraints@,
        LOCATION_TITLE@,
        location_part(),
    ) + PCS_DONE@
}

/// Commands that are run only where the resource does not exist yet.
pub fn guard_resource(id: &str, body: &Vec<String>) -> (r: String)
    ensures
        r@ == guarded_resource(id@, views(body@)),
{
    let mut out = "if ! pcs resource config ".to_owned();
    out.push_str(shell_quote(id).as_str());
    out.push_str(" >/dev/null 2>&1; then\n");
    out.push_str(wrap_all(body, "  ", "\n").as_str());
    out.push_str("else\n  echo \"  - ");
    out.push_str(id);
    out.push_str(" 는 이미 있어 건너뜁니다\"\nfi\n");
    out
}

/// A command that is run only where the constraint does not exist yet.
pub fn guard_constraint(id: &str, cmd: &str) -> (r: String)
    ensures
        r@ == guarded_constraint(id@, cmd@),
{
    let mut out = "if ! pcs constraint --full 2>/dev/null | grep -q \"(id: ".to_owned();
    out.push_str(id);
    out.push_str(")\"; then\n  ");
    out.push_str(cmd);
    out.push_str("\nelse\n  echo \"  - 제약조건 ");
    out.push_str(id);
    out.push_str(" 는 이미 있어 건너뜁니다\"\nfi\n");
    out
}

/// How many copies of a DRBD resource there are.
pub fn copies_of(config: &PacemakerConfig) -> (r: usize)
    ensures
        r == clone_count(*config),
{
    if config.cluster.nodes.len() == 0 {
        3
    } else {
        config.cluster.nodes.len()
    }
}

fn write_fence_warning(c: &PacemakerConfig) -> (r: String)
    ensures
        r@ == fence_warning(*c),
{
    let all = &c.drbd_resources;
    let mut names: Vec<String> = Vec::new();
    let mut i: usize = 0;
    assert(views(names@) =~= Seq::<Seq<char>>::empty());
    while i < all.len()
        invariant
            all@ == c.drbd_resources@,
            i <= all.len(),
            views(names@) == flat(all@.take(i as int), fenced_name()),
        decreases all.len() - i,
    {
        let ghost before = views(names@);
        proof {
            lemma_flat_take(all@, fenced_name(), i as int);
        }
        let d = &all[i];
        if same(trim(d.on_fail.as_str()), "fence") {
            add_line(&mut names, d.resource_name.as_str());
            assert(views(names@) =~= before + seq![d.resource_name@]);
        } else {
            assert(views(names@) =~= before + Seq::<Seq<char>>::empty());
        }
        i += 1;
    }
    assert(all@.take(i as int) =~= all@);
    keep_when(
        names.len() > 0 && !c.cluster.stonith_enabled,
        wrap(FENCE_WARNING, join(&names, ", ").as_str(), "\n"),
    )
}

fn titled(any: bool, title: &str, items: &str) -> (r: String)
    ensures
        r@ == given(any, title@ + items@ + "\n"@),
{
    keep_when(any, wrap(title, items, "\n"))
}

fn write_stonith_section(c: &PacemakerConfig) -> (r: String)
    ensures
        r@ == section(c.stonith_devices@, STONITH_TITLE@, stonith_part()),
{
    let all = &c.stonith_devices;
    let mut items = String::new();
    let mut i: usize = 0;
    while i < all.len()
        invariant
            all@ == c.stonith_devices@,
            i <= all.len(),
            items@ == flat(all@.take(i as int), stonith_part()),
        decreases all.len() - i,
    {
        proof {
            lemma_flat_take(all@, stonith_part(), i as int);
        }
        items.push_str(guard_resource(
                stonith_device_name(all[i].node.as_str()).as_str(),
                &generate_stonith_cmds(&all[i]),
            ).as_str());
        i += 1;
    }
    assert(all@.take(i as int) =~= all@);
    titled(all.len() > 0, STONITH_TITLE, items.as_str())
}

fn write_drbd_section(c: &PacemakerConfig) -> (r: String)
    ensures
        r@ == section(c.drbd_resources@, DRBD_TITLE@, drbd_part(clone_count(*c))),
{
    let all = &c.drbd_resources;
    let copies = copies_of(c);
    let mut items = String::new();
    let mut i: usize = 0;
    while i < all.len()
        invariant
            all@ == c.drbd_resources@,
            i <= all.len(),
            items@ == flat(all@.take(i as int), drbd_part(clone_count(*c))),
            copies == clone_count(*c),
        decreases all.len() - i,
    {
        proof {
            lemma_flat_take(all@, drbd_part(clone_count(*c)), i as int);
        }
        items.push_str(guard_resource(
                all[i].resource_name.as_str(),
                &generate_drbd_resource_cmds(&all[i], copies),
            ).as_str());
        i += 1;
    }
    assert(all@.take(i as int) =~= all@);
    titled(all.len() > 0, DRBD_TITLE, items.as_str())
}

fn write_fs_section(c: &PacemakerConfig) -> (r: String)
    ensures
        r@ == section(c.fs_resources@, FS_TITLE@, fs_part()),
{
    let all = &c.fs_resources;
    let mut items = String::new();
    let mut i: usize = 0;
    while i < all.len()
        invariant
            all@ == c.fs_resources@,
            i <= all.len(),
            items@ == flat(all@.take(i as int), fs_part()),
        decreases all.len() - i,
    {
        proof {
            lemma_flat_take(all@, fs_part(), i as int);
        }
        items.push_str(guard_resource(all[i].resource_name.as_str(), &generate_fs_resource_cmds(&all[i])).as_str());
        i += 1;
    }
    assert(all@.take(i as int) =~= all@);
    titled(all.len() > 0, FS_TITLE, items.as_str())
}

fn write_systemd_section(c: &PacemakerConfig) -> (r: String)
    ensures
        r@ == section(c.systemd_resources@, SYSTEMD_TITLE@, systemd_part()),
{
    let all = &c.systemd_resources;
    let mut items = String::new();
    let mut i: usize = 0;
    while i < all.len()
        invariant
            all@ == c.systemd_resources@,
            i <= all.len(),
            items@ == flat(all@.take(i as int), systemd_part()),
        decreases all.len() - i,
    {
        proof {
            lemma_flat_take(all@, systemd_part(), i as int);
        }
        items.push_str(guard_resource(
                all[i].resource_name.as_str(),
                &generate_systemd_resource_cmds(&all[i]),
            ).as_str());
        i += 1;
    }
    assert(all@.take(i as int) =~= all@);
    titled(all.len() > 0, SYSTEMD_TITLE, items.as_str())
}

fn write_group_section(c: &PacemakerConfig) -> (r: String)
    ensures
        r@ == section(c.resource_groups@, GROUP_TITLE@, group_part()),
{
    let all = &c.resource_groups;
    let mut items = String::new();
    let mut i: usize = 0;
    while i < all.len()
        invariant
            all@ == c.resource_groups@,
            i <= all.len(),
            items@ == flat(all@.take(i as int), group_part()),
        decreases all.len() - i,
    {
        proof {
            lemma_flat_take(all@, group_part(), i as int);
        }
        items.push_str(wrap_line(generate_resource_group_cmd(&all[i])).as_str());
        i += 1;
    }
    assert(all@.take(i as int) =~= all@);
    titled(all.len() > 0, GROUP_TITLE, items.as_str())
}

fn write_order_section(c: &PacemakerConfig) -> (r: String)
    ensures
        r@ == section(c.order_constraints@, ORDER_TITLE@, order_part()),
{
    let all = &c.order_constraints;
    let mut items = String::new();
    let mut i: usize = 0;
    while i < all.len()
        invariant
            all@ == c.order_constraints@,
            i <= all.len(),
            items@ == flat(all@.take(i as int), order_part()),
        decreases all.len() - i,
    {
        proof {
            lemma_flat_take(all@, order_part(), i as int);
        }
        items.push_str(guard_constraint(
                all[i].id.as_str(),
                generate_order_constraint(&all[i]).as_str(),
            ).as_str());
        i += 1;
    }
    assert(all@.take(i as int) =~= all@);
    titled(all.len() > 0, ORDER_TITLE, items.as_str())
}

fn write_colocation_section(c: &PacemakerConfig) -> (r: String)
    ensures
        r@ == section(c.colocation_constraints@, COLOCATION_TITLE@, colocation_part()),
{
    let all = &c.colocation_constraints;
    let mut items = String::new();
    let mut i: usize = 0;
    while i < all.len()
        invariant
            all@ == c.colocation_constraints@,
            i <= all.len(),
            items@ == flat(all@.take(i as int), colocation_part()),
        decreases all.len() - i,
    {
        proof {
            lemma_flat_take(all@, colocation_part(), i as int);
        }
        items.push_str(guard_constraint(
                all[i].id.as_str(),
                generate_colocation_constraint(&all[i]).as_str(),
            ).as_str());
        i += 1;
    }
    assert(all@.take(i as int) =~= all@);
    titled(all.len() > 0, COLOCATION_TITLE, items.as_str())
}

fn write_location_section(c: &PacemakerConfig) -> (r: String)
    ensures
        r@ == section(c.location_constraints@, LOCATION_TITLE@, location_part()),
{
    let all = &c.location_constraints;
    let mut items = String::new();
    let mut i: usize = 0;
    while i < all.len()
        invariant
            all@ == c.location_constraints@,
            i <= all.len(),
            items@ == flat(all@.take(i as int), location_part()),
        decreases all.len() - i,
    {
        proof {
            lemma_flat_take(all@, location_part(), i as int);
        }
        items.push_str(guard_constraint(
                all[i].id.as_str(),
                generate_location_constraint(&all[i]).as_str(),
            ).as_str());
        i += 1;
    }
    assert(all@.take(i as int) =~= all@);
    titled(all.len() > 0, LOCATION_TITLE, items.as_str())
}

fn wrap_line(s: String) -> (r: String)
    ensures
        r@ == s@ + "\n"@,
{
    let mut out = s;
    out.push_str("\n");
    out
}

/// The script that configures the cluster. It skips what exists already, so it can be run
/// again.
pub fn generate_pcs_script(config: &PacemakerConfig) -> (r: String)
    ensures
        r@ == pcs_script(*config),
{
    let mut out = PCS_HEAD.to_owned();
    out.push_str(flag_text(config.cluster.stonith_enabled));
    out.push_str("\npcs property set no-quorum-policy=");
    out.push_str(config.cluster.no_quorum_policy.as_str());
    out.push_str("\npcs resource defaults migration-threshold=");
    push_number(&mut out, config.cluster.migration_threshold as u64);
    out.push_str("\npcs resource defaults failure-timeout=");
    out.push_str(config.cluster.failure_timeout.as_str());
    out.push_str("\n\n");
    out.push_str(write_stonith_section(config).as_str());
    out.push_str(write_fence_warning(config).as_str());
    out.push_str(write_drbd_section(config).as_str());
    out.push_str(write_fs_section(config).as_str());
    out.push_str(write_systemd_section(config).as_str());
    out.push_str(write_group_section(config).as_str());
    out.push_str(write_order_section(config).as_str());
    out.push_str(write_colocation_section(config).as_str());
    out.push_str(write_location_section(config).as_str());
    out.push_str(PCS_DONE);
    out
}

// ---------------------------------------------------------------------------
// The script that undoes it
// ---------------------------------------------------------------------------

pub const TEARDOWN_HEAD: &'static str = "#!/bin/bash
# Pacemaker 리소스 해제 스크립트 (생성 스크립트의 짝)
#
# 이 앱이 등록한 Pacemaker 리소스와 제약조건만 제거합니다.
# DRBD 볼륨의 데이터, LINSTOR 리소스, .res 파일은 건드리지 않습니다
# — Pacemaker 관리에서만 빼냅니다.
#
# 의존 역순으로 지웁니다: 제약조건 → 그룹 → 서비스/FS → DRBD → STONITH
# 없는 항목은 건너뛰므로 여러 번 실행해도 안전합니다.

set -euo pipefail

";

pub const CONSTRAINTS_REMOVAL: &'static str = "# ─── 1. 제약조건 제거 ────────────────────────────────────────
";

pub const GROUPS_REMOVAL: &'static str = "# ─── 2. 리소스 그룹 해체 ─────────────────────────────────────
# 그룹을 지우면 멤버는 남는다(아래에서 개별 삭제).
";

pub const SYSTEMD_REMOVAL: &'static str = "# ─── 3. Systemd(Quadlet) 리소스 제거 ─────────────────────────
";

pub const FS_REMOVAL: &'static str = "# ─── 4. Filesystem 리소스 제거 (언마운트됨) ──────────────────
";

pub const DRBD_REMOVAL: &'static str = "# ─── 5. DRBD Promotable Clone 제거 ───────────────────────────
# clone id 를 지우면 안에 든 primitive 도 함께 사라진다.
";

pub const STONITH_REMOVAL: &'static str = "# ─── 6. STONITH 리소스 제거 ──────────────────────────────────
";

pub const TEARDOWN_DONE: &'static str = "# 실패 기록이 남아 있으면 정리한다 (없으면 no-op)
pcs resource cleanup >/dev/null 2>&1 || true

echo '✅ Pacemaker 리소스 해제 완료'
pcs resource status || true";

/// The deletion of a constraint, where it exists.
pub open spec fn constraint_removal(id: Seq<char>) -> Seq<char> {
    "if pcs constraint --full 2>/dev/null | grep -q \"(id: "@ + id
        + ")\"; then\n  pcs constraint delete "@ + shell_quoted(id)
        + "\nelse\n  echo \"  - 제약조건 "@ + id + " 없음 (건너뜀)\"\nfi\n"@
}

/// The deletion of a resource, where it exists.
pub open spec fn resource_removal(id: Seq<char>) -> Seq<char> {
    "if pcs resource config "@ + shell_quoted(id)
        + " >/dev/null 2>&1; then\n  pcs resource delete "@ + shell_quoted(id)
        + "\nelse\n  echo \"  - 리소스 "@ + id + " 없음 (건너뜀)\"\nfi\n"@
}

pub open spec fn location_removal() -> spec_fn(LocationConstraint) -> Seq<char> {
    |l: LocationConstraint| constraint_removal(l.id@)
}

pub open spec fn colocation_removal() -> spec_fn(ColocationConstraint) -> Seq<char> {
    |k: ColocationConstraint| constraint_removal(k.id@)
}

pub open spec fn order_removal() -> spec_fn(OrderConstraint) -> Seq<char> {
    |o: OrderConstraint| constraint_removal(o.id@)
}

pub open spec fn group_removal() -> spec_fn(ResourceGroup) -> Seq<char> {
    |g: ResourceGroup| resource_removal(g.group_name@)
}

pub open spec fn systemd_removal() -> spec_fn(SystemdResource) -> Seq<char> {
    |s: SystemdResource| resource_removal(s.resource_name@)
}

pub open spec fn fs_removal() -> spec_fn(FsResource) -> Seq<char> {
    |f: FsResource| resource_removal(f.resource_name@)
}

pub open spec fn drbd_removal() -> spec_fn(DrbdPacemakerResource) -> Seq<char> {
    |d: DrbdPacemakerResource| resource_removal(d.clone_name@)
}

pub open spec fn stonith_removal() -> spec_fn(StonithDevice) -> Seq<char> {
    |d: StonithDevice| resource_removal(stonith_name(d.node@))
}

/// The deletion of all constraints.
pub open spec fn constraints_removal(c: PacemakerConfig) -> Seq<char> {
    given(
        c.order_constraints@.len() > 0 || c.colocation_constraints@.len() > 0
            || c.location_constraints@.len() > 0,
        CONSTRAINTS_REMOVAL@ + flat(c.location_constraints@, location_removal()) + flat(
            c.colocation_constraints@,
            colocation_removal(),
        ) + flat(c.order_constraints@, order_removal()) + "\n"@,
    )
}

/// The script that removes what the configuration script has made, in reverse order of
/// dependence: constraints, groups, services, file systems, DRBD clones, fencing devices.
pub open spec fn teardown_script(c: PacemakerConfig) -> Seq<char> {
    TEARDOWN_HEAD@ + constraints_removal(c) + section(
        c.resource_groups@,
        GROUPS_REMOVAL@,
        group_removal(),
    ) + section(c.systemd_resources@, SYSTEMD_REMOVAL@, systemd_removal()) + section(
        c.fs_resources@,
        FS_REMOVAL@,
        fs_removal(),
    ) + section(c.drbd_resources@, DRBD_REMOVAL@, drbd_removal()) + section(
        c.stonith_devices@,
        STONITH_REMOVAL@,
        stonith_removal(),
    ) + TEARDOWN_DONE@
}

fn remove_constraint(id: &str) -> (r: String)
    ensures
        r@ == constraint_removal(id@),
{
    let mut out = "if pcs constraint --full 2>/dev/null | grep -q \"(id: ".to_owned();
    out.push_str(id);
    out.push_str(")\"; then\n  pcs constraint delete ");
    out.push_str(shell_quote(id).as_str());
    out.push_str("\nelse\n  echo \"  - 제약조건 ");
    out.push_str(id);
    out.push_str(" 없음 (건너뜀)\"\nfi\n");
    out
}

fn remove_resource(id: &str) -> (r: String)
    ensures
        r@ == resource_removal(id@),
{
    let mut out = "if pcs resource config ".to_owned();
    out.push_str(shell_quote(id).as_str());
    out.push_str(" >/dev/null 2>&1; then\n  pcs resource delete ");
    out.push_str(shell_quote(id).as_str());
    out.push_str("\nelse\n  echo \"  - 리소스 ");
    out.push_str(id);
    out.push_str(" 없음 (건너뜀)\"\nfi\n");
    out
}

fn remove_locations(c: &PacemakerConfig) -> (r: String)
    ensures
        r@ == flat(c.location_constraints@, location_removal()),
{
    let all = &c.location_constraints;
    let mut items = String::new();
    let mut i: usize = 0;
    while i < all.len()
        invariant
            all@ == c.location_constraints@,
            i <= all.len(),
            items@ == flat(all@.take(i as int), location_removal()),
        decreases all.len() - i,
    {
        proof {
            lemma_flat_take(all@, location_removal(), i as int);
        }
        items.push_str(remove_constraint(all[i].id.as_str()).as_str());
        i += 1;
    }
    assert(all@.take(i as int) =~= all@);
    items
}

fn remove_colocations(c: &PacemakerConfig) -> (r: String)
    ensures
        r@ == flat(c.colocation_constraints@, colocation_removal()),
{
    let all = &c.colocation_constraints;
    let mut items = String::new();
    let mut i: usize = 0;
    while i < all.len()
        invariant
            all@ == c.colocation_constraints@,
            i <= all.len(),
            items@ == flat(all@.take(i as int), colocation_removal()),
        decreases all.len() - i,
    {
        proof {
            lemma_flat_take(all@, colocation_removal(), i as int);
        }
        items.push_str(remove_constraint(all[i].id.as_str()).as_str());
        i += 1;
    }
    assert(all@.take(i as int) =~= all@);
    items
}

fn remove_orders(c: &PacemakerConfig) -> (r: String)
    ensures
        r@ == flat(c.order_constraints@, order_removal()),
{
    let all = &c.order_constraints;
    let mut items = String::new();
    let mut i: usize = 0;
    while i < all.len()
        invariant
            all@ == c.order_constraints@,
            i <= all.len(),
            items@ == flat(all@.take(i as int), order_removal()),
        decreases all.len() - i,
    {
        proof {
            lemma_flat_take(all@, order_removal(), i as int);
        }
        items.push_str(remove_constraint(all[i].id.as_str()).as_str());
        i += 1;
    }
    assert(all@.take(i as int) =~= all@);
    items
}

fn remove_constraints(c: &PacemakerConfig) -> (r: String)
    ensures
        r@ == constraints_removal(*c),
{
    let mut out = CONSTRAINTS_REMOVAL.to_owned();
    out.push_str(remove_locations(c).as_str());
    out.push_str(remove_colocations(c).as_str());
    out.push_str(remove_orders(c).as_str());
    out.push_str("\n");
    keep_when(
        c.order_constraints.len() > 0 || c.colocation_constraints.len() > 0
            || c.location_constraints.len() > 0,
        out,
    )
}

fn remove_groups(c: &PacemakerConfig) -> (r: String)
    ensures
        r@ == section(c.resource_groups@, GROUPS_REMOVAL@, group_removal()),
{
    let all = &c.resource_groups;
    let mut items = String::new();
    let mut i: usize = 0;
    while i < all.len()
        invariant
            all@ == c.resource_groups@,
            i <= all.len(),
            items@ == flat(all@.take(i as int), group_removal()),
        decreases all.len() - i,
    {
        proof {
            lemma_flat_take(all@, group_removal(), i as int);
        }
        items.push_str(remove_resource(all[i].group_name.as_str()).as_str());
        i += 1;
    }
    assert(all@.take(i as int) =~= all@);
    titled(all.len() > 0, GROUPS_REMOVAL, items.as_str())
}

fn remove_services(c: &PacemakerConfig) -> (r: String)
    ensures
        r@ == section(c.systemd_resources@, SYSTEMD_REMOVAL@, systemd_removal()),
{
    let all = &c.systemd_resources;
    let mut items = String::new();
    let mut i: usize = 0;
    while i < all.len()
        invariant
            all@ == c.systemd_resources@,
            i <= all.len(),
            items@ == flat(all@.take(i as int), systemd_removal()),
        decreases all.len() - i,
    {
        proof {
            lemma_flat_take(all@, systemd_removal(), i as int);
        }
        items.push_str(remove_resource(all[i].resource_name.as_str()).as_str());
        i += 1;
    }
    assert(all@.take(i as int) =~= all@);
    titled(all.len() > 0, SYSTEMD_REMOVAL, items.as_str())
}

fn remove_file_systems(c: &PacemakerConfig) -> (r: String)
    ensures
        r@ == section(c.fs_resources@, FS_REMOVAL@, fs_removal()),
{
    let all = &c.fs_resources;
    let mut items = String::new();
    let mut i: usize = 0;
    while i < all.len()
        invariant
            all@ == c.fs_resources@,
            i <= all.len(),
            items@ == flat(all@.take(i as int), fs_removal()),
        decreases all.len() - i,
    {
        proof {
            lemma_flat_take(all@, fs_removal(), i as int);
        }
        items.push_str(remove_resource(all[i].resource_name.as_str()).as_str());
        i += 1;
    }
    assert(all@.take(i as int) =~= all@);
    titled(all.len() > 0, FS_REMOVAL, items.as_str())
}

fn remove_clones(c: &PacemakerConfig) -> (r: String)
    ensures
        r@ == section(c.drbd_resources@, DRBD_REMOVAL@, drbd_removal()),
{
    let all = &c.drbd_resources;
    let mut items = String::new();
    let mut i: usize = 0;
    while i < all.len()
        invariant
            all@ == c.drbd_resources@,
            i <= all.len(),
            items@ == flat(all@.take(i as int), drbd_removal()),
        decreases all.len() - i,
    {
        proof {
            lemma_flat_take(all@, drbd_removal(), i as int);
        }
        items.push_str(remove_resource(all[i].clone_name.as_str()).as_str());
        i += 1;
    }
    assert(all@.take(i as int) =~= all@);
    titled(all.len() > 0, DRBD_REMOVAL, items.as_str())
}

fn remove_fencing(c: &PacemakerConfig) -> (r: String)
    ensures
        r@ == section(c.stonith_devices@, STONITH_REMOVAL@, stonith_removal()),
{
    let all = &c.stonith_devices;
    let mut items = String::new();
    let mut i: usize = 0;
    while i < all.len()
        invariant
            all@ == c.stonith_devices@,
            i <= all.len(),
            items@ == flat(all@.take(i as int), stonith_removal()),
        decreases all.len() - i,
    {
        proof {
            lemma_flat_take(all@, stonith_removal(), i as int);
        }
        items.push_str(remove_resource(stonith_device_name(all[i].node.as_str()).as_str()).as_str());
        i += 1;
    }
    assert(all@.take(i as int) =~= all@);
    titled(all.len() > 0, STONITH_REMOVAL, items.as_str())
}

/// The script that removes what the configuration script has made. It skips what is gone
/// already and does not touch the data.
pub fn generate_teardown_script(config: &PacemakerConfig) -> (r: String)
    ensures
        r@ == teardown_script(*config),
{
    let mut out = TEARDOWN_HEAD.to_owned();
    out.push_str(remove_constraints(config).as_str());
    out.push_str(remove_groups(config).as_str());
    out.push_str(remove_services(config).as_str());
    out.push_str(remove_file_systems(config).as_str());
    out.push_str(remove_clones(config).as_str());
    out.push_str(remove_fencing(config).as_str());
    out.push_str(TEARDOWN_DONE);
    out
}

// ---------------------------------------------------------------------------
// The XML
// ---------------------------------------------------------------------------

pub const CIB_HEAD: &'static str = "<?xml version=\"1.0\" ?>
<cib>
  <configuration>
    <resources>
";

pub const CIB_TAIL: &'static str = "    </resources>
  </configuration>
</cib>
";

pub open spec fn drbd_xml() -> spec_fn(DrbdPacemakerResource) -> Seq<char> {
    |d: DrbdPacemakerResource|
        "      <clone id=\""@ + d.clone_name@ + "\" promotable=\"true\">\n        <primitive id=\""@
            + d.resource_name@
            + "\" class=\"ocf\" provider=\"linbit\" type=\"drbd\">\n          <instance_attributes>\n            <nvpair name=\"drbd_resource\" value=\""@
            + d.drbd_resource_name@
            + "\"/>\n          </instance_attributes>\n        </primitive>\n      </clone>\n"@
}

pub open spec fn fs_xml() -> spec_fn(FsResource) -> Seq<char> {
    |f: FsResource|
        "      <primitive id=\""@ + f.resource_name@
            + "\" class=\"ocf\" provider=\"heartbeat\" type=\"Filesystem\">\n        <instance_attributes>\n          <nvpair name=\"device\" value=\""@
            + f.device@ + "\"/>\n          <nvpair name=\"directory\" value=\""@ + f.directory@
            + "\"/>\n          <nvpair name=\"fstype\" value=\""@ + f.fstype@
            + "\"/>\n        </instance_attributes>\n      </primitive>\n"@
}

pub open spec fn group_xml() -> spec_fn(ResourceGroup) -> Seq<char> {
    |g: ResourceGroup|
        "      <group id=\""@ + g.group_name@ + "\">\n"@ + wrapped(
            views(g.members@),
            "        <primitive id=\""@,
            "\"/>\n"@,
        ) + "      </group>\n"@
}

/// Whether a resource is a member of some group.
pub open spec fn in_some_group(groups: Seq<ResourceGroup>, name: Seq<char>) -> bool {
    exists|i: int| 0 <= i < groups.len() && has_text((#[trigger] groups[i]).members@, name)
}

/// A service, unless it stands in a group.
pub open spec fn systemd_xml(groups: Seq<ResourceGroup>) -> spec_fn(SystemdResource) -> Seq<char> {
    |s: SystemdResource|
        given(
            !in_some_group(groups, s.resource_name@),
            "      <primitive id=\""@ + s.resource_name@ + "\" class=\"systemd\" type=\""@
                + s.systemd_unit@ + "\"/>\n"@,
        )
}

/// The resources of a cluster as XML.
pub open spec fn cib_xml(c: PacemakerConfig) -> Seq<char> {
    CIB_HEAD@ + flat(c.drbd_resources@, drbd_xml()) + flat(c.fs_resources@, fs_xml()) + flat(
        c.resource_groups@,
        group_xml(),
    ) + flat(c.systemd_resources@, systemd_xml(c.resource_groups@)) + CIB_TAIL@
}

fn write_drbd_item(d: &DrbdPacemakerResource) -> (r: String)
    ensures
        r@ == drbd_xml()(*d),
{
    let mut out = "      <clone id=\"".to_owned();
    out.push_str(d.clone_name.as_str());
    out.push_str("\" promotable=\"true\">\n        <primitive id=\"");
    out.push_str(d.resource_name.as_str());
    out.push_str(
        "\" class=\"ocf\" provider=\"linbit\" type=\"drbd\">\n          <instance_attributes>\n            <nvpair name=\"drbd_resource\" value=\"",
    );
    out.push_str(d.drbd_resource_name.as_str());
    out.push_str(
        "\"/>\n          </instance_attributes>\n        </primitive>\n      </clone>\n",
    );
    out
}

fn write_fs_item(f: &FsResource) -> (r: String)
    ensures
        r@ == fs_xml()(*f),
{
    let mut out = "      <primitive id=\"".to_owned();
    out.push_str(f.resource_name.as_str());
    out.push_str(
        "\" class=\"ocf\" provider=\"heartbeat\" type=\"Filesystem\">\n        <instance_attributes>\n          <nvpair name=\"device\" value=\"",
    );
    out.push_str(f.device.as_str());
    out.push_str("\"/>\n          <nvpair name=\"directory\" value=\"");
    out.push_str(f.directory.as_str());
    out.push_str("\"/>\n          <nvpair name=\"fstype\" value=\"");
    out.push_str(f.fstype.as_str());
    out.push_str("\"/>\n        </instance_attributes>\n      </primitive>\n");
    out
}

fn write_group_item(g: &ResourceGroup) -> (r: String)
    ensures
        r@ == group_xml()(*g),
{
    let mut out = "      <group id=\"".to_owned();
    out.push_str(g.group_name.as_str());
    out.push_str("\">\n");
    out.push_str(wrap_all(&g.members, "        <primitive id=\"", "\"/>\n").as_str());
    out.push_str("      </group>\n");
    out
}

fn is_member(groups: &Vec<ResourceGroup>, name: &str) -> (r: bool)
    ensures
        r == in_some_group(groups@, name@),
{
    let mut i: usize = 0;
    while i < groups.len()
        invariant
            i <= groups.len(),
            forall|k: int| 0 <= k < i ==> !has_text((#[trigger] groups@[k]).members@, name@),
        decreases groups.len() - i,
    {
        if holds_text(&groups[i].members, name) {
            assert(has_text(groups@[i as int].members@, name@));
            return true;
        }
        i += 1;
    }
    false
}

fn write_systemd_item(groups: &Vec<ResourceGroup>, s: &SystemdResource) -> (r: String)
    ensures
        r@ == systemd_xml(groups@)(*s),
{
    let mut out = "      <primitive id=\"".to_owned();
    out.push_str(s.resource_name.as_str());
    out.push_str("\" class=\"systemd\" type=\"");
    out.push_str(s.systemd_unit.as_str());
    out.push_str("\"/>\n");
    keep_when(!is_member(groups, s.resource_name.as_str()), out)
}

fn write_drbd_items(c: &PacemakerConfig) -> (r: String)
    ensures
        r@ == flat(c.drbd_resources@, drbd_xml()),
{
    let all = &c.drbd_resources;
    let mut items = String::new();
    let mut i: usize = 0;
    while i < all.len()
        invariant
            all@ == c.drbd_resources@,
            i <= all.len(),
            items@ == flat(all@.take(i as int), drbd_xml()),
        decreases all.len() - i,
    {
        proof {
            lemma_flat_take(all@, drbd_xml(), i as int);
        }
        items.push_str(write_drbd_item(&all[i]).as_str());
        i += 1;
    }
    assert(all@.take(i as int) =~= all@);
    items
}

fn write_fs_items(c: &PacemakerConfig) -> (r: String)
    ensures
        r@ == flat(c.fs_resources@, fs_xml()),
{
    let all = &c.fs_resources;
    let mut items = String::new();
    let mut i: usize = 0;
    while i < all.len()
        invariant
            all@ == c.fs_resources@,
            i <= all.len(),
            items@ == flat(all@.take(i as int), fs_xml()),
        decreases all.len() - i,
    {
        proof {
            lemma_flat_take(all@, fs_xml(), i as int);
        }
        items.push_str(write_fs_item(&all[i]).as_str());
        i += 1;
    }
    assert(all@.take(i as int) =~= all@);
    items
}

fn write_group_items(c: &PacemakerConfig) -> (r: String)
    ensures
        r@ == flat(c.resource_groups@, group_xml()),
{
    let all = &c.resource_groups;
    let mut items = String::new();
    let mut i: usize = 0;
    while i < all.len()
        invariant
            all@ == c.resource_groups@,
            i <= all.len(),
            items@ == flat(all@.take(i as int), group_xml()),
        decreases all.len() - i,
    {
        proof {
            lemma_flat_take(all@, group_xml(), i as int);
        }
        items.push_str(write_group_item(&all[i]).as_str());
        i += 1;
    }
    assert(all@.take(i as int) =~= all@);
    items
}

fn write_systemd_items(c: &PacemakerConfig) -> (r: String)
    ensures
        r@ == flat(c.systemd_resources@, systemd_xml(c.resource_groups@)),
{
    let all = &c.systemd_resources;
    let mut items = String::new();
    let mut i: usize = 0;
    while i < all.len()
        invariant
            all@ == c.systemd_resources@,
            i <= all.len(),
            items@ == flat(all@.take(i as int), systemd_xml(c.resource_groups@)),
        decreases all.len() - i,
    {
        proof {
            lemma_flat_take(all@, systemd_xml(c.resource_groups@), i as int);
        }
        items.push_str(write_systemd_item(&c.resource_groups, &all[i]).as_str());
        i += 1;
    }
    assert(all@.take(i as int) =~= all@);
    items
}

/// The resources of a cluster as XML.
pub fn generate_cib_xml_snippet(config: &PacemakerConfig) -> (r: String)
    ensures
        r@ == cib_xml(*config),
{
    let mut out = CIB_HEAD.to_owned();
    out.push_str(write_drbd_items(config).as_str());
    out.push_str(write_fs_items(config).as_str());
    out.push_str(write_group_items(config).as_str());
    out.push_str(write_systemd_items(config).as_str());
    out.push_str(CIB_TAIL);
    out
}

// ---------------------------------------------------------------------------
// The maintenance script
// ---------------------------------------------------------------------------

pub const MAINTENANCE_HEAD: &'static str = "#!/bin/bash
# Pacemaker 클러스터 롤링 유지보수 스크립트 (가이드 5.1절 절차)
# 노드를 한 번에 하나씩, 완전히 정상화를 확인한 뒤 다음 노드로 진행합니다.
# set -e로 인해 어느 단계든 실패하면 즉시 중단되고 다음 노드로 넘어가지 않습니다.
#
# 알려진 공백(가이드 8.4절): Pacemaker가 관리하지 않는 podman 컨테이너
# (Restart=always + WantedBy=multi-user.target로 구성된 Quadlet 유닛)는
# 이 스크립트가 건드리지 않습니다 — 재부팅 전에 별도로
# `systemctl stop <unit>`을 실행하세요. `podman kill`/`podman rm -f`로
# 직접 종료하면 Restart=always 때문에 systemd가 즉시 재기동시킵니다.

set -euo pipefail

CONTROLLER=\"";

pub const MAINTENANCE_NODES: &'static str = "\"  # pcs 상태 조회는 이 노드를 통해 실행
NODES=(";

pub const MAINTENANCE_STEPS: &'static str = ")
LOCK_PACKAGES=\"pacemaker corosync pcs\"

pcs_status() { ssh \"$CONTROLLER\" pcs status; }

for node in \"${NODES[@]}\"; do
  echo \"=== [$node] 유지보수 시작 ===\"

  echo \"[$node] 1. 온라인 노드 수 확인 (과반수 유지 필요)\"
  pcs_status

  echo \"[$node] 2. pacemaker/corosync/pcs versionlock 해제\"
  ssh \"$node\" \"dnf versionlock delete $LOCK_PACKAGES\" || true

  echo \"[$node] 3. standby\"
  ssh \"$CONTROLLER\" \"pcs node standby $node\"

  echo \"[$node] 4. 리소스가 다른 노드로 모두 이동했는지 확인\"
  pcs_status
  read -r -p \"[$node] Failed Resource Actions 없이 리소스가 이동했습니까? 계속하려면 Enter, 중단하려면 Ctrl+C: \"

  echo \"[$node] 5. 클러스터 멤버십에서 완전히 이탈 (STONITH 오발동 방지)\"
  ssh \"$node\" \"pcs cluster stop\"

  echo \"[$node] 6. 다른 노드 관점에서 Offline 확인\"
  pcs_status

  echo \"[$node] 7. 패키지 업데이트 (커널/DRBD 모듈 포함)\"
  ssh \"$node\" \"dnf update -y\"

  echo \"[$node] 8. 재부팅 후 SSH 재접속 대기\"
  ssh \"$node\" \"reboot\" || true
  until ssh -o ConnectTimeout=5 -o StrictHostKeyChecking=no \"$node\" true 2>/dev/null; do sleep 5; done

  echo \"[$node] 9. versionlock 재설정\"
  ssh \"$node\" \"dnf versionlock add $LOCK_PACKAGES\"

  echo \"[$node] 10. 클러스터 재합류\"
  ssh \"$node\" \"pcs cluster start\"

  echo \"[$node] 11. Online 재합류 확인\"
  pcs_status

  echo \"[$node] 12. unstandby\"
  ssh \"$CONTROLLER\" \"pcs node unstandby $node\"

  echo \"[$node] 13. 최종 확인\"
  pcs_status
  read -r -p \"[$node] Failed Resource Actions 없습니까? 다음 노드로 진행하려면 Enter, 중단하려면 Ctrl+C: \"

  echo \"=== [$node] 유지보수 완료 ===\"
done

echo '✅ 모든 노드 유지보수 완료'";

/// The names of the nodes.
pub open spec fn node_names(nodes: Seq<ClusterNode>) -> Seq<Seq<char>> {
    Seq::new(nodes.len(), |i: int| nodes[i].name@)
}

/// The script that takes the nodes out of the cluster one by one, updates and reboots
/// them; nothing where there are no nodes.
pub open spec fn maintenance_script(c: PacemakerConfig) -> Seq<char> {
    given(
        c.cluster.nodes@.len() > 0,
        MAINTENANCE_HEAD@ + c.cluster.nodes@[0].name@ + MAINTENANCE_NODES@ + joined(
            node_names(c.cluster.nodes@),
            " "@,
        ) + MAINTENANCE_STEPS@,
    )
}

/// The script that takes the nodes out of the cluster one by one, updates and reboots
/// them; an empty text where there are no nodes.
pub fn generate_maintenance_script(config: &PacemakerConfig) -> (r: String)
    ensures
        r@ == maintenance_script(*config),
{
    let nodes = &config.cluster.nodes;
    if nodes.len() == 0 {
        return String::new();
    }
    let mut names: Vec<String> = Vec::new();
    let mut i: usize = 0;
    while i < nodes.len()
        invariant
            i <= nodes.len(),
            views(names@) =~= node_names(nodes@).take(i as int),
        decreases nodes.len() - i,
    {
        add_line(&mut names, nodes[i].name.as_str());
        i += 1;
    }
    assert(node_names(nodes@).take(i as int) =~= node_names(nodes@));
    let mut out = MAINTENANCE_HEAD.to_owned();
    out.push_str(nodes[0].name.as_str());
    out.push_str(MAINTENANCE_NODES);
    out.push_str(join(&names, " ").as_str());
    out.push_str(MAINTENANCE_STEPS);
    out
}

// ---------------------------------------------------------------------------
// What holds of the scripts
// ---------------------------------------------------------------------------

pub proof fn lemma_section_contains<T>(
    v: Seq<T>,
    title: Seq<char>,
    f: spec_fn(T) -> Seq<char>,
    i: int,
)
    requires
        0 <= i < v.len(),
    ensures
        contains_text(section(v, title, f), f(v[i])),
{
    lemma_flat_contains(v, f, i);
    lemma_contains_sum(title, flat(v, f), f(v[i]));
    lemma_contains_sum(title + flat(v, f), "\n"@, f(v[i]));
}

/// What stands in a section of the script stands in the script.
proof fn lemma_in_script(c: PacemakerConfig, p: Seq<char>)
    requires
        contains_text(section(c.stonith_devices@, STONITH_TITLE@, stonith_part()), p)
            || contains_text(fence_warning(c), p) || contains_text(
            section(c.drbd_resources@, DRBD_TITLE@, drbd_part(clone_count(c))),
            p,
        ) || contains_text(section(c.fs_resources@, FS_TITLE@, fs_part()), p) || contains_text(
            section(c.systemd_resources@, SYSTEMD_TITLE@, systemd_part()),
            p,
        ) || contains_text(section(c.resource_groups@, GROUP_TITLE@, group_part()), p)
            || contains_text(section(c.order_constraints@, ORDER_TITLE@, order_part()), p)
            || contains_text(
            section(c.colocation_constraints@, COLOCATION_TITLE@, colocation_part()),
            p,
        ) || contains_text(section(c.location_constraints@, LOCATION_TITLE@, location_part()), p),
    ensures
        contains_text(pcs_script(c), p),
{
    let s0 = PCS_HEAD@ + flag(c.cluster.stonith_enabled) + "\npcs property set no-quorum-policy="@
        + c.cluster.no_quorum_policy@ + "\npcs resource defaults migration-threshold="@ + decimal(
        c.cluster.migration_threshold as nat,
    ) + "\npcs resource defaults failure-timeout="@ + c.cluster.failure_timeout@ + "\n\n"@;
    let x1 = section(c.stonith_devices@, STONITH_TITLE@, stonith_part());
    let x2 = fence_warning(c);
    let x3 = section(c.drbd_resources@, DRBD_TITLE@, drbd_part(clone_count(c)));
    let x4 = section(c.fs_resources@, FS_TITLE@, fs_part());
    let x5 = section(c.systemd_resources@, SYSTEMD_TITLE@, systemd_part());
    let x6 = section(c.resource_groups@, GROUP_TITLE@, group_part());
    let x7 = section(c.order_constraints@, ORDER_TITLE@, order_part());
    let x8 = section(c.colocation_constraints@, COLOCATION_TITLE@, colocation_part());
    let x9 = section(c.location_constraints@, LOCATION_TITLE@, location_part());
    lemma_contains_sum(s0, x1, p);
    lemma_contains_sum(s0 + x1, x2, p);
    lemma_contains_sum(s0 + x1 + x2, x3, p);
    lemma_contains_sum(s0 + x1 + x2 + x3, x4, p);
    lemma_contains_sum(s0 + x1 + x2 + x3 + x4, x5, p);
    lemma_contains_sum(s0 + x1 + x2 + x3 + x4 + x5, x6, p);
    lemma_contains_sum(s0 + x1 + x2 + x3 + x4 + x5 + x6, x7, p);
    lemma_contains_sum(s0 + x1 + x2 + x3 + x4 + x5 + x6 + x7, x8, p);
    lemma_contains_sum(s0 + x1 + x2 + x3 + x4 + x5 + x6 + x7 + x8, x9, p);
    lemma_contains_sum(s0 + x1 + x2 + x3 + x4 + x5 + x6 + x7 + x8 + x9, PCS_DONE@, p);
}

/// The script creates every fencing device, DRBD resource, file system and service, each
/// behind a test that it does not exist yet, so that the script can be run again.
pub proof fn law_every_resource_is_guarded(c: PacemakerConfig)
    ensures
        forall|i: int|
            0 <= i < c.stonith_devices@.len() ==> contains_text(
                pcs_script(c),
                guarded_resource(
                    stonith_name((#[trigger] c.stonith_devices@[i]).node@),
                    stonith_cmds(c.stonith_devices@[i]),
                ),
            ),
        forall|i: int|
            0 <= i < c.drbd_resources@.len() ==> contains_text(
                pcs_script(c),
                guarded_resource(
                    (#[trigger] c.drbd_resources@[i]).resource_name@,
                    drbd_cmds(c.drbd_resources@[i], clone_count(c)),
                ),
            ),
        forall|i: int|
            0 <= i < c.fs_resources@.len() ==> contains_text(
                pcs_script(c),
                guarded_resource(
                    (#[trigger] c.fs_resources@[i]).resource_name@,
                    fs_cmds(c.fs_resources@[i]),
                ),
            ),
        forall|i: int|
            0 <= i < c.systemd_resources@.len() ==> contains_text(
                pcs_script(c),
                guarded_resource(
                    (#[trigger] c.systemd_resources@[i]).resource_name@,
                    systemd_cmds(c.systemd_resources@[i]),
                ),
            ),
{
    assert forall|i: int| 0 <= i < c.stonith_devices@.len() implies contains_text(
        pcs_script(c),
        guarded_resource(
            stonith_name((#[trigger] c.stonith_devices@[i]).node@),
            stonith_cmds(c.stonith_devices@[i]),
        ),
    ) by {
        lemma_section_contains(c.stonith_devices@, STONITH_TITLE@, stonith_part(), i);
        lemma_in_script(c, stonith_part()(c.stonith_devices@[i]));
    }
    assert forall|i: int| 0 <= i < c.drbd_resources@.len() implies contains_text(
        pcs_script(c),
        guarded_resource(
            (#[trigger] c.drbd_resources@[i]).resource_name@,
            drbd_cmds(c.drbd_resources@[i], clone_count(c)),
        ),
    ) by {
        lemma_section_contains(c.drbd_resources@, DRBD_TITLE@, drbd_part(clone_count(c)), i);
        lemma_in_script(c, drbd_part(clone_count(c))(c.drbd_resources@[i]));
    }
    assert forall|i: int| 0 <= i < c.fs_resources@.len() implies contains_text(
        pcs_script(c),
        guarded_resource(
            (#[trigger] c.fs_resources@[i]).resource_name@,
            fs_cmds(c.fs_resources@[i]),
        ),
    ) by {
        lemma_section_contains(c.fs_resources@, FS_TITLE@, fs_part(), i);
        lemma_in_script(c, fs_part()(c.fs_resources@[i]));
    }
    assert forall|i: int| 0 <= i < c.systemd_resources@.len() implies contains_text(
        pcs_script(c),
        guarded_resource(
            (#[trigger] c.systemd_resources@[i]).resource_name@,
            systemd_cmds(c.systemd_resources@[i]),
        ),
    ) by {
        lemma_section_contains(c.systemd_resources@, SYSTEMD_TITLE@, systemd_part(), i);
        lemma_in_script(c, systemd_part()(c.systemd_resources@[i]));
    }
}

/// The script adds every constraint, each behind a test that it does not exist yet.
pub proof fn law_every_constraint_is_guarded(c: PacemakerConfig)
    ensures
        forall|i: int|
            0 <= i < c.order_constraints@.len() ==> contains_text(
                pcs_script(c),
                guarded_constraint(
                    (#[trigger] c.order_constraints@[i]).id@,
                    order_cmd(c.order_constraints@[i]@),
                ),
            ),
        forall|i: int|
            0 <= i < c.colocation_constraints@.len() ==> contains_text(
                pcs_script(c),
                guarded_constraint(
                    (#[trigger] c.colocation_constraints@[i]).id@,
                    colocation_cmd(c.colocation_constraints@[i]@),
                ),
            ),
        forall|i: int|
            0 <= i < c.location_constraints@.len() ==> contains_text(
                pcs_script(c),
                guarded_constraint(
                    (#[trigger] c.location_constraints@[i]).id@,
                    location_cmd(c.location_constraints@[i]),
                ),
            ),
{
    assert forall|i: int| 0 <= i < c.order_constraints@.len() implies contains_text(
        pcs_script(c),
        guarded_constraint(
            (#[trigger] c.order_constraints@[i]).id@,
            order_cmd(c.order_constraints@[i]@),
        ),
    ) by {
        lemma_section_contains(c.order_constraints@, ORDER_TITLE@, order_part(), i);
        lemma_in_script(c, order_part()(c.order_constraints@[i]));
    }
    assert forall|i: int| 0 <= i < c.colocation_constraints@.len() implies contains_text(
        pcs_script(c),
        guarded_constraint(
            (#[trigger] c.colocation_constraints@[i]).id@,
            colocation_cmd(c.colocation_constraints@[i]@),
        ),
    ) by {
        lemma_section_contains(c.colocation_constraints@, COLOCATION_TITLE@, colocation_part(), i);
        lemma_in_script(c, colocation_part()(c.colocation_constraints@[i]));
    }
    assert forall|i: int| 0 <= i < c.location_constraints@.len() implies contains_text(
        pcs_script(c),
        guarded_constraint(
            (#[trigger] c.location_constraints@[i]).id@,
            location_cmd(c.location_constraints@[i]),
        ),
    ) by {
        lemma_section_contains(c.location_constraints@, LOCATION_TITLE@, location_part(), i);
        lemma_in_script(c, location_part()(c.location_constraints@[i]));
    }
}

/// Each DRBD resource gets one copy on each node of the cluster, three where the nodes are
/// not known.
pub proof fn law_clones_follow_the_nodes(c: PacemakerConfig, i: int)
    requires
        0 <= i < c.drbd_resources@.len(),
    ensures
        contains_text(
            pcs_script(c),
            "  "@ + ("    clone-max="@ + decimal(
                if c.cluster.nodes@.len() == 0 {
                    3
                } else {
                    c.cluster.nodes@.len()
                },
            ) + " clone-node-max=1 \\"@) + "\n"@,
        ),
{
    let d = c.drbd_resources@[i];
    let cmds = drbd_cmds(d, clone_count(c));
    let line = "    clone-max="@ + decimal(clone_count(c)) + " clone-node-max=1 \\"@;
    assert(cmds[12] == line);
    lemma_wrapped_contains(cmds, "  "@, "\n"@, 12);
    let want = "  "@ + line + "\n"@;
    let head = "if ! pcs resource config "@ + shell_quoted(d.resource_name@)
        + " >/dev/null 2>&1; then\n"@;
    let body = wrapped(cmds, "  "@, "\n"@);
    lemma_contains_sum(head, body, want);
    lemma_contains_sum(head + body, "else\n  echo \"  - "@, want);
    lemma_contains_sum(head + body + "else\n  echo \"  - "@, d.resource_name@, want);
    lemma_contains_sum(
        head + body + "else\n  echo \"  - "@ + d.resource_name@,
        " 는 이미 있어 건너뜁니다\"\nfi\n"@,
        want,
    );
    law_every_resource_is_guarded(c);
    lemma_contains_trans(pcs_script(c), guarded_resource(d.resource_name@, cmds), want);
}

/// The script warns that fencing is disabled exactly where a DRBD resource is to be fenced
/// and fencing is disabled.
pub proof fn law_fencing_without_stonith_is_warned_of(c: PacemakerConfig)
    ensures
        !c.cluster.stonith_enabled && (exists|i: int|
            0 <= i < c.drbd_resources@.len() && trimmed((#[trigger] c.drbd_resources@[i]).on_fail@)
                == "fence"@) ==> contains_text(pcs_script(c), FENCE_WARNING@),
        c.cluster.stonith_enabled || (forall|i: int|
            0 <= i < c.drbd_resources@.len() ==> trimmed(
                (#[trigger] c.drbd_resources@[i]).on_fail@,
            ) != "fence"@) ==> fence_warning(c).len() == 0,
{
    let names = flat(c.drbd_resources@, fenced_name());
    lemma_fenced_names(c.drbd_resources@);
    if names.len() > 0 && !c.cluster.stonith_enabled {
        let tail = joined(names, ", "@);
        lemma_contains_self(FENCE_WARNING@);
        lemma_contains_sum(FENCE_WARNING@, tail, FENCE_WARNING@);
        lemma_contains_sum(FENCE_WARNING@ + tail, "\n"@, FENCE_WARNING@);
        lemma_in_script(c, FENCE_WARNING@);
    }
}

proof fn lemma_fenced_names(v: Seq<DrbdPacemakerResource>)
    ensures
        (flat(v, fenced_name()).len() > 0) == (exists|i: int|
            0 <= i < v.len() && trimmed((#[trigger] v[i]).on_fail@) == "fence"@),
    decreases v.len(),
{
    if v.len() > 0 {
        lemma_fenced_names(v.drop_last());
        let front = v.drop_last();
        if exists|i: int| 0 <= i < front.len() && trimmed((#[trigger] front[i]).on_fail@) == "fence"@ {
            let i = choose|i: int|
                0 <= i < front.len() && trimmed((#[trigger] front[i]).on_fail@) == "fence"@;
            assert(v[i] == front[i]);
        }
        if exists|i: int| 0 <= i < v.len() && trimmed((#[trigger] v[i]).on_fail@) == "fence"@ {
            let i = choose|i: int|
                0 <= i < v.len() && trimmed((#[trigger] v[i]).on_fail@) == "fence"@;
            if i < v.len() - 1 {
                assert(front[i] == v[i]);
            }
        }
        assert(v.last() == v[v.len() - 1]);
    }
}

/// The part of the teardown script that removes one kind of item. The kinds are numbered
/// in the order of the script: constraints, groups, services, file systems, DRBD clones,
/// fencing devices.
pub open spec fn removal_part(c: PacemakerConfig, kind: int) -> Seq<char> {
    if kind == 0 {
        constraints_removal(c)
    } else if kind == 1 {
        section(c.resource_groups@, GROUPS_REMOVAL@, group_removal())
    } else if kind == 2 {
        section(c.systemd_resources@, SYSTEMD_REMOVAL@, systemd_removal())
    } else if kind == 3 {
        section(c.fs_resources@, FS_REMOVAL@, fs_removal())
    } else if kind == 4 {
        section(c.drbd_resources@, DRBD_REMOVAL@, drbd_removal())
    } else {
        section(c.stonith_devices@, STONITH_REMOVAL@, stonith_removal())
    }
}

/// Whether the configuration has an item of that kind whose removal is the text.
pub open spec fn removes(c: PacemakerConfig, kind: int, text: Seq<char>) -> bool {
    if kind == 0 {
        ||| exists|i: int|
            0 <= i < c.order_constraints@.len() && text == constraint_removal(
                (#[trigger] c.order_constraints@[i]).id@,
            )
        ||| exists|i: int|
            0 <= i < c.colocation_constraints@.len() && text == constraint_removal(
                (#[trigger] c.colocation_constraints@[i]).id@,
            )
        ||| exists|i: int|
            0 <= i < c.location_constraints@.len() && text == constraint_removal(
                (#[trigger] c.location_constraints@[i]).id@,
            )
    } else if kind == 1 {
        exists|i: int|
            0 <= i < c.resource_groups@.len() && text == resource_removal(
                (#[trigger] c.resource_groups@[i]).group_name@,
            )
    } else if kind == 2 {
        exists|i: int|
            0 <= i < c.systemd_resources@.len() && text == resource_removal(
                (#[trigger] c.systemd_resources@[i]).resource_name@,
            )
    } else if kind == 3 {
        exists|i: int|
            0 <= i < c.fs_resources@.len() && text == resource_removal(
                (#[trigger] c.fs_resources@[i]).resource_name@,
            )
    } else if kind == 4 {
        exists|i: int|
            0 <= i < c.drbd_resources@.len() && text == resource_removal(
                (#[trigger] c.drbd_resources@[i]).clone_name@,
            )
    } else if kind == 5 {
        exists|i: int|
            0 <= i < c.stonith_devices@.len() && text == resource_removal(
                stonith_name((#[trigger] c.stonith_devices@[i]).node@),
            )
    } else {
        false
    }
}

proof fn lemma_constraint_is_removed(c: PacemakerConfig, text: Seq<char>)
    requires
        removes(c, 0, text),
    ensures
        contains_text(constraints_removal(c), text),
{
    let a = flat(c.location_constraints@, location_removal());
    let b = flat(c.colocation_constraints@, colocation_removal());
    let d = flat(c.order_constraints@, order_removal());
    lemma_contains_sum(CONSTRAINTS_REMOVAL@, a, text);
    lemma_contains_sum(CONSTRAINTS_REMOVAL@ + a, b, text);
    lemma_contains_sum(CONSTRAINTS_REMOVAL@ + a + b, d, text);
    lemma_contains_sum(CONSTRAINTS_REMOVAL@ + a + b + d, "\n"@, text);
    if exists|i: int|
        0 <= i < c.order_constraints@.len() && text == constraint_removal(
            (#[trigger] c.order_constraints@[i]).id@,
        ) {
        let i = choose|i: int|
            0 <= i < c.order_constraints@.len() && text == constraint_removal(
                (#[trigger] c.order_constraints@[i]).id@,
            );
        lemma_flat_contains(c.order_constraints@, order_removal(), i);
    } else if exists|i: int|
        0 <= i < c.colocation_constraints@.len() && text == constraint_removal(
            (#[trigger] c.colocation_constraints@[i]).id@,
        ) {
        let i = choose|i: int|
            0 <= i < c.colocation_constraints@.len() && text == constraint_removal(
                (#[trigger] c.colocation_constraints@[i]).id@,
            );
        lemma_flat_contains(c.colocation_constraints@, colocation_removal(), i);
    } else {
        let i = choose|i: int|
            0 <= i < c.location_constraints@.len() && text == constraint_removal(
                (#[trigger] c.location_constraints@[i]).id@,
            );
        lemma_flat_contains(c.location_constraints@, location_removal(), i);
    }
}

proof fn lemma_item_is_removed(c: PacemakerConfig, kind: int, text: Seq<char>)
    requires
        removes(c, kind, text),
    ensures
        contains_text(removal_part(c, kind), text),
{
    if kind == 0 {
        lemma_constraint_is_removed(c, text);
    } else if kind == 1 {
        let i = choose|i: int|
            0 <= i < c.resource_groups@.len() && text == resource_removal(
                (#[trigger] c.resource_groups@[i]).group_name@,
            );
        lemma_section_contains(c.resource_groups@, GROUPS_REMOVAL@, group_removal(), i);
    } else if kind == 2 {
        let i = choose|i: int|
            0 <= i < c.systemd_resources@.len() && text == resource_removal(
                (#[trigger] c.systemd_resources@[i]).resource_name@,
            );
        lemma_section_contains(c.systemd_resources@, SYSTEMD_REMOVAL@, systemd_removal(), i);
    } else if kind == 3 {
        let i = choose|i: int|
            0 <= i < c.fs_resources@.len() && text == resource_removal(
                (#[trigger] c.fs_resources@[i]).resource_name@,
            );
        lemma_section_contains(c.fs_resources@, FS_REMOVAL@, fs_removal(), i);
    } else if kind == 4 {
        let i = choose|i: int|
            0 <= i < c.drbd_resources@.len() && text == resource_removal(
                (#[trigger] c.drbd_resources@[i]).clone_name@,
            );
        lemma_section_contains(c.drbd_resources@, DRBD_REMOVAL@, drbd_removal(), i);
    } else {
        let i = choose|i: int|
            0 <= i < c.stonith_devices@.len() && text == resource_removal(
                stonith_name((#[trigger] c.stonith_devices@[i]).node@),
            );
        lemma_section_contains(c.stonith_devices@, STONITH_REMOVAL@, stonith_removal(), i);
    }
}

/// The parts of the teardown script from `from` on, up to `to`.
spec fn removal_parts(c: PacemakerConfig, from: int, to: int) -> Seq<char>
    decreases to - from,
{
    if from >= to {
        Seq::empty()
    } else {
        removal_parts(c, from, to - 1) + removal_part(c, to - 1)
    }
}

proof fn lemma_removal_parts_split(c: PacemakerConfig, from: int, mid: int, to: int)
    requires
        from <= mid <= to,
    ensures
        removal_parts(c, from, to) == removal_parts(c, from, mid) + removal_parts(c, mid, to),
    decreases to - mid,
{
    if mid == to {
        assert(removal_parts(c, mid, to) =~= Seq::<char>::empty());
        assert(removal_parts(c, from, mid) + Seq::<char>::empty() =~= removal_parts(c, from, mid));
    } else {
        lemma_removal_parts_split(c, from, mid, to - 1);
        assert(removal_parts(c, from, mid) + removal_parts(c, mid, to - 1) + removal_part(c, to - 1)
            =~= removal_parts(c, from, mid) + (removal_parts(c, mid, to - 1) + removal_part(
            c,
            to - 1,
        )));
    }
}

proof fn lemma_removal_part_in_parts(
    c: PacemakerConfig,
    from: int,
    kind: int,
    to: int,
    text: Seq<char>,
)
    requires
        from <= kind < to,
        contains_text(removal_part(c, kind), text),
    ensures
        contains_text(removal_parts(c, from, to), text),
    decreases to - kind,
{
    lemma_contains_sum(removal_parts(c, from, to - 1), removal_part(c, to - 1), text);
    if kind < to - 1 {
        lemma_removal_part_in_parts(c, from, kind, to - 1, text);
    }
}

proof fn lemma_teardown_parts(c: PacemakerConfig)
    ensures
        teardown_script(c) == TEARDOWN_HEAD@ + removal_parts(c, 0, 6) + TEARDOWN_DONE@,
{
    let head = TEARDOWN_HEAD@;
    lemma_next_removal_part(c, head, 5);
    lemma_next_removal_part(c, head, 4);
    lemma_next_removal_part(c, head, 3);
    lemma_next_removal_part(c, head, 2);
    lemma_next_removal_part(c, head, 1);
    lemma_next_removal_part(c, head, 0);
    assert(head + removal_parts(c, 0, 0) =~= head);
}

proof fn lemma_next_removal_part(c: PacemakerConfig, head: Seq<char>, k: int)
    requires
        0 <= k,
    ensures
        head + removal_parts(c, 0, k + 1) == head + removal_parts(c, 0, k) + removal_part(c, k),
{
    assert(head + (removal_parts(c, 0, k) + removal_part(c, k)) =~= head + removal_parts(c, 0, k)
        + removal_part(c, k));
}

/// The teardown script removes every item of the configuration, each behind a test that it
/// exists, so that the script can be run again.
pub proof fn law_teardown_removes_everything(c: PacemakerConfig, kind: int, text: Seq<char>)
    requires
        removes(c, kind, text),
    ensures
        contains_text(teardown_script(c), text),
{
    lemma_item_is_removed(c, kind, text);
    lemma_removal_part_in_parts(c, 0, kind, 6, text);
    lemma_teardown_parts(c);
    lemma_contains_sum(TEARDOWN_HEAD@, removal_parts(c, 0, 6), text);
    lemma_contains_sum(TEARDOWN_HEAD@ + removal_parts(c, 0, 6), TEARDOWN_DONE@, text);
}

/// The teardown script works against the order of dependence: constraints go before groups,
/// groups before services, services before file systems, these before DRBD clones, and
/// those before fencing devices.
pub proof fn law_teardown_reverses_dependence(
    c: PacemakerConfig,
    kind: int,
    text: Seq<char>,
    later: int,
    later_text: Seq<char>,
)
    requires
        kind < later,
        removes(c, kind, text),
        removes(c, later, later_text),
    ensures
        stands_before(teardown_script(c), text, later_text),
{
    lemma_item_is_removed(c, kind, text);
    lemma_item_is_removed(c, later, later_text);
    lemma_removal_part_in_parts(c, 0, kind, later, text);
    lemma_removal_part_in_parts(c, later, later, 6, later_text);
    lemma_removal_parts_split(c, 0, later, 6);
    lemma_before_in_sum(
        removal_parts(c, 0, later),
        removal_parts(c, later, 6),
        text,
        later_text,
    );
    lemma_teardown_parts(c);
    lemma_before_in_part(TEARDOWN_HEAD@, removal_parts(c, 0, 6), TEARDOWN_DONE@, text, later_text);
}

} // verus!
