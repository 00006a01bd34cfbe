//! The playbook that sets a cluster up, registers its fencing devices and creates its
//! resources and constraints.

use crate::generators::pacemaker::{clone_count, copies_of};
use crate::generators::pacemaker_cmds::{
    colocation_cmd, drbd_cmds, fs_cmds, generate_colocation_constraint,
    generate_drbd_resource_cmds, generate_fs_resource_cmds, generate_location_constraint,
    generate_order_constraint, generate_resource_group_cmd, generate_systemd_resource_cmds,
    group_cmd, location_cmd, order_cmd, role_prefix, stonith_device_name, stonith_name,
    systemd_cmds, write_role_prefix, yaml_double_quoted, yaml_dquote, yaml_dquote_inner,
    yaml_escaped, yaml_single_quoted, yaml_squote,
};
use crate::lines::{flat, join, joined, lemma_flat_take, lemma_views_push, wrap, wrap_all, wrapped};
use crate::models::pacemaker::{
    ColocationConstraint, ColocationModel, DrbdPacemakerResource, FsResource, LocationConstraint,
    OrderConstraint, PacemakerConfig, ResourceGroup, StonithDevice, SystemdResource,
};
use crate::number::{flag, flag_text};
use crate::occurs::{lemma_contains_at, lemma_contains_sum, lemma_flat_contains, lemma_place_of};
use crate::text::{
    blank, contains_text, is_blank, opt_view, trim, trim_end_char, trimmed, views,
    without_trailing,
};
use vstd::prelude::*;
use vstd::string::*;

verus! {

pub const PLAYBOOK_NOTE: &'static str = "---
# 실행 전 확인 (PLAN.md A.8): `ansible-inventory -i <inventory> --graph`로
# 아래 hosts 값(\"";

pub const PLAYBOOK_NOTE_TAIL: &'static str = "\")이 예상한 노드 수만큼 resolve되는지 확인하세요.
# 그룹이 존재하지 않으면 ansible은 에러 없이 대상 0개로 조용히 끝납니다.
";

pub const BECOME_VARS: &'static str = "
  become: yes
  vars:
    ansible_ssh_private_key_file: ";

pub const BOOTSTRAP_HEAD: &'static str = "- name: Pacemaker 클러스터 부트스트랩 (설치 ~ cluster setup)
  hosts: ";

pub const BOOTSTRAP_TASKS: &'static str = "
  vars_prompt:
    - name: hacluster_password
      prompt: \"hacluster 계정 비밀번호 (신규 클러스터 생성 시에만 사용, Vault 사용 시 이 프롬프트 대신 vars로 전달 가능)\"
      private: yes
  tasks:
    - name: epel-release 설치
      ansible.builtin.dnf:
        name: epel-release
        state: present

    - name: crb 저장소 활성화
      ansible.builtin.command: dnf config-manager --set-enabled crb
      changed_when: true

    - name: highavailability 저장소 활성화
      ansible.builtin.command: dnf config-manager --set-enabled highavailability
      changed_when: true

    - name: pacemaker/corosync/pcs/fence-agents-all 설치
      ansible.builtin.dnf:
        name:
          - pacemaker
          - corosync
          - pcs
          - fence-agents-all
        state: present

    - name: dnf-plugin-versionlock 설치
      ansible.builtin.dnf:
        name: python3-dnf-plugin-versionlock
        state: present

    - name: pacemaker/corosync/pcs versionlock 설정
      ansible.builtin.command: \"dnf versionlock add {{ item }}\"
      loop:
        - pacemaker
        - corosync
        - pcs
      register: lock_result
      changed_when: \"'adding' in lock_result.stdout\"

    - name: corosync 포트 허용 (5404-5405/udp)
      ansible.posix.firewalld:
        zone: work
        port: 5404-5405/udp
        permanent: yes
        immediate: yes
        state: enabled

    - name: pcsd 포트 허용 (2224/tcp)
      ansible.posix.firewalld:
        zone: work
        port: 2224/tcp
        permanent: yes
        immediate: yes
        state: enabled

    - name: pcsd 서비스 시작 및 활성화
      ansible.builtin.systemd:
        name: pcsd
        state: started
        enabled: yes

    - name: hacluster 비밀번호 해시 생성
      ansible.builtin.set_fact:
        hacluster_password_hash: \"{{ hacluster_password | password_hash('sha512') }}\"
      no_log: true

    - name: hacluster 계정 생성
      ansible.builtin.user:
        name: hacluster
        comment: \"pacemaker user\"
        uid: 189
        shell: /sbin/nologin
        home: /var/lib/hacluster
        group: haclient
        password: \"{{ hacluster_password_hash }}\"
      no_log: true

    - name: 클러스터 존재 여부 확인
      ansible.builtin.command: pcs status
      run_once: true
      delegate_to: \"{{ ansible_play_batch | first }}\"
      register: pcs_status
      failed_when: false
      changed_when: false

    - name: 노드 인증 (클러스터 미존재 시)
      ansible.builtin.command: \"pcs host auth {{ ansible_play_batch | join(' ') }} -u hacluster -p {{ hacluster_password }}\"
      run_once: true
      delegate_to: \"{{ ansible_play_batch | first }}\"
      when: pcs_status.rc != 0
      no_log: true

    - name: 클러스터 생성 (클러스터 미존재 시)
      ansible.builtin.command: \"pcs cluster setup ";

pub const BOOTSTRAP_START: &'static str = " {{ ansible_play_batch | join(' ') }}\"
      run_once: true
      delegate_to: \"{{ ansible_play_batch | first }}\"
      when: pcs_status.rc != 0

    - name: 클러스터 시작 (클러스터 미존재 시)
      ansible.builtin.command: pcs cluster start --all
      run_once: true
      delegate_to: \"{{ ansible_play_batch | first }}\"
      when: pcs_status.rc != 0

    - name: 클러스터 부팅시 활성화 (클러스터 미존재 시)
      ansible.builtin.command: pcs cluster enable --all
      run_once: true
      delegate_to: \"{{ ansible_play_batch | first }}\"
      when: pcs_status.rc != 0

    - name: no-quorum-policy 설정
      ansible.builtin.command: \"pcs property set no-quorum-policy=";

pub const BOOTSTRAP_FENCING: &'static str = "\"
      run_once: true
      delegate_to: \"{{ ansible_play_batch | first }}\"
      changed_when: true

    - name: stonith-enabled 설정
      ansible.builtin.command: \"pcs property set stonith-enabled=";

pub const BOOTSTRAP_TAIL: &'static str = "\"
      run_once: true
      delegate_to: \"{{ ansible_play_batch | first }}\"
      changed_when: true
";

pub const STONITH_HEAD: &'static str = "- name: STONITH(fencing) 리소스 등록
  hosts: ";

pub const STONITH_TASKS: &'static str = "
  tasks:
    - name: 기존 STONITH 리소스 조회
      ansible.builtin.command: pcs stonith status
      run_once: true
      delegate_to: \"{{ ansible_play_batch | first }}\"
      register: existing_stonith
      failed_when: false
      changed_when: false

";

pub const STONITH_OPTIONS_LINES: &'static str = "        lanplus=1 power_wait=5 pcmk_reboot_timeout=300
        pcmk_monitor_timeout=60 pcmk_reboot_action=reboot
      run_once: true
      delegate_to: \"{{ ansible_play_batch | first }}\"
      when: ";

pub const RESOURCES_HEAD: &'static str = "- name: Pacemaker 리소스 및 제약조건 구성
  hosts: ";

pub const RESOURCES_TASKS: &'static str = "
  tasks:
    - name: 기존 pcs resource 구성 조회
      ansible.builtin.command: pcs resource config
      run_once: true
      delegate_to: \"{{ ansible_play_batch | first }}\"
      register: existing_resource_config
      changed_when: false

    - name: 기존 pcs constraint 구성 조회
      ansible.builtin.command: pcs constraint --full
      run_once: true
      delegate_to: \"{{ ansible_play_batch | first }}\"
      register: existing_constraints
      changed_when: false

";

/// A task is run once, on the first host.
pub const RUN_ONCE: &'static str = "      run_once: true
      delegate_to: \"{{ ansible_play_batch | first }}\"
      when: ";

pub const GROUP_TAIL: &'static str = "
      run_once: true
      delegate_to: \"{{ ansible_play_batch | first }}\"
      changed_when: true

";

/// The play that installs the packages, opens the ports and creates the cluster where it
/// does not exist; nothing where no nodes are given.
pub open spec fn bootstrap_play(
    c: PacemakerConfig,
    hosts: Seq<char>,
    user: Seq<char>,
    key: Seq<char>,
) -> Option<Seq<char>> {
    if c.cluster.nodes@.len() == 0 {
        None
    } else {
        Some(
            BOOTSTRAP_HEAD@ + hosts + "\n  remote_user: "@ + user + BECOME_VARS@ + key
                + BOOTSTRAP_TASKS@ + yaml_escaped(c.cluster.cluster_name@) + BOOTSTRAP_START@
                + yaml_escaped(c.cluster.no_quorum_policy@) + BOOTSTRAP_FENCING@ + flag(
                c.cluster.stonith_enabled,
            ) + BOOTSTRAP_TAIL@,
        )
    }
}

/// The task that registers a fencing device, unless it is registered.
pub open spec fn stonith_task() -> spec_fn(StonithDevice) -> Seq<char> {
    |d: StonithDevice|
        "    - name: STONITH 생성 ("@ + d.node@
            + ")\n      ansible.builtin.command: >\n        pcs stonith create "@ + stonith_name(
            d.node@,
        ) + " fence_ipmilan\n        pcmk_host_list="@ + d.node@ + "\n        ip="@ + d.ipmi_ip@
            + " user="@ + d.ipmi_user@ + " password="@ + d.ipmi_password@ + "\n"@
            + STONITH_OPTIONS_LINES@ + yaml_single_quoted(
            "existing_stonith.stdout is not search(\""@ + stonith_name(d.node@) + "\")"@,
        ) + "\n      no_log: true\n\n"@
}

/// `s` with one line feed at its end.
pub open spec fn one_line_feed(s: Seq<char>) -> Seq<char> {
    without_trailing(s, '\n') + "\n"@
}

/// The play that registers the fencing devices; nothing where there are none.
pub open spec fn stonith_play(
    c: PacemakerConfig,
    hosts: Seq<char>,
    user: Seq<char>,
    key: Seq<char>,
) -> Option<Seq<char>> {
    if c.stonith_devices@.len() == 0 {
        None
    } else {
        Some(
            one_line_feed(
                STONITH_HEAD@ + hosts + "\n  remote_user: "@ + user + BECOME_VARS@ + key
                    + STONITH_TASKS@ + flat(c.stonith_devices@, stonith_task()),
            ),
        )
    }
}

/// The task that runs commands, unless the resource exists.
pub open spec fn resource_task(
    name: Seq<char>,
    cmd_lines: Seq<Seq<char>>,
    resource_id: Seq<char>,
) -> Seq<char> {
    "    - name: "@ + name + "\n      ansible.builtin.shell: |\n"@ + wrapped(
        cmd_lines,
        "        "@,
        "\n"@,
    ) + RUN_ONCE@ + yaml_single_quoted(
        "existing_resource_config.stdout is not search(\"Resource: "@ + resource_id + " (\")"@,
    ) + "\n      changed_when: true\n\n"@
}

/// The task that runs a command, unless the constraint exists.
pub open spec fn constraint_task(
    name: Seq<char>,
    cmd: Seq<char>,
    search_pattern: Seq<char>,
) -> Seq<char> {
    "    - name: "@ + name + "\n      ansible.builtin.command: "@ + yaml_double_quoted(cmd) + "\n"@
        + RUN_ONCE@ + yaml_single_quoted(
        "existing_constraints.stdout is not search(\""@ + search_pattern + "\")"@,
    ) + "\n      changed_when: true\n\n"@
}

pub open spec fn drbd_task(copies: nat) -> spec_fn(DrbdPacemakerResource) -> Seq<char> {
    |d: DrbdPacemakerResource|
        resource_task(
            "DRBD Promotable Clone 생성 ("@ + d.resource_name@ + ")"@,
            drbd_cmds(d, copies),
            d.resource_name@,
        )
}

pub open spec fn fs_task() -> spec_fn(FsResource) -> Seq<char> {
    |f: FsResource|
        resource_task(
            "Filesystem 리소스 생성 ("@ + f.resource_name@ + ")"@,
            fs_cmds(f),
            f.resource_name@,
        )
}

pub open spec fn systemd_task() -> spec_fn(SystemdResource) -> Seq<char> {
    |s: SystemdResource|
        resource_task(
            "Systemd 리소스 생성 ("@ + s.resource_name@ + ")"@,
            systemd_cmds(s),
            s.resource_name@,
        )
}

/// The task that forms a group; it needs no guard.
pub open spec fn group_task() -> spec_fn(ResourceGroup) -> Seq<char> {
    |g: ResourceGroup|
        "    - name: 리소스 그룹 구성 ("@ + g.group_name@ + ")\n      ansible.builtin.command: "@
            + yaml_double_quoted(group_cmd(g)) + GROUP_TAIL@
}

pub open spec fn order_task() -> spec_fn(OrderConstraint) -> Seq<char> {
    |o: OrderConstraint|
        constraint_task(
            "Order 제약조건 ("@ + o.first@ + " → "@ + o.then_rsc@ + ")"@,
            order_cmd(o@),
            o.first_action@ + " resource '"@ + o.first@ + "' then "@ + o.then_action@
                + " resource '"@ + o.then_rsc@ + "'"@,
        )
}

/// How pcs lists a colocation constraint.
pub open spec fn colocation_pattern(k: ColocationModel) -> Seq<char> {
    match k.with_rsc_role {
        Some(role) => role_prefix(k.rsc_role) + "resource '"@ + k.rsc + "' with "@ + role
            + " resource '"@ + k.with_rsc + "'"@,
        None => "resource '"@ + k.rsc + "' with resource '"@ + k.with_rsc + "'"@,
    }
}

pub open spec fn colocation_task() -> spec_fn(ColocationConstraint) -> Seq<char> {
    |k: ColocationConstraint|
        constraint_task(
            "Colocation 제약조건 ("@ + k.rsc@ + " with "@ + k.with_rsc@ + ")"@,
            colocation_cmd(k@),
            colocation_pattern(k@),
        )
}

pub open spec fn location_task() -> spec_fn(LocationConstraint) -> Seq<char> {
    |l: LocationConstraint|
        constraint_task(
            "Location 제약조건 ("@ + l.rsc@ + " → "@ + l.node@ + ")"@,
            location_cmd(l),
            "resource '"@ + l.rsc@ + "' prefers node '"@ + l.node@ + "'"@,
        )
}

/// The play that creates the resources and constraints, each unless it exists.
pub open spec fn resources_play(
    c: PacemakerConfig,
    hosts: Seq<char>,
    user: Seq<char>,
    key: Seq<char>,
) -> Seq<char> {
    one_line_feed(
        RESOURCES_HEAD@ + hosts + "\n  remote_user: "@ + user + BECOME_VARS@ + key
            + RESOURCES_TASKS@ + flat(c.drbd_resources@, drbd_task(clone_count(c))) + flat(
            c.fs_resources@,
            fs_task(),
        ) + flat(c.systemd_resources@, systemd_task()) + flat(c.resource_groups@, group_task())
            + flat(c.order_constraints@, order_task()) + flat(
            c.colocation_constraints@,
            colocation_task(),
        ) + flat(c.location_constraints@, location_task()),
    )
}

/// An optional text where it is not blank, `default` otherwise.
pub open spec fn unless_blank(o: Option<String>, default: Seq<char>) -> Seq<char> {
    match o {
        Some(s) => if is_blank(s@) {
            default
        } else {
            s@
        },
        None => default,
    }
}

/// The plays that a configuration needs.
pub open spec fn plays(
    c: PacemakerConfig,
    hosts: Seq<char>,
    user: Seq<char>,
    key: Seq<char>,
) -> Seq<Seq<char>> {
    opt_seq(bootstrap_play(c, hosts, user, key)) + opt_seq(stonith_play(c, hosts, user, key))
        + seq![resources_play(c, hosts, user, key)]
}

/// A value as a sequence of one item, or of none.
pub open spec fn opt_seq(o: Option<Seq<char>>) -> Seq<Seq<char>> {
    match o {
        Some(s) => seq![s],
        None => Seq::empty(),
    }
}

/// The playbook of a cluster.
pub open spec fn pacemaker_playbook(
    ansible_hosts: Option<String>,
    ansible_user: Option<String>,
    ansible_ssh_key: Option<String>,
    c: PacemakerConfig,
) -> Seq<char> {
    let hosts = trimmed(unless_blank(ansible_hosts, "all"@));
    let user = unless_blank(ansible_user, "root"@);
    let key = unless_blank(ansible_ssh_key, "~/.ssh/id_rsa"@);
    PLAYBOOK_NOTE@ + hosts + PLAYBOOK_NOTE_TAIL@ + joined(plays(c, hosts, user, key), "\n"@)
}

// ---------------------------------------------------------------------------
// Writing it
// ---------------------------------------------------------------------------

/// The play that creates the cluster.
pub fn build_bootstrap_play(config: &PacemakerConfig, hosts: &str, user: &str, key: &str) -> (r:
    Option<String>)
    ensures
        opt_view(r) == bootstrap_play(*config, hosts@, user@, key@),
{
    if config.cluster.nodes.len() == 0 {
        return None;
    }
    let mut out = BOOTSTRAP_HEAD.to_owned();
    out.push_str(hosts);
    out.push_str("\n  remote_user: ");
    out.push_str(user);
    out.push_str(BECOME_VARS);
    out.push_str(key);
    out.push_str(BOOTSTRAP_TASKS);
    out.push_str(yaml_dquote_inner(config.cluster.cluster_name.as_str()).as_str());
    out.push_str(BOOTSTRAP_START);
    out.push_str(yaml_dquote_inner(config.cluster.no_quorum_policy.as_str()).as_str());
    out.push_str(BOOTSTRAP_FENCING);
    out.push_str(flag_text(config.cluster.stonith_enabled));
    out.push_str(BOOTSTRAP_TAIL);
    Some(out)
}

fn write_stonith_task(d: &StonithDevice) -> (r: String)
    ensures
        r@ == stonith_task()(*d),
{
    let id = stonith_device_name(d.node.as_str());
    let mut out = "    - name: STONITH 생성 (".to_owned();
    out.push_str(d.node.as_str());
    out.push_str(")\n      ansible.builtin.command: >\n        pcs stonith create ");
    out.push_str(id.as_str());
    out.push_str(" fence_ipmilan\n        pcmk_host_list=");
    out.push_str(d.node.as_str());
    out.push_str("\n        ip=");
    out.push_str(d.ipmi_ip.as_str());
    out.push_str(" user=");
    out.push_str(d.ipmi_user.as_str());
    out.push_str(" password=");
    out.push_str(d.ipmi_password.as_str());
    out.push_str("\n");
    out.push_str(STONITH_OPTIONS_LINES);
    out.push_str(
        yaml_squote(
            wrap("existing_stonith.stdout is not search(\"", id.as_str(), "\")").as_str(),
        ).as_str(),
    );
    out.push_str("\n      no_log: true\n\n");
    out
}

fn end_with_one_line_feed(s: &str) -> (r: String)
    ensures
        r@ == one_line_feed(s@),
{
    let mut out = trim_end_char(s, '\n').to_owned();
    out.push_str("\n");
    out
}

/// The play that registers the fencing devices.
pub fn build_stonith_play(config: &PacemakerConfig, hosts: &str, user: &str, key: &str) -> (r:
    Option<String>)
    ensures
        opt_view(r) == stonith_play(*config, hosts@, user@, key@),
{
    let all = &config.stonith_devices;
    if all.len() == 0 {
        return None;
    }
    let mut tasks = String::new();
    let mut i: usize = 0;
    while i < all.len()
        invariant
            all@ == config.stonith_devices@,
            i <= all.len(),
            tasks@ == flat(all@.take(i as int), stonith_task()),
        decreases all.len() - i,
    {
        proof {
            lemma_flat_take(all@, stonith_task(), i as int);
        }
        tasks.push_str(write_stonith_task(&all[i]).as_str());
        i += 1;
    }
    assert(all@.take(i as int) =~= all@);
    let mut out = STONITH_HEAD.to_owned();
    out.push_str(hosts);
    out.push_str("\n  remote_user: ");
    out.push_str(user);
    out.push_str(BECOME_VARS);
    out.push_str(key);
    out.push_str(STONITH_TASKS);
    out.push_str(tasks.as_str());
    Some(end_with_one_line_feed(out.as_str()))
}

/// The task that runs commands, unless the resource exists.
pub fn guarded_resource_task(name: &str, cmd_lines: &Vec<String>, resource_id: &str) -> (r: String)
    ensures
        r@ == resource_task(name@, views(cmd_lines@), resource_id@),
{
    let mut out = "    - name: ".to_owned();
    out.push_str(name);
    out.push_str("\n      ansible.builtin.shell: |\n");
    out.push_str(wrap_all(cmd_lines, "        ", "\n").as_str());
    out.push_str(RUN_ONCE);
    out.push_str(
        yaml_squote(
            wrap(
                "existing_resource_config.stdout is not search(\"Resource: ",
                resource_id,
                " (\")",
            ).as_str(),
        ).as_str(),
    );
    out.push_str("\n      changed_when: true\n\n");
    out
}

/// The task that runs a command, unless the constraint exists.
pub fn guarded_constraint_task(name: &str, cmd: &str, search_pattern: &str) -> (r: String)
    ensures
        r@ == constraint_task(name@, cmd@, search_pattern@),
{
    let mut out = "    - name: ".to_owned();
    out.push_str(name);
    out.push_str("\n      ansible.builtin.command: ");
    out.push_str(yaml_dquote(cmd).as_str());
    out.push_str("\n");
    out.push_str(RUN_ONCE);
    out.push_str(
        yaml_squote(
            wrap(
                "existing_constraints.stdout is not search(\"",
                search_pattern,
                "\")",
            ).as_str(),
        ).as_str(),
    );
    out.push_str("\n      changed_when: true\n\n");
    out
}

fn write_group_task(g: &ResourceGroup) -> (r: String)
    ensures
        r@ == group_task()(*g),
{
    let mut out = "    - name: 리소스 그룹 구성 (".to_owned();
    out.push_str(g.group_name.as_str());
    out.push_str(")\n      ansible.builtin.command: ");
    out.push_str(yaml_dquote(generate_resource_group_cmd(g).as_str()).as_str());
    out.push_str(GROUP_TAIL);
    out
}

/// Two texts with `between` between them, in brackets behind `title`.
fn pair_title(title: &str, a: &str, between: &str, b: &str) -> (r: String)
    ensures
        r@ == title@ + a@ + between@ + b@ + ")"@,
{
    let mut out = title.to_owned();
    out.push_str(a);
    out.push_str(between);
    out.push_str(b);
    out.push_str(")");
    out
}

fn write_order_task(o: &OrderConstraint) -> (r: String)
    ensures
        r@ == order_task()(*o),
{
    let mut pattern = o.first_action.clone();
    pattern.push_str(" resource '");
    pattern.push_str(o.first.as_str());
    pattern.push_str("' then ");
    pattern.push_str(o.then_action.as_str());
    pattern.push_str(" resource '");
    pattern.push_str(o.then_rsc.as_str());
    pattern.push_str("'");
    guarded_constraint_task(
        pair_title("Order 제약조건 (", o.first.as_str(), " → ", o.then_rsc.as_str()).as_str(),
        generate_order_constraint(o).as_str(),
        pattern.as_str(),
    )
}

fn write_colocation_pattern(k: &ColocationConstraint) -> (r: String)
    ensures
        r@ == colocation_pattern(k@),
{
    match &k.with_rsc_role {
        Some(role) => {
            let mut out = write_role_prefix(&k.rsc_role);
            out.push_str("resource '");
            out.push_str(k.rsc.as_str());
            out.push_str("' with ");
            out.push_str(role.as_str());
            out.push_str(" resource '");
            out.push_str(k.with_rsc.as_str());
            out.push_str("'");
            out
        },
        None => {
            let mut out = "resource '".to_owned();
            out.push_str(k.rsc.as_str());
            out.push_str("' with resource '");
            out.push_str(k.with_rsc.as_str());
            out.push_str("'");
            out
        },
    }
}

fn write_colocation_task(k: &ColocationConstraint) -> (r: String)
    ensures
        r@ == colocation_task()(*k),
{
    guarded_constraint_task(
        pair_title(
            "Colocation 제약조건 (",
            k.rsc.as_str(),
            " with ",
            k.with_rsc.as_str(),
        ).as_str(),
        generate_colocation_constraint(k).as_str(),
        write_colocation_pattern(k).as_str(),
    )
}

fn write_location_task(l: &LocationConstraint) -> (r: String)
    ensures
        r@ == location_task()(*l),
{
    let mut pattern = "resource '".to_owned();
    pattern.push_str(l.rsc.as_str());
    pattern.push_str("' prefers node '");
    pattern.push_str(l.node.as_str());
    pattern.push_str("'");
    guarded_constraint_task(
        pair_title("Location 제약조건 (", l.rsc.as_str(), " → ", l.node.as_str()).as_str(),
        generate_location_constraint(l).as_str(),
        pattern.as_str(),
    )
}

fn write_drbd_tasks(c: &PacemakerConfig) -> (r: String)
    ensures
        r@ == flat(c.drbd_resources@, drbd_task(clone_count(*c))),
{
    let all = &c.drbd_resources;
    let copies = copies_of(c);
    let mut items = String::new();
    let mut i: usize = 0;
    while i < all.len()
        invariant
            all@ == c.drbd_resources@,
            i <= all.len(),
            items@ == flat(all@.take(i as int), drbd_task(clone_count(*c))),
            copies == clone_count(*c),
        decreases all.len() - i,
    {
        proof {
            lemma_flat_take(all@, drbd_task(clone_count(*c)), i as int);
        }
        items.push_str(guarded_resource_task(
                wrap("DRBD Promotable Clone 생성 (", all[i].resource_name.as_str(), ")").as_str(),
                &generate_drbd_resource_cmds(&all[i], copies),
                all[i].resource_name.as_str(),
            ).as_str());
        i += 1;
    }
    assert(all@.take(i as int) =~= all@);
    items
}

fn write_fs_tasks(c: &PacemakerConfig) -> (r: String)
    ensures
        r@ == flat(c.fs_resources@, fs_task()),
{
    let all = &c.fs_resources;
    let mut items = String::new();
    let mut i: usize = 0;
    while i < all.len()
        invariant
            all@ == c.fs_resources@,
            i <= all.len(),
            items@ == flat(all@.take(i as int), fs_task()),
        decreases all.len() - i,
    {
        proof {
            lemma_flat_take(all@, fs_task(), i as int);
        }
        items.push_str(guarded_resource_task(
                wrap("Filesystem 리소스 생성 (", all[i].resource_name.as_str(), ")").as_str(),
                &generate_fs_resource_cmds(&all[i]),
                all[i].resource_name.as_str(),
            ).as_str());
        i += 1;
    }
    assert(all@.take(i as int) =~= all@);
    items
}

fn write_systemd_tasks(c: &PacemakerConfig) -> (r: String)
    ensures
        r@ == flat(c.systemd_resources@, systemd_task()),
{
    let all = &c.systemd_resources;
    let mut items = String::new();
    let mut i: usize = 0;
    while i < all.len()
        invariant
            all@ == c.systemd_resources@,
            i <= all.len(),
            items@ == flat(all@.take(i as int), systemd_task()),
        decreases all.len() - i,
    {
        proof {
            lemma_flat_take(all@, systemd_task(), i as int);
        }
        items.push_str(guarded_resource_task(
                wrap("Systemd 리소스 생성 (", all[i].resource_name.as_str(), ")").as_str(),
                &generate_systemd_resource_cmds(&all[i]),
                all[i].resource_name.as_str(),
            ).as_str());
        i += 1;
    }
    assert(all@.take(i as int) =~= all@);
    items
}

fn write_group_tasks(c: &PacemakerConfig) -> (r: String)
    ensures
        r@ == flat(c.resource_groups@, group_task()),
{
    let all = &c.resource_groups;
    let mut items = String::new();
    let mut i: usize = 0;
    while i < all.len()
        invariant
            all@ == c.resource_groups@,
            i <= all.len(),
            items@ == flat(all@.take(i as int), group_task()),
        decreases all.len() - i,
    {
        proof {
            lemma_flat_take(all@, group_task(), i as int);
        }
        items.push_str(write_group_task(&all[i]).as_str());
        i += 1;
    }
    assert(all@.take(i as int) =~= all@);
    items
}

fn write_order_tasks(c: &PacemakerConfig) -> (r: String)
    ensures
        r@ == flat(c.order_constraints@, order_task()),
{
    let all = &c.order_constraints;
    let mut items = String::new();
    let mut i: usize = 0;
    while i < all.len()
        invariant
            all@ == c.order_constraints@,
            i <= all.len(),
            items@ == flat(all@.take(i as int), order_task()),
        decreases all.len() - i,
    {
        proof {
            lemma_flat_take(all@, order_task(), i as int);
        }
        items.push_str(write_order_task(&all[i]).as_str());
        i += 1;
    }
    assert(all@.take(i as int) =~= all@);
    items
}

fn write_colocation_tasks(c: &PacemakerConfig) -> (r: String)
    ensures
        r@ == flat(c.colocation_constraints@, colocation_task()),
{
    let all = &c.colocation_constraints;
    let mut items = String::new();
    let mut i: usize = 0;
    while i < all.len()
        invariant
            all@ == c.colocation_constraints@,
            i <= all.len(),
            items@ == flat(all@.take(i as int), colocation_task()),
        decreases all.len() - i,
    {
        proof {
            lemma_flat_take(all@, colocation_task(), i as int);
        }
        items.push_str(write_colocation_task(&all[i]).as_str());
        i += 1;
    }
    assert(all@.take(i as int) =~= all@);
    items
}

fn write_location_tasks(c: &PacemakerConfig) -> (r: String)
    ensures
        r@ == flat(c.location_constraints@, location_task()),
{
    let all = &c.location_constraints;
    let mut items = String::new();
    let mut i: usize = 0;
    while i < all.len()
        invariant
            all@ == c.location_constraints@,
            i <= all.len(),
            items@ == flat(all@.take(i as int), location_task()),
        decreases all.len() - i,
    {
        proof {
            lemma_flat_take(all@, location_task(), i as int);
        }
        items.push_str(write_location_task(&all[i]).as_str());
        i += 1;
    }
    assert(all@.take(i as int) =~= all@);
    items
}

/// The play that creates the resources and constraints.
pub fn build_resources_play(config: &PacemakerConfig, hosts: &str, user: &str, key: &str) -> (r:
    String)
    ensures
        r@ == resources_play(*config, hosts@, user@, key@),
{
    let mut out = RESOURCES_HEAD.to_owned();
    out.push_str(hosts);
    out.push_str("\n  remote_user: ");
    out.push_str(user);
    out.push_str(BECOME_VARS);
    out.push_str(key);
    out.push_str(RESOURCES_TASKS);
    out.push_str(write_drbd_tasks(config).as_str());
    out.push_str(write_fs_tasks(config).as_str());
    out.push_str(write_systemd_tasks(config).as_str());
    out.push_str(write_group_tasks(config).as_str());
    out.push_str(write_order_tasks(config).as_str());
    out.push_str(write_colocation_tasks(config).as_str());
    out.push_str(write_location_tasks(config).as_str());
    end_with_one_line_feed(out.as_str())
}

/// An optional text where it is not blank, `default` otherwise.
pub fn not_blank_or(o: &Option<String>, default: &str) -> (r: String)
    ensures
        r@ == unless_blank(*o, default@),
{
    match o {
        Some(s) => if blank(s.as_str()) {
            default.to_owned()
        } else {
            s.clone()
        },
        None => default.to_owned(),
    }
}

/// The playbook of a cluster, from the hosts and the login of a form.
pub fn write_pacemaker_playbook(
    ansible_hosts: &Option<String>,
    ansible_user: &Option<String>,
    ansible_ssh_key: &Option<String>,
    config: &PacemakerConfig,
) -> (r: String)
    ensures
        r@ == pacemaker_playbook(*ansible_hosts, *ansible_user, *ansible_ssh_key, *config),
{
    let chosen = not_blank_or(ansible_hosts, "all");
    let hosts = trim(chosen.as_str());
    let user = not_blank_or(ansible_user, "root");
    let key = not_blank_or(ansible_ssh_key, "~/.ssh/id_rsa");
    let mut list: Vec<String> = Vec::new();
    if let Some(play) = build_bootstrap_play(config, hosts, user.as_str(), key.as_str()) {
        list.push(play);
    }
    assert(views(list@) =~= opt_seq(bootstrap_play(*config, hosts@, user@, key@)));
    let ghost first = views(list@);
    if let Some(play) = build_stonith_play(config, hosts, user.as_str(), key.as_str()) {
        proof {
            lemma_views_push(list@, play);
        }
        list.push(play);
    }
    assert(views(list@) =~= first + opt_seq(stonith_play(*config, hosts@, user@, key@)));
    let ghost second = views(list@);
    let last = build_resources_play(config, hosts, user.as_str(), key.as_str());
    proof {
        lemma_views_push(list@, last);
    }
    list.push(last);
    assert(views(list@) =~= second + seq![resources_play(*config, hosts@, user@, key@)]);
    let mut out = PLAYBOOK_NOTE.to_owned();
    out.push_str(hosts);
    out.push_str(PLAYBOOK_NOTE_TAIL);
    out.push_str(join(&list, "\n").as_str());
    out
}

// ---------------------------------------------------------------------------
// What holds of the playbook
// ---------------------------------------------------------------------------

proof fn lemma_without_trailing(s: Seq<char>, c: char) -> (k: int)
    ensures
        0 <= k <= s.len(),
        without_trailing(s, c) == s.take(k),
        forall|j: int| k <= j < s.len() ==> s[j] == c,
    decreases s.len(),
{
    if s.len() > 0 && s.last() == c {
        let k = lemma_without_trailing(s.drop_last(), c);
        assert(s.drop_last().take(k) =~= s.take(k));
        assert forall|j: int| k <= j < s.len() implies s[j] == c by {
            if j < s.len() - 1 {
                assert(s.drop_last()[j] == s[j]);
            }
        }
        k
    } else {
        assert(s.take(s.len() as int) =~= s);
        s.len() as int
    }
}

/// A task that ends in an empty line stands in a play at least up to that line.
pub proof fn lemma_task_is_kept(s: Seq<char>, task: Seq<char>)
    requires
        contains_text(s, task),
        task.len() >= 3,
        task[task.len() - 1] == '\n',
        task[task.len() - 2] == '\n',
        task[task.len() - 3] != '\n',
    ensures
        contains_text(one_line_feed(s), task.drop_last()),
{
    reveal_strlit("\n");
    let i = lemma_place_of(s, task);
    let k = lemma_without_trailing(s, '\n');
    let n = task.len() as int;
    assert forall|j: int| 0 <= j < n implies s[i + j] == task[j] by {
        assert(s.subrange(i, i + n)[j] == s[i + j]);
    }
    assert(s[i + n - 3] == task[n - 3]);
    assert(k > i + n - 3);
    let r = one_line_feed(s);
    assert(r.len() >= i + n - 1);
    assert forall|j: int| 0 <= j < n - 1 implies r[i + j] == task[j] by {
        if i + j < k {
            assert(r[i + j] == s[i + j]);
        } else {
            assert(j == n - 2);
        }
    }
    assert(r.subrange(i, i + n - 1) =~= task.drop_last());
    lemma_contains_at(r, task.drop_last(), i);
}

proof fn lemma_ends_in_empty_line(s: Seq<char>, tail: Seq<char>)
    requires
        tail.len() >= 3,
        tail[tail.len() - 1] == '\n',
        tail[tail.len() - 2] == '\n',
        tail[tail.len() - 3] != '\n',
    ensures
        (s + tail).len() >= 3,
        (s + tail)[(s + tail).len() - 1] == '\n',
        (s + tail)[(s + tail).len() - 2] == '\n',
        (s + tail)[(s + tail).len() - 3] != '\n',
{
}

/// The last play stands in the playbook.
proof fn lemma_resources_play_in_playbook(
    ansible_hosts: Option<String>,
    ansible_user: Option<String>,
    ansible_ssh_key: Option<String>,
    c: PacemakerConfig,
    p: Seq<char>,
)
    requires
        contains_text(
            resources_play(
                c,
                trimmed(unless_blank(ansible_hosts, "all"@)),
                unless_blank(ansible_user, "root"@),
                unless_blank(ansible_ssh_key, "~/.ssh/id_rsa"@),
            ),
            p,
        ),
    ensures
        contains_text(pacemaker_playbook(ansible_hosts, ansible_user, ansible_ssh_key, c), p),
{
    let hosts = trimmed(unless_blank(ansible_hosts, "all"@));
    let user = unless_blank(ansible_user, "root"@);
    let key = unless_blank(ansible_ssh_key, "~/.ssh/id_rsa"@);
    let all = plays(c, hosts, user, key);
    let last = resources_play(c, hosts, user, key);
    assert(all.last() == last);
    let front = joined(all.drop_last(), "\n"@) + "\n"@;
    lemma_contains_sum(front, last, p);
    let body = joined(all, "\n"@);
    if all.len() == 1 {
        assert(body == last);
    } else {
        assert(body == front + last);
    }
    lemma_contains_sum(PLAYBOOK_NOTE@ + hosts + PLAYBOOK_NOTE_TAIL@, body, p);
}

/// What stands in the tasks of the last play, and ends in an empty line, stands in the
/// playbook up to that line.
pub proof fn lemma_task_in_playbook(
    ansible_hosts: Option<String>,
    ansible_user: Option<String>,
    ansible_ssh_key: Option<String>,
    c: PacemakerConfig,
    task: Seq<char>,
)
    requires
        task.len() >= 3,
        task[task.len() - 1] == '\n',
        task[task.len() - 2] == '\n',
        task[task.len() - 3] != '\n',
        contains_text(flat(c.drbd_resources@, drbd_task(clone_count(c))), task) || contains_text(
            flat(c.fs_resources@, fs_task()),
            task,
        ) || contains_text(flat(c.systemd_resources@, systemd_task()), task) || contains_text(
            flat(c.resource_groups@, group_task()),
            task,
        ) || contains_text(
            flat(c.order_constraints@, order_task()),
            task,
        ) || contains_text(flat(c.colocation_constraints@, colocation_task()), task)
            || contains_text(flat(c.location_constraints@, location_task()), task),
    ensures
        contains_text(
            pacemaker_playbook(ansible_hosts, ansible_user, ansible_ssh_key, c),
            task.drop_last(),
        ),
{
    let hosts = trimmed(unless_blank(ansible_hosts, "all"@));
    let user = unless_blank(ansible_user, "root"@);
    let key = unless_blank(ansible_ssh_key, "~/.ssh/id_rsa"@);
    let s0 = RESOURCES_HEAD@ + hosts + "\n  remote_user: "@ + user + BECOME_VARS@ + key
        + RESOURCES_TASKS@;
    let x1 = flat(c.drbd_resources@, drbd_task(clone_count(c)));
    let x2 = flat(c.fs_resources@, fs_task());
    let x3 = flat(c.systemd_resources@, systemd_task());
    let x4 = flat(c.resource_groups@, group_task());
    let x5 = flat(c.order_constraints@, order_task());
    let x6 = flat(c.colocation_constraints@, colocation_task());
    let x7 = flat(c.location_constraints@, location_task());
    lemma_contains_sum(s0, x1, task);
    lemma_contains_sum(s0 + x1, x2, task);
    lemma_contains_sum(s0 + x1 + x2, x3, task);
    lemma_contains_sum(s0 + x1 + x2 + x3, x4, task);
    lemma_contains_sum(s0 + x1 + x2 + x3 + x4, x5, task);
    lemma_contains_sum(s0 + x1 + x2 + x3 + x4 + x5, x6, task);
    lemma_contains_sum(s0 + x1 + x2 + x3 + x4 + x5 + x6, x7, task);
    lemma_task_is_kept(s0 + x1 + x2 + x3 + x4 + x5 + x6 + x7, task);
    lemma_resources_play_in_playbook(
        ansible_hosts,
        ansible_user,
        ansible_ssh_key,
        c,
        task.drop_last(),
    );
}

proof fn lemma_resource_task_ends(name: Seq<char>, cmds: Seq<Seq<char>>, id: Seq<char>)
    ensures
        ({
            let t = resource_task(name, cmds, id);
            t.len() >= 3 && t[t.len() - 1] == '\n' && t[t.len() - 2] == '\n' && t[t.len() - 3]
                != '\n'
        }),
{
    reveal_strlit("\n      changed_when: true\n\n");
    let t = resource_task(name, cmds, id);
    let tail = "\n      changed_when: true\n\n"@;
    lemma_ends_in_empty_line(t.take(t.len() - tail.len()), tail);
    assert(t =~= t.take(t.len() - tail.len()) + tail);
}

proof fn lemma_constraint_task_ends(name: Seq<char>, cmd: Seq<char>, pattern: Seq<char>)
    ensures
        ({
            let t = constraint_task(name, cmd, pattern);
            t.len() >= 3 && t[t.len() - 1] == '\n' && t[t.len() - 2] == '\n' && t[t.len() - 3]
                != '\n'
        }),
{
    reveal_strlit("\n      changed_when: true\n\n");
    let t = constraint_task(name, cmd, pattern);
    let tail = "\n      changed_when: true\n\n"@;
    lemma_ends_in_empty_line(t.take(t.len() - tail.len()), tail);
    assert(t =~= t.take(t.len() - tail.len()) + tail);
}

/// The playbook creates every DRBD resource, file system and service, each in a task that is
/// skipped where the resource exists. (`drop_last` leaves out the empty line between tasks.)
pub proof fn law_playbook_guards_resources(
    ansible_hosts: Option<String>,
    ansible_user: Option<String>,
    ansible_ssh_key: Option<String>,
    c: PacemakerConfig,
    i: int,
)
    ensures
        0 <= i < c.drbd_resources@.len() ==> contains_text(
            pacemaker_playbook(ansible_hosts, ansible_user, ansible_ssh_key, c),
            drbd_task(clone_count(c))(c.drbd_resources@[i]).drop_last(),
        ),
        0 <= i < c.fs_resources@.len() ==> contains_text(
            pacemaker_playbook(ansible_hosts, ansible_user, ansible_ssh_key, c),
            fs_task()(c.fs_resources@[i]).drop_last(),
        ),
        0 <= i < c.systemd_resources@.len() ==> contains_text(
            pacemaker_playbook(ansible_hosts, ansible_user, ansible_ssh_key, c),
            systemd_task()(c.systemd_resources@[i]).drop_last(),
        ),
{
    if 0 <= i < c.drbd_resources@.len() {
        let d = c.drbd_resources@[i];
        lemma_flat_contains(c.drbd_resources@, drbd_task(clone_count(c)), i);
        lemma_resource_task_ends(
            "DRBD Promotable Clone 생성 ("@ + d.resource_name@ + ")"@,
            drbd_cmds(d, clone_count(c)),
            d.resource_name@,
        );
        lemma_task_in_playbook(
            ansible_hosts,
            ansible_user,
            ansible_ssh_key,
            c,
            drbd_task(clone_count(c))(d),
        );
    }
    if 0 <= i < c.fs_resources@.len() {
        let f = c.fs_resources@[i];
        lemma_flat_contains(c.fs_resources@, fs_task(), i);
        lemma_resource_task_ends(
            "Filesystem 리소스 생성 ("@ + f.resource_name@ + ")"@,
            fs_cmds(f),
            f.resource_name@,
        );
        lemma_task_in_playbook(ansible_hosts, ansible_user, ansible_ssh_key, c, fs_task()(f));
    }
    if 0 <= i < c.systemd_resources@.len() {
        let v = c.systemd_resources@[i];
        lemma_flat_contains(c.systemd_resources@, systemd_task(), i);
        lemma_resource_task_ends(
            "Systemd 리소스 생성 ("@ + v.resource_name@ + ")"@,
            systemd_cmds(v),
            v.resource_name@,
        );
        lemma_task_in_playbook(ansible_hosts, ansible_user, ansible_ssh_key, c, systemd_task()(v));
    }
}

/// The playbook adds every constraint, each in a task that is skipped where the constraint
/// exists.
pub proof fn law_playbook_guards_constraints(
    ansible_hosts: Option<String>,
    ansible_user: Option<String>,
    ansible_ssh_key: Option<String>,
    c: PacemakerConfig,
    i: int,
)
    ensures
        0 <= i < c.order_constraints@.len() ==> contains_text(
            pacemaker_playbook(ansible_hosts, ansible_user, ansible_ssh_key, c),
            order_task()(c.order_constraints@[i]).drop_last(),
        ),
        0 <= i < c.colocation_constraints@.len() ==> contains_text(
            pacemaker_playbook(ansible_hosts, ansible_user, ansible_ssh_key, c),
            colocation_task()(c.colocation_constraints@[i]).drop_last(),
        ),
        0 <= i < c.location_constraints@.len() ==> contains_text(
            pacemaker_playbook(ansible_hosts, ansible_user, ansible_ssh_key, c),
            location_task()(c.location_constraints@[i]).drop_last(),
        ),
{
    if 0 <= i < c.order_constraints@.len() {
        let o = c.order_constraints@[i];
        lemma_flat_contains(c.order_constraints@, order_task(), i);
        lemma_constraint_task_ends(
            "Order 제약조건 ("@ + o.first@ + " → "@ + o.then_rsc@ + ")"@,
            order_cmd(o@),
            o.first_action@ + " resource '"@ + o.first@ + "' then "@ + o.then_action@
                + " resource '"@ + o.then_rsc@ + "'"@,
        );
        lemma_task_in_playbook(ansible_hosts, ansible_user, ansible_ssh_key, c, order_task()(o));
    }
    if 0 <= i < c.colocation_constraints@.len() {
        let k = c.colocation_constraints@[i];
        lemma_flat_contains(c.colocation_constraints@, colocation_task(), i);
        lemma_constraint_task_ends(
            "Colocation 제약조건 ("@ + k.rsc@ + " with "@ + k.with_rsc@ + ")"@,
            colocation_cmd(k@),
            colocation_pattern(k@),
        );
        lemma_task_in_playbook(
            ansible_hosts,
            ansible_user,
            ansible_ssh_key,
            c,
            colocation_task()(k),
        );
    }
    if 0 <= i < c.location_constraints@.len() {
        let l = c.location_constraints@[i];
        lemma_flat_contains(c.location_constraints@, location_task(), i);
        lemma_constraint_task_ends(
            "Location 제약조건 ("@ + l.rsc@ + " → "@ + l.node@ + ")"@,
            location_cmd(l),
            "resource '"@ + l.rsc@ + "' prefers node '"@ + l.node@ + "'"@,
        );
        lemma_task_in_playbook(ansible_hosts, ansible_user, ansible_ssh_key, c, location_task()(l));
    }
}

/// A cluster without nodes gets no play that creates it, and one without fencing devices
/// gets none that registers them; the play that creates the resources is always there, and
/// it is the last.
pub proof fn law_plays_follow_the_configuration(
    c: PacemakerConfig,
    hosts: Seq<char>,
    user: Seq<char>,
    key: Seq<char>,
)
    ensures
        plays(c, hosts, user, key).last() == resources_play(c, hosts, user, key),
        plays(c, hosts, user, key).len() == 1 + (if c.cluster.nodes@.len() > 0 {
            1int
        } else {
            0
        }) + (if c.stonith_devices@.len() > 0 {
            1int
        } else {
            0
        }),
        c.cluster.nodes@.len() > 0 ==> Some(plays(c, hosts, user, key)[0]) == bootstrap_play(
            c,
            hosts,
            user,
            key,
        ),
{
}

/// The playbook registers every fencing device, each in a task that is skipped where the
/// device is registered.
pub proof fn law_playbook_guards_fencing(
    ansible_hosts: Option<String>,
    ansible_user: Option<String>,
    ansible_ssh_key: Option<String>,
    c: PacemakerConfig,
    i: int,
)
    requires
        0 <= i < c.stonith_devices@.len(),
    ensures
        contains_text(
            pacemaker_playbook(ansible_hosts, ansible_user, ansible_ssh_key, c),
            stonith_task()(c.stonith_devices@[i]).drop_last(),
        ),
{
    let hosts = trimmed(unless_blank(ansible_hosts, "all"@));
    let user = unless_blank(ansible_user, "root"@);
    let key = unless_blank(ansible_ssh_key, "~/.ssh/id_rsa"@);
    let all = plays(c, hosts, user, key);
    let task = stonith_task()(c.stonith_devices@[i]);
    let tasks = flat(c.stonith_devices@, stonith_task());
    let head = STONITH_HEAD@ + hosts + "\n  remote_user: "@ + user + BECOME_VARS@ + key
        + STONITH_TASKS@;
    lemma_flat_contains(c.stonith_devices@, stonith_task(), i);
    lemma_contains_sum(head, tasks, task);
    reveal_strlit("\n      no_log: true\n\n");
    let tail = "\n      no_log: true\n\n"@;
    lemma_ends_in_empty_line(task.take(task.len() - tail.len()), tail);
    assert(task =~= task.take(task.len() - tail.len()) + tail);
    lemma_task_is_kept(head + tasks, task);
    let play = stonith_play(c, hosts, user, key)->0;
    let p = task.drop_last();
    let front = all.drop_last();
    assert(front.last() == play);
    assert(all.last() == resources_play(c, hosts, user, key));
    let body = joined(all, "\n"@);
    let before = joined(front, "\n"@);
    assert(body == before + "\n"@ + all.last());
    if front.len() == 1 {
        assert(before == play);
    } else {
        let first = joined(front.drop_last(), "\n"@) + "\n"@;
        assert(before == first + play);
        lemma_contains_sum(first, play, p);
    }
    lemma_contains_sum(before, "\n"@, p);
    lemma_contains_sum(before + "\n"@, all.last(), p);
    lemma_contains_sum(PLAYBOOK_NOTE@ + hosts + PLAYBOOK_NOTE_TAIL@, body, p);
}

} // verus!
