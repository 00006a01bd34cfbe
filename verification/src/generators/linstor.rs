//! The Ansible files that deploy LINSTOR.

use crate::lines::{
    flat, keep_when, lemma_flat_take, opt_entry, push_when, wrap_all, wrap_opt, wrapped,
};
use crate::models::linstor::{
    LinstorConfig, LinstorResourceGroup, LinstorResourceSpawn, LinstorStoragePool,
};
use crate::number::{decimal, flag, flag_text, push_number};
use crate::text::{
    given, is_blank, same, trim_end_char, trim_or, trimmed_or, views, without_trailing,
};
use vstd::prelude::*;
use vstd::string::*;

verus! {

// ---------------------------------------------------------------------------
// Collections
// ---------------------------------------------------------------------------

/// The Ansible collections that the playbook needs.
pub const LINSTOR_REQUIREMENTS: &'static str = "---
# ansible-galaxy collection install -r requirements.yml
# LINBIT이 아직 Ansible Galaxy에 게시하지 않아 git 소스로 설치한다.
collections:
  - name: linbit.common
    source: https://github.com/LINBIT/ansible-common-collection.git
    type: git
  - name: linbit.drbd
    source: https://github.com/LINBIT/ansible-drbd-collection.git
    type: git
  - name: linbit.drbd_reactor
    source: https://github.com/LINBIT/ansible-drbd_reactor-collection.git
    type: git
  - name: linbit.linstor
    source: https://github.com/LINBIT/ansible-linstor-collection.git
    type: git
";

/// The Ansible collections that the playbook needs.
pub fn generate_linstor_requirements_yml() -> (r: String)
    ensures
        r@ == LINSTOR_REQUIREMENTS@,
{
    LINSTOR_REQUIREMENTS.to_owned()
}

// ---------------------------------------------------------------------------
// The inventory
// ---------------------------------------------------------------------------

/// A titled list of items, or nothing where there are none.
pub open spec fn titled_list(v: Seq<Seq<char>>, title: Seq<char>) -> Seq<char> {
    given(v.len() > 0, title + wrapped(v, "          - "@, "\n"@))
}

/// A storage pool as an item of the inventory variable.
pub open spec fn pool_yaml() -> spec_fn(LinstorStoragePool) -> Seq<char> {
    |p: LinstorStoragePool|
        "      - name: "@ + p.name@ + "\n        type: "@ + p.pool_type@ + "\n"@ + opt_entry(
            p.vg,
            "        vg: "@,
            "\n"@,
        ) + opt_entry(p.vg_thinpool, "        vg_thinpool: "@, "\n"@) + opt_entry(
            p.zpool,
            "        zpool: "@,
            "\n"@,
        ) + opt_entry(p.file_path, "        file_path: "@, "\n"@) + titled_list(
            views(p.physical_devices@),
            "        physical_devices:\n"@,
        ) + titled_list(views(p.nodes@), "        nodes:\n"@)
}

/// The address of a node, where the list has one: of several, the last.
pub open spec fn known_ip(ips: Seq<(String, String)>, node: Seq<char>) -> Option<Seq<char>>
    decreases ips.len(),
{
    if ips.len() == 0 {
        None
    } else if ips.last().0@ == node {
        Some(ips.last().1@)
    } else {
        known_ip(ips.drop_last(), node)
    }
}

/// How Ansible reaches a node: by its address, or by its name where no address is known
/// or the known one is blank.
pub open spec fn ansible_host(ips: Seq<(String, String)>, node: Seq<char>) -> Seq<char> {
    match known_ip(ips, node) {
        Some(ip) => trimmed_or(ip, node),
        None => node,
    }
}

pub open spec fn host_lines(ips: Seq<(String, String)>) -> spec_fn(String) -> Seq<char> {
    |node: String|
        "        "@ + node@ + ":\n          ansible_host: "@ + ansible_host(ips, node@) + "\n"@
}

pub const CONTROLLERS_HEAD: &'static str = "all:
  children:
    linstor_controllers:
      hosts:
";

pub const SATELLITES_HEAD: &'static str = "    linstor_satellites:
      hosts:
";

pub const CLUSTER_GROUP: &'static str = "    linstor_cluster:
      children:
        linstor_controllers: {}
        linstor_satellites: {}
  vars:
    ansible_user: ";

/// The inventory: the controllers, the satellites, the group of both, and the storage
/// pools where they are to be deployed.
pub open spec fn linstor_inventory(
    c: LinstorConfig,
    ips: Seq<(String, String)>,
    user: Seq<char>,
    key: Seq<char>,
) -> Seq<char> {
    CONTROLLERS_HEAD@ + flat(c.controller_nodes@, host_lines(ips)) + SATELLITES_HEAD@ + flat(
        c.satellite_nodes@,
        host_lines(ips),
    ) + CLUSTER_GROUP@ + user + "\n    ansible_ssh_private_key_file: "@ + key
        + "\n    ansible_host_key_checking: false\n"@ + given(
        c.deploy_storage && c.storage_pools@.len() > 0,
        "    linstor_storage_pools:\n"@ + flat(c.storage_pools@, pool_yaml()),
    )
}

fn write_titled_list(v: &Vec<String>, title: &str) -> (r: String)
    ensures
        r@ == titled_list(views(v@), title@),
{
    let mut out = title.to_owned();
    out.push_str(wrap_all(v, "          - ", "\n").as_str());
    keep_when(v.len() > 0, out)
}

/// A storage pool as an item of the inventory variable.
pub fn storage_pool_yaml(pool: &LinstorStoragePool) -> (r: String)
    ensures
        r@ == pool_yaml()(*pool),
{
    let mut out = "      - name: ".to_owned();
    out.push_str(pool.name.as_str());
    out.push_str("\n        type: ");
    out.push_str(pool.pool_type.as_str());
    out.push_str("\n");
    out.push_str(wrap_opt(&pool.vg, "        vg: ", "\n").as_str());
    out.push_str(wrap_opt(&pool.vg_thinpool, "        vg_thinpool: ", "\n").as_str());
    out.push_str(wrap_opt(&pool.zpool, "        zpool: ", "\n").as_str());
    out.push_str(wrap_opt(&pool.file_path, "        file_path: ", "\n").as_str());
    out.push_str(
        write_titled_list(&pool.physical_devices, "        physical_devices:\n").as_str(),
    );
    out.push_str(write_titled_list(&pool.nodes, "        nodes:\n").as_str());
    out
}

/// How Ansible reaches a node.
pub fn resolve_ansible_host(node_ips: &Vec<(String, String)>, node: &str) -> (r: String)
    ensures
        r@ == ansible_host(node_ips@, node@),
{
    let mut i: usize = node_ips.len();
    assert(node_ips@.take(i as int) =~= node_ips@);
    while i > 0
        invariant
            i <= node_ips.len(),
            known_ip(node_ips@, node@) == known_ip(node_ips@.take(i as int), node@),
        decreases i,
    {
        proof {
            assert(node_ips@.take(i as int).last() == node_ips@[i - 1]);
            assert(node_ips@.take(i as int).drop_last() =~= node_ips@.take(i - 1));
        }
        if same(node_ips[i - 1].0.as_str(), node) {
            return trim_or(node_ips[i - 1].1.as_str(), node).to_owned();
        }
        i -= 1;
    }
    node.to_owned()
}

fn write_hosts(nodes: &Vec<String>, node_ips: &Vec<(String, String)>) -> (r: String)
    ensures
        r@ == flat(nodes@, host_lines(node_ips@)),
{
    let mut out = String::new();
    let mut i: usize = 0;
    while i < nodes.len()
        invariant
            i <= nodes.len(),
            out@ == flat(nodes@.take(i as int), host_lines(node_ips@)),
        decreases nodes.len() - i,
    {
        proof {
            lemma_flat_take(nodes@, host_lines(node_ips@), i as int);
        }
        let mut host = "        ".to_owned();
        host.push_str(nodes[i].as_str());
        host.push_str(":\n          ansible_host: ");
        host.push_str(resolve_ansible_host(node_ips, nodes[i].as_str()).as_str());
        host.push_str("\n");
        out.push_str(host.as_str());
        i += 1;
    }
    assert(nodes@.take(i as int) =~= nodes@);
    out
}

fn write_pools(pools: &Vec<LinstorStoragePool>) -> (r: String)
    ensures
        r@ == flat(pools@, pool_yaml()),
{
    let mut out = String::new();
    let mut i: usize = 0;
    while i < pools.len()
        invariant
            i <= pools.len(),
            out@ == flat(pools@.take(i as int), pool_yaml()),
        decreases pools.len() - i,
    {
        proof {
            lemma_flat_take(pools@, pool_yaml(), i as int);
        }
        out.push_str(storage_pool_yaml(&pools[i]).as_str());
        i += 1;
    }
    assert(pools@.take(i as int) =~= pools@);
    out
}

/// The inventory of a LINSTOR deployment. `node_ips` pairs host names with addresses.
pub fn generate_linstor_inventory(
    config: &LinstorConfig,
    node_ips: &Vec<(String, String)>,
    ansible_user: &str,
    ansible_ssh_key: &str,
) -> (r: String)
    ensures
        r@ == linstor_inventory(*config, node_ips@, ansible_user@, ansible_ssh_key@),
{
    let mut pools = "    linstor_storage_pools:\n".to_owned();
    pools.push_str(write_pools(&config.storage_pools).as_str());
    let mut out = CONTROLLERS_HEAD.to_owned();
    out.push_str(write_hosts(&config.controller_nodes, node_ips).as_str());
    out.push_str(SATELLITES_HEAD);
    out.push_str(write_hosts(&config.satellite_nodes, node_ips).as_str());
    out.push_str(CLUSTER_GROUP);
    out.push_str(ansible_user);
    out.push_str("\n    ansible_ssh_private_key_file: ");
    out.push_str(ansible_ssh_key);
    out.push_str("\n    ansible_host_key_checking: false\n");
    push_when(
        &mut out,
        config.deploy_storage && config.storage_pools.len() > 0,
        pools.as_str(),
    );
    out
}

/// No host of the inventory is left without an address: where the list of addresses has
/// none for a node, or a blank one, the name of the node stands in.
pub proof fn law_ansible_host_is_never_blank(ips: Seq<(String, String)>, node: Seq<char>)
    requires
        node.len() > 0,
    ensures
        ansible_host(ips, node).len() > 0,
        (known_ip(ips, node) is None || is_blank(known_ip(ips, node)->0)) ==> ansible_host(ips, node)
            == node,
{
}

// ---------------------------------------------------------------------------
// The playbook
// ---------------------------------------------------------------------------

pub const LINSTOR_HEAD: &'static str = "---
# LINSTOR 배포 플레이북 (PLAN.md D.2)
# 사전 준비: `ansible-galaxy collection install -r requirements.yml`
# (함께 생성된 requirements.yml 참고). rpm_dir에는 gsdc-linbit-build가
# 만든 linstor-*.rpm 파일들이 있어야 한다 — LINBIT 공식 EL9 저장소는
# 구독 고객 전용이라 이 앱은 이미 빌드된 RPM을 로컬 설치하는 것을
# 전제로 cluster_init_repo_access: none으로 role을 호출한다.

";

pub const PREREQUISITES_HEAD: &'static str = "- name: Pacemaker 관리 전제조건 (DRBD 모듈 / SELinux)
  hosts: linstor_cluster
  remote_user: ";

pub const PREREQUISITES_VARS: &'static str = "
  become: yes
  # ansible_facts['selinux'] 가 필요하다
  gather_facts: yes
  vars:
    ansible_ssh_private_key_file: ";

/// The kernel module, the SELinux policy and the label that Pacemaker needs.
pub const PREREQUISITES_TASKS: &'static str = "
  tasks:
    # linbit.drbd.drbd_install(satellite_install 의 meta 의존성)은
    # /sys/module/drbd/version 으로 설치 여부를 판단하는데, 이 경로는
    # 모듈이 **로드돼 있을 때만** 존재한다. 패키지만 깔려 있고 로드가
    # 안 돼 있으면 role 이 LINBIT 자체 패키지명(kmod-drbd)을 설치하려다
    # \"No package kmod-drbd available.\" 로 실패한다.
    - name: 부팅 시 DRBD 모듈 자동 로드 설정
      ansible.builtin.copy:
        content: \"drbd\\n\"
        dest: /etc/modules-load.d/drbd.conf
        mode: '0644'

    - name: DRBD 모듈 즉시 로드
      community.general.modprobe:
        name: drbd
        state: present

    # SELinux Enforcing 에서 ocf:linbit:drbd RA 는 drbd_t 도메인으로
    # 실행된다. 이 정책 모듈이 없으면 drbdsetup 이 커널과 통신할
    # netlink_generic_socket 조차 만들지 못해 RA 가 리소스를 찾지 못한다.
    - name: drbd-selinux 설치 (SELinux 정책 모듈)
      ansible.builtin.dnf:
        name: drbd-selinux
        state: present
      when: ansible_facts['selinux']['status'] | default('disabled') != 'disabled'

    # LINSTOR 는 .res 파일을 /var/lib/linstor.d/ 에 쓰는데 그건 var_lib_t
    # 로 라벨된다. DRBD 정책은 /etc/drbd.d(etc_t)만 읽도록 돼 있어서
    # drbd_t 가 읽지 못하고, 증상은 엉뚱하게 나온다:
    #   avc: denied { read } comm=\"drbdadm\" scontext=drbd_t tcontext=var_lib_t
    #   -> \"DRBD resource <name> not found in configuration file /etc/drbd.conf.\"
    # 셸에서 root 로 drbdadm 을 치면 unconfined_t 라 잘 되기 때문에
    # AVC 로그를 보지 않으면 원인을 찾기 어렵다.
    - name: /var/lib/linstor.d 를 etc_t 로 라벨링
      community.general.sefcontext:
        target: '/var/lib/linstor\\.d(/.*)?'
        setype: etc_t
        state: present
      when: ansible_facts['selinux']['status'] | default('disabled') != 'disabled'
      register: _linstor_fcontext

    - name: 기존 파일에 라벨 적용
      ansible.builtin.command:
        cmd: restorecon -RF /var/lib/linstor.d
      when:
        - ansible_facts['selinux']['status'] | default('disabled') != 'disabled'
        - _linstor_fcontext is changed
      changed_when: true

";

pub const RPM_HEAD: &'static str = "- name: LINSTOR RPM 로컬 설치 (gsdc-linbit-build 산출물)
  hosts: linstor_cluster
  remote_user: ";

pub const RPM_VARS: &'static str = "
  become: yes
  vars:
    ansible_ssh_private_key_file: ";

pub const RPM_FIND: &'static str = "
  tasks:
    - name: 제어 노드의 로컬 RPM 목록 확인
      ansible.builtin.find:
        paths: \"";

pub const RPM_TASKS: &'static str = "\"
        patterns: \"*.rpm\"
      delegate_to: localhost
      run_once: true
      register: _linstor_rpms

    - name: RPM 파일을 노드로 복사
      ansible.builtin.copy:
        src: \"{{ item.path }}\"
        dest: \"/tmp/linstor-rpms/{{ item.path | basename }}\"
      loop: \"{{ _linstor_rpms.files }}\"
      loop_control:
        label: \"{{ item.path | basename }}\"

    - name: LINSTOR RPM 설치 (dnf, 로컬 파일 트랜잭션)
      ansible.builtin.dnf:
        name: \"/tmp/linstor-rpms/*.rpm\"
        state: present
        disable_gpg_check: true

";

pub const INIT_HEAD: &'static str = "- name: LINSTOR 클러스터 설치/초기화 (linbit.linstor.cluster_init)
  hosts: linstor_cluster
  any_errors_fatal: true
  remote_user: ";

pub const INIT_OPTIONS: &'static str = "
    # RPM은 위 play에서 이미 로컬 설치했으므로 repo 설정은 건너뛴다
    # (customer/public 저장소 모두 이 앱의 대상인 EL9에서는 무료로 접근 불가 — PLAN.md D 범위 확정 참고)
    cluster_init_repo_access: none
    cluster_init_deploy_storage: ";

pub const INIT_TASKS: &'static str = "
  tasks:
    - name: LINSTOR 설치 및 클러스터 등록
      ansible.builtin.import_role:
        name: linbit.linstor.cluster_init

";

pub const PROVISION_HEAD: &'static str = "- name: LINSTOR 리소스 그룹/리소스 프로비저닝
  hosts: localhost
  gather_facts: false
  environment:
    LS_CONTROLLERS: \"{{ lookup('linbit.linstor.controller_env') }}\"
  tasks:
";

/// Without this the kernel would promote a resource that Pacemaker has not promoted.
pub const NO_AUTO_PROMOTE: &'static str = "        drbd_options:
          resource:
            auto-promote: \"no\"
";

/// The play that prepares the nodes for Pacemaker.
pub open spec fn prerequisites_play(user: Seq<char>, key: Seq<char>) -> Seq<char> {
    PREREQUISITES_HEAD@ + user + PREREQUISITES_VARS@ + key + PREREQUISITES_TASKS@
}

/// The play that installs the packages.
pub open spec fn rpm_play(c: LinstorConfig, user: Seq<char>, key: Seq<char>) -> Seq<char> {
    RPM_HEAD@ + user + RPM_VARS@ + key + RPM_FIND@ + c.rpm_dir@ + RPM_TASKS@
}

/// The play that sets the cluster up.
pub open spec fn init_play(c: LinstorConfig, user: Seq<char>, key: Seq<char>) -> Seq<char> {
    INIT_HEAD@ + user + RPM_VARS@ + key + INIT_OPTIONS@ + flag(c.deploy_storage)
        + "\n    cluster_init_ha_database: "@ + flag(c.ha_database)
        + "\n    cluster_init_token_auth: "@ + flag(c.token_auth) + INIT_TASKS@
}

pub open spec fn group_task(managed: bool) -> spec_fn(LinstorResourceGroup) -> Seq<char> {
    |g: LinstorResourceGroup|
        "    - name: 리소스 그룹 생성 ("@ + g.name@
            + ")\n      linbit.linstor.resource_group:\n        name: "@ + g.name@
            + "\n        storage_pool: "@ + g.storage_pool@ + "\n        place_count: "@ + decimal(
            g.place_count as nat,
        ) + "\n"@ + given(managed, NO_AUTO_PROMOTE@) + "\n"@
}

pub open spec fn spawn_task() -> spec_fn(LinstorResourceSpawn) -> Seq<char> {
    |r: LinstorResourceSpawn|
        "    - name: 리소스 스폰 ("@ + r.name@
            + ")\n      linbit.linstor.resource:\n        name: "@ + r.name@
            + "\n        mode: spawn\n        resource_group: "@ + r.resource_group@
            + "\n        size: "@ + r.size@ + "\n\n"@
}

/// The play that makes the resource groups and the resources.
pub open spec fn provision_play(c: LinstorConfig) -> Seq<char> {
    given(
        c.resource_groups@.len() > 0 || c.resources@.len() > 0,
        PROVISION_HEAD@ + flat(c.resource_groups@, group_task(c.pacemaker_managed)) + flat(
            c.resources@,
            spawn_task(),
        ),
    )
}

/// The playbook: what Pacemaker needs, the packages, the cluster, the resources. It ends
/// with one line feed.
pub open spec fn linstor_playbook(c: LinstorConfig, user: Seq<char>, key: Seq<char>) -> Seq<char> {
    without_trailing(
        LINSTOR_HEAD@ + given(c.pacemaker_managed, prerequisites_play(user, key)) + rpm_play(
            c,
            user,
            key,
        ) + init_play(c, user, key) + provision_play(c),
        '\n',
    ) + "\n"@
}

fn write_prerequisites_play(user: &str, key: &str) -> (r: String)
    ensures
        r@ == prerequisites_play(user@, key@),
{
    let mut out = PREREQUISITES_HEAD.to_owned();
    out.push_str(user);
    out.push_str(PREREQUISITES_VARS);
    out.push_str(key);
    out.push_str(PREREQUISITES_TASKS);
    out
}

fn write_rpm_play(c: &LinstorConfig, user: &str, key: &str) -> (r: String)
    ensures
        r@ == rpm_play(*c, user@, key@),
{
    let mut out = RPM_HEAD.to_owned();
    out.push_str(user);
    out.push_str(RPM_VARS);
    out.push_str(key);
    out.push_str(RPM_FIND);
    out.push_str(c.rpm_dir.as_str());
    out.push_str(RPM_TASKS);
    out
}

fn write_init_play(c: &LinstorConfig, user: &str, key: &str) -> (r: String)
    ensures
        r@ == init_play(*c, user@, key@),
{
    let mut out = INIT_HEAD.to_owned();
    out.push_str(user);
    out.push_str(RPM_VARS);
    out.push_str(key);
    out.push_str(INIT_OPTIONS);
    out.push_str(flag_text(c.deploy_storage));
    out.push_str("\n    cluster_init_ha_database: ");
    out.push_str(flag_text(c.ha_database));
    out.push_str("\n    cluster_init_token_auth: ");
    out.push_str(flag_text(c.token_auth));
    out.push_str(INIT_TASKS);
    out
}

fn write_group_task(managed: bool, g: &LinstorResourceGroup) -> (r: String)
    ensures
        r@ == group_task(managed)(*g),
{
    let mut out = "    - name: 리소스 그룹 생성 (".to_owned();
    out.push_str(g.name.as_str());
    out.push_str(")\n      linbit.linstor.resource_group:\n        name: ");
    out.push_str(g.name.as_str());
    out.push_str("\n        storage_pool: ");
    out.push_str(g.storage_pool.as_str());
    out.push_str("\n        place_count: ");
    push_number(&mut out, g.place_count as u64);
    out.push_str("\n");
    push_when(&mut out, managed, NO_AUTO_PROMOTE);
    out.push_str("\n");
    out
}

fn write_group_tasks(managed: bool, groups: &Vec<LinstorResourceGroup>) -> (r: String)
    ensures
        r@ == flat(groups@, group_task(managed)),
{
    let mut out = String::new();
    let mut i: usize = 0;
    while i < groups.len()
        invariant
            i <= groups.len(),
            out@ == flat(groups@.take(i as int), group_task(managed)),
        decreases groups.len() - i,
    {
        proof {
            lemma_flat_take(groups@, group_task(managed), i as int);
        }
        out.push_str(write_group_task(managed, &groups[i]).as_str());
        i += 1;
    }
    assert(groups@.take(i as int) =~= groups@);
    out
}

fn write_spawn_task(r: &LinstorResourceSpawn) -> (s: String)
    ensures
        s@ == spawn_task()(*r),
{
    let mut out = "    - name: 리소스 스폰 (".to_owned();
    out.push_str(r.name.as_str());
    out.push_str(")\n      linbit.linstor.resource:\n        name: ");
    out.push_str(r.name.as_str());
    out.push_str("\n        mode: spawn\n        resource_group: ");
    out.push_str(r.resource_group.as_str());
    out.push_str("\n        size: ");
    out.push_str(r.size.as_str());
    out.push_str("\n\n");
    out
}

fn write_spawn_tasks(resources: &Vec<LinstorResourceSpawn>) -> (r: String)
    ensures
        r@ == flat(resources@, spawn_task()),
{
    let mut out = String::new();
    let mut i: usize = 0;
    while i < resources.len()
        invariant
            i <= resources.len(),
            out@ == flat(resources@.take(i as int), spawn_task()),
        decreases resources.len() - i,
    {
        proof {
            lemma_flat_take(resources@, spawn_task(), i as int);
        }
        out.push_str(write_spawn_task(&resources[i]).as_str());
        i += 1;
    }
    assert(resources@.take(i as int) =~= resources@);
    out
}

fn write_provision_play(c: &LinstorConfig) -> (r: String)
    ensures
        r@ == provision_play(*c),
{
    let mut out = PROVISION_HEAD.to_owned();
    out.push_str(write_group_tasks(c.pacemaker_managed, &c.resource_groups).as_str());
    out.push_str(write_spawn_tasks(&c.resources).as_str());
    keep_when(c.resource_groups.len() > 0 || c.resources.len() > 0, out)
}

/// The playbook of a LINSTOR deployment.
pub fn generate_linstor_ansible_playbook(
    config: &LinstorConfig,
    ansible_user: &str,
    ansible_ssh_key: &str,
) -> (r: String)
    ensures
        r@ == linstor_playbook(*config, ansible_user@, ansible_ssh_key@),
{
    let mut out = LINSTOR_HEAD.to_owned();
    push_when(
        &mut out,
        config.pacemaker_managed,
        write_prerequisites_play(ansible_user, ansible_ssh_key).as_str(),
    );
    out.push_str(write_rpm_play(config, ansible_user, ansible_ssh_key).as_str());
    out.push_str(write_init_play(config, ansible_user, ansible_ssh_key).as_str());
    out.push_str(write_provision_play(config).as_str());
    let mut text = trim_end_char(out.as_str(), '\n').to_owned();
    text.push_str("\n");
    text
}

/// What precedes a character other than a line feed is kept when trailing line feeds are taken
/// away.
proof fn lemma_front_is_kept(a: Seq<char>, b: Seq<char>, k: int)
    requires
        0 <= k < b.len(),
        b[k] != '\n',
    ensures
        a.is_prefix_of(without_trailing(a + b, '\n')),
    decreases b.len(),
{
    let s = a + b;
    if s.last() == '\n' {
        assert(k < b.len() - 1);
        assert(s.drop_last() =~= a + b.drop_last());
        assert(b.drop_last()[k] == b[k]);
        lemma_front_is_kept(a, b.drop_last(), k);
    } else {
        assert(s.subrange(0, a.len() as int) =~= a);
    }
}

/// Where Pacemaker manages the resources, the play with what it needs comes first, before the
/// packages are installed; otherwise the packages come first, and that play is missing.
pub proof fn law_prerequisites_come_first(c: LinstorConfig, user: Seq<char>, key: Seq<char>)
    ensures
        c.pacemaker_managed ==> (LINSTOR_HEAD@ + prerequisites_play(user, key) + rpm_play(
            c,
            user,
            key,
        )).is_prefix_of(linstor_playbook(c, user, key)),
        !c.pacemaker_managed ==> (LINSTOR_HEAD@ + rpm_play(c, user, key)).is_prefix_of(
            linstor_playbook(c, user, key),
        ),
{
    let a = LINSTOR_HEAD@ + given(c.pacemaker_managed, prerequisites_play(user, key)) + rpm_play(
        c,
        user,
        key,
    );
    let init = init_play(c, user, key);
    let b = init + provision_play(c);
    let s = a + init + provision_play(c);
    assert(s =~= a + b);
    let before = INIT_HEAD@ + user + RPM_VARS@ + key + INIT_OPTIONS@;
    reveal_strlit("true");
    reveal_strlit("false");
    let k = before.len() as int;
    assert(init[k] == flag(c.deploy_storage)[0]);
    assert(b[k] == init[k]);
    lemma_front_is_kept(a, b, k);
    let kept = without_trailing(a + b, '\n');
    let all = linstor_playbook(c, user, key);
    assert(all == kept + "\n"@);
    assert(all.subrange(0, a.len() as int) =~= kept.subrange(0, a.len() as int));
    assert(LINSTOR_HEAD@ + Seq::<char>::empty() =~= LINSTOR_HEAD@);
}

} // verus!
