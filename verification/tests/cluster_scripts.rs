use ipvlan_container_manager::generators::constraints::generate_default_constraints;
use ipvlan_container_manager::generators::pacemaker::{
    generate_cib_xml_snippet, generate_maintenance_script, generate_pcs_script,
    generate_teardown_script,
};
use ipvlan_container_manager::generators::pacemaker_cmds::{
    generate_drbd_resource_cmds, generate_fs_resource_cmds, generate_location_constraint,
    generate_order_constraint, generate_resource_group_cmd, generate_stonith_cmds,
    generate_systemd_resource_cmds, sanitize_stonith_id, shell_quote, stonith_device_name,
    yaml_dquote, yaml_squote,
};
use ipvlan_container_manager::generators::pacemaker_playbook::{
    build_bootstrap_play, build_resources_play, build_stonith_play,
};
use ipvlan_container_manager::models::pacemaker::{
    ClusterNode, ColocationConstraint, DrbdPacemakerResource, FsResource, LocationConstraint,
    OrderConstraint, PacemakerConfig, ResourceGroup, StonithDevice, SystemdResource,
    SystemdResourceType,
};
use ipvlan_container_manager::routes::pacemaker::{
    build_config, pacemaker_result, DrbdGroupInput, FsResourceInput, PacemakerFormData,
    PacemakerLists, ResourceGroupInput, SystemdResourceInput,
};

fn empty() -> PacemakerConfig {
    let mut c = PacemakerConfig::default();
    c.cluster.nodes.clear();
    c
}

fn drbd() -> DrbdPacemakerResource {
    DrbdPacemakerResource {
        resource_name: "drbd-r0".to_string(),
        drbd_resource_name: "r0".to_string(),
        clone_name: "r0-clone".to_string(),
        notify: true,
        promotable: true,
        on_fail: String::new(),
        target_role_master_node: Some("n1".to_string()),
        promote_timeout: "1s".to_string(),
        demote_timeout: "2s".to_string(),
        start_timeout: "3s".to_string(),
        stop_timeout: "4s".to_string(),
        monitor_interval_promoted: "29s".to_string(),
        monitor_interval_unpromoted: "31s".to_string(),
    }
}

fn file_system() -> FsResource {
    FsResource {
        resource_name: "fs".to_string(),
        device: "/dev/drbd0".to_string(),
        directory: "/mnt/r0".to_string(),
        fstype: "xfs".to_string(),
        monitor_interval: "20s".to_string(),
        start_timeout: "60s".to_string(),
        stop_timeout: "61s".to_string(),
        drbd_clone_name: "r0-clone".to_string(),
    }
}

fn unit(name: &str) -> SystemdResource {
    SystemdResource {
        resource_name: name.to_string(),
        systemd_unit: format!("{name}.service"),
        resource_type: SystemdResourceType::Container,
        monitor_interval: "30s".to_string(),
        start_timeout: "60s".to_string(),
        stop_timeout: "62s".to_string(),
        clone: false,
        clone_name: None,
    }
}

fn device(node: &str) -> StonithDevice {
    StonithDevice {
        node: node.to_string(),
        ipmi_ip: "10.1.0.1".to_string(),
        ipmi_user: "admin".to_string(),
        ipmi_password: "it's".to_string(),
        extra_opts: vec!["x=1".to_string()],
    }
}

fn location() -> LocationConstraint {
    LocationConstraint {
        id: "loc1".to_string(),
        rsc: "grp".to_string(),
        node: "n1".to_string(),
        score: "100".to_string(),
    }
}

#[test]
fn an_empty_cluster_is_set_up_by_its_properties() {
    let mut c = empty();
    c.cluster.stonith_enabled = true;
    c.cluster.no_quorum_policy = "stop".to_string();
    c.cluster.migration_threshold = 5;
    c.cluster.failure_timeout = "90s".to_string();
    assert_eq!(
        generate_pcs_script(&c),
        "#!/bin/bash
# Pacemaker 설정 스크립트 (pcs 명령)
# AlmaLinux9 / RHEL9 + pacemaker + corosync
# 반드시 클러스터 노드 중 하나에서 root 권한으로 실행하세요.

set -euo pipefail

# ─── 클러스터 전역 속성 ───────────────────────────────────────
pcs property set stonith-enabled=true
pcs property set no-quorum-policy=stop
pcs resource defaults migration-threshold=5
pcs resource defaults failure-timeout=90s

echo '✅ Pacemaker 설정 완료'"
    );
}

#[test]
fn resources_and_constraints_are_created_only_when_missing() {
    let mut c = empty();
    c.fs_resources.push(file_system());
    c.resource_groups.push(ResourceGroup {
        group_name: "grp".to_string(),
        members: vec!["a".to_string(), "b".to_string()],
        after_fs: None,
    });
    c.location_constraints.push(location());
    let script = generate_pcs_script(&c);
    assert!(script.ends_with(
        "
# ─── Filesystem 리소스 (ocf:heartbeat:Filesystem) ───────────
# DRBD가 Primary로 승격된 후 볼륨을 마운트합니다.
if ! pcs resource config 'fs' >/dev/null 2>&1; then
  pcs resource create fs ocf:heartbeat:Filesystem \\
      device=/dev/drbd0 \\
      directory=/mnt/r0 \\
      fstype=xfs \\
      op monitor interval=20s \\
      op start  timeout=60s \\
      op stop   timeout=61s
else
  echo \"  - fs 는 이미 있어 건너뜁니다\"
fi

# ─── 리소스 그룹 (Pod → Container 순서 보장) ───────────────
# 그룹 내 start: members 순서대로, stop: 역순 자동 처리
# (pcs resource group add 는 자체적으로 멱등이라 가드를 두지 않는다)
pcs resource group add grp a b

# ─── Location 제약조건 (선호 노드) ─────────────────────────
if ! pcs constraint --full 2>/dev/null | grep -q \"(id: loc1)\"; then
  pcs constraint location grp prefers n1=100 id=loc1
else
  echo \"  - 제약조건 loc1 는 이미 있어 건너뜁니다\"
fi

echo '✅ Pacemaker 설정 완료'"
    ));
}

#[test]
fn each_kind_of_resource_has_its_commands() {
    assert_eq!(
        generate_drbd_resource_cmds(&drbd(), 4),
        [
            "pcs resource create drbd-r0 ocf:linbit:drbd \\",
            "    drbd_resource=r0 \\",
            "    op demote  interval=0s timeout=2s \\",
            "    op monitor interval=29s role=Promoted \\",
            "    op monitor interval=31s role=Unpromoted \\",
            "    op notify  interval=0s timeout=90s \\",
            "    op promote interval=0s timeout=1s \\",
            "    op reload  interval=0s timeout=30s \\",
            "    op start   interval=0s timeout=3s \\",
            "    op stop    interval=0s timeout=4s",
            "pcs resource promotable drbd-r0 \\",
            "    promoted-max=1 promoted-node-max=1 \\",
            "    clone-max=4 clone-node-max=1 \\",
            "    notify=true \\",
            "    id=r0-clone",
            "pcs constraint location r0-clone prefers n1=200",
        ]
    );
    assert_eq!(generate_fs_resource_cmds(&file_system()).len(), 7);
    let mut web = unit("web");
    assert_eq!(
        generate_systemd_resource_cmds(&web),
        [
            "pcs resource create web systemd:web.service \\",
            "    op monitor interval=30s \\",
            "    op start timeout=60s \\",
            "    op stop timeout=62s",
        ]
    );
    web.clone = true;
    assert_eq!(generate_systemd_resource_cmds(&web).len(), 4);
    web.clone_name = Some("web-clone".to_string());
    assert_eq!(
        generate_systemd_resource_cmds(&web)[4],
        "pcs resource clone web id=web-clone"
    );
    assert_eq!(
        generate_stonith_cmds(&device("n1.lan")),
        [
            format!("pcs stonith create {} fence_ipmilan \\", stonith_device_name("n1.lan")),
            "    pcmk_host_list='n1.lan' \\".to_string(),
            "    ip='10.1.0.1' user='admin' password='it'\\''s' \\".to_string(),
            "    lanplus=1 power_wait=5 pcmk_reboot_timeout=300 pcmk_monitor_timeout=60 pcmk_reboot_action=reboot x=1".to_string(),
        ]
    );
    let order = OrderConstraint {
        id: "o".to_string(),
        first: "a".to_string(),
        first_action: "promote".to_string(),
        then_rsc: "b".to_string(),
        then_action: "start".to_string(),
        kind: "Mandatory".to_string(),
    };
    assert_eq!(
        generate_order_constraint(&order),
        "pcs constraint order promote a then start b kind=Mandatory id=o"
    );
    assert_eq!(
        generate_location_constraint(&location()),
        "pcs constraint location grp prefers n1=100 id=loc1"
    );
    let group = ResourceGroup {
        group_name: "g".to_string(),
        members: vec!["a".to_string()],
        after_fs: None,
    };
    assert_eq!(generate_resource_group_cmd(&group), "pcs resource group add g a");
}

#[test]
fn quoting_protects_what_is_quoted() {
    assert_eq!(shell_quote("a b"), "'a b'");
    assert_eq!(shell_quote("it's"), "'it'\\''s'");
    assert_eq!(yaml_squote("it's"), "'it''s'");
    assert_eq!(yaml_dquote("a\"b\\c"), "\"a\\\"b\\\\c\"");
    assert_eq!(sanitize_stonith_id("Node 1.lan_é"), "Node_1.lan__");
    assert_eq!(stonith_device_name("n1"), "stonith-ipmi-n1");
}

#[test]
fn the_teardown_removes_each_thing_if_it_is_there() {
    let mut c = empty();
    c.location_constraints.push(location());
    c.drbd_resources.push(drbd());
    assert_eq!(
        generate_teardown_script(&c),
        "#!/bin/bash
# Pacemaker 리소스 해제 스크립트 (생성 스크립트의 짝)
#
# 이 앱이 등록한 Pacemaker 리소스와 제약조건만 제거합니다.
# DRBD 볼륨의 데이터, LINSTOR 리소스, .res 파일은 건드리지 않습니다
# — Pacemaker 관리에서만 빼냅니다.
#
# 의존 역순으로 지웁니다: 제약조건 → 그룹 → 서비스/FS → DRBD → STONITH
# 없는 항목은 건너뛰므로 여러 번 실행해도 안전합니다.

set -euo pipefail

# ─── 1. 제약조건 제거 ────────────────────────────────────────
if pcs constraint --full 2>/dev/null | grep -q \"(id: loc1)\"; then
  pcs constraint delete 'loc1'
else
  echo \"  - 제약조건 loc1 없음 (건너뜀)\"
fi

# ─── 5. DRBD Promotable Clone 제거 ───────────────────────────
# clone id 를 지우면 안에 든 primitive 도 함께 사라진다.
if pcs resource config 'r0-clone' >/dev/null 2>&1; then
  pcs resource delete 'r0-clone'
else
  echo \"  - 리소스 r0-clone 없음 (건너뜀)\"
fi

# 실패 기록이 남아 있으면 정리한다 (없으면 no-op)
pcs resource cleanup >/dev/null 2>&1 || true

echo '✅ Pacemaker 리소스 해제 완료'
pcs resource status || true"
    );
}

#[test]
fn the_cib_lists_grouped_units_once() {
    let mut c = empty();
    c.drbd_resources.push(drbd());
    c.fs_resources.push(file_system());
    c.systemd_resources.push(unit("web"));
    c.systemd_resources.push(unit("db"));
    c.resource_groups.push(ResourceGroup {
        group_name: "grp".to_string(),
        members: vec!["web".to_string()],
        after_fs: None,
    });
    assert_eq!(
        generate_cib_xml_snippet(&c),
        "<?xml version=\"1.0\" ?>
<cib>
  <configuration>
    <resources>
      <clone id=\"r0-clone\" promotable=\"true\">
        <primitive id=\"drbd-r0\" class=\"ocf\" provider=\"linbit\" type=\"drbd\">
          <instance_attributes>
            <nvpair name=\"drbd_resource\" value=\"r0\"/>
          </instance_attributes>
        </primitive>
      </clone>
      <primitive id=\"fs\" class=\"ocf\" provider=\"heartbeat\" type=\"Filesystem\">
        <instance_attributes>
          <nvpair name=\"device\" value=\"/dev/drbd0\"/>
          <nvpair name=\"directory\" value=\"/mnt/r0\"/>
          <nvpair name=\"fstype\" value=\"xfs\"/>
        </instance_attributes>
      </primitive>
      <group id=\"grp\">
        <primitive id=\"web\"/>
      </group>
      <primitive id=\"db\" class=\"systemd\" type=\"db.service\"/>
    </resources>
  </configuration>
</cib>
"
    );
}

#[test]
fn maintenance_goes_from_node_to_node() {
    assert_eq!(generate_maintenance_script(&empty()), "");
    let mut c = empty();
    for (i, name) in ["n1", "n2"].iter().enumerate() {
        c.cluster.nodes.push(ClusterNode {
            name: name.to_string(),
            id: i as u32 + 1,
        });
    }
    let script = generate_maintenance_script(&c);
    assert!(script.starts_with("#!/bin/bash\n# Pacemaker 클러스터 롤링 유지보수 스크립트"));
    assert!(script.contains(
        "\nCONTROLLER=\"n1\"  # pcs 상태 조회는 이 노드를 통해 실행\nNODES=(n1 n2)\nLOCK_PACKAGES=\"pacemaker corosync pcs\"\n\npcs_status() { ssh \"$CONTROLLER\" pcs status; }\n\nfor node in \"${NODES[@]}\"; do\n"
    ));
    assert!(script.ends_with("  echo \"=== [$node] 유지보수 완료 ===\"\ndone\n\necho '✅ 모든 노드 유지보수 완료'"));
}

#[test]
fn constraints_link_device_file_system_and_units() {
    let mut c = empty();
    c.drbd_resources.push(drbd());
    c.fs_resources.push(file_system());
    c.systemd_resources.push(unit("web"));
    generate_default_constraints(&mut c);
    let orders: Vec<&str> = c.order_constraints.iter().map(|o| o.id.as_str()).collect();
    assert_eq!(orders, ["ord-fs-after-r0-clone", "ord-web-after-fs"]);
    assert_eq!(c.order_constraints[0].first_action, "promote");
    assert_eq!(c.order_constraints[1].first_action, "start");
    let places: Vec<&str> = c.colocation_constraints.iter().map(|k| k.id.as_str()).collect();
    assert_eq!(places, ["col-fs-with-r0-clone", "col-web-with-fs"]);
    assert_eq!(c.colocation_constraints[0].with_rsc_role.as_deref(), Some("Promoted"));
    assert_eq!(c.colocation_constraints[1].with_rsc_role, None);

    let mut bare = empty();
    bare.drbd_resources.push(drbd());
    bare.systemd_resources.push(unit("web"));
    generate_default_constraints(&mut bare);
    assert_eq!(bare.order_constraints[0].id, "ord-web-after-r0-clone");

    let mut elsewhere = empty();
    elsewhere.drbd_resources.push(drbd());
    let mut other = file_system();
    other.drbd_clone_name = "other".to_string();
    elsewhere.fs_resources.push(other);
    generate_default_constraints(&mut elsewhere);
    assert!(elsewhere.order_constraints.is_empty());
}

#[test]
fn the_resources_play_asks_before_it_creates() {
    let mut c = empty();
    c.colocation_constraints.push(ColocationConstraint {
        id: "k".to_string(),
        rsc: "fs".to_string(),
        rsc_role: None,
        with_rsc: "r0-clone".to_string(),
        with_rsc_role: Some("Promoted".to_string()),
        score: "INFINITY".to_string(),
    });
    assert_eq!(
        build_resources_play(&c, "all", "root", "~/.ssh/id_rsa"),
        "- name: Pacemaker 리소스 및 제약조건 구성
  hosts: all
  remote_user: root
  become: yes
  vars:
    ansible_ssh_private_key_file: ~/.ssh/id_rsa
  tasks:
    - name: 기존 pcs resource 구성 조회
      ansible.builtin.command: pcs resource config
      run_once: true
      delegate_to: \"{{ ansible_play_batch | first }}\"
      register: existing_resource_config
      changed_when: false

    - name: 기존 pcs constraint 구성 조회
      ansible.builtin.command: pcs constraint --full
      run_once: true
      delegate_to: \"{{ ansible_play_batch | first }}\"
      register: existing_constraints
      changed_when: false

    - name: Colocation 제약조건 (fs with r0-clone)
      ansible.builtin.command: \"pcs constraint colocation add fs with Promoted r0-clone score=INFINITY id=k\"
      run_once: true
      delegate_to: \"{{ ansible_play_batch | first }}\"
      when: 'existing_constraints.stdout is not search(\"resource ''fs'' with Promoted resource ''r0-clone''\")'
      changed_when: true
"
    );
}

#[test]
fn the_other_plays_depend_on_nodes_and_devices() {
    let mut c = empty();
    assert!(build_bootstrap_play(&c, "all", "root", "k").is_none());
    assert!(build_stonith_play(&c, "all", "root", "k").is_none());
    c.cluster.cluster_name = "ha".to_string();
    c.cluster.no_quorum_policy = "stop".to_string();
    c.cluster.stonith_enabled = false;
    c.cluster.nodes.push(ClusterNode {
        name: "n1".to_string(),
        id: 1,
    });
    c.stonith_devices.push(device("n1"));
    let bootstrap = build_bootstrap_play(&c, "all", "root", "k").unwrap();
    assert!(bootstrap.starts_with("- name: Pacemaker 클러스터 부트스트랩 (설치 ~ cluster setup)\n  hosts: all\n  remote_user: root\n  become: yes\n  vars:\n    ansible_ssh_private_key_file: k\n  vars_prompt:\n"));
    assert_eq!(bootstrap.matches("      delegate_to: \"{{ ansible_play_batch | first }}\"\n").count(), 7);
    assert!(bootstrap.contains("\"pcs cluster setup ha {{ ansible_play_batch | join(' ') }}\"\n"));
    assert!(bootstrap.ends_with("    - name: stonith-enabled 설정\n      ansible.builtin.command: \"pcs property set stonith-enabled=false\"\n      run_once: true\n      delegate_to: \"{{ ansible_play_batch | first }}\"\n      changed_when: true\n"));
    assert_eq!(
        build_stonith_play(&c, "all", "root", "k").unwrap(),
        "- name: STONITH(fencing) 리소스 등록
  hosts: all
  remote_user: root
  become: yes
  vars:
    ansible_ssh_private_key_file: k
  tasks:
    - name: 기존 STONITH 리소스 조회
      ansible.builtin.command: pcs stonith status
      run_once: true
      delegate_to: \"{{ ansible_play_batch | first }}\"
      register: existing_stonith
      failed_when: false
      changed_when: false

    - name: STONITH 생성 (n1)
      ansible.builtin.command: >
        pcs stonith create stonith-ipmi-n1 fence_ipmilan
        pcmk_host_list=n1
        ip=10.1.0.1 user=admin password=it's
        lanplus=1 power_wait=5 pcmk_reboot_timeout=300
        pcmk_monitor_timeout=60 pcmk_reboot_action=reboot
      run_once: true
      delegate_to: \"{{ ansible_play_batch | first }}\"
      when: 'existing_stonith.stdout is not search(\"stonith-ipmi-n1\")'
      no_log: true
"
    );
}

#[test]
fn a_form_is_turned_into_a_configuration() {
    let form = PacemakerFormData {
        cluster_name: "ha".to_string(),
        nodes_json: Some("[{\"hostname\":\"n1\"},{\"hostname\":\"\"},{\"ip\":\"x\"},{\"hostname\":\"n4\"}]".to_string()),
        stonith_enabled: Some("on".to_string()),
        no_quorum_policy: "stop".to_string(),
        migration_threshold: None,
        failure_timeout: None,
        drbd_resources_json: None,
        systemd_resources_json: None,
        resource_groups_json: None,
        stonith_devices_json: None,
        auto_constraints: Some("on".to_string()),
        order_constraints_json: None,
        colocation_constraints_json: None,
        location_constraints_json: None,
        ansible_hosts: Some(" nodes ".to_string()),
        ansible_user: None,
        ansible_ssh_key: None,
    };
    let group = DrbdGroupInput {
        resource_name: "drbd-r0".to_string(),
        drbd_resource_name: "r0".to_string(),
        clone_name: "r0-clone".to_string(),
        notify: None,
        on_fail: None,
        target_role_master_node: Some(" ".to_string()),
        promote_timeout: Some(" ".to_string()),
        demote_timeout: None,
        start_timeout: Some("9s".to_string()),
        stop_timeout: None,
        fs: Some(FsResourceInput {
            resource_name: "fs".to_string(),
            device: "/dev/drbd0".to_string(),
            directory: "/mnt".to_string(),
            fstype: None,
            monitor_interval: None,
            start_timeout: None,
            stop_timeout: None,
        }),
    };
    let pod = SystemdResourceInput {
        resource_name: "p".to_string(),
        systemd_unit: "p.service".to_string(),
        resource_type: "POD".to_string(),
        monitor_interval: None,
        start_timeout: None,
        stop_timeout: None,
        clone: None,
        clone_name: None,
    };
    let kept = ResourceGroupInput {
        group_name: "g".to_string(),
        members: vec!["p".to_string()],
        after_fs: Some("fs".to_string()),
    };
    let dropped = ResourceGroupInput {
        group_name: "h".to_string(),
        members: Vec::new(),
        after_fs: None,
    };
    let mut unreachable_device = device("n2");
    unreachable_device.ipmi_ip = String::new();
    let config = build_config(
        &form,
        PacemakerLists {
            drbd_groups: vec![group],
            systemd_resources: vec![pod],
            resource_groups: vec![kept, dropped],
            stonith_devices: vec![device("n1"), unreachable_device],
            order_constraints: Vec::new(),
            colocation_constraints: Vec::new(),
            location_constraints: vec![location()],
        },
    );
    assert_eq!(config.cluster.nodes.len(), 2);
    assert_eq!(config.cluster.nodes[1].name, "n4");
    assert_eq!(config.cluster.nodes[1].id, 4);
    assert!(config.cluster.stonith_enabled);
    assert_eq!(config.cluster.migration_threshold, 3);
    assert_eq!(config.cluster.failure_timeout, "60s");
    assert!(config.drbd_resources[0].notify);
    assert_eq!(config.drbd_resources[0].on_fail, "fence");
    assert_eq!(config.drbd_resources[0].target_role_master_node, None);
    assert_eq!(config.drbd_resources[0].promote_timeout, "90s");
    assert_eq!(config.drbd_resources[0].start_timeout, "9s");
    assert_eq!(config.drbd_resources[0].stop_timeout, "100s");
    assert_eq!(config.fs_resources[0].fstype, "xfs");
    assert_eq!(config.fs_resources[0].drbd_clone_name, "r0-clone");
    assert!(matches!(config.systemd_resources[0].resource_type, SystemdResourceType::Pod));
    assert_eq!(config.systemd_resources[0].monitor_interval, "30s");
    assert_eq!(config.resource_groups.len(), 1);
    assert_eq!(config.stonith_devices.len(), 1);
    let orders: Vec<&str> = config.order_constraints.iter().map(|o| o.id.as_str()).collect();
    assert_eq!(orders, ["ord-fs-after-r0-clone", "ord-g-after-fs"]);
    assert_eq!(config.location_constraints.len(), 1);
    let result = pacemaker_result(&form, &config);
    assert_eq!(result.pcs_script, generate_pcs_script(&config));
    assert_eq!(result.cib_xml, generate_cib_xml_snippet(&config));
    assert_eq!(result.maintenance_script, generate_maintenance_script(&config));
    assert!(result.ansible_playbook.starts_with("---\n# 실행 전 확인 (PLAN.md A.8): `ansible-inventory -i <inventory> --graph`로\n# 아래 hosts 값(\"nodes\")이 예상한 노드 수만큼 resolve되는지 확인하세요.\n# 그룹이 존재하지 않으면 ansible은 에러 없이 대상 0개로 조용히 끝납니다.\n- name: Pacemaker 클러스터 부트스트랩"));
}
