use ipvlan_container_manager::generators::constraints::generate_default_constraints;
use ipvlan_container_manager::generators::pacemaker::{generate_pcs_script, generate_teardown_script};
use ipvlan_container_manager::generators::pacemaker_cmds::generate_colocation_constraint;
use ipvlan_container_manager::models::pacemaker::{
    ClusterConfig, ClusterNode, ColocationConstraint, DrbdPacemakerResource, FsResource,
    PacemakerConfig, ResourceGroup, StonithDevice, SystemdResource,
};

fn config_with_nodes(node_count: usize) -> PacemakerConfig {
    let mut config = PacemakerConfig::default();
    config.cluster = ClusterConfig {
        nodes: (0..node_count)
            .map(|i| ClusterNode { name: format!("node{}", i + 1), id: (i + 1) as u32 })
            .collect(),
        ..ClusterConfig::default()
    };
    config.drbd_resources.push(DrbdPacemakerResource::default());
    config
}

#[test]
fn clone_max_follows_cluster_node_count() {
    let script = generate_pcs_script(&config_with_nodes(3));
    assert!(script.contains("clone-max=3 clone-node-max=1"));
    assert!(!script.contains("clone-max=2 "));
}

#[test]
fn clone_max_defaults_to_three_when_nodes_unset() {
    let script = generate_pcs_script(&config_with_nodes(0));
    assert!(script.contains("clone-max=3 clone-node-max=1"));
}

#[test]
fn drbd_resource_emits_full_op_set_with_configured_timeouts() {
    let mut config = config_with_nodes(3);
    config.drbd_resources[0].promote_timeout = "120s".to_string();
    config.drbd_resources[0].demote_timeout = "120s".to_string();
    config.drbd_resources[0].start_timeout = "240s".to_string();
    config.drbd_resources[0].stop_timeout = "180s".to_string();

    let script = generate_pcs_script(&config);

    assert!(script.contains("op demote  interval=0s timeout=120s"));
    assert!(script.contains("op monitor interval=29s role=Promoted"));
    assert!(script.contains("op monitor interval=31s role=Unpromoted"));
    assert!(script.contains("op notify  interval=0s timeout=90s"));
    assert!(script.contains("op promote interval=0s timeout=120s"));
    assert!(script.contains("op reload  interval=0s timeout=30s"));
    assert!(script.contains("op start   interval=0s timeout=240s"));
    assert!(script.contains("op stop    interval=0s timeout=180s"));
}

#[test]
fn group_without_after_fs_is_constrained_as_a_group_not_as_members() {
    let mut config = config_with_nodes(3);
    config.fs_resources.push(FsResource {
        resource_name: "fs-r0".to_string(),
        drbd_clone_name: config.drbd_resources[0].clone_name.clone(),
        ..FsResource::default()
    });
    config.systemd_resources.push(SystemdResource {
        resource_name: "svc-app".to_string(),
        systemd_unit: "myapp.service".to_string(),
        ..SystemdResource::default()
    });
    config.resource_groups.push(ResourceGroup {
        group_name: "grp-app".to_string(),
        members: vec!["svc-app".to_string()],
        after_fs: None,
    });

    generate_default_constraints(&mut config);

    assert!(config
        .colocation_constraints
        .iter()
        .any(|c| c.rsc == "grp-app" && c.with_rsc == "fs-r0"));
    assert!(!config.colocation_constraints.iter().any(|c| c.rsc == "svc-app"));
    assert!(!config.order_constraints.iter().any(|o| o.then_rsc == "svc-app"));
}

fn full_config() -> PacemakerConfig {
    let mut c = config_with_nodes(3);
    c.fs_resources.push(FsResource {
        drbd_clone_name: c.drbd_resources[0].clone_name.clone(),
        ..FsResource::default()
    });
    c.systemd_resources.push(SystemdResource {
        resource_name: "svc-app".to_string(),
        systemd_unit: "app.service".to_string(),
        ..SystemdResource::default()
    });
    c.resource_groups.push(ResourceGroup {
        group_name: "grp-app".to_string(),
        members: vec!["svc-app".to_string()],
        after_fs: Some("fs-r0".to_string()),
    });
    c.stonith_devices.push(StonithDevice {
        node: "node1".to_string(),
        ipmi_ip: "10.0.0.1".to_string(),
        ipmi_user: "admin".to_string(),
        ipmi_password: "secret".to_string(),
        extra_opts: vec![],
    });
    generate_default_constraints(&mut c);
    c
}

#[test]
fn every_resource_create_is_guarded() {
    let script = generate_pcs_script(&full_config());

    for line in script.lines().filter(|l| l.trim_start().starts_with("pcs resource create")) {
        assert!(
            line.starts_with("  "),
            "가드되지 않은 생성 명령: {}",
            line
        );
    }
    assert!(script.contains("if ! pcs resource config"));
    assert!(script.contains("이미 있어 건너뜁니다"));
}

#[test]
fn every_constraint_is_guarded() {
    let script = generate_pcs_script(&full_config());
    for line in script
        .lines()
        .filter(|l| l.trim_start().starts_with("pcs constraint"))
    {
        assert!(line.starts_with("  "), "가드되지 않은 제약조건: {}", line);
    }
    assert!(script.contains("pcs constraint --full 2>/dev/null | grep -q"));
}

#[test]
fn teardown_removes_in_reverse_dependency_order() {
    let config = full_config();
    let script = generate_teardown_script(&config);

    let pos = |needle: &str| script.find(needle).unwrap_or_else(|| panic!("없음: {}", needle));
    let constraints = pos("1. 제약조건 제거");
    let groups = pos("2. 리소스 그룹 해체");
    let systemd = pos("3. Systemd");
    let fs = pos("4. Filesystem");
    let drbd = pos("5. DRBD");
    let stonith = pos("6. STONITH");

    assert!(constraints < groups);
    assert!(groups < systemd);
    assert!(systemd < fs);
    assert!(fs < drbd);
    assert!(drbd < stonith);

    assert!(script.contains(&config.drbd_resources[0].clone_name));
}

#[test]
fn teardown_skips_missing_items() {
    let script = generate_teardown_script(&full_config());
    assert!(script.contains("없음 (건너뜀)"));
    assert!(script.contains("if pcs resource config"));
}

#[test]
fn teardown_does_not_touch_storage() {
    let script = generate_teardown_script(&full_config());
    for forbidden in ["drbdadm", "linstor ", "lvremove", "wipefs", "mkfs"] {
        assert!(
            !script.contains(forbidden),
            "teardown 이 스토리지를 건드린다: {}",
            forbidden
        );
    }
}

#[test]
fn colocation_role_comes_before_the_resource_id() {
    let cmd = generate_colocation_constraint(&ColocationConstraint {
        id: "col-1".to_string(),
        rsc: "fs-r0".to_string(),
        rsc_role: None,
        with_rsc: "drbd-r0-clone".to_string(),
        with_rsc_role: Some("Promoted".to_string()),
        score: "INFINITY".to_string(),
    });

    assert_eq!(
        cmd,
        "pcs constraint colocation add fs-r0 with Promoted drbd-r0-clone score=INFINITY id=col-1"
    );
    assert!(!cmd.contains("role="));
}

#[test]
fn colocation_supports_role_on_both_sides() {
    let cmd = generate_colocation_constraint(&ColocationConstraint {
        id: "col-2".to_string(),
        rsc: "a".to_string(),
        rsc_role: Some("Started".to_string()),
        with_rsc: "b".to_string(),
        with_rsc_role: Some("Promoted".to_string()),
        score: "INFINITY".to_string(),
    });
    assert_eq!(
        cmd,
        "pcs constraint colocation add Started a with Promoted b score=INFINITY id=col-2"
    );
}

#[test]
fn colocation_without_roles_is_unchanged() {
    let cmd = generate_colocation_constraint(&ColocationConstraint {
        id: "col-3".to_string(),
        rsc: "a".to_string(),
        rsc_role: None,
        with_rsc: "b".to_string(),
        with_rsc_role: None,
        score: "INFINITY".to_string(),
    });
    assert_eq!(
        cmd,
        "pcs constraint colocation add a with b score=INFINITY id=col-3"
    );
}

#[test]
fn warns_when_on_fail_fence_without_stonith() {
    let mut config = config_with_nodes(3);
    config.cluster.stonith_enabled = false;
    config.drbd_resources[0].on_fail = "fence".to_string();
    let script = generate_pcs_script(&config);

    assert!(script.contains("stonith-enabled=false"));
    assert!(script.contains("on-fail 을 조용히 stop 으로 격하"));
    assert!(script.contains(&config.drbd_resources[0].resource_name));
}

#[test]
fn no_warning_when_stonith_enabled() {
    let mut config = config_with_nodes(3);
    config.cluster.stonith_enabled = true;
    config.drbd_resources[0].on_fail = "fence".to_string();
    assert!(!generate_pcs_script(&config).contains("조용히 stop 으로 격하"));
}

#[test]
fn no_warning_when_on_fail_is_not_fence() {
    let mut config = config_with_nodes(3);
    config.cluster.stonith_enabled = false;
    config.drbd_resources[0].on_fail = "restart".to_string();
    assert!(!generate_pcs_script(&config).contains("조용히 stop 으로 격하"));
}

#[test]
fn role_monitors_must_use_different_intervals() {
    let script = generate_pcs_script(&config_with_nodes(3));

    let intervals: Vec<&str> = script
        .lines()
        .filter(|l| l.contains("op monitor") && l.contains("role="))
        .filter_map(|l| {
            l.split("interval=")
                .nth(1)?
                .split_whitespace()
                .next()
        })
        .collect();

    assert_eq!(intervals.len(), 2, "역할별 monitor 가 두 개여야 한다");
    assert_ne!(
        intervals[0], intervals[1],
        "Promoted/Unpromoted monitor 의 interval 이 같으면 pcs 가 거부한다: {:?}",
        intervals
    );
}

#[test]
fn default_monitor_intervals_are_not_multiples_of_each_other() {
    let d = DrbdPacemakerResource::default();
    let p: u32 = d.monitor_interval_promoted.trim_end_matches('s').parse().unwrap();
    let u: u32 = d.monitor_interval_unpromoted.trim_end_matches('s').parse().unwrap();
    assert_ne!(p, u);
    assert!(p % u != 0 && u % p != 0, "서로 배수면 주기적으로 겹친다: {}/{}", p, u);
}

#[test]
fn drbd_on_fail_is_attached_to_the_promoted_role_monitor() {
    let mut config = config_with_nodes(3);
    config.drbd_resources[0].on_fail = "fence".to_string();
    let script = generate_pcs_script(&config);

    assert!(script.contains("op monitor interval=29s role=Promoted on-fail=fence"));
    assert!(script.contains("op monitor interval=31s role=Unpromoted \\"));
    assert!(!script.contains("role=Unpromoted on-fail"));
}

#[test]
fn drbd_on_fail_is_omitted_when_unset_so_pacemaker_default_applies() {
    let mut config = config_with_nodes(3);
    config.drbd_resources[0].on_fail = String::new();
    let script = generate_pcs_script(&config);

    assert!(script.contains("op monitor interval=29s role=Promoted \\"));
    assert!(!script.contains("on-fail="));
}

#[test]
fn drbd_resource_default_timeouts_match_preset_table() {
    let script = generate_pcs_script(&config_with_nodes(3));
    assert!(script.contains("op demote  interval=0s timeout=90s"));
    assert!(script.contains("op promote interval=0s timeout=90s"));
    assert!(script.contains("op start   interval=0s timeout=240s"));
    assert!(script.contains("op stop    interval=0s timeout=100s"));
}
