use ipvlan_container_manager::models::pacemaker::{
    ClusterNode, ColocationConstraint, DrbdPacemakerResource, OrderConstraint, PacemakerConfig,
    StonithDevice,
};
use ipvlan_container_manager::routes::pacemaker::{generate_pacemaker_ansible_playbook, PacemakerFormData};

fn sample_form() -> PacemakerFormData {
    PacemakerFormData {
        cluster_name: "ha-cluster".to_string(),
        nodes_json: None,
        stonith_enabled: None,
        no_quorum_policy: "stop".to_string(),
        migration_threshold: None,
        failure_timeout: None,
        drbd_resources_json: None,
        systemd_resources_json: None,
        resource_groups_json: None,
        stonith_devices_json: None,
        auto_constraints: None,
        order_constraints_json: None,
        colocation_constraints_json: None,
        location_constraints_json: None,
        ansible_hosts: Some("container_service".to_string()),
        ansible_user: Some("deploy".to_string()),
        ansible_ssh_key: Some("~/.ssh/deploy_key".to_string()),
    }
}

fn config_with_nodes(n: usize) -> PacemakerConfig {
    let mut config = PacemakerConfig::default();
    config.cluster.nodes = (0..n)
        .map(|i| ClusterNode { name: format!("node{}", i + 1), id: (i + 1) as u32 })
        .collect();
    config.cluster.cluster_name = "ha-cluster".to_string();
    config
}

#[test]
fn bootstrap_play_omitted_when_no_nodes() {
    let form = sample_form();
    let config = PacemakerConfig::default();
    let playbook = generate_pacemaker_ansible_playbook(&form, &config);
    assert!(!playbook.contains("클러스터 부트스트랩"));
}

#[test]
fn bootstrap_play_included_with_versionlock_and_firewall_when_nodes_present() {
    let form = sample_form();
    let config = config_with_nodes(3);
    let playbook = generate_pacemaker_ansible_playbook(&form, &config);

    assert!(playbook.contains("클러스터 부트스트랩"));
    assert!(playbook.contains("dnf config-manager --set-enabled crb"));
    assert!(playbook.contains("dnf config-manager --set-enabled highavailability"));
    assert!(playbook.contains("dnf versionlock add"));
    assert!(playbook.contains("port: 5404-5405/udp"));
    assert!(playbook.contains("port: 2224/tcp"));
    assert!(playbook.contains("uid: 189"));
    assert!(playbook.contains("pcs cluster setup ha-cluster"));
    assert!(playbook.contains("ansible_play_batch | join(' ')"));
    assert!(playbook.contains("ansible_play_batch | first"));
    assert!(!playbook.contains("groups['container']"));
}

#[test]
fn stonith_play_omitted_when_no_devices() {
    let form = sample_form();
    let config = config_with_nodes(3);
    let playbook = generate_pacemaker_ansible_playbook(&form, &config);
    assert!(!playbook.contains("STONITH(fencing) 리소스 등록"));
}

#[test]
fn stonith_play_guards_on_existing_stonith_status() {
    let form = sample_form();
    let mut config = config_with_nodes(3);
    config.stonith_devices.push(StonithDevice {
        node: "node1".to_string(),
        ipmi_ip: "10.0.0.1".to_string(),
        ipmi_user: "admin".to_string(),
        ipmi_password: "secret".to_string(),
        extra_opts: vec![],
    });
    let playbook = generate_pacemaker_ansible_playbook(&form, &config);

    assert!(playbook.contains("pcs stonith status"));
    assert!(playbook.contains("register: existing_stonith"));
    assert!(playbook.contains("pcs stonith create stonith-ipmi-node1 fence_ipmilan"));
    assert!(playbook.contains("ip=10.0.0.1 user=admin password=secret"));
    assert!(playbook.contains(
        "when: 'existing_stonith.stdout is not search(\"stonith-ipmi-node1\")'"
    ));
}

#[test]
fn resources_play_precaptures_state_and_guards_each_item() {
    let form = sample_form();
    let mut config = config_with_nodes(3);
    config.drbd_resources.push(DrbdPacemakerResource {
        resource_name: "drbd-r0".to_string(),
        ..DrbdPacemakerResource::default()
    });
    let playbook = generate_pacemaker_ansible_playbook(&form, &config);

    assert!(playbook.contains("pcs resource config"));
    assert!(playbook.contains("register: existing_resource_config"));
    assert!(playbook.contains("pcs constraint --full"));
    assert!(playbook.contains("register: existing_constraints"));
    assert!(playbook.contains(
        "when: 'existing_resource_config.stdout is not search(\"Resource: drbd-r0 (\")'"
    ));
}

#[test]
fn order_and_colocation_constraints_are_individually_guarded() {
    let form = sample_form();
    let mut config = config_with_nodes(3);
    config.order_constraints.push(OrderConstraint {
        id: "ord-1".to_string(),
        first: "drbd-r0-clone".to_string(),
        first_action: "promote".to_string(),
        then_rsc: "fs-r0".to_string(),
        then_action: "start".to_string(),
        kind: "Mandatory".to_string(),
    });
    config.colocation_constraints.push(ColocationConstraint {
        id: "col-1".to_string(),
        rsc: "fs-r0".to_string(),
        rsc_role: None,
        with_rsc: "drbd-r0-clone".to_string(),
        with_rsc_role: Some("Promoted".to_string()),
        score: "INFINITY".to_string(),
    });
    let playbook = generate_pacemaker_ansible_playbook(&form, &config);

    assert!(playbook.contains(
        "when: 'existing_constraints.stdout is not search(\"promote resource ''drbd-r0-clone'' then start resource ''fs-r0''\")'"
    ));
    assert!(playbook.contains(
        "when: 'existing_constraints.stdout is not search(\"resource ''fs-r0'' with Promoted resource ''drbd-r0-clone''\")'"
    ));
}
