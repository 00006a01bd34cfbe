use ipvlan_container_manager::generators::quadlet::generate_all_units;
use ipvlan_container_manager::generators::quadlet_playbook::normalize_ansible_hosts;
use ipvlan_container_manager::models::quadlet::{QuadletConfig, QuadletContainer};
use ipvlan_container_manager::routes::quadlet::{generate_quadlet_ansible_playbook, QuadletFullForm};

fn empty_form() -> QuadletFullForm {
    QuadletFullForm {
        net_driver: None,
        net_interface: None,
        net_subnet: None,
        net_gateway: None,
        net_subnet6: None,
        net_gateway6: None,
        net_ipvlan_mode: None,
        pod_name: None,
        pod_description: None,
        pod_hostname: None,
        pod_shm_size: None,
        pod_networks_json: None,
        ansible_hosts: None,
        ansible_user: None,
        ansible_ssh_key: None,
    }
}

fn sample_config() -> QuadletConfig {
    let mut config = QuadletConfig::new();
    config.containers.push(QuadletContainer {
        name: "myapp".to_string(),
        image: "quay.io/myapp:latest".to_string(),
        ..Default::default()
    });
    config
}

fn playbook_with_hosts(raw: Option<&str>) -> String {
    let mut form = empty_form();
    form.ansible_hosts = raw.map(str::to_string);
    let config = sample_config();
    let files = generate_all_units(&config);
    generate_quadlet_ansible_playbook(&config, &files, &form)
}

#[test]
fn normalize_hosts_falls_back_to_all_when_missing_or_blank() {
    assert_eq!(normalize_ansible_hosts(None), "all");
    assert_eq!(normalize_ansible_hosts(Some("")), "all");
    assert_eq!(normalize_ansible_hosts(Some("   ")), "all");
    assert_eq!(normalize_ansible_hosts(Some("\n")), "all");
}

#[test]
fn normalize_hosts_converts_newline_separated_list_to_comma_pattern() {
    assert_eq!(normalize_ansible_hosts(Some("node1\nnode2\nnode3")), "node1,node2,node3");
    assert_eq!(normalize_ansible_hosts(Some("node1,node2")), "node1,node2");
    assert_eq!(normalize_ansible_hosts(Some(" node1 , node2 ")), "node1,node2");
    assert_eq!(normalize_ansible_hosts(Some("container_service")), "container_service");
}

#[test]
fn playbook_hosts_line_is_always_single_line() {
    let playbook = playbook_with_hosts(Some("node1\nnode2\nnode3"));
    assert!(playbook.contains("  hosts: node1,node2,node3\n"));
    assert_eq!(
        playbook.lines().filter(|l| l.starts_with("  hosts:")).count(),
        1
    );
    assert!(!playbook.lines().any(|l| l == "node2"));
}

#[test]
fn playbook_falls_back_to_all_when_no_node_selected() {
    let playbook = playbook_with_hosts(Some(""));
    assert!(playbook.contains("  hosts: all\n"));
    assert!(!playbook.contains("  hosts: \n"));
}

#[test]
fn playbook_user_and_key_fall_back_when_form_sends_empty_strings() {
    let mut form = empty_form();
    form.ansible_hosts = Some(String::new());
    form.ansible_user = Some(String::new());
    form.ansible_ssh_key = Some("   ".to_string());
    let config = sample_config();
    let files = generate_all_units(&config);
    let playbook = generate_quadlet_ansible_playbook(&config, &files, &form);

    assert!(playbook.contains("  remote_user: root\n"));
    assert!(playbook.contains("    ansible_ssh_private_key_file: ~/.ssh/id_rsa\n"));
}

#[test]
fn quadlet_generated_playbook_is_valid_yaml() {
    for hosts in [None, Some(""), Some("node1\nnode2"), Some("node1,node2")] {
        let playbook = playbook_with_hosts(hosts);
        let parsed: Result<serde_yaml::Value, _> = serde_yaml::from_str(&playbook);
        assert!(
            parsed.is_ok(),
            "hosts={:?} 일 때 YAML 파싱 실패: {:?}\n---\n{}",
            hosts,
            parsed.err(),
            playbook
        );
    }
}
