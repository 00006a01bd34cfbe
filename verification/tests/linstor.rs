use ipvlan_container_manager::generators::linstor::{generate_linstor_ansible_playbook, generate_linstor_inventory};
use ipvlan_container_manager::models::linstor::{
    LinstorConfig, LinstorResourceGroup, LinstorResourceSpawn, LinstorStoragePool,
};

fn sample_config() -> LinstorConfig {
    LinstorConfig {
        controller_nodes: vec!["node1".to_string()],
        satellite_nodes: vec!["node1".to_string(), "node2".to_string(), "node3".to_string()],
        rpm_dir: "/opt/linstor-rpms".to_string(),
        storage_pools: vec![LinstorStoragePool {
            name: "sp-lvmthin".to_string(),
            pool_type: "lvmthin".to_string(),
            vg: Some("vg_linstor".to_string()),
            vg_thinpool: Some("thinpool".to_string()),
            zpool: None,
            file_path: None,
            physical_devices: vec!["/dev/sdb".to_string()],
            nodes: vec!["node1".to_string(), "node2".to_string(), "node3".to_string()],
        }],
        resource_groups: vec![LinstorResourceGroup {
            name: "rg-app".to_string(),
            storage_pool: "sp-lvmthin".to_string(),
            place_count: 3,
        }],
        resources: vec![LinstorResourceSpawn {
            name: "res-app".to_string(),
            resource_group: "rg-app".to_string(),
            size: "100G".to_string(),
        }],
        deploy_storage: true,
        ha_database: false,
        token_auth: true,
        pacemaker_managed: true,
    }
}

#[test]
fn inventory_has_required_linstor_groups() {
    let config = sample_config();
    let mut ips = Vec::new();
    ips.push(("node1".to_string(), "192.168.1.11".to_string()));
    ips.push(("node2".to_string(), "192.168.1.12".to_string()));
    ips.push(("node3".to_string(), "192.168.1.13".to_string()));
    let inv = generate_linstor_inventory(&config, &ips, "deploy", "~/.ssh/id_rsa");

    assert!(inv.contains("linstor_controllers:"));
    assert!(inv.contains("linstor_satellites:"));
    assert!(inv.contains("linstor_cluster:"));
    assert!(inv.contains("linstor_storage_pools:"));
    assert!(inv.contains("vg_thinpool: thinpool"));
}

#[test]
fn inventory_falls_back_to_hostname_when_pool_ip_is_blank() {
    let config = sample_config();
    let mut ips = Vec::new();
    ips.push(("node1".to_string(), String::new()));
    ips.push(("node2".to_string(), "   ".to_string()));
    ips.push(("node3".to_string(), "192.168.1.13".to_string()));

    let inv = generate_linstor_inventory(&config, &ips, "deploy", "~/.ssh/id_rsa");

    assert!(inv.contains("ansible_host: node1"));
    assert!(inv.contains("ansible_host: node2"));
    assert!(inv.contains("ansible_host: 192.168.1.13"));
    assert!(!inv.lines().any(|l| l.trim() == "ansible_host:"));

    let parsed: Result<serde_yaml::Value, _> = serde_yaml::from_str(&inv);
    assert!(parsed.is_ok(), "인벤토리 YAML 파싱 실패: {:?}", parsed.err());
}

#[test]
fn playbook_installs_rpms_before_cluster_init() {
    let config = sample_config();
    let pb = generate_linstor_ansible_playbook(&config, "deploy", "~/.ssh/id_rsa");

    let rpm_pos = pb.find("LINSTOR RPM 로컬 설치").unwrap();
    let init_pos = pb.find("linbit.linstor.cluster_init").unwrap();
    assert!(rpm_pos < init_pos);
    assert!(pb.contains("cluster_init_repo_access: none"));
    assert!(pb.contains("hosts: linstor_cluster"));
}

#[test]
fn pacemaker_managed_emits_all_three_prerequisites() {
    let pb = generate_linstor_ansible_playbook(&sample_config(), "deploy", "~/.ssh/id_rsa");

    assert!(pb.contains("/etc/modules-load.d/drbd.conf"));
    assert!(pb.contains("community.general.modprobe"));
    assert!(pb.contains("name: drbd-selinux"));
    assert!(pb.contains("community.general.sefcontext"));
    assert!(pb.contains("setype: etc_t"));
    assert!(pb.contains("restorecon -RF /var/lib/linstor.d"));
    assert!(pb.contains("auto-promote: \"no\""));

    let prereq = pb.find("Pacemaker 관리 전제조건").expect("전제조건 play 없음");
    let rpm = pb.find("LINSTOR RPM 로컬 설치").expect("RPM play 없음");
    assert!(prereq < rpm, "전제조건 play 가 RPM 설치보다 앞에 와야 한다");
}

#[test]
fn pacemaker_managed_off_omits_prerequisites() {
    let mut config = sample_config();
    config.pacemaker_managed = false;
    let pb = generate_linstor_ansible_playbook(&config, "deploy", "~/.ssh/id_rsa");

    assert!(!pb.contains("Pacemaker 관리 전제조건"));
    assert!(!pb.contains("drbd-selinux"));
    assert!(!pb.contains("sefcontext"));
    assert!(!pb.contains("auto-promote"));
}

#[test]
fn playbook_omits_resource_play_when_empty() {
    let mut config = sample_config();
    config.resource_groups.clear();
    config.resources.clear();
    let pb = generate_linstor_ansible_playbook(&config, "deploy", "~/.ssh/id_rsa");
    assert!(!pb.contains("리소스 그룹/리소스 프로비저닝"));
}

#[test]
fn playbook_emits_resource_group_and_spawn_tasks() {
    let config = sample_config();
    let pb = generate_linstor_ansible_playbook(&config, "deploy", "~/.ssh/id_rsa");
    assert!(pb.contains("linbit.linstor.resource_group:"));
    assert!(pb.contains("place_count: 3"));
    assert!(pb.contains("mode: spawn"));
    assert!(pb.contains("size: 100G"));
}
