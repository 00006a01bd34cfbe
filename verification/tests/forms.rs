use ipvlan_container_manager::db::DbVolume;
use ipvlan_container_manager::generators::linstor::{
    generate_linstor_ansible_playbook, generate_linstor_inventory,
    generate_linstor_requirements_yml,
};
use ipvlan_container_manager::generators::quadlet::generate_bind_volume_unit;
use ipvlan_container_manager::generators::quadlet_playbook::normalize_ansible_hosts;
use ipvlan_container_manager::models::linstor::default_true;
use ipvlan_container_manager::models::pacemaker::SystemdResourceType;
use ipvlan_container_manager::models::quadlet::{PodmanContainerInfo, PodmanNetworkInfo};
use ipvlan_container_manager::routes::drbd::default_disk_type;
use ipvlan_container_manager::routes::linstor::{
    linstor_config, linstor_result, not_empty_or, LinstorFormData, LinstorLists,
};
use ipvlan_container_manager::routes::volume::{
    volume_files, volume_result, VolumeGenerateRequest,
};

fn volume(name: &str, description: &str, drbd_resource: &str) -> DbVolume {
    DbVolume {
        id: 1,
        name: name.to_string(),
        host_path: format!("/srv/{}", name),
        description: description.to_string(),
        drbd_resource: drbd_resource.to_string(),
        created_at: String::new(),
    }
}

fn form() -> LinstorFormData {
    LinstorFormData {
        controller_nodes_json: None,
        satellite_nodes_json: None,
        rpm_dir: "/opt/rpms".to_string(),
        storage_pools_json: None,
        resource_groups_json: None,
        resources_json: None,
        deploy_storage: Some("on".to_string()),
        ha_database: None,
        token_auth: None,
        ansible_user: Some(String::new()),
        ansible_ssh_key: None,
    }
}

fn lists() -> LinstorLists {
    LinstorLists {
        controller_nodes: vec!["n1".to_string()],
        satellite_nodes: vec!["n1".to_string(), "n2".to_string()],
        storage_pools: Vec::new(),
        resource_groups: Vec::new(),
        resources: Vec::new(),
    }
}

const DATA_UNIT: &str = "[Unit]
Description=Volume data

[Volume]
VolumeName=data
Type=none
Device=/srv/data
Options=bind

[Install]
WantedBy=multi-user.target
";

#[test]
fn a_directory_of_the_host_becomes_a_volume() {
    assert_eq!(generate_bind_volume_unit("data", "/srv/data", ""), DATA_UNIT);
    assert!(generate_bind_volume_unit("data", "/srv/data", "Shared")
        .starts_with("[Unit]\nDescription=Shared\n\n[Volume]\n"));
}

#[test]
fn volumes_on_drbd_resources_get_no_unit() {
    let volumes = vec![volume("data", "", ""), volume("db", "", "r0"), volume("web", "", "")];
    let files = volume_files(&volumes, &Vec::new());
    assert_eq!(files.len(), 2);
    assert_eq!(files[0], ("data.volume".to_string(), DATA_UNIT.to_string()));
    assert_eq!(files[1].0, "web.volume");
    let names = vec!["web".to_string(), "db".to_string()];
    let files = volume_files(&volumes, &names);
    assert_eq!(files.len(), 1);
    assert_eq!(files[0].0, "web.volume");
}

#[test]
fn a_request_without_units_has_no_answer() {
    let volumes = vec![volume("data", "", ""), volume("db", "", "r0")];
    let request = VolumeGenerateRequest { volume_names: vec!["db".to_string()] };
    assert!(volume_result(&volumes, &request).is_none());
    let all = VolumeGenerateRequest { volume_names: Vec::new() };
    let result = volume_result(&volumes, &all).unwrap();
    assert_eq!(result.files.len(), 1);
    assert!(result
        .ansible_playbook
        .starts_with("---\n- name: Quadlet Volume 유닛 배포\n  hosts: all\n  become: yes\n  tasks:\n"));
    assert!(result.ansible_playbook.contains("data.volume"));
}

#[test]
fn tokens_are_required_unless_switched_off() {
    let config = linstor_config(&form(), lists());
    assert_eq!(config.controller_nodes, ["n1"]);
    assert_eq!(config.satellite_nodes, ["n1", "n2"]);
    assert_eq!(config.rpm_dir, "/opt/rpms");
    assert!(config.deploy_storage);
    assert!(!config.ha_database);
    assert!(config.token_auth);
    assert!(config.pacemaker_managed);
    let mut off = form();
    off.token_auth = Some("off".to_string());
    off.ha_database = Some("on".to_string());
    let config = linstor_config(&off, lists());
    assert!(!config.token_auth);
    assert!(config.ha_database);
}

#[test]
fn a_linstor_form_gives_three_files() {
    let config = linstor_config(&form(), lists());
    let ips = vec![("n1".to_string(), "10.0.0.1".to_string())];
    let result = linstor_result(&form(), &config, &ips);
    assert_eq!(result.requirements_yml, generate_linstor_requirements_yml());
    assert_eq!(
        result.inventory,
        generate_linstor_inventory(&config, &ips, "root", "~/.ssh/id_rsa")
    );
    assert_eq!(
        result.ansible_playbook,
        generate_linstor_ansible_playbook(&config, "root", "~/.ssh/id_rsa")
    );
    let mut named = form();
    named.ansible_user = Some("deploy".to_string());
    assert!(linstor_result(&named, &config, &ips)
        .inventory
        .contains("deploy"));
}

#[test]
fn missing_fields_have_defaults() {
    assert_eq!(not_empty_or(&None, "a"), "a");
    assert_eq!(not_empty_or(&Some(String::new()), "a"), "a");
    assert_eq!(not_empty_or(&Some(" ".to_string()), "a"), " ");
    assert_eq!(default_disk_type(), "block");
    assert!(default_true());
    assert_eq!(SystemdResourceType::Container.label(), "Container");
    assert_eq!(SystemdResourceType::Pod.label(), "Pod");
    assert_eq!(SystemdResourceType::Volume.label(), "Volume");
}

#[test]
fn host_patterns_list_the_named_hosts() {
    let pattern = normalize_ansible_hosts(Some(" ,n1  n2,,\tn3 , "));
    assert_eq!(pattern, "n1,n2,n3");
    assert_eq!(normalize_ansible_hosts(Some(&pattern)), pattern);
    assert_eq!(normalize_ansible_hosts(Some(" , ")), "all");
    assert_eq!(normalize_ansible_hosts(Some("all")), "all");
}

#[test]
fn an_unknown_container_has_empty_fields() {
    let info = PodmanContainerInfo::default();
    assert_eq!(info.id, "");
    assert_eq!(info.command, "");
    assert!(info.mounts.is_empty());
    assert!(info.env.is_empty());
    assert!(info.network_settings.is_none());
    let network = PodmanNetworkInfo::default();
    assert_eq!(network.network_name, "");
    assert_eq!(network.ip_address, "");
}
