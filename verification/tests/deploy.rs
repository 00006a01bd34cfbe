use ipvlan_container_manager::config::{filter_ends_with, filter_starts_with, load_config, RawConfig};
use ipvlan_container_manager::db::{DbAnsibleProfile, DbDrbdResource, DbNode};
use ipvlan_container_manager::generators::drbd::{
    generate_ansible_playbook, generate_drbd_init_commands, generate_res_file,
};
use ipvlan_container_manager::generators::inventory::generate_ansible_inventory;
use ipvlan_container_manager::generators::linstor::{
    generate_linstor_inventory, generate_linstor_requirements_yml, resolve_ansible_host,
    storage_pool_yaml,
};
use ipvlan_container_manager::models::drbd::{
    AnsibleInventory, AnsibleNode, DrbdNode, DrbdResource, ScannedDrbdNode, ScannedDrbdResource,
};
use ipvlan_container_manager::models::linstor::{LinstorConfig, LinstorStoragePool};
use ipvlan_container_manager::order::{at_most, sort_texts};
use ipvlan_container_manager::res_file::parse_res_file;
use ipvlan_container_manager::routes::drbd::{
    build_inventory, build_resource, drbd_result, next_available_u16, next_available_u32,
    parse_nodes, saved_options, saved_record, scan_response, sort_distinct, DrbdFormData, NodeInput,
    SaveFormData, ScanNodes,
};
use ipvlan_container_manager::routes::nodes::{
    choose_profile, expand_home, network_record, node_record, private_key, profile_record,
    write_ansible_inventory, write_collect_playbook, write_storage_backend_detect_playbook,
    AnsibleProfileInput, NetworkInput,
};
use ipvlan_container_manager::number::{decimal_text, parse_number, parse_port};
use ipvlan_container_manager::scan::parse_res_for_nodes;

fn node(name: &str, ip: &str) -> DrbdNode {
    DrbdNode {
        hostname: name.to_string(),
        ip: ip.to_string(),
        disk_device: "/dev/sdb1".to_string(),
        meta_disk: "internal".to_string(),
        port: 7789,
        disk_type: "block".to_string(),
        lvm_vg: String::new(),
        lvm_size: String::new(),
    }
}

fn resource() -> DrbdResource {
    let mut second = node("n2", "10.0.0.2");
    second.disk_type = "lvm".to_string();
    second.lvm_vg = "vg0".to_string();
    second.port = 7791;
    DrbdResource {
        resource_name: "r0".to_string(),
        minor: 2,
        nodes: vec![node("n1", "10.0.0.1"), second],
        ..DrbdResource::default()
    }
}

const RES: &str = "resource r0 {
    protocol C;

    options {
        quorum majority;
        on-no-quorum io-error;
    }

    startup {
        wfc-timeout      15;
        degr-wfc-timeout 60;
    }

    disk {
        on-io-error detach;
    }

    net {
        fencing resource-only;
        max-buffers 8000;
        max-epoch-size 8000;
        after-sb-0pri discard-younger-primary;
        after-sb-1pri discard-secondary;
    }

    # node-id values are assigned 0, 1, 2 ... in inventory order.
    on n1 {
        node-id   0;
        device    /dev/drbd2;
        disk      /dev/sdb1;
        address   10.0.0.1:7789;
        meta-disk internal;
    }
    on n2 {
        node-id   1;
        device    /dev/drbd2;
        disk      /dev/vg0/r0;
        address   10.0.0.2:7791;
        meta-disk internal;
    }

    connection-mesh {
        hosts n1 n2 ;
    }
}
";

#[test]
fn a_resource_file_is_written_line_by_line() {
    assert_eq!(generate_res_file(&resource()), RES);
    let mut dual = resource();
    dual.net_options.allow_two_primaries = true;
    let text = generate_res_file(&dual);
    assert!(text.contains("        max-epoch-size 8000;\n        allow-two-primaries yes;\n"));
    assert!(text.contains("        after-sb-2pri disconnect;\n"));
}

#[test]
fn written_resources_are_read_back() {
    let r = resource();
    let read = parse_res_file(&generate_res_file(&r), "r0.res").unwrap();
    assert_eq!(read.resource_name, r.resource_name);
    assert_eq!(read.protocol, r.protocol);
    assert_eq!(read.minor, r.minor);
    assert_eq!(read.nodes.len(), 2);
    for (a, b) in read.nodes.iter().zip(&r.nodes) {
        assert_eq!(a.hostname, b.hostname);
        assert_eq!(a.ip, b.ip);
        assert_eq!(a.port, b.port);
        assert_eq!(a.disk, b.effective_disk("r0"));
        assert_eq!(a.meta, b.meta_disk);
        assert_eq!(a.disk_type, b.disk_type);
        assert_eq!(a.lvm_vg, b.lvm_vg);
    }
}

#[test]
fn resources_are_read_back_whatever_their_disks_are() {
    let mut r = resource();
    r.nodes[0].disk_device = String::new();
    r.nodes[1].disk_type = "block".to_string();
    r.nodes[1].disk_device = " /dev/my disk; ".to_string();
    r.nodes[1].meta_disk = String::new();
    let read = parse_res_file(&generate_res_file(&r), "r0.res").unwrap();
    assert_eq!(read.resource_name, "r0");
    assert_eq!(read.minor, 2);
    assert_eq!(read.nodes.len(), 2);
    for (a, b) in read.nodes.iter().zip(&r.nodes) {
        assert_eq!(a.hostname, b.hostname);
        assert_eq!(a.ip, b.ip);
        assert_eq!(a.port, b.port);
        assert_eq!(a.meta, b.meta_disk);
        assert_eq!(a.disk_type, "block");
    }
    assert_eq!(read.nodes[0].disk, "");
    assert_eq!(read.nodes[1].disk, "/dev/my disk;");
}

#[test]
fn the_nodes_of_written_resources_are_found() {
    let mut nodes = Vec::new();
    parse_res_for_nodes(RES, &mut nodes);
    assert_eq!(nodes.len(), 2);
    assert_eq!((nodes[0].hostname.as_str(), nodes[0].ip.as_str()), ("n1", "10.0.0.1"));
    assert_eq!((nodes[1].hostname.as_str(), nodes[1].ip.as_str()), ("n2", "10.0.0.2"));
    parse_res_for_nodes(&generate_res_file(&resource()), &mut nodes);
    assert_eq!(nodes.len(), 2);
}

#[test]
fn the_drbd_playbook_opens_the_range_of_ports() {
    let playbook = generate_ansible_playbook(&resource(), &AnsibleInventory::default());
    assert!(playbook.starts_with("---\n# Deployment playbook for DRBD resource 'r0' (auto-generated)\n\n- name: Install DRBD packages\n  hosts: all\n"));
    assert!(playbook.contains("7789-7791/tcp"));
    assert!(playbook.contains("    drbd_resources:\n      - { host: n2, name: r0, lv_name: r0, vg: vg0, size: 10G, port: 7791, device: /dev/drbd2 }\n  tasks:\n    - name: 1. Create the LVM logical volumes\n"));
    let mut plain = resource();
    plain.nodes.pop();
    let playbook = generate_ansible_playbook(&plain, &AnsibleInventory::default());
    assert!(playbook.contains("7789/tcp"));
    assert!(playbook.contains("    drbd_resources:\n      - { name: r0, port: 7789, device: /dev/drbd2 }\n  tasks:\n    - name: Deploy the DRBD resource file (.res)\n"));
    assert_eq!(
        generate_drbd_init_commands(&plain),
        [
            "# Run on every node: initialize the DRBD metadata",
            "# [n1] drbdadm create-md r0",
            "# Run on every node: start the DRBD service",
            "# [n1] systemctl enable --now drbd",
            "# Force the initial sync from the first node",
            "# [n1] drbdadm -- --overwrite-data-of-peer primary r0",
        ]
    );
}

#[test]
fn the_inventory_is_written_as_yaml() {
    let inventory = AnsibleInventory {
        nodes: vec![
            AnsibleNode {
                hostname: "n1".to_string(),
                ip: "10.0.0.1".to_string(),
            },
            AnsibleNode {
                hostname: "n1".to_string(),
                ip: "10.0.0.9".to_string(),
            },
        ],
        ansible_user: "deploy".to_string(),
        ansible_ssh_private_key_file: "~/.ssh/k".to_string(),
        use_become: false,
    };
    assert_eq!(
        generate_ansible_inventory(&inventory).unwrap(),
        "all:\n  hosts:\n    n1:\n      ansible_host: 10.0.0.9\n  vars:\n    ansible_user: deploy\n    ansible_ssh_private_key_file: ~/.ssh/k\n    ansible_become: false\n"
    );
}

#[test]
fn the_linstor_inventory_groups_the_nodes() {
    let pool = LinstorStoragePool {
        name: "sp".to_string(),
        pool_type: "lvmthin".to_string(),
        vg: Some("vg0".to_string()),
        vg_thinpool: Some(String::new()),
        zpool: None,
        file_path: None,
        physical_devices: vec!["/dev/sdb".to_string()],
        nodes: vec!["n1".to_string()],
    };
    assert_eq!(
        storage_pool_yaml(&pool),
        "      - name: sp\n        type: lvmthin\n        vg: vg0\n        physical_devices:\n          - /dev/sdb\n        nodes:\n          - n1\n"
    );
    let config = LinstorConfig {
        controller_nodes: vec!["n1".to_string()],
        satellite_nodes: vec!["n1".to_string(), "n2".to_string()],
        storage_pools: vec![pool],
        deploy_storage: true,
        ..LinstorConfig::default()
    };
    let ips = vec![
        ("n1".to_string(), "10.0.0.7".to_string()),
        ("n1".to_string(), "10.0.0.1".to_string()),
        ("n2".to_string(), " ".to_string()),
    ];
    assert_eq!(
        generate_linstor_inventory(&config, &ips, "root", "k"),
        "all:\n  children:\n    linstor_controllers:\n      hosts:\n        n1:\n          ansible_host: 10.0.0.1\n    linstor_satellites:\n      hosts:\n        n1:\n          ansible_host: 10.0.0.1\n        n2:\n          ansible_host: n2\n    linstor_cluster:\n      children:\n        linstor_controllers: {}\n        linstor_satellites: {}\n  vars:\n    ansible_user: root\n    ansible_ssh_private_key_file: k\n    ansible_host_key_checking: false\n    linstor_storage_pools:\n      - name: sp\n        type: lvmthin\n        vg: vg0\n        physical_devices:\n          - /dev/sdb\n        nodes:\n          - n1\n"
    );
    assert_eq!(resolve_ansible_host(&ips, "n3"), "n3");
    assert!(generate_linstor_requirements_yml().starts_with("---\n# ansible-galaxy collection install -r requirements.yml\n"));
}

#[test]
fn a_free_number_is_the_least_one_from_the_base() {
    assert_eq!(next_available_u32(&vec![0, 1, 3], 0), Some(2));
    assert_eq!(next_available_u32(&Vec::new(), 7), Some(7));
    assert_eq!(next_available_u16(&vec![7789, 7790], 7789), Some(7791));
    assert_eq!(next_available_u16(&vec![65535], 65535), None);
    assert_eq!(sort_distinct(&vec![3, 1, 3, 2]), [1, 2, 3]);
}

fn recorded(name: &str, minor: u32, nodes_json: &str) -> DbDrbdResource {
    DbDrbdResource {
        id: 1,
        resource_name: name.to_string(),
        protocol: "C".to_string(),
        minor,
        nodes_json: nodes_json.to_string(),
        net_options_json: "net".to_string(),
        disk_options_json: "disk".to_string(),
        startup_options_json: "startup".to_string(),
        source: "manual".to_string(),
        created_at: String::new(),
        updated_at: "now".to_string(),
    }
}

#[test]
fn the_scan_joins_files_and_records() {
    let file = ScannedDrbdResource {
        resource_name: "r1".to_string(),
        protocol: "C".to_string(),
        minor: 1,
        nodes: vec![ScannedDrbdNode {
            hostname: "n1".to_string(),
            ip: "10.0.0.1".to_string(),
            port: 7789,
            disk: "/dev/sdb".to_string(),
            meta: "internal".to_string(),
            disk_type: "block".to_string(),
            lvm_vg: String::new(),
            lvm_size: String::new(),
        }],
        source_file: "/etc/drbd.d/r1.res".to_string(),
    };
    let records = vec![
        recorded("r1", 1, "[]"),
        recorded("r0", 0, "[{\"port\": 7790}, {\"port\": \"x\"}]"),
    ];
    let r = scan_response(&vec![file], &records).unwrap();
    assert_eq!(r.next_minor, 2);
    assert_eq!(r.next_port, 7791);
    assert_eq!(r.resources.len(), 2);
    assert_eq!(r.resources[0].resource_name, "r0");
    assert_eq!(r.resources[0].source, "db");
    assert!(r.resources[0].in_db);
    assert!(matches!(&r.resources[0].nodes, ScanNodes::Recorded(s) if s.starts_with("[{")));
    assert_eq!(r.resources[1].resource_name, "r1");
    assert_eq!(r.resources[1].source, "file");
    assert!(r.resources[1].in_db);
    assert_eq!(r.resources[1].updated_at, "now");
    assert_eq!(r.resources[1].net_options_json, "net");
    assert!(matches!(&r.resources[1].nodes, ScanNodes::Scanned(v) if v.len() == 1));
}

fn form() -> DrbdFormData {
    DrbdFormData {
        resource_name: "r0".to_string(),
        protocol: "C".to_string(),
        minor: 2,
        nodes_json: "[]".to_string(),
        allow_two_primaries: Some("on".to_string()),
        after_sb_0pri: "a".to_string(),
        after_sb_1pri: "b".to_string(),
        after_sb_2pri: "c".to_string(),
        on_io_error: "detach".to_string(),
        fencing: "resource-only".to_string(),
        wfc_timeout: 1,
        degr_wfc_timeout: 2,
        become_primary_on: None,
        ansible_user: "root".to_string(),
        ansible_ssh_key: "k".to_string(),
        ansible_become: None,
    }
}

#[test]
fn a_resource_needs_two_complete_nodes() {
    let input = |host: &str, ip: &str, kind: &str, disk: &str, vg: &str| NodeInput {
        hostname: host.to_string(),
        ip: ip.to_string(),
        disk_type: kind.to_string(),
        disk: disk.to_string(),
        lvm_vg: vg.to_string(),
        lvm_size: String::new(),
        meta: String::new(),
        port: 0,
    };
    let nodes = parse_nodes(&vec![
        input("n1", "10.0.0.1", "block", "/dev/sdb", ""),
        input("", "10.0.0.2", "block", "/dev/sdb", ""),
        input("n3", "", "block", "/dev/sdb", ""),
        input("n4", "10.0.0.4", "block", "", "vg"),
        input("n5", "10.0.0.5", "lvm", "", ""),
        input("n6", "10.0.0.6", "lvm", "", "vg"),
    ]);
    assert_eq!(nodes.len(), 2);
    assert_eq!(nodes[0].hostname, "n1");
    assert_eq!(nodes[0].meta_disk, "internal");
    assert_eq!(nodes[0].port, 7789);
    assert_eq!(nodes[1].hostname, "n6");

    let form = form();
    let inventory = build_inventory(&form, &nodes);
    assert_eq!(inventory.nodes.len(), 2);
    assert!(!inventory.use_become);
    let mut resource = build_resource(&form, nodes);
    assert!(resource.net_options.allow_two_primaries);
    assert_eq!(resource.startup_options.become_primary_on, "");
    let result = drbd_result(&form, &resource, &inventory, "yaml".to_string()).unwrap();
    assert_eq!(result.inventory_yaml, "yaml");
    assert_eq!(result.res_filename, "r0.res");
    assert!(result.has_lvm);
    assert!(result.save_form.allow_two_primaries);
    assert_eq!(result.res_file, generate_res_file(&resource));
    resource.nodes.pop();
    assert!(drbd_result(&form, &resource, &inventory, String::new()).is_none());
}

#[test]
fn saved_forms_fill_in_their_defaults() {
    let form = SaveFormData {
        resource_name: "r0".to_string(),
        protocol: "C".to_string(),
        minor: 2,
        nodes_json: "[]".to_string(),
        allow_two_primaries: None,
        after_sb_0pri: None,
        after_sb_1pri: None,
        after_sb_2pri: Some("x".to_string()),
        on_io_error: None,
        fencing: None,
        wfc_timeout: None,
        degr_wfc_timeout: Some(9),
        become_primary_on: None,
        source: None,
    };
    let (net, disk, startup) = saved_options(&form);
    assert!(!net.allow_two_primaries);
    assert_eq!(net.after_sb_0pri, "discard-younger-primary");
    assert_eq!(net.after_sb_1pri, "discard-secondary");
    assert_eq!(net.after_sb_2pri, "x");
    assert_eq!(disk.fencing, "resource-only");
    assert_eq!(startup.wfc_timeout, 15);
    assert_eq!(startup.degr_wfc_timeout, 9);
    let record = saved_record(&form, "n".to_string(), "d".to_string(), "s".to_string());
    assert_eq!(record.source, "manual");
    assert_eq!(record.disk_options_json, "d");
    assert_eq!(record.minor, 2);
}

fn profile(name: &str, method: &str) -> DbAnsibleProfile {
    DbAnsibleProfile {
        id: 1,
        name: name.to_string(),
        auth_method: method.to_string(),
        ssh_user: "deploy".to_string(),
        ssh_key: "~/.ssh/k".to_string(),
        ssh_password: "pw".to_string(),
        do_become: true,
        become_method: "sudo".to_string(),
        become_password: String::new(),
        created_at: String::new(),
        updated_at: String::new(),
    }
}

fn pool() -> Vec<DbNode> {
    [("n1", "10.0.0.1"), ("n2", "")]
        .iter()
        .map(|(h, ip)| DbNode {
            id: 1,
            hostname: h.to_string(),
            ip: ip.to_string(),
            ssh_user: "root".to_string(),
            source: "manual".to_string(),
            created_at: String::new(),
        })
        .collect()
}

#[test]
fn the_node_inventory_follows_the_profile() {
    assert_eq!(
        write_ansible_inventory(&pool(), None),
        "[all]\nn1 ansible_host=10.0.0.1 ansible_user=root\nn2 ansible_host=n2 ansible_user=root\n\n[all:vars]\nansible_host_key_checking=False"
    );
    let mut p = profile("p", "key");
    assert_eq!(
        write_ansible_inventory(&pool(), Some(&p)),
        "[all]\nn1 ansible_host=10.0.0.1 ansible_user=deploy ansible_ssh_private_key_file=~/.ssh/k ansible_become=yes ansible_become_method=sudo\nn2 ansible_host=n2 ansible_user=deploy ansible_ssh_private_key_file=~/.ssh/k ansible_become=yes ansible_become_method=sudo\n\n[all:vars]\nansible_host_key_checking=False"
    );
    assert_eq!(private_key(&p, "/root/"), Some("/root/.ssh/k".to_string()));
    p.auth_method = "password".to_string();
    p.do_become = false;
    assert_eq!(private_key(&p, "/root"), None);
    assert!(write_ansible_inventory(&pool(), Some(&p)).contains("n1 ansible_host=10.0.0.1 ansible_user=deploy ansible_ssh_pass=pw\n"));
    let profiles = vec![profile("a", "key"), profile("b", "key")];
    assert_eq!(choose_profile(&profiles, &None).unwrap().name, "a");
    assert_eq!(choose_profile(&profiles, &Some("b".to_string())).unwrap().name, "b");
    assert!(choose_profile(&profiles, &Some("c".to_string())).is_none());
    assert_eq!(expand_home("/home/u", "~"), "/home/u");
    assert_eq!(expand_home("/home/u/", "~/x"), "/home/u/x");
    assert_eq!(expand_home("", "~/x"), "~/x");
    assert_eq!(expand_home("/home/u", "/a/~/x"), "/a/~/x");
}

#[test]
fn the_collecting_playbooks_write_into_the_temp_dir() {
    assert_eq!(
        write_collect_playbook("/tmp/icm"),
        "---\n- name: Collect network interface information from the nodes\n  hosts: all\n  gather_facts: no\n  tasks:\n    - name: Collect IP address information (JSON)\n      command: ip -j addr show\n      register: ip_json\n      changed_when: false\n\n    - name: Save the collected data locally\n      local_action:\n        module: copy\n        content: \"{{ ip_json.stdout }}\"\n        dest: \"/tmp/icm/ifaces_{{ inventory_hostname }}.json\"\n        mode: '0600'\n"
    );
    let detect = write_storage_backend_detect_playbook("/tmp/icm");
    assert!(detect.ends_with("        content: \"{{ {'controller': _linstor_ctrl_stat.stat.exists, 'satellite': _linstor_sat_stat.stat.exists} | to_json }}\"\n        dest: \"/tmp/icm/linstor_detect_{{ inventory_hostname }}.json\"\n        mode: '0600'\n"));
}

#[test]
fn records_fill_in_their_defaults() {
    let node = node_record(&ipvlan_container_manager::routes::nodes::NodeInput {
        hostname: "n1".to_string(),
        ip: None,
        ssh_user: None,
    });
    assert_eq!(node.ip, "");
    assert_eq!(node.ssh_user, "root");
    assert_eq!(node.source, "manual");
    let network = network_record(&NetworkInput {
        name: "lan".to_string(),
        driver: None,
        subnet: None,
        gateway: None,
        subnet6: Some("fd00::/64".to_string()),
        gateway6: None,
        ipv6: None,
        ipvlan_mode: None,
    });
    assert_eq!(network.driver, "ipvlan");
    assert_eq!(network.interface, "");
    assert!(network.ipv6);
    assert_eq!(network.ipvlan_mode, "l2");
    let profile = profile_record(&AnsibleProfileInput {
        name: "p".to_string(),
        auth_method: None,
        ssh_user: None,
        ssh_key: None,
        ssh_password: None,
        do_become: None,
        become_method: None,
        become_password: None,
    });
    assert_eq!(profile.auth_method, "key");
    assert_eq!(profile.ssh_key, "~/.ssh/id_rsa");
    assert!(profile.do_become);
    assert_eq!(profile.become_method, "sudo");
}

#[test]
fn settings_have_defaults() {
    let mut raw = RawConfig {
        host: None,
        port: Some("x".to_string()),
        log_level: None,
        db_path: None,
        drbd_dir: None,
        quadlet_dir: None,
        temp_dir: None,
        deploy_mode: None,
        pcsd_url: None,
        pcsd_user: None,
        pcsd_pass: None,
    };
    let config = load_config(&raw);
    assert_eq!(config.host, "0.0.0.0");
    assert_eq!(config.port, 5000);
    assert_eq!(config.log_level, "info");
    assert_eq!(config.db_path, "./icm.db");
    assert_eq!(config.drbd_dir, "/etc/drbd.d");
    assert_eq!(config.quadlet_dir, "/etc/containers/systemd");
    assert_eq!(config.temp_dir, "/tmp/icm");
    assert_eq!(config.deploy_mode, "test");
    assert_eq!(config.pcsd_url, "https://localhost:2224");
    assert_eq!(config.pcsd_user, "hacluster");
    assert_eq!(config.pcsd_pass, "");
    raw.port = Some("8080".to_string());
    raw.host = Some("::".to_string());
    assert_eq!(load_config(&raw).port, 8080);
    assert_eq!(load_config(&raw).host, "::");
    assert_eq!(filter_starts_with(Some("abc"), Some("ab")), Some(true));
    assert_eq!(filter_starts_with(None, Some("ab")), Some(false));
    assert_eq!(filter_starts_with(Some("abc"), None), None);
    assert_eq!(filter_ends_with(Some("abc"), Some("bc")), Some(true));
    assert_eq!(filter_ends_with(Some("abc"), Some("b")), Some(false));
}

#[test]
fn numbers_and_orders_are_those_of_the_texts() {
    assert_eq!(decimal_text(0), "0");
    assert_eq!(decimal_text(18446744073709551615), "18446744073709551615");
    assert_eq!(parse_number("007", 10), Some(7));
    assert_eq!(parse_number("+7", 10), Some(7));
    assert_eq!(parse_number("11", 10), None);
    assert_eq!(parse_number("", 10), None);
    assert_eq!(parse_number("+", 10), None);
    assert_eq!(parse_number("-1", 10), None);
    assert_eq!(parse_port("65535"), Some(65535));
    assert_eq!(parse_port("65536"), None);
    assert!(at_most("a", "ab"));
    assert!(at_most("Z", "a"));
    assert!(!at_most("b", "ab"));
    let sorted = sort_texts(&vec!["b".to_string(), "a".to_string(), "B".to_string(), "a".to_string()]);
    assert_eq!(sorted, ["B", "a", "a", "b"]);
}
