use ipvlan_container_manager::generators::drbd::{
    generate_ansible_playbook, generate_global_common_conf, generate_res_file,
};
use ipvlan_container_manager::models::drbd::{AnsibleInventory, DrbdNode, DrbdResource};

fn sample_resource(fencing: &str) -> DrbdResource {
    let mut resource = DrbdResource {
        resource_name: "r0".to_string(),
        nodes: vec![
            DrbdNode {
                hostname: "node1".to_string(),
                ip: "192.168.10.11".to_string(),
                port: 7789,
                ..DrbdNode::default()
            },
            DrbdNode {
                hostname: "node2".to_string(),
                ip: "192.168.10.12".to_string(),
                port: 7789,
                ..DrbdNode::default()
            },
        ],
        ..DrbdResource::default()
    };
    resource.disk_options.fencing = fencing.to_string();
    resource
}

#[test]
fn global_common_conf_contains_fence_peer_handlers() {
    let conf = generate_global_common_conf();
    assert!(conf.contains("fence-peer \"/usr/lib/drbd/crm-fence-peer.9.sh\";"));
    assert!(conf.contains("after-resync-target \"/usr/lib/drbd/crm-unfence-peer.9.sh\";"));
    assert!(conf.contains("usage-count yes;"));
}

#[test]
fn ansible_playbook_deploys_global_common_conf_when_fencing_is_resource_only() {
    let resource = sample_resource("resource-only");
    let inventory = AnsibleInventory::default();
    let playbook = generate_ansible_playbook(&resource, &inventory);

    assert!(playbook.contains("global_common.conf"));
    assert!(playbook.contains("fence-peer"));
    assert!(playbook.contains("notify: Adjust DRBD config"));
    assert!(playbook.contains("drbdadm adjust all"));
}

#[test]
fn res_file_emits_startup_block_with_configured_timeouts() {
    let mut resource = sample_resource("resource-only");
    resource.startup_options.wfc_timeout = 42;
    resource.startup_options.degr_wfc_timeout = 99;

    let res = generate_res_file(&resource);
    assert!(res.contains("startup {"));
    assert!(res.contains("wfc-timeout      42;"));
    assert!(res.contains("degr-wfc-timeout 99;"));
}

#[test]
fn res_file_never_emits_become_primary_on() {
    let mut resource = sample_resource("resource-only");
    resource.startup_options.become_primary_on = "node1".to_string();
    assert!(!generate_res_file(&resource).contains("become-primary-on"));
}

#[test]
fn on_io_error_only_emits_values_drbd9_accepts() {
    for (input, expected) in [
        ("detach", "detach"),
        ("pass_on", "pass_on"),
        ("call-local-io-error", "call-local-io-error"),
        ("passthrough", "pass_on"),
        ("panic", "call-local-io-error"),
        ("", "detach"),
    ] {
        let mut r = sample_resource("resource-only");
        r.disk_options.on_io_error = input.to_string();
        let res = generate_res_file(&r);
        assert!(
            res.contains(&format!("on-io-error {};", expected)),
            "on-io-error {:?} → {:?} 기대, 생성물:\n{}",
            input,
            expected,
            res
        );
    }
}

#[test]
fn after_sb_1pri_only_emits_values_drbd9_accepts() {
    for (input, expected) in [
        ("discard-secondary", "discard-secondary"),
        ("consensus", "consensus"),
        ("violently-as0p", "violently-as0p"),
        ("call-pri-lost", "call-pri-lost-after-sb"),
    ] {
        let mut r = sample_resource("resource-only");
        r.net_options.after_sb_1pri = input.to_string();
        let res = generate_res_file(&r);
        assert!(
            res.contains(&format!("after-sb-1pri {};", expected)),
            "after-sb-1pri {:?} → {:?} 기대",
            input,
            expected
        );
    }
}

#[test]
fn default_res_file_uses_no_drbd8_only_keywords() {
    let res = generate_res_file(&sample_resource("resource-only"));
    for invalid in ["passthrough", "panic", "call-pri-lost;", "become-primary-on"] {
        assert!(
            !res.contains(invalid),
            "DRBD 9가 거부하는 값 {:?}이 생성물에 있다:\n{}",
            invalid,
            res
        );
    }
}

fn lvm_resource(vgs: &[(&str, &str)]) -> DrbdResource {
    DrbdResource {
        resource_name: "r0".to_string(),
        minor: 0,
        nodes: vgs
            .iter()
            .map(|(host, vg)| DrbdNode {
                hostname: host.to_string(),
                ip: "192.168.10.11".to_string(),
                port: 7789,
                disk_type: "lvm".to_string(),
                lvm_vg: vg.to_string(),
                lvm_size: "10G".to_string(),
                ..DrbdNode::default()
            })
            .collect(),
        ..DrbdResource::default()
    }
}

#[test]
fn lvm_playbook_guards_lv_creation_to_the_owning_host() {
    let resource = lvm_resource(&[("node1", "vg_a"), ("node2", "vg_b")]);
    let playbook = generate_ansible_playbook(&resource, &AnsibleInventory::default());

    assert!(playbook.contains("when: item.host == inventory_hostname"));
    assert!(playbook.contains("{ host: node1, name: r0, lv_name: r0, vg: vg_a,"));
    assert!(playbook.contains("{ host: node2, name: r0, lv_name: r0, vg: vg_b,"));
    assert_eq!(playbook.matches("vg: vg_a").count(), 1);
    assert_eq!(playbook.matches("vg: vg_b").count(), 1);
}

fn drbd_resources_var(playbook: &str) -> Vec<serde_yaml::Value> {
    let doc: serde_yaml::Value =
        serde_yaml::from_str(playbook).expect("플레이북 YAML 파싱 실패");
    let seq = doc
        .as_sequence()
        .expect("플레이북은 play 리스트여야 한다")
        .iter()
        .filter_map(|play| play.get("vars"))
        .find_map(|vars| vars.get("drbd_resources"))
        .expect("drbd_resources 변수가 없다")
        .as_sequence()
        .expect("drbd_resources는 null이 아닌 리스트여야 한다 (loop가 깨진다)")
        .clone();
    assert!(!seq.is_empty(), "drbd_resources가 비어 있다");
    seq
}

#[test]
fn lvm_entries_without_vg_do_not_leave_an_empty_loop_variable() {
    let resource = lvm_resource(&[("node1", ""), ("node2", "")]);
    let playbook = generate_ansible_playbook(&resource, &AnsibleInventory::default());

    assert!(!playbook.contains("community.general.lvol"));
    let entries = drbd_resources_var(&playbook);
    assert_eq!(entries.len(), 1);
}

#[test]
fn lvm_loop_variable_has_one_entry_per_owning_node() {
    let resource = lvm_resource(&[("node1", "vg_a"), ("node2", "vg_b")]);
    let playbook = generate_ansible_playbook(&resource, &AnsibleInventory::default());

    let entries = drbd_resources_var(&playbook);
    assert_eq!(entries.len(), 2);
    let pairs: Vec<(String, String)> = entries
        .iter()
        .map(|e| {
            (
                e["host"].as_str().expect("host 키 필요").to_string(),
                e["vg"].as_str().expect("vg 키 필요").to_string(),
            )
        })
        .collect();
    assert_eq!(
        pairs,
        vec![
            ("node1".to_string(), "vg_a".to_string()),
            ("node2".to_string(), "vg_b".to_string()),
        ]
    );
}

#[test]
fn drbd_generated_playbook_is_valid_yaml() {
    for resource in [
        lvm_resource(&[("node1", "vg_a"), ("node2", "vg_b")]),
        sample_resource("resource-only"),
        sample_resource("dont-care"),
    ] {
        let playbook = generate_ansible_playbook(&resource, &AnsibleInventory::default());
        let parsed: Result<serde_yaml::Value, _> = serde_yaml::from_str(&playbook);
        assert!(
            parsed.is_ok(),
            "YAML 파싱 실패: {:?}\n---\n{}",
            parsed.err(),
            playbook
        );
    }
}

#[test]
fn ansible_playbook_skips_global_common_conf_when_fencing_is_not_resource_only() {
    let resource = sample_resource("dont-care");
    let inventory = AnsibleInventory::default();
    let playbook = generate_ansible_playbook(&resource, &inventory);

    assert!(!playbook.contains("global_common.conf"));
    assert!(!playbook.contains("Adjust DRBD config"));
}
