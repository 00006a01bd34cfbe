use ipvlan_container_manager::db::{DbAnsibleProfile, DbNode};
use ipvlan_container_manager::nft_scanner::{
    extract_device_name, extract_elements_content, parse_comma_list, parse_nft_file,
    parse_port_expr, parse_port_range,
};
use ipvlan_container_manager::nft_setup::{
    after_ansible, after_read, after_update, begin_scan, combine_output, default_nft_config,
    group_records, merge_config, write_setup_args, write_setup_inventory, write_setup_playbook,
    AnsibleOutcome, ScanAction,
};

const RULES: &str = "table netdev filter_ingress {
    # a comment with { braces }
    set target_web_v4 {
        type ipv4_addr
        elements = { 10.0.0.5, 10.0.0.6 }
    }
    set target_web_v6 {
        type ipv6_addr
        elements = { fd00::5 }
    }
    set sg_office_v4 {
        type ipv4_addr; flags interval
        elements = { 192.168.0.0/24,
                     192.168.1.0/24 }
    }
    set traceroute_udp_ports {
        type inet_service; flags interval
        elements = { 33434-33999 }
    }
    chain ingress_eth0 {
        type filter hook ingress device \"eth0\" priority -500; policy accept;
        ip daddr @target_web_v4 ip saddr @sg_office_v4 ip protocol tcp tcp dport { 443, 80 } accept
        ip daddr @target_web_v4 ip protocol udp udp dport 53 accept
        ip daddr @target_web_v4 ip protocol udp udp dport 53 accept
        ip daddr @target_db_v4 ip protocol tcp tcp dport 5432 accept
        ip daddr @target_db_v4 ip protocol icmp accept
    }
}
";

fn profile() -> DbAnsibleProfile {
    DbAnsibleProfile {
        id: 1,
        name: "p".to_string(),
        auth_method: "key".to_string(),
        ssh_user: "deploy".to_string(),
        ssh_key: "~/.ssh/k".to_string(),
        ssh_password: "secret".to_string(),
        do_become: true,
        become_method: "sudo".to_string(),
        become_password: "pw".to_string(),
        created_at: String::new(),
        updated_at: String::new(),
    }
}

fn node(hostname: &str, ip: &str) -> DbNode {
    DbNode {
        id: 1,
        hostname: hostname.to_string(),
        ip: ip.to_string(),
        ssh_user: "root".to_string(),
        source: "manual".to_string(),
        created_at: String::new(),
    }
}

#[test]
fn a_rule_file_is_read_into_sets_services_and_targets() {
    let p = parse_nft_file(RULES);
    assert_eq!(p.table_name.as_deref(), Some("filter_ingress"));
    assert_eq!(p.chain_name.as_deref(), Some("ingress_eth0"));
    assert_eq!(p.device_name.as_deref(), Some("eth0"));
    assert_eq!(p.traceroute_start, Some(33434));
    assert_eq!(p.traceroute_end, Some(33999));

    assert_eq!(p.subnet_groups.len(), 1);
    assert_eq!(p.subnet_groups[0].name, "office");
    assert_eq!(p.subnet_groups[0].v4, ["192.168.0.0/24", "192.168.1.0/24"]);
    assert!(p.subnet_groups[0].v6.is_empty());

    let names: Vec<&str> = p.auto_services.iter().map(|s| s.name.as_str()).collect();
    assert_eq!(names, ["auto_tcp_443_80", "auto_udp_53", "auto_tcp_5432"]);
    assert_eq!(p.auto_services[0].tcp_ports, ["443", "80"]);
    assert!(p.auto_services[0].udp_ports.is_empty());
    assert_eq!(p.auto_services[0].description, "자동 감지");
    assert_eq!(p.auto_services[1].udp_ports, ["53"]);

    assert_eq!(p.targets.len(), 2);
    assert_eq!(p.targets[0].name, "db");
    assert!(p.targets[0].ipv4_addrs.is_empty());
    assert_eq!(p.targets[0].rules.len(), 1);
    assert_eq!(p.targets[0].rules[0].service_name, "auto_tcp_5432");
    assert_eq!(p.targets[1].name, "web");
    assert_eq!(p.targets[1].ipv4_addrs, ["10.0.0.5", "10.0.0.6"]);
    assert_eq!(p.targets[1].ipv6_addrs, ["fd00::5"]);
    assert_eq!(p.targets[1].rules.len(), 2);
    assert_eq!(p.targets[1].rules[0].subnet_group_name, "office");
    assert_eq!(p.targets[1].rules[1].subnet_group_name, "");
}

#[test]
fn a_file_without_a_table_holds_nothing() {
    let p = parse_nft_file("# nothing\nset target_a_v4 {\nelements = { 1.1.1.1 }\n}\n");
    assert_eq!(p.table_name, None);
    assert!(p.targets.is_empty());
    assert!(p.subnet_groups.is_empty());
}

#[test]
fn rule_parts_are_read() {
    assert_eq!(extract_elements_content("elements = { a, b }"), Some(" a, b "));
    assert_eq!(extract_elements_content("} {"), None);
    assert_eq!(extract_elements_content("a"), None);
    assert_eq!(parse_comma_list(" a, ,b,"), ["a", "b"]);
    assert_eq!(parse_port_range(" 1 - 65535 "), Some((1, 65535)));
    assert_eq!(parse_port_range("1-65536"), None);
    assert_eq!(parse_port_range("80"), None);
    assert_eq!(extract_device_name("hook ingress device \"eth1\" x"), Some("eth1".to_string()));
    assert_eq!(extract_device_name("device eth1"), None);
    assert_eq!(parse_port_expr("{ 80, 443, 8000-9000 }"), ["80", "443", "8000-9000"]);
    assert_eq!(parse_port_expr(" 22 "), ["22"]);
}

#[test]
fn an_existing_file_is_read_at_once() {
    let (state, action) = begin_scan("/etc/nftables/x.nft", true);
    assert!(matches!(action, ScanAction::ReadFile));
    match after_read(&state, Ok(RULES.to_string())) {
        ScanAction::Update(parsed) => assert_eq!(parsed.targets.len(), 2),
        _ => panic!("the content is taken in"),
    }
    let result = after_update(state, 1, 3, 2);
    assert!(result.file_existed);
    assert_eq!(result.groups_updated, 1);
    assert_eq!(result.services_updated, 3);
    assert_eq!(result.targets_updated, 2);
    assert_eq!(result.ansible_output, None);
    assert_eq!(
        result.message,
        "스캔 완료 (파일 기존): 그룹 1개, 서비스 3개, 대상 2개 업데이트"
    );
}

#[test]
fn an_unreadable_file_ends_the_scan() {
    let (state, _) = begin_scan("/etc/nftables/x.nft", true);
    match after_read(&state, Err("denied".to_string())) {
        ScanAction::Done(r) => {
            assert_eq!(r.message, "파일 읽기 실패 /etc/nftables/x.nft: denied");
            assert!(r.file_existed);
            assert_eq!(r.groups_updated, 0);
        }
        _ => panic!("nothing is left to do"),
    }
}

#[test]
fn a_missing_file_is_created_first() {
    let (state, action) = begin_scan("/etc/nftables/x.nft", false);
    assert!(matches!(action, ScanAction::RunAnsible));
    let (state, action) = after_ansible(
        state,
        AnsibleOutcome::Finished {
            success: true,
            stdout: "ok".to_string(),
            stderr: "warn".to_string(),
        },
    );
    assert!(matches!(action, ScanAction::ReadFile));
    let result = after_update(state, 0, 0, 0);
    assert!(!result.file_existed);
    assert_eq!(result.ansible_output.as_deref(), Some("ok\nSTDERR:\nwarn"));
    assert_eq!(
        result.message,
        "스캔 완료 (파일 신규 생성): 그룹 0개, 서비스 0개, 대상 0개 업데이트"
    );
    assert_eq!(combine_output("out".to_string(), ""), "out");
}

#[test]
fn a_failed_playbook_ends_the_scan() {
    let (state, _) = begin_scan("/f", false);
    let (_, action) = after_ansible(
        state,
        AnsibleOutcome::Finished {
            success: false,
            stdout: "bad".to_string(),
            stderr: String::new(),
        },
    );
    match action {
        ScanAction::Done(r) => {
            assert_eq!(r.message, "Ansible 실행 실패 - 파일이 생성되지 않았을 수 있습니다");
            assert_eq!(r.ansible_output.as_deref(), Some("bad"));
        }
        _ => panic!("nothing is left to do"),
    }
    let (state, _) = begin_scan("/f", false);
    let (_, action) = after_ansible(
        state,
        AnsibleOutcome::NotStarted {
            error: "no such file".to_string(),
        },
    );
    match action {
        ScanAction::Done(r) => {
            assert_eq!(r.message, "Ansible 실행 실패: no such file");
            assert_eq!(
                r.ansible_output.as_deref(),
                Some("ansible-playbook 실행 오류: no such file")
            );
        }
        _ => panic!("nothing is left to do"),
    }
}

#[test]
fn the_setup_reaches_the_nodes_of_a_profile() {
    let nodes = vec![node("n1", "10.0.0.1")];
    let p = profile();
    let remote = write_setup_playbook(Some(&p), &nodes, "/etc/nftables/x.nft");
    assert!(remote.starts_with("---\n- name: nftables ipvlan_l2 설정 초기화\n  hosts: all\n  become: true\n  tasks:\n"));
    assert!(remote.contains("        dest: \"/etc/nftables/x.nft\"\n"));
    assert!(remote.ends_with("        line: 'include \"/etc/nftables/x.nft\"'\n        create: yes\n        state: present\n"));
    let local = write_setup_playbook(None, &nodes, "/f");
    assert!(local.contains("  hosts: localhost\n  connection: local\n  become: true\n"));
    assert_eq!(
        write_setup_inventory(&p, &nodes),
        "all:\n  hosts:\n    n1:\n      ansible_host: 10.0.0.1\n  vars:\n    ansible_user: deploy\n    ansible_ssh_private_key_file: ~/.ssh/k\n    ansible_become: true\n    ansible_become_method: sudo\n    ansible_become_password: pw\n"
    );
    let mut by_password = profile();
    by_password.auth_method = "password".to_string();
    by_password.do_become = false;
    assert_eq!(
        write_setup_inventory(&by_password, &nodes),
        "all:\n  hosts:\n    n1:\n      ansible_host: 10.0.0.1\n  vars:\n    ansible_user: deploy\n    ansible_ssh_pass: secret\n"
    );
    assert_eq!(write_setup_args(true, "i", "p"), ["-i", "i", "p"]);
    assert_eq!(write_setup_args(false, "i", "p"), ["-c", "local", "-i", "localhost,", "p"]);
}

#[test]
fn what_the_file_says_overrides_the_settings() {
    let current = default_nft_config("/f");
    assert_eq!(current.table_name, "filter_ingress");
    assert_eq!(current.device_name, "eth0");
    assert_eq!(current.traceroute_start, 33434);
    assert_eq!(current.traceroute_end, 65535);
    let parsed = parse_nft_file("table netdev t {\n}\n");
    let merged = merge_config(&parsed, &current, "/g");
    assert_eq!(merged.table_name, "t");
    assert_eq!(merged.device_name, "eth0");
    assert_eq!(merged.nft_file, "/g");
    let groups = group_records(&parse_nft_file(RULES).subnet_groups);
    assert_eq!(groups.len(), 1);
    assert_eq!(groups[0].name, "office");
    assert_eq!(groups[0].description, "자동 감지");
    assert_eq!(groups[0].cidrs_v4, ["192.168.0.0/24", "192.168.1.0/24"]);
}
