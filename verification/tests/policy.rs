use ipvlan_container_manager::generators::nft::{
    format_inline_ips, format_port_expr, generate_nft_policy, sanitize_set_name,
};
use ipvlan_container_manager::models::nft::{
    NftGlobalRule, NftPolicy, NftServiceDef, NftSubnetGroup, NftTarget, NftTargetRule,
};
use ipvlan_container_manager::nft_scanner::parse_nft_file;
use ipvlan_container_manager::records::{
    get_nft_services_by_names, get_nft_subnet_groups_by_names, list_nft_services,
    list_nft_subnet_groups, JoinedRow,
};
use ipvlan_container_manager::routes::nft::{
    build_policy, config_of_policy, default_global_rules, has_global_rules, normalize_targets,
    referenced_groups, referenced_services, target_record, NftGenerateForm,
};

fn texts(list: &[&str]) -> Vec<String> {
    list.iter().map(|s| s.to_string()).collect()
}

fn rule(service: &str, group: Option<&str>) -> NftTargetRule {
    NftTargetRule {
        service_name: service.to_string(),
        subnet_group: group.map(|g| g.to_string()),
    }
}

fn target(name: &str, v4: &[&str], v6: &[&str], rules: Vec<NftTargetRule>) -> NftTarget {
    NftTarget {
        name: name.to_string(),
        ipv4_addrs: texts(v4),
        ipv6_addrs: texts(v6),
        rules,
    }
}

fn group(name: &str, v4: &[&str], v6: &[&str]) -> NftSubnetGroup {
    NftSubnetGroup {
        id: 1,
        name: name.to_string(),
        description: String::new(),
        cidrs_v4: texts(v4),
        cidrs_v6: texts(v6),
    }
}

fn service(name: &str, tcp: &[&str], udp: &[&str]) -> NftServiceDef {
    NftServiceDef {
        id: 1,
        name: name.to_string(),
        description: String::new(),
        tcp_ports: texts(tcp),
        udp_ports: texts(udp),
    }
}

fn form() -> NftGenerateForm {
    NftGenerateForm {
        table_name: None,
        device_name: Some("eth0-1".to_string()),
        chain_name: Some("  ".to_string()),
        traceroute_start: None,
        traceroute_end: Some(40000),
        global_rules_json: None,
        targets_json: "[]".to_string(),
    }
}

#[test]
fn a_policy_is_written_rule_by_rule() {
    let policy = NftPolicy {
        filename: "t.nft".to_string(),
        table_name: "t".to_string(),
        device_name: "eth0".to_string(),
        chain_name: "c".to_string(),
        traceroute_start: 33434,
        traceroute_end: 65535,
        global_rules: vec![
            NftGlobalRule {
                protocol: "udp".to_string(),
                port_start: 100,
                port_end: 200,
            },
            NftGlobalRule {
                protocol: "tcp".to_string(),
                port_start: 7,
                port_end: 7,
            },
        ],
        targets: vec![target(
            "web-1.a",
            &["10.0.0.5", "10.0.0.6"],
            &["fd00::5"],
            vec![
                rule("http", Some("office")),
                rule("dns", None),
                rule("unknown", None),
                rule("http", Some("absent")),
            ],
        )],
        subnet_groups: vec![
            group("office", &["192.168.0.0/24"], &[]),
            group("unused", &["1.0.0.0/8"], &[]),
        ],
        services: vec![
            service("http", &["80", "443"], &[]),
            service("dns", &["53"], &["53"]),
        ],
    };
    assert_eq!(
        generate_nft_policy(&policy),
        "table netdev t {
    # --- 1. 대상 Pod/컨테이너 IP 그룹 (Targets) ---
    set target_web_1_a_v4 { type ipv4_addr; elements = { 10.0.0.5, 10.0.0.6 } }
    set target_web_1_a_v6 { type ipv6_addr; elements = { fd00::5 } }

    # --- 2. 서브넷 그룹 (Subnet Groups) ---
    set sg_office_v4 {
        type ipv4_addr; flags interval
        elements = { 192.168.0.0/24 }
    }

    # --- 3. 전역 허용 규칙 포트 집합 ---
    set global_udp_0_ports {
        type inet_service; flags interval
        elements = { 100-200 }
    }
    set global_tcp_1_ports {
        type inet_service; flags interval
        elements = { 7 }
    }

    chain c {
        type filter hook ingress device \"eth0\" priority -500; policy accept;
        tcp flags & (ack | rst) != 0 accept
        udp sport 53 accept

        # ==================================================
        # 공통 허용 규칙 (Global Open: ICMP & 전역 규칙)
        # ==================================================
        ip daddr { 10.0.0.5, 10.0.0.6 } ip protocol icmp accept
        ip daddr { 10.0.0.5, 10.0.0.6 } udp dport @global_udp_0_ports accept
        ip daddr { 10.0.0.5, 10.0.0.6 } tcp dport @global_tcp_1_ports accept
        ip6 daddr fd00::5 ip6 nexthdr icmpv6 accept
        ip6 daddr fd00::5 ip6 nexthdr udp udp dport @global_udp_0_ports accept
        ip6 daddr fd00::5 ip6 nexthdr tcp tcp dport @global_tcp_1_ports accept

        # ==================================================
        # 서비스별 상세 규칙
        # ==================================================

        # WEB-1.A
        ip daddr @target_web_1_a_v4 ip saddr @sg_office_v4 ip protocol tcp tcp dport { 80, 443 } accept
        ip daddr @target_web_1_a_v4 ip protocol tcp tcp dport 53 accept
        ip6 daddr @target_web_1_a_v6 ip6 nexthdr tcp tcp dport 53 accept
        ip daddr @target_web_1_a_v4 ip protocol udp udp dport 53 accept
        ip6 daddr @target_web_1_a_v6 ip6 nexthdr udp udp dport 53 accept

        # ==================================================
        # 대상별 개별 차단 로그
        # ==================================================
        ip daddr @target_web_1_a_v4 counter log prefix \"NFT_WEB_1_A_V4_DROP: \" drop
        ip6 daddr @target_web_1_a_v6 counter log prefix \"NFT_WEB_1_A_V6_DROP: \" drop

        accept
    }
}
"
    );
}

#[test]
fn an_empty_policy_keeps_the_traceroute_ports() {
    let policy = build_policy(&form(), Vec::new(), Vec::new(), Vec::new(), Vec::new());
    assert_eq!(
        generate_nft_policy(&policy),
        "table netdev filter_ingress {
    # --- 1. 대상 Pod/컨테이너 IP 그룹 (Targets) ---

    # --- 3. 공통 설정 (Tools) ---
    set traceroute_udp_ports {
        type inet_service; flags interval
        elements = { 33434-40000 }
    }

    chain ingress_eth0_1 {
        type filter hook ingress device \"eth0-1\" priority -500; policy accept;
        tcp flags & (ack | rst) != 0 accept
        udp sport 53 accept

        accept
    }
}
"
    );
}

#[test]
fn a_written_policy_is_found_by_a_scan() {
    let mut policy = build_policy(
        &form(),
        vec![target(
            "web-1",
            &["10.0.0.5", "10.0.0.6"],
            &["fd00::5"],
            vec![rule("http", Some("office")), rule("dns", None)],
        )],
        Vec::new(),
        vec![
            group("office", &["192.168.0.0/24", "172.16.0.0/12"], &["fd00::/8"]),
            group("unused", &["1.0.0.0/8"], &[]),
        ],
        vec![service("http", &["8080", "443"], &[]), service("dns", &["53"], &["53"])],
    );
    let found = parse_nft_file(&generate_nft_policy(&policy));
    assert_eq!(found.table_name.as_deref(), Some("filter_ingress"));
    assert_eq!(found.device_name.as_deref(), Some("eth0-1"));
    assert_eq!(found.chain_name.as_deref(), Some("ingress_eth0_1"));
    assert_eq!(found.traceroute_start, Some(33434));
    assert_eq!(found.traceroute_end, Some(40000));
    assert_eq!(found.subnet_groups.len(), 1);
    assert_eq!(found.subnet_groups[0].name, "office");
    assert_eq!(found.subnet_groups[0].v4, texts(&["192.168.0.0/24", "172.16.0.0/12"]));
    assert_eq!(found.subnet_groups[0].v6, texts(&["fd00::/8"]));
    assert_eq!(found.targets.len(), 1);
    assert_eq!(found.targets[0].name, "web_1");
    assert!(found.targets[0].ipv4_addrs.is_empty());
    let rules: Vec<(&str, &str)> = found.targets[0]
        .rules
        .iter()
        .map(|r| (r.service_name.as_str(), r.subnet_group_name.as_str()))
        .collect();
    assert_eq!(
        rules,
        [("auto_tcp_443_8080", "office"), ("auto_tcp_53", ""), ("auto_udp_53", "")]
    );
    assert_eq!(found.auto_services.len(), 3);
    assert_eq!(found.auto_services[0].tcp_ports, texts(&["443", "8080"]));
    assert_eq!(found.auto_services[2].udp_ports, texts(&["53"]));
    policy.global_rules = vec![NftGlobalRule {
        protocol: "udp".to_string(),
        port_start: 33434,
        port_end: 33534,
    }];
    let found = parse_nft_file(&generate_nft_policy(&policy));
    assert_eq!(found.traceroute_start, None);
    assert_eq!(found.targets[0].rules.len(), 3);
}

#[test]
fn unusual_names_are_found_by_a_scan() {
    let mut policy = build_policy(
        &form(),
        vec![target(
            "hook ingress device \"x\"",
            &["@target_a_v4;"],
            &["\"fd00::5\""],
            vec![rule("odd", Some("office"))],
        )],
        Vec::new(),
        vec![group("office", &["192.168.0.0/24", ""], &["\"fd00::/8\";"])],
        vec![service("odd", &["\"80\";"], &[])],
    );
    policy.table_name = String::new();
    policy.chain_name = "a;b,c\"".to_string();
    policy.device_name = "br 0;".to_string();
    let found = parse_nft_file(&generate_nft_policy(&policy));
    assert_eq!(found.table_name.as_deref(), Some(""));
    assert_eq!(found.chain_name.as_deref(), Some("a;b,c\""));
    assert_eq!(found.device_name.as_deref(), Some("br 0;"));
    assert_eq!(found.traceroute_start, Some(33434));
    assert_eq!(found.traceroute_end, Some(40000));
    assert_eq!(found.subnet_groups.len(), 1);
    assert_eq!(found.subnet_groups[0].name, "office");
    assert_eq!(found.subnet_groups[0].v4, texts(&["192.168.0.0/24"]));
    assert_eq!(found.subnet_groups[0].v6, texts(&["\"fd00::/8\";"]));
    policy.chain_name = "chain".to_string();
    let found = parse_nft_file(&generate_nft_policy(&policy));
    assert_eq!(found.chain_name.as_deref(), Some(""));
}

#[test]
fn the_last_service_of_a_name_counts() {
    let mut policy = build_policy(
        &form(),
        vec![target("w", &["1.1.1.1"], &[], vec![rule("s", None)])],
        Vec::new(),
        Vec::new(),
        vec![service("s", &["1"], &[]), service("s", &["2"], &[])],
    );
    assert!(generate_nft_policy(&policy).contains("tcp dport 2 accept"));
    assert!(!generate_nft_policy(&policy).contains("tcp dport 1 accept"));
    policy.services.pop();
    assert!(generate_nft_policy(&policy).contains("tcp dport 1 accept"));
}

#[test]
fn names_and_lists_are_written_for_nft() {
    assert_eq!(sanitize_set_name("a-b.c d"), "a_b_c_d");
    assert_eq!(format_port_expr(&texts(&["80"])), "80");
    assert_eq!(format_port_expr(&texts(&["80", "443"])), "{ 80, 443 }");
    assert_eq!(format_inline_ips(&texts(&["1.1.1.1"])), "1.1.1.1");
    assert_eq!(format_inline_ips(&texts(&["1.1.1.1", "2.2.2.2"])), "{ 1.1.1.1, 2.2.2.2 }");
}

#[test]
fn a_form_gives_the_policy_its_names() {
    let form = form();
    let targets = normalize_targets(vec![target(
        "w",
        &[],
        &[],
        vec![rule("b", Some("")), rule("a", Some("g")), rule("b", None)],
    )]);
    assert_eq!(targets[0].rules[0].subnet_group, None);
    assert_eq!(targets[0].rules[1].subnet_group.as_deref(), Some("g"));
    assert_eq!(referenced_services(&targets), ["a", "b"]);
    assert_eq!(referenced_groups(&targets), ["g"]);

    assert!(!has_global_rules(&form));
    let rules = default_global_rules(&form);
    assert_eq!(rules.len(), 1);
    assert_eq!(rules[0].protocol, "udp");
    assert_eq!(rules[0].port_start, 33434);
    assert_eq!(rules[0].port_end, 40000);
    let mut given = form.clone();
    given.global_rules_json = Some(" [] ".to_string());
    assert!(!has_global_rules(&given));
    given.global_rules_json = Some("[1]".to_string());
    assert!(has_global_rules(&given));

    let policy = build_policy(&form, targets, rules, Vec::new(), Vec::new());
    assert_eq!(policy.filename, "filter_ingress.nft");
    assert_eq!(policy.chain_name, "ingress_eth0_1");
    let record = target_record(&policy.targets[0]);
    assert_eq!(record.name, "w");
    assert_eq!(record.rules[0].subnet_group_name, "");
    assert_eq!(record.rules[1].subnet_group_name, "g");
    let config = config_of_policy(&policy);
    assert_eq!(config.device_name, "eth0-1");
    assert_eq!(config.nft_file, "/etc/nftables/ipvlan_l2.nft");
}

#[test]
fn joined_rows_are_gathered_by_record() {
    let row = |id: i64, name: &str, item: Option<&str>, kind: Option<&str>| JoinedRow {
        id,
        name: name.to_string(),
        description: "d".to_string(),
        item: item.map(|s| s.to_string()),
        kind: kind.map(|s| s.to_string()),
    };
    let groups = list_nft_subnet_groups(&vec![
        row(2, "a", Some("10.0.0.0/8"), Some("v4")),
        row(2, "a", Some("fd00::/8"), Some("v6")),
        row(1, "b", None, None),
    ]);
    assert_eq!(groups.len(), 2);
    assert_eq!(groups[0].name, "a");
    assert_eq!(groups[0].cidrs_v4, ["10.0.0.0/8"]);
    assert_eq!(groups[0].cidrs_v6, ["fd00::/8"]);
    assert_eq!(groups[1].id, 1);
    assert!(groups[1].cidrs_v4.is_empty());
    let services = list_nft_services(&vec![
        row(1, "s", Some("80"), Some("tcp")),
        row(1, "s", Some("53"), Some("udp")),
    ]);
    assert_eq!(services.len(), 1);
    assert_eq!(services[0].tcp_ports, ["80"]);
    assert_eq!(services[0].udp_ports, ["53"]);
    assert_eq!(get_nft_subnet_groups_by_names(groups, &texts(&["b"])).len(), 1);
    assert!(get_nft_services_by_names(services, &Vec::new()).is_empty());
}
