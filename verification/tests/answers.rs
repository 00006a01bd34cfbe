use ipvlan_container_manager::db::DbDrbdResource;
use ipvlan_container_manager::inspect::podman_inspect_to_quadlet;
use ipvlan_container_manager::interfaces::{is_virtual_iface, parse_ip_addr_json};
use ipvlan_container_manager::json::{read_items, read_json, Json, ListError};
use ipvlan_container_manager::pcsd::{
    after_crm_mon, after_login, after_status, base_url, begin_node_query, cluster_name,
    host_of_url, info_url, is_unauthorized, online_nodes, pcsd_read_node_token,
    read_cluster_info, read_login_token, read_status_nodes, token_cookie, InfoError, NodeQuery,
    Reply, TokenError,
};
use ipvlan_container_manager::storage::{
    asks_linstor, db_drbd_resources, detected_backend, linstor_listing, parse_detected_units,
    read_reports, recorded_listing,
};

fn json(text: &str) -> Json {
    read_json(text).unwrap()
}

#[test]
fn every_kind_of_json_value_is_read() {
    match json("{\"b\": [null, true, 7, -7, 1.5, \"x\"], \"a\": {}}") {
        Json::Object(members) => {
            assert_eq!(members.len(), 2);
            assert_eq!(members[0].0, "a");
            assert!(matches!(&members[0].1, Json::Object(v) if v.is_empty()));
            assert_eq!(members[1].0, "b");
            match &members[1].1 {
                Json::Array(items) => {
                    assert_eq!(items.len(), 6);
                    assert!(matches!(items[0], Json::Null));
                    assert!(matches!(items[1], Json::Bool(true)));
                    assert!(matches!(items[2], Json::Number(Some(7))));
                    assert!(matches!(items[3], Json::Number(None)));
                    assert!(matches!(items[4], Json::Number(None)));
                    assert!(matches!(&items[5], Json::Text(s) if s == "x"));
                }
                _ => panic!("an array"),
            }
        }
        _ => panic!("an object"),
    }
    assert!(read_json("{").is_err());
    assert_eq!(read_items("[1, 2]").len(), 2);
    assert!(read_items("{}").is_empty());
    assert!(read_items("[").is_empty());
}

#[test]
fn interfaces_are_read_without_virtual_and_link_local_ones() {
    let text = "[{\"ifname\":\"lo\",\"addr_info\":[{\"family\":\"inet\",\"local\":\"127.0.0.1\",\"prefixlen\":8}]},
        {\"ifname\":\"eth0\",\"addr_info\":[{\"family\":\"inet\",\"local\":\"10.0.0.1\",\"prefixlen\":24},
        {\"family\":\"inet6\",\"local\":\"fe80::1\",\"prefixlen\":64},
        {\"family\":\"inet6\",\"local\":\"fd00::1\",\"prefixlen\":64},
        {\"family\":\"link\",\"local\":\"x\"}]},{\"addr_info\":[]}]";
    let found = parse_ip_addr_json("n1", text).unwrap();
    assert_eq!(found.len(), 2);
    assert_eq!(found[0].hostname, "n1");
    assert_eq!(found[0].interface, "eth0");
    assert_eq!(found[0].ip, "10.0.0.1");
    assert_eq!(found[0].prefix_len, 24);
    assert_eq!(found[0].family, "inet");
    assert_eq!(found[1].ip, "fd00::1");
    assert!(is_virtual_iface("docker0"));
    assert!(is_virtual_iface("br-lan"));
    assert!(!is_virtual_iface("bond0"));
    assert!(matches!(parse_ip_addr_json("n1", "["), Err(ListError::Syntax(_))));
    assert!(matches!(parse_ip_addr_json("n1", "{}"), Err(ListError::NotArray)));
}

#[test]
fn inspected_containers_become_units() {
    let text = "[{\"Name\":\"/web\",\"Config\":{\"Image\":\"nginx\",\"Env\":[\"A=1\",\"B=x=y\",\"C\",4]},
        \"Mounts\":[{\"Source\":\"/s\",\"Destination\":\"/d\",\"Mode\":\"ro\"},{\"Source\":\"/t\",\"Destination\":\"/e\"},{\"Source\":\"/u\"}],
        \"NetworkSettings\":{\"Ports\":{\"80/tcp\":[{\"HostPort\":\"8080\"},{\"HostPort\":\"8081\"}],\"53/udp\":null},
        \"Networks\":{\"lan\":{\"IPAddress\":\"10.0.0.5\"}}}},{\"ImageName\":\"busybox\"}]";
    let found = podman_inspect_to_quadlet(text).unwrap();
    assert_eq!(found.len(), 2);
    assert_eq!(found[0].name, "web");
    assert_eq!(found[0].image, "nginx");
    assert_eq!(found[0].environment.len(), 3);
    assert_eq!(found[0].environment[0], ("A".to_string(), "1".to_string()));
    assert_eq!(found[0].environment[1], ("B".to_string(), "x=y".to_string()));
    assert_eq!(found[0].environment[2], ("C".to_string(), String::new()));
    assert_eq!(found[0].volumes, ["/s:/d:ro", "/t:/e:rw"]);
    assert_eq!(found[0].publish_ports, ["8080:80/tcp"]);
    assert_eq!(found[0].network.as_deref(), Some("lan"));
    assert_eq!(found[0].ip.as_deref(), Some("10.0.0.5"));
    assert_eq!(found[1].name, "unknown");
    assert_eq!(found[1].image, "busybox");
    assert_eq!(found[1].network, None);
    assert_eq!(found[1].ip, None);
    assert!(matches!(podman_inspect_to_quadlet("nope"), Err(ListError::Syntax(_))));
    assert!(matches!(podman_inspect_to_quadlet("{}"), Err(ListError::NotArray)));
}

#[test]
fn a_node_token_is_found_or_the_reason_is_told() {
    let hosts = "{\"known_hosts\": {\"n1\": {\"token\": \"t1\"}, \"n2\": {\"token\": \"t2\"}}}";
    assert_eq!(pcsd_read_node_token(hosts, "n2").unwrap(), "t2");
    assert_eq!(pcsd_read_node_token(hosts, "other").unwrap(), "t1");
    assert!(matches!(pcsd_read_node_token("{", "n1"), Err(TokenError::Syntax(_))));
    assert!(matches!(pcsd_read_node_token("{}", "n1"), Err(TokenError::NoKnownHosts)));
    assert!(matches!(
        pcsd_read_node_token("{\"known_hosts\": {\"n1\": {}}}", "n1"),
        Err(TokenError::NoToken)
    ));
    assert!(matches!(
        pcsd_read_node_token("{\"known_hosts\": {}}", "n1"),
        Err(TokenError::NoToken)
    ));
}

#[test]
fn cluster_answers_are_read() {
    assert_eq!(base_url("https://n1:2224//"), "https://n1:2224");
    assert_eq!(host_of_url("https://n1:2224/"), "n1");
    assert_eq!(host_of_url("n1"), "n1");
    assert_eq!(read_login_token(&json("{\"token\":\"t\"}")), Some("t".to_string()));
    assert_eq!(read_login_token(&json("{\"token\":1}")), None);
    let nodes = read_status_nodes(&json(
        "{\"cluster_settings\":{\"nodes\":[{\"name\":\"n1\",\"addr\":\"10.0.0.1\"},{\"addr\":\"x\"},{\"name\":\"n2\"}]}}",
    ));
    assert_eq!(nodes.len(), 2);
    assert_eq!(nodes[0].hostname, "n1");
    assert_eq!(nodes[0].ip, "10.0.0.1");
    assert_eq!(nodes[1].ip, "");
    let status = json("{\"cluster_name\":\"ha\",\"corosync_online\":[\"n1\",2,\"n2\"],\"notauthorized\":\"true\"}");
    assert!(is_unauthorized(&status));
    assert!(!is_unauthorized(&json("{\"notauthorized\":true}")));
    assert_eq!(online_nodes(&status), ["n1", "n2"]);
    assert_eq!(cluster_name(&status), "ha");
    assert_eq!(cluster_name(&json("{}")), "");
}

#[test]
fn one_node_with_a_linstor_unit_decides_the_backend() {
    let hosts = vec!["n1".to_string(), "n2".to_string(), "n3".to_string()];
    let reports = vec![
        Some("{\"controller\": false, \"satellite\": false}".to_string()),
        None,
        Some("{\"satellite\": true}".to_string()),
    ];
    let per_node = read_reports(&hosts, &reports);
    assert_eq!(
        per_node,
        vec![
            ("n1".to_string(), false, false),
            ("n3".to_string(), false, true),
        ]
    );
    assert_eq!(detected_backend(&per_node), "linstor");
    assert_eq!(detected_backend(&Vec::new()), "kernel-module");
    assert_eq!(parse_detected_units("not json"), (false, false));
}

#[test]
fn listings_tell_where_the_resources_come_from() {
    let records = vec![DbDrbdResource {
        id: 1,
        resource_name: "r0".to_string(),
        protocol: "C".to_string(),
        minor: 4,
        nodes_json: "[{\"hostname\":\"n1\",\"disk_type\":\"block\"},{\"hostname\":\"n2\",\"disk_type\":\"lvm\",\"lvm_vg\":\"vg0\"}]".to_string(),
        net_options_json: "{}".to_string(),
        disk_options_json: "{}".to_string(),
        startup_options_json: "{}".to_string(),
        source: "manual".to_string(),
        created_at: String::new(),
        updated_at: String::new(),
    }];
    let recorded = db_drbd_resources(&records);
    assert_eq!(recorded.len(), 1);
    assert_eq!(recorded[0].name, "r0");
    assert_eq!(recorded[0].minor, Some(4));
    assert_eq!(recorded[0].lvm_vg, "vg0");
    assert_eq!(recorded[0].nodes, ["n1", "n2"]);
    assert_eq!(recorded[0].source, "file");
    assert!(asks_linstor("linstor"));
    assert!(!asks_linstor("kernel-module"));
    let plain = recorded_listing("kernel-module".to_string(), recorded);
    assert_eq!(plain.backend, "kernel-module");
    assert_eq!(plain.warning, None);
    let failed = linstor_listing("http://c", Err("refused".to_string()), plain.resources);
    assert_eq!(failed.backend, "linstor");
    assert_eq!(failed.resources.len(), 1);
    assert!(failed
        .warning
        .unwrap()
        .starts_with("LINSTOR 컨트롤러(http://c)에 연결하지 못했습니다: refused."));
    let answered = linstor_listing("http://c", Ok(Vec::new()), failed.resources);
    assert!(answered.resources.is_empty());
    assert_eq!(answered.warning, None);
}

fn received(success: bool, body: &str) -> Reply {
    Reply::Received {
        success,
        body: body.to_string(),
    }
}

#[test]
fn nodes_are_asked_of_the_daemon_first() {
    assert!(matches!(begin_node_query("https://n1:2224", ""), NodeQuery::CrmMon));
    match begin_node_query("https://n1:2224/", "pw") {
        NodeQuery::Login { url } => assert_eq!(url, "https://n1:2224/api/v1/auth/login"),
        _ => panic!("a login"),
    }
    match after_login("https://n1:2224/", &received(true, "{\"token\": \"t\"}")) {
        NodeQuery::Status { url, token } => {
            assert_eq!(url, "https://n1:2224/api/v1/cluster/status");
            assert_eq!(token, "t");
        }
        _ => panic!("the status"),
    }
    for reply in [
        Reply::Failed,
        received(false, "{\"token\": \"t\"}"),
        received(true, "{}"),
        received(true, "{"),
    ] {
        assert!(matches!(after_login("u", &reply), NodeQuery::CrmMon));
    }
    match after_status(&received(true, "{\"cluster_settings\":{\"nodes\":[{\"name\":\"n1\"}]}}")) {
        NodeQuery::Done(nodes) => assert_eq!(nodes.len(), 1),
        _ => panic!("the nodes"),
    }
    assert!(matches!(after_status(&Reply::Failed), NodeQuery::CrmMon));
    assert!(matches!(after_status(&received(true, "x")), NodeQuery::CrmMon));
    match after_crm_mon(&Some("<node name=\"n1\"/>".to_string())) {
        NodeQuery::Done(nodes) => assert_eq!(nodes[0].hostname, "n1"),
        _ => panic!("the nodes"),
    }
    assert!(matches!(after_crm_mon(&None), NodeQuery::Done(v) if v.is_empty()));
}

#[test]
fn a_cluster_is_described_or_the_reason_is_told() {
    assert_eq!(info_url("https://n1:2224/"), "https://n1:2224/remote/status?version=2&operations=1");
    assert_eq!(token_cookie("t"), "token=t");
    let info = read_cluster_info(true, "{\"cluster_name\":\"ha\",\"corosync_online\":[\"n1\"]}").unwrap();
    assert_eq!(info.cluster_name, "ha");
    assert_eq!(info.nodes, ["n1"]);
    assert!(matches!(read_cluster_info(false, "{}"), Err(InfoError::Status)));
    assert!(matches!(read_cluster_info(true, "{"), Err(InfoError::Syntax(_))));
    assert!(matches!(
        read_cluster_info(true, "{\"notauthorized\":\"true\"}"),
        Err(InfoError::Unauthorized)
    ));
}
