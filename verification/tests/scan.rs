use ipvlan_container_manager::address::{ip4_in_subnet, ip6_in_subnet, parse_ipv4, parse_ipv6};
use ipvlan_container_manager::db::{DbNetwork, DbNodeInterface};
use ipvlan_container_manager::res_file::{extract_kv, parse_drbd_address, parse_res_file};
use ipvlan_container_manager::scan::{
    extract_xml_attr, file_stem, find_interface_for_network, interface_updates, parse_crm_mon_xml,
    parse_network_file, parse_network_param, parse_pod_file, parse_res_for_nodes,
    parse_res_for_resource, scan_drbd_dir, scan_drbd_nodes, scan_drbd_resources,
    scan_quadlet_networks, scan_quadlet_pods, volume_of_resource,
};

const R0: &str = "resource r0 {
    protocol C;
    on n1 {
        node-id   0;
        device    /dev/drbd3;
        disk      /dev/vg0/lv_r0;
        address   10.0.0.1:7790;
        meta-disk internal;
    }
    on n2 {
        device    /dev/drbd3;
        disk      /dev/sdb1;
        address   ipv6 [fd00::2]:7791;
    }
}
";

fn files(list: &[(&str, &str)]) -> Vec<(String, String)> {
    list.iter()
        .map(|(n, c)| (n.to_string(), c.to_string()))
        .collect()
}

fn interface(name: &str, ip: &str, family: &str) -> DbNodeInterface {
    DbNodeInterface {
        id: 0,
        hostname: "n1".to_string(),
        interface: name.to_string(),
        ip: ip.to_string(),
        prefix_len: 24,
        family: family.to_string(),
        created_at: String::new(),
    }
}

fn network(name: &str, interface: &str, subnet: &str, subnet6: &str) -> DbNetwork {
    DbNetwork {
        id: 0,
        name: name.to_string(),
        driver: "ipvlan".to_string(),
        interface: interface.to_string(),
        subnet: subnet.to_string(),
        gateway: String::new(),
        subnet6: subnet6.to_string(),
        gateway6: String::new(),
        ipv6: !subnet6.is_empty(),
        ipvlan_mode: "l2".to_string(),
        source: "manual".to_string(),
        created_at: String::new(),
    }
}

#[test]
fn ipv4_addresses_are_four_decimal_octets() {
    assert_eq!(parse_ipv4("192.168.10.11"), Some(0xC0A8_0A0B));
    assert_eq!(parse_ipv4("0.0.0.0"), Some(0));
    assert_eq!(parse_ipv4("255.255.255.255"), Some(0xFFFF_FFFF));
    for bad in ["", "1.2.3", "1.2.3.4.5", "256.0.0.1", "01.2.3.4", "1..3.4", "1.2.3.4 ", "a.b.c.d"] {
        assert_eq!(parse_ipv4(bad), None, "{bad}");
    }
}

#[test]
fn ipv6_addresses_may_be_shortened() {
    assert_eq!(parse_ipv6("::"), Some(0));
    assert_eq!(parse_ipv6("::1"), Some(1));
    assert_eq!(
        parse_ipv6("2001:db8::1"),
        Some(0x2001_0db8_0000_0000_0000_0000_0000_0001)
    );
    assert_eq!(
        parse_ipv6("1:2:3:4:5:6:7:8"),
        Some(0x0001_0002_0003_0004_0005_0006_0007_0008)
    );
    assert_eq!(parse_ipv6("::ffff:1.2.3.4"), Some(0xffff_0102_0304));
    for bad in ["", ":", "1:2:3", "1:2:3:4:5:6:7:8:9", "::1::", "12345::", "fe80::1%eth0", "1.2.3.4"] {
        assert_eq!(parse_ipv6(bad), None, "{bad}");
    }
}

#[test]
fn subnets_hold_the_addresses_with_their_prefix() {
    assert!(ip4_in_subnet("192.168.1.77", "192.168.1.0/24"));
    assert!(!ip4_in_subnet("192.168.2.77", "192.168.1.0/24"));
    assert!(ip4_in_subnet("192.168.1.129", "192.168.1.128/25"));
    assert!(!ip4_in_subnet("192.168.1.127", "192.168.1.128/25"));
    assert!(ip4_in_subnet("8.8.8.8", "10.0.0.0/0"));
    assert!(ip4_in_subnet("10.0.0.1", "10.0.0.1/32"));
    assert!(!ip4_in_subnet("10.0.0.2", "10.0.0.1/32"));
    assert!(!ip4_in_subnet("10.0.0.2", "10.0.0.0"));
    assert!(!ip4_in_subnet("10.0.0.2", "10.0.0.0/x"));
    assert!(!ip4_in_subnet("10.0.0", "10.0.0.0/8"));
    assert!(ip6_in_subnet("fd00:1::5", "fd00:1::/64"));
    assert!(!ip6_in_subnet("fd00:2::5", "fd00:1::/64"));
    assert!(ip6_in_subnet("fd00:2::5", "::/0"));
    assert!(ip6_in_subnet("fd00::5", "fd00::5/128"));
    assert!(!ip6_in_subnet("10.0.0.1", "fd00::/64"));
}

#[test]
fn a_prefix_longer_than_an_address_masks_nothing() {
    assert!(ip4_in_subnet("192.168.0.1", "10.0.0.0/33"));
    assert!(ip4_in_subnet("192.168.0.1", "10.0.0.0/4294967295"));
    assert!(!ip4_in_subnet("192.168.0.1", "10.0.0.0/32"));
    assert!(!ip4_in_subnet("192.168.0.1", "10.0.0.0/4294967296"));
    assert!(!ip4_in_subnet("x", "10.0.0.0/33"));
    assert!(ip6_in_subnet("fd00::1", "fe80::/129"));
    assert!(!ip6_in_subnet("fd00::1", "fe80::/128"));
}

#[test]
fn the_first_interface_in_the_subnet_is_taken() {
    let found = vec![
        interface("eth9", "172.16.0.1", "inet"),
        interface("eth1", "10.1.0.5", "inet"),
        interface("eth2", "10.1.0.6", "inet"),
        interface("eth3", "fd00::7", "inet6"),
    ];
    let net = network("a", "", "10.1.0.0/16", "");
    assert_eq!(find_interface_for_network(&found, &net), Some("eth1".to_string()));
    let net6 = network("b", "", "", "fd00::/64");
    assert_eq!(find_interface_for_network(&found, &net6), Some("eth3".to_string()));
    let none = network("c", "", "10.9.0.0/16", "");
    assert_eq!(find_interface_for_network(&found, &none), None);

    let networks = vec![
        net,
        network("kept", "eth1", "10.1.0.0/16", ""),
        none,
        net6,
    ];
    assert_eq!(
        interface_updates(&found, &networks),
        vec![
            ("a".to_string(), "eth1".to_string()),
            ("b".to_string(), "eth3".to_string()),
        ]
    );
    assert!(interface_updates(&Vec::new(), &networks).is_empty());
}

#[test]
fn a_resource_file_is_read_into_its_parts() {
    let r = parse_res_file(R0, "/etc/drbd.d/r0.res").unwrap();
    assert_eq!(r.resource_name, "r0");
    assert_eq!(r.protocol, "C");
    assert_eq!(r.minor, 3);
    assert_eq!(r.source_file, "/etc/drbd.d/r0.res");
    assert_eq!(r.nodes.len(), 2);
    assert_eq!(r.nodes[0].hostname, "n1");
    assert_eq!(r.nodes[0].ip, "10.0.0.1");
    assert_eq!(r.nodes[0].port, 7790);
    assert_eq!(r.nodes[0].disk, "/dev/vg0/lv_r0");
    assert_eq!(r.nodes[0].disk_type, "lvm");
    assert_eq!(r.nodes[0].lvm_vg, "vg0");
    assert_eq!(r.nodes[0].lvm_size, "");
    assert_eq!(r.nodes[0].meta, "internal");
    assert_eq!(r.nodes[1].ip, "fd00::2");
    assert_eq!(r.nodes[1].port, 7791);
    assert_eq!(r.nodes[1].disk_type, "block");
    assert_eq!(r.nodes[1].lvm_vg, "");
    assert_eq!(r.nodes[1].meta, "internal");
}

#[test]
fn a_file_without_a_resource_gives_nothing() {
    assert!(parse_res_file("global { usage-count yes; }\n", "x").is_none());
    let bare = parse_res_file("resource bare {\n}\n", "x").unwrap();
    assert_eq!(bare.protocol, "C");
    assert_eq!(bare.minor, 0);
    assert!(bare.nodes.is_empty());
}

#[test]
fn addresses_lose_family_port_and_brackets() {
    assert_eq!(parse_drbd_address("address 10.0.0.1:7789;"), Some("10.0.0.1".to_string()));
    assert_eq!(parse_drbd_address("address ipv4 10.0.0.1:7789;"), Some("10.0.0.1".to_string()));
    assert_eq!(parse_drbd_address("address ipv6 [fd00::1]:7789;"), Some("fd00::1".to_string()));
    let lines = vec!["  disk   /dev/sda1 ;".to_string(), "disk /dev/sdb1;".to_string()];
    assert_eq!(extract_kv(&lines, "disk"), Some("/dev/sda1".to_string()));
    assert_eq!(extract_kv(&lines, "address"), None);
}

#[test]
fn nodes_are_taken_once_with_their_first_address() {
    let mut nodes = Vec::new();
    parse_res_for_nodes(R0, &mut nodes);
    parse_res_for_nodes("resource r1 {\n on n1 {\n address 9.9.9.9:1;\n }\n}\n", &mut nodes);
    assert_eq!(nodes.len(), 2);
    assert_eq!(nodes[0].hostname, "n1");
    assert_eq!(nodes[0].ip, "10.0.0.1");
    assert_eq!(nodes[0].ssh_user, "root");
    assert_eq!(nodes[0].source, "scanned");
    assert_eq!(nodes[1].hostname, "n2");
}

#[test]
fn a_resource_is_known_by_its_name_and_first_disk() {
    let info = parse_res_for_resource("file", R0).unwrap();
    assert_eq!(info.name, "r0");
    assert_eq!(info.disk_path, "/dev/vg0/lv_r0");
    assert_eq!(parse_res_for_resource("stem", "disk /dev/sdc;").unwrap().name, "stem");
    assert!(parse_res_for_resource("stem", "disk none;\n").is_none());
    let volume = volume_of_resource(&info);
    assert_eq!(volume.name, "r0");
    assert_eq!(volume.host_path, "/mnt/drbd/r0");
    assert_eq!(volume.description, "/dev/vg0/lv_r0");
    assert_eq!(volume.drbd_resource, "r0");
}

#[test]
fn directories_are_read_by_extension() {
    let list = files(&[("r0.res", R0), ("r0.res.bak", R0), ("global_common.conf", R0)]);
    assert_eq!(scan_drbd_nodes(&list).len(), 2);
    assert_eq!(scan_drbd_resources(&list).len(), 1);
    assert_eq!(scan_drbd_dir(&list).len(), 1);
    assert_eq!(file_stem("a.b.res", "res"), Some("a.b"));
    assert_eq!(file_stem(".res", "res"), None);
    assert_eq!(file_stem("res", "res"), None);
}

#[test]
fn a_network_file_is_read_into_a_record() {
    let net = parse_network_file(
        "lan",
        "[Network]\nDriver=ipvlan\nSubnet=10.0.0.0/24\nGateway=10.0.0.1\nSubnet=fd00::/64\nGateway=fd00::1\nOptions=parent=eth0\nOptions=mode=l3\nIPV6=TRUE\n",
    )
    .unwrap();
    assert_eq!(net.name, "lan");
    assert_eq!(net.driver, "ipvlan");
    assert_eq!(net.interface, "eth0");
    assert_eq!(net.subnet, "10.0.0.0/24");
    assert_eq!(net.gateway, "10.0.0.1");
    assert_eq!(net.subnet6, "fd00::/64");
    assert_eq!(net.gateway6, "fd00::1");
    assert!(net.ipv6);
    assert_eq!(net.ipvlan_mode, "l3");
    assert_eq!(net.source, "scanned");
    assert!(parse_network_file("lan", "[Network]\nSubnet=10.0.0.0/24\n").is_none());
    let plain = parse_network_file("lan", "Driver=bridge\n").unwrap();
    assert!(!plain.ipv6);
    assert_eq!(plain.ipvlan_mode, "l2");
    let list = files(&[("lan.network", "Driver=bridge\n"), ("x.network", "none\n"), ("p.pod", "")]);
    assert_eq!(scan_quadlet_networks(&list).len(), 1);
}

#[test]
fn a_pod_file_is_read_with_its_networks() {
    let pod = parse_pod_file(
        "web",
        "[Pod]\nPodName=site\nNetwork=lan.network:ip=10.0.0.5:ip6=fd00::5\nNetwork=dmz.network\n",
    );
    assert_eq!(pod.name, "site");
    assert_eq!(pod.networks.len(), 2);
    assert_eq!(pod.networks[0].network, "lan");
    assert_eq!(pod.networks[0].ip.as_deref(), Some("10.0.0.5"));
    assert_eq!(pod.networks[0].ip6.as_deref(), Some("fd00::5"));
    assert_eq!(pod.networks[1].network, "dmz");
    assert_eq!(pod.networks[1].ip, None);
    assert_eq!(parse_pod_file("web", "").name, "web");
    assert_eq!(parse_network_param("lan").network, "lan");
    let list = files(&[("web.pod", ""), ("lan.network", "")]);
    assert_eq!(scan_quadlet_pods(&list).len(), 1);
}

#[test]
fn crm_mon_names_the_nodes() {
    let xml = "<pacemaker-result>\n  <nodes>\n    <node name=\"n1\" id=\"1\"/>\n    <node id=\"2\" name=\"n2\">\n    <node id=\"3\"/>\n  </nodes>\n  <resource name=\"x\"/>\n";
    let nodes = parse_crm_mon_xml(xml);
    assert_eq!(nodes.len(), 2);
    assert_eq!(nodes[0].hostname, "n1");
    assert_eq!(nodes[0].ip, "");
    assert_eq!(nodes[1].hostname, "n2");
    assert_eq!(extract_xml_attr("<a b=\"c\">", "b"), Some("c".to_string()));
    assert_eq!(extract_xml_attr("<a b=\"c>", "b"), None);
    assert_eq!(extract_xml_attr("<a>", "b"), None);
}
