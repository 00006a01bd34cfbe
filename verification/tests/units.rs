use ipvlan_container_manager::db::DbNetwork;
use ipvlan_container_manager::generators::quadlet::{
    generate_all_units, generate_container_unit, generate_network_unit, generate_pod_unit,
    generate_volume_unit,
};
use ipvlan_container_manager::generators::quadlet_playbook::{
    build_volume_ansible_playbook, normalize_ansible_hosts, or_default, sanitize_var,
};
use ipvlan_container_manager::models::quadlet::{
    PodNetworkEntry, QuadletConfig, QuadletContainer, QuadletNetwork, QuadletPod, QuadletVolume,
};
use ipvlan_container_manager::routes::container::{
    container_config, container_result, inspect_files, ContainerFullForm,
};
use ipvlan_container_manager::routes::quadlet::{
    build_pod_config, generate_quadlet_ansible_playbook, quadlet_result, QuadletFullForm,
};
use ipvlan_container_manager::scan::{parse_network_file, parse_network_param, parse_pod_file};

fn network(name: &str, interface: &str) -> QuadletNetwork {
    QuadletNetwork {
        name: name.to_string(),
        driver: "ipvlan".to_string(),
        interface: interface.to_string(),
        subnet: "10.0.0.0/24".to_string(),
        gateway: "10.0.0.1".to_string(),
        subnet6: String::new(),
        gateway6: String::new(),
        ipv6: false,
        ipvlan_mode: "l2".to_string(),
        internal: false,
        options: Vec::new(),
    }
}

fn entry(network: &str, ip: &str, ip6: &str) -> PodNetworkEntry {
    let given = |s: &str| if s.is_empty() { None } else { Some(s.to_string()) };
    PodNetworkEntry {
        network: network.to_string(),
        ip: given(ip),
        ip6: given(ip6),
        gateway: None,
        gateway6: None,
    }
}

fn empty_form() -> QuadletFullForm {
    QuadletFullForm {
        net_driver: None,
        net_interface: None,
        net_subnet: None,
        net_gateway: None,
        net_subnet6: None,
        net_gateway6: None,
        net_ipvlan_mode: None,
        pod_name: None,
        pod_description: None,
        pod_hostname: None,
        pod_shm_size: None,
        pod_networks_json: None,
        ansible_hosts: None,
        ansible_user: None,
        ansible_ssh_key: None,
    }
}

#[test]
fn a_volume_unit_lists_its_options() {
    let volume = QuadletVolume {
        name: "data".to_string(),
        driver: "local".to_string(),
        options: vec![
            "type=nfs".to_string(),
            "device=server:/export".to_string(),
            "o=ro".to_string(),
        ],
        labels: vec!["app=x".to_string()],
    };
    assert_eq!(
        generate_volume_unit(&volume),
        "[Unit]\nDescription=Volume data\n\n[Volume]\nVolumeName=data\nDriver=local\nType=nfs\nDevice=server:/export\nOptions=o=ro\nLabel=app=x\n\n[Install]\nWantedBy=multi-user.target\n"
    );
}

#[test]
fn a_volume_type_is_recognized_in_any_case() {
    let volume = QuadletVolume {
        name: "data".to_string(),
        driver: String::new(),
        options: vec!["TYPE=nfs".to_string()],
        labels: Vec::new(),
    };
    assert_eq!(
        generate_volume_unit(&volume),
        "[Unit]\nDescription=Volume data\n\n[Volume]\nVolumeName=data\nOptions=TYPE=nfs\n\n[Install]\nWantedBy=multi-user.target\n"
    );
}

#[test]
fn a_network_unit_names_its_subnets_and_parent() {
    assert_eq!(
        generate_network_unit(&network("lan", "eth0")),
        "[Network]\nDriver=ipvlan\nSubnet=10.0.0.0/24\nGateway=10.0.0.1\nIPv6=no\nOptions=parent=eth0\nOptions=mode=l2\n"
    );
    let mut dual = network("lan", "eth0");
    dual.subnet6 = "fd00::/64".to_string();
    dual.gateway6 = "fd00::1".to_string();
    dual.options = vec!["mtu=9000".to_string()];
    assert_eq!(
        generate_network_unit(&dual),
        "[Network]\nDriver=ipvlan\nSubnet=10.0.0.0/24\nGateway=10.0.0.1\nSubnet=fd00::/64\nGateway=fd00::1\nIPv6=true\nOptions=parent=eth0\nOptions=mode=l2\nOptions=mtu=9000\n"
    );
}

#[test]
fn written_networks_are_read_back() {
    let mut net = network("lan", "eth0");
    net.subnet6 = "fd00::/64".to_string();
    net.gateway6 = "fd00::1".to_string();
    let record = parse_network_file("lan", &generate_network_unit(&net)).unwrap();
    assert_eq!(record.driver, net.driver);
    assert_eq!(record.interface, net.interface);
    assert_eq!(record.subnet, net.subnet);
    assert_eq!(record.gateway, net.gateway);
    assert_eq!(record.subnet6, net.subnet6);
    assert_eq!(record.gateway6, net.gateway6);
    assert_eq!(record.ipvlan_mode, net.ipvlan_mode);
    assert!(record.ipv6);
}

#[test]
fn written_pods_are_read_back() {
    let pod = QuadletPod {
        name: "web".to_string(),
        description: Some("Site".to_string()),
        hostname: Some("web".to_string()),
        shm_size: None,
        networks: vec![entry("lan", "10.0.0.5", "fd00::5"), entry("dmz", "", "")],
        labels: Vec::new(),
    };
    let unit = generate_pod_unit(&pod);
    let read = parse_pod_file("other", &unit);
    assert_eq!(read.name, "web");
    assert_eq!(read.networks.len(), 2);
    assert_eq!(read.networks[0].network, "lan");
    assert_eq!(read.networks[0].ip.as_deref(), Some("10.0.0.5"));
    assert_eq!(read.networks[0].ip6.as_deref(), Some("fd00::5"));
    assert_eq!(read.networks[1].network, "dmz");
    assert_eq!(read.networks[1].ip, None);
    let param = parse_network_param("lan.network:ip=10.0.0.5");
    assert_eq!(param.network, "lan");
    assert_eq!(param.ip.as_deref(), Some("10.0.0.5"));
}

#[test]
fn a_container_unit_names_image_pod_and_options() {
    let container = QuadletContainer {
        name: "web".to_string(),
        image: "nginx".to_string(),
        pod: Some("site".to_string()),
        network: Some("lan".to_string()),
        environment: vec![("A".to_string(), "1".to_string())],
        volumes: vec!["data:/data:z".to_string()],
        publish_ports: vec!["80:80".to_string()],
        exec_command: Some("run".to_string()),
        user: Some("1000".to_string()),
        labels: vec!["l=1".to_string()],
        extra_args: vec!["--x".to_string()],
        depends_on: vec!["site".to_string(), "db".to_string()],
        ..QuadletContainer::default()
    };
    assert_eq!(
        generate_container_unit(&container),
        "[Unit]\nAfter=site.pod\nRequires=site.pod\nAfter=db.service\nRequires=db.service\n\n[Container]\nContainerName=web\nImage=nginx\nPod=site.pod\nEnvironment=A=1\nVolume=data:/data:z\nExec=run\nUser=1000\nLabel=l=1\nPodmanArgs=--x\n\n[Service]\nRestart=no\nTimeoutStartSec=0\n"
    );
    let alone = QuadletContainer {
        name: "web".to_string(),
        image: "nginx".to_string(),
        network: Some("lan".to_string()),
        ip: Some("10.0.0.9".to_string()),
        publish_ports: vec!["80:80".to_string()],
        ..QuadletContainer::default()
    };
    assert_eq!(
        generate_container_unit(&alone),
        "[Container]\nContainerName=web\nImage=nginx\nNetwork=lan.network\nIP=10.0.0.9\nPublishPort=80:80\n\n[Service]\nRestart=no\nTimeoutStartSec=0\n"
    );
}

#[test]
fn units_are_listed_by_kind() {
    let mut config = QuadletConfig::new();
    config.containers.push(QuadletContainer {
        name: "c".to_string(),
        ..QuadletContainer::default()
    });
    config.networks.push(network("n", "eth0"));
    config.volumes.push(QuadletVolume {
        name: "v".to_string(),
        driver: String::new(),
        options: Vec::new(),
        labels: Vec::new(),
    });
    let names: Vec<String> = generate_all_units(&config).into_iter().map(|f| f.0).collect();
    assert_eq!(names, ["v.volume", "n.network", "c.container"]);
}

#[test]
fn host_patterns_hold_no_space() {
    assert_eq!(normalize_ansible_hosts(Some(" n1\nn2, n3 ,,")), "n1,n2,n3");
    assert_eq!(normalize_ansible_hosts(Some("  ")), "all");
    assert_eq!(normalize_ansible_hosts(None), "all");
    assert_eq!(or_default(Some(" x "), "d"), "x");
    assert_eq!(or_default(Some(" "), "d"), "d");
    assert_eq!(or_default(None, "d"), "d");
    assert_eq!(sanitize_var("lan-1.é"), "lan_1_é");
}

#[test]
fn a_missing_parent_is_found_before_it_is_used() {
    let mut config = QuadletConfig::new();
    config.networks.push(network("lan-1", ""));
    let files = generate_all_units(&config);
    let playbook = generate_quadlet_ansible_playbook(&config, &files, &empty_form());
    assert_eq!(
        playbook,
        "---\n- name: Quadlet 유닛 배포\n  hosts: all\n  remote_user: root\n  become: yes\n  vars:\n    ansible_ssh_private_key_file: ~/.ssh/id_rsa\n  tasks:\n    - name: Quadlet 디렉토리 생성\n      file:\n        path: /etc/containers/systemd\n        state: directory\n        mode: '0755'\n\n    - name: lan-1 부모 인터페이스 감지\n      shell: ip route show to match 10.0.0.0/24 | grep -oP 'dev \\K\\S+' | head -1\n      register: _piface_lan_1\n      changed_when: false\n      failed_when: false\n\n    - name: lan-1.network 배포\n      copy:\n        dest: /etc/containers/systemd/lan-1.network\n        content: |\n          [Network]\n          Driver=ipvlan\n          Subnet=10.0.0.0/24\n          Gateway=10.0.0.1\n          IPv6=no\n          Options=parent={{ _piface_lan_1.stdout | trim }}\n          Options=mode=l2\n\n    - name: systemd 데몬 리로드\n      systemd:\n        daemon_reload: yes"
    );
}

#[test]
fn volumes_are_deployed_with_a_mode() {
    let files = vec![("a.volume".to_string(), "[Volume]\nX=1\n".to_string())];
    assert_eq!(
        build_volume_ansible_playbook(&files),
        "---\n- name: Quadlet Volume 유닛 배포\n  hosts: all\n  become: yes\n  tasks:\n    - name: Quadlet 디렉토리 생성\n      file:\n        path: /etc/containers/systemd\n        state: directory\n        mode: '0755'\n\n    - name: a.volume 배포\n      copy:\n        dest: /etc/containers/systemd/a.volume\n        content: |\n          [Volume]\n          X=1\n        mode: '0644'\n\n    - name: systemd 데몬 리로드\n      systemd:\n        daemon_reload: yes"
    );
}

#[test]
fn a_pod_takes_its_networks_from_the_pool_or_the_form() {
    let mut form = empty_form();
    form.pod_name = Some(" web ".to_string());
    form.pod_description = Some("  ".to_string());
    form.net_subnet = Some("10.9.0.0/24".to_string());
    form.net_subnet6 = Some("fd09::/64".to_string());
    let entries = vec![
        entry("lan", "10.0.0.5", ""),
        entry("lan", "10.0.0.6", ""),
        entry("", "", ""),
        entry("new", "", ""),
    ];
    let known = DbNetwork {
        id: 1,
        name: "lan".to_string(),
        driver: "macvlan".to_string(),
        interface: "eth7".to_string(),
        subnet: "10.0.0.0/24".to_string(),
        gateway: "10.0.0.1".to_string(),
        subnet6: String::new(),
        gateway6: String::new(),
        ipv6: false,
        ipvlan_mode: "bridge".to_string(),
        source: "manual".to_string(),
        created_at: String::new(),
    };
    let found = vec![Some(known.clone()), Some(known), None, None];
    let config = build_pod_config(&form, &entries, &found);
    assert_eq!(config.networks.len(), 2);
    assert_eq!(config.networks[0].name, "lan");
    assert_eq!(config.networks[0].driver, "macvlan");
    assert_eq!(config.networks[1].name, "new");
    assert_eq!(config.networks[1].driver, "ipvlan");
    assert_eq!(config.networks[1].subnet, "10.9.0.0/24");
    assert_eq!(config.networks[1].ipvlan_mode, "l2");
    assert!(config.networks[1].ipv6);
    assert_eq!(config.pods.len(), 1);
    assert_eq!(config.pods[0].name, "web");
    assert_eq!(config.pods[0].description, None);
    assert_eq!(config.pods[0].networks.len(), 4);
    assert_eq!(config.pods[0].networks[0].gateway.as_deref(), Some("10.0.0.1"));
    assert_eq!(config.pods[0].networks[1].gateway, None);
    let result = quadlet_result(&config, &form);
    let names: Vec<&str> = result.files.iter().map(|f| f.0.as_str()).collect();
    assert_eq!(names, ["lan.network", "new.network", "web.pod"]);
    assert!(result.ansible_playbook.starts_with("---\n- name: Quadlet 유닛 배포\n"));

    form.pod_name = Some("  ".to_string());
    assert!(build_pod_config(&form, &Vec::new(), &Vec::new()).pods.is_empty());
}

#[test]
fn containers_join_the_named_pod() {
    let form = ContainerFullForm {
        containers_json: None,
        pod_name: Some("site".to_string()),
        ansible_hosts: Some("n1 n2".to_string()),
        ansible_user: None,
        ansible_ssh_key: None,
    };
    let own = QuadletContainer {
        name: "a".to_string(),
        pod: Some("own".to_string()),
        ..QuadletContainer::default()
    };
    let free = QuadletContainer {
        name: "b".to_string(),
        ..QuadletContainer::default()
    };
    let config = container_config(vec![own, free.clone()], &form);
    assert_eq!(config.containers[0].pod.as_deref(), Some("own"));
    assert_eq!(config.containers[1].pod.as_deref(), Some("site"));
    let result = container_result(&config, &form);
    assert_eq!(result.files.len(), 2);
    assert!(result.ansible_playbook.contains("  hosts: n1,n2\n"));
    let files = inspect_files(vec![free]);
    assert_eq!(files[0].0, "b.container");
    assert!(!files[0].1.contains("Pod="));
}
