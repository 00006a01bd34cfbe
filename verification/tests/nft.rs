use ipvlan_container_manager::generators::nft::{generate_nft_ansible_playbook, generate_nft_policy};
use ipvlan_container_manager::models::nft::NftPolicy;

fn sample_policy() -> NftPolicy {
    NftPolicy {
        filename: "filter_ingress.nft".to_string(),
        table_name: "filter_ingress".to_string(),
        device_name: "eth0".to_string(),
        chain_name: "ingress_eth0".to_string(),
        traceroute_start: 33434,
        traceroute_end: 65535,
        global_rules: Vec::new(),
        targets: Vec::new(),
        subnet_groups: Vec::new(),
        services: Vec::new(),
    }
}

#[test]
fn established_and_dns_bypass_immediately_follow_chain_header() {
    let out = generate_nft_policy(&sample_policy());
    let header_pos = out
        .find("type filter hook ingress")
        .expect("chain header missing");
    let ack_rst_pos = out
        .find("tcp flags & (ack | rst) != 0 accept")
        .expect("established bypass missing");
    let dns_pos = out
        .find("udp sport 53 accept")
        .expect("dns bypass missing");
    assert!(ack_rst_pos > header_pos);
    assert!(dns_pos > ack_rst_pos);
}

#[test]
fn ansible_playbook_uses_given_hosts_user_key_and_r99_paths() {
    let playbook = generate_nft_ansible_playbook(
        &sample_policy(),
        "container_service",
        "deploy",
        "~/.ssh/deploy_key",
    );
    assert!(playbook.contains("hosts: container_service"));
    assert!(playbook.contains("remote_user: deploy"));
    assert!(playbook.contains("ansible_ssh_private_key_file: ~/.ssh/deploy_key"));
    assert!(playbook.contains("dest: /etc/nftables/ipvlan_l2.nft"));
    assert!(playbook.contains("include \"/etc/nftables/ipvlan_l2.nft\""));
    assert!(playbook.contains("backup: yes"));
    assert!(playbook.contains("notify: restart nftables service"));
    assert!(playbook.contains("name: restart nftables service"));
}

#[test]
fn ansible_playbook_falls_back_to_defaults_when_inputs_empty() {
    let playbook = generate_nft_ansible_playbook(&sample_policy(), "", "", "");
    assert!(playbook.contains("hosts: all"));
    assert!(playbook.contains("remote_user: root"));
    assert!(playbook.contains("ansible_ssh_private_key_file: ~/.ssh/id_rsa"));
}
