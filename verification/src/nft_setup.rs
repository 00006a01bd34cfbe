//! Setting up and scanning the nftables policy file of the nodes.

use crate::db::{DbAnsibleProfile, DbNftGlobalConfig, DbNode, NftGlobalModel};
use crate::lines::{
    add_line, copy_lines, entry, flat, lemma_flat_take, lemma_views_push, push_when, wrap,
    wrap_entry,
};
use crate::models::nft::{NftSubnetGroup, SubnetGroupModel};
use crate::nft_scanner::{NamedAddrs, ParsedNft, parse_nft_file, says};
use crate::number::{decimal, flag, flag_text, push_number};
use crate::res_file::or_text;
use crate::routes::drbd::given_or;
use crate::routes::nodes::referred;
use crate::routes::quadlet::copy_opt;
use crate::text::{given, opt_view, same, views};
use vstd::prelude::*;
use vstd::string::*;

verus! {

/// What scanning the policy file has given.
#[derive(Debug, Clone)]
pub struct NftScanResult {
    pub file_existed: bool,
    pub groups_updated: usize,
    pub services_updated: usize,
    pub targets_updated: usize,
    pub ansible_output: Option<String>,
    pub message: String,
}

// ---------------------------------------------------------------------------
// Creating the file
// ---------------------------------------------------------------------------

pub const SETUP_HEAD: &'static str = "---
- name: nftables ipvlan_l2 설정 초기화
";

pub const SETUP_DIRECTORY: &'static str = "
  tasks:
    - name: /etc/nftables 디렉토리 생성
      file:
        path: /etc/nftables
        state: directory
        mode: '0750'

    - name: ipvlan_l2.nft 파일 생성 (없으면)
      copy:
        dest: \"";

pub const SETUP_INCLUSION: &'static str = "\"
        content: |
          # nftables ipvlan L2 방화벽 규칙
          # HA Container Manager에서 자동 관리됩니다
        mode: '0640'
        force: no

    - name: /etc/sysconfig/nftables.conf에 include 추가
      lineinfile:
        path: /etc/sysconfig/nftables.conf
        line: 'include \"";

pub const SETUP_TAIL: &'static str = "\"'
        create: yes
        state: present
";

/// The hosts that the file is created on: the known nodes, where there is a profile to log
/// in with, or else this host.
pub open spec fn setup_hosts(remote: bool) -> Seq<char> {
    if remote {
        "  hosts: all\n"@
    } else {
        "  hosts: localhost\n  connection: local\n"@
    }
}

/// Whether the file is created on other hosts.
pub open spec fn is_remote(profile: Option<DbAnsibleProfile>, nodes: Seq<DbNode>) -> bool {
    profile is Some && nodes.len() > 0
}

/// The playbook that creates the policy file where it is missing.
pub open spec fn setup_playbook(
    profile: Option<DbAnsibleProfile>,
    nodes: Seq<DbNode>,
    nft_file: Seq<char>,
) -> Seq<char> {
    SETUP_HEAD@ + setup_hosts(is_remote(profile, nodes)) + "  become: "@ + flag(
        match profile {
            Some(p) => p.do_become,
            None => true,
        },
    ) + SETUP_DIRECTORY@ + nft_file + SETUP_INCLUSION@ + nft_file + SETUP_TAIL@
}

/// The playbook that creates the policy file where it is missing.
pub fn write_setup_playbook(
    profile: Option<&DbAnsibleProfile>,
    nodes: &Vec<DbNode>,
    nft_file: &str,
) -> (r: String)
    ensures
        r@ == setup_playbook(referred(profile), nodes@, nft_file@),
{
    let remote = profile.is_some() && nodes.len() > 0;
    let do_become = match profile {
        Some(p) => p.do_become,
        None => true,
    };
    let mut out = SETUP_HEAD.to_owned();
    if remote {
        out.push_str("  hosts: all\n");
    } else {
        out.push_str("  hosts: localhost\n  connection: local\n");
    }
    out.push_str("  become: ");
    out.push_str(flag_text(do_become));
    out.push_str(SETUP_DIRECTORY);
    out.push_str(nft_file);
    out.push_str(SETUP_INCLUSION);
    out.push_str(nft_file);
    out.push_str(SETUP_TAIL);
    out
}

pub open spec fn setup_host() -> spec_fn(DbNode) -> Seq<char> {
    |n: DbNode| "    "@ + n.hostname@ + ":\n      ansible_host: "@ + n.ip@ + "\n"@
}

/// How a profile logs in: with its key, or else with its password.
pub open spec fn setup_login(p: DbAnsibleProfile) -> Seq<char> {
    if p.auth_method@ == "key"@ && p.ssh_key@.len() > 0 {
        "    ansible_ssh_private_key_file: "@ + p.ssh_key@ + "\n"@
    } else {
        entry(p.ssh_password@, "    ansible_ssh_pass: "@, "\n"@)
    }
}

/// The inventory of the nodes, with the login of a profile.
pub open spec fn setup_inventory(p: DbAnsibleProfile, nodes: Seq<DbNode>) -> Seq<char> {
    "all:\n  hosts:\n"@ + flat(nodes, setup_host()) + "  vars:\n    ansible_user: "@ + p.ssh_user@
        + "\n"@ + setup_login(p) + given(
        p.do_become,
        "    ansible_become: true\n"@ + entry(
            p.become_method@,
            "    ansible_become_method: "@,
            "\n"@,
        ) + entry(p.become_password@, "    ansible_become_password: "@, "\n"@),
    )
}

/// The inventory of the nodes, with the login of a profile.
pub fn write_setup_inventory(p: &DbAnsibleProfile, nodes: &Vec<DbNode>) -> (r: String)
    ensures
        r@ == setup_inventory(*p, nodes@),
{
    let mut hosts = String::new();
    let mut i: usize = 0;
    while i < nodes.len()
        invariant
            i <= nodes.len(),
            hosts@ == flat(nodes@.take(i as int), setup_host()),
        decreases nodes.len() - i,
    {
        proof {
            lemma_flat_take(nodes@, setup_host(), i as int);
        }
        let mut host = "    ".to_owned();
        host.push_str(nodes[i].hostname.as_str());
        host.push_str(":\n      ansible_host: ");
        host.push_str(nodes[i].ip.as_str());
        host.push_str("\n");
        hosts.push_str(host.as_str());
        i += 1;
    }
    assert(nodes@.take(i as int) =~= nodes@);
    let login = if same(p.auth_method.as_str(), "key") && p.ssh_key.as_str().unicode_len() > 0 {
        wrap("    ansible_ssh_private_key_file: ", p.ssh_key.as_str(), "\n")
    } else {
        wrap_entry(p.ssh_password.as_str(), "    ansible_ssh_pass: ", "\n")
    };
    let mut become_vars = "    ansible_become: true\n".to_owned();
    become_vars.push_str(
        wrap_entry(p.become_method.as_str(), "    ansible_become_method: ", "\n").as_str(),
    );
    become_vars.push_str(
        wrap_entry(p.become_password.as_str(), "    ansible_become_password: ", "\n").as_str(),
    );
    let mut out = "all:\n  hosts:\n".to_owned();
    out.push_str(hosts.as_str());
    out.push_str("  vars:\n    ansible_user: ");
    out.push_str(p.ssh_user.as_str());
    out.push_str("\n");
    out.push_str(login.as_str());
    push_when(&mut out, p.do_become, become_vars.as_str());
    out
}

/// What Ansible is called with: the inventory of the nodes, or else this host.
pub open spec fn setup_args(
    remote: bool,
    inventory_path: Seq<char>,
    playbook_path: Seq<char>,
) -> Seq<Seq<char>> {
    if remote {
        seq!["-i"@, inventory_path, playbook_path]
    } else {
        seq!["-c"@, "local"@, "-i"@, "localhost,"@, playbook_path]
    }
}

/// What Ansible is called with.
pub fn write_setup_args(remote: bool, inventory_path: &str, playbook_path: &str) -> (r: Vec<String>)
    ensures
        views(r@) == setup_args(remote, inventory_path@, playbook_path@),
{
    let mut out: Vec<String> = Vec::new();
    assert(views(out@) =~= Seq::<Seq<char>>::empty());
    if remote {
        add_line(&mut out, "-i");
        add_line(&mut out, inventory_path);
    } else {
        add_line(&mut out, "-c");
        add_line(&mut out, "local");
        add_line(&mut out, "-i");
        add_line(&mut out, "localhost,");
    }
    add_line(&mut out, playbook_path);
    out
}

/// What Ansible has printed, on both its outputs.
pub open spec fn combined_output(stdout: Seq<char>, stderr: Seq<char>) -> Seq<char> {
    if stderr.len() == 0 {
        stdout
    } else {
        stdout + "\nSTDERR:\n"@ + stderr
    }
}

/// What Ansible has printed, on both its outputs.
pub fn combine_output(stdout: String, stderr: &str) -> (r: String)
    ensures
        r@ == combined_output(stdout@, stderr@),
{
    let mut out = stdout;
    if stderr.unicode_len() > 0 {
        out.push_str("\nSTDERR:\n");
        out.push_str(stderr);
    }
    out
}

// ---------------------------------------------------------------------------
// The course of a scan
// ---------------------------------------------------------------------------

/// How far a scan has come.
#[derive(Debug, Clone)]
pub struct ScanState {
    pub nft_file: String,
    pub file_existed: bool,
    pub ansible_output: Option<String>,
}

/// What a scan does next.
#[derive(Debug, Clone)]
pub enum ScanAction {
    /// Create the file, with the playbook.
    RunAnsible,
    /// Read the file.
    ReadFile,
    /// Store what the file says.
    Update(ParsedNft),
    /// Report.
    Done(NftScanResult),
}

/// How the run of the playbook has ended.
#[derive(Debug, Clone)]
pub enum AnsibleOutcome {
    Finished { success: bool, stdout: String, stderr: String },
    /// It could not be started.
    NotStarted { error: String },
}

/// Whether a result reports that nothing was updated.
pub open spec fn reports_nothing(
    r: NftScanResult,
    existed: bool,
    output: Option<Seq<char>>,
    message: Seq<char>,
) -> bool {
    &&& r.file_existed == existed
    &&& r.groups_updated == 0
    &&& r.services_updated == 0
    &&& r.targets_updated == 0
    &&& opt_view(r.ansible_output) == output
    &&& r.message@ == message
}

fn report_nothing(file_existed: bool, ansible_output: Option<String>, message: String) -> (r:
    NftScanResult)
    ensures
        reports_nothing(r, file_existed, opt_view(ansible_output), message@),
{
    NftScanResult {
        file_existed,
        groups_updated: 0,
        services_updated: 0,
        targets_updated: 0,
        ansible_output,
        message,
    }
}

/// A scan starts by reading the file, or by creating it where it is missing.
pub fn begin_scan(nft_file: &str, file_exists: bool) -> (r: (ScanState, ScanAction))
    ensures
        r.0.nft_file@ == nft_file@,
        r.0.file_existed == file_exists,
        r.0.ansible_output is None,
        r.1 == (if file_exists {
            ScanAction::ReadFile
        } else {
            ScanAction::RunAnsible
        }),
{
    let state = ScanState {
        nft_file: nft_file.to_owned(),
        file_existed: file_exists,
        ansible_output: None,
    };
    let action = if file_exists {
        ScanAction::ReadFile
    } else {
        ScanAction::RunAnsible
    };
    (state, action)
}

/// Once the playbook has run, the file is read; where the playbook failed or was not run,
/// that is reported.
pub fn after_ansible(state: ScanState, outcome: AnsibleOutcome) -> (r: (ScanState, ScanAction))
    ensures
        r.0.nft_file == state.nft_file,
        r.0.file_existed == state.file_existed,
        match outcome {
            AnsibleOutcome::Finished { success, stdout, stderr } => {
                &&& opt_view(r.0.ansible_output) == Some(combined_output(stdout@, stderr@))
                &&& success ==> r.1 == ScanAction::ReadFile
                &&& !success ==> (r.1 matches ScanAction::Done(d) && reports_nothing(
                    d,
                    false,
                    Some(combined_output(stdout@, stderr@)),
                    "Ansible 실행 실패 - 파일이 생성되지 않았을 수 있습니다"@,
                ))
            },
            AnsibleOutcome::NotStarted { error } => {
                &&& opt_view(r.0.ansible_output) == Some("ansible-playbook 실행 오류: "@ + error@)
                &&& (r.1 matches ScanAction::Done(d) && reports_nothing(
                    d,
                    false,
                    Some("ansible-playbook 실행 오류: "@ + error@),
                    "Ansible 실행 실패: "@ + error@,
                ))
            },
        },
{
    match outcome {
        AnsibleOutcome::Finished { success, stdout, stderr } => {
            let output = combine_output(stdout, stderr.as_str());
            let action = if success {
                ScanAction::ReadFile
            } else {
                ScanAction::Done(
                    report_nothing(
                        false,
                        Some(output.clone()),
                        "Ansible 실행 실패 - 파일이 생성되지 않았을 수 있습니다".to_owned(),
                    ),
                )
            };
            (ScanState { ansible_output: Some(output), ..state }, action)
        },
        AnsibleOutcome::NotStarted { error } => {
            let mut output = "ansible-playbook 실행 오류: ".to_owned();
            output.push_str(error.as_str());
            let mut message = "Ansible 실행 실패: ".to_owned();
            message.push_str(error.as_str());
            let action = ScanAction::Done(report_nothing(false, Some(output.clone()), message));
            (ScanState { ansible_output: Some(output), ..state }, action)
        },
    }
}

/// Once the file is read, what it says is stored; where it cannot be read, that is
/// reported.
pub fn after_read(state: &ScanState, content: Result<String, String>) -> (r: ScanAction)
    ensures
        match content {
            Ok(text) => r matches ScanAction::Update(p) && says(p, text@),
            Err(error) => r matches ScanAction::Done(d) && reports_nothing(
                d,
                state.file_existed,
                opt_view(state.ansible_output),
                "파일 읽기 실패 "@ + state.nft_file@ + ": "@ + error@,
            ),
        },
{
    match content {
        Ok(text) => ScanAction::Update(parse_nft_file(text.as_str())),
        Err(error) => {
            let mut message = "파일 읽기 실패 ".to_owned();
            message.push_str(state.nft_file.as_str());
            message.push_str(": ");
            message.push_str(error.as_str());
            ScanAction::Done(
                report_nothing(state.file_existed, copy_opt(&state.ansible_output), message),
            )
        },
    }
}

// ---------------------------------------------------------------------------
// What a scan changes
// ---------------------------------------------------------------------------

/// An optional number, `default` where there is none.
pub open spec fn or_number(o: Option<u16>, default: u16) -> nat {
    match o {
        Some(n) => n as nat,
        None => default as nat,
    }
}

/// The settings after a scan: what the file says, and what was on record for the rest.
pub open spec fn merged_config(
    parsed: ParsedNft,
    current: DbNftGlobalConfig,
    nft_file: Seq<char>,
) -> NftGlobalModel {
    NftGlobalModel {
        table_name: or_text(opt_view(parsed.table_name), current.table_name@),
        device_name: or_text(opt_view(parsed.device_name), current.device_name@),
        chain_name: or_text(opt_view(parsed.chain_name), current.chain_name@),
        traceroute_start: or_number(parsed.traceroute_start, current.traceroute_start),
        traceroute_end: or_number(parsed.traceroute_end, current.traceroute_end),
        nft_file,
        updated_at: ""@,
    }
}

/// The settings where none are on record.
pub fn default_nft_config(nft_file: &str) -> (r: DbNftGlobalConfig)
    ensures
        r@ == (NftGlobalModel {
            table_name: "filter_ingress"@,
            device_name: "eth0"@,
            chain_name: ""@,
            traceroute_start: 33434,
            traceroute_end: 65535,
            nft_file: nft_file@,
            updated_at: ""@,
        }),
{
    DbNftGlobalConfig {
        table_name: "filter_ingress".to_owned(),
        device_name: "eth0".to_owned(),
        chain_name: "".to_owned(),
        traceroute_start: 33434,
        traceroute_end: 65535,
        nft_file: nft_file.to_owned(),
        updated_at: "".to_owned(),
    }
}

/// The settings after a scan.
pub fn merge_config(parsed: &ParsedNft, current: &DbNftGlobalConfig, nft_file: &str) -> (r:
    DbNftGlobalConfig)
    ensures
        r@ == merged_config(*parsed, *current, nft_file@),
{
    DbNftGlobalConfig {
        table_name: given_or(&parsed.table_name, current.table_name.as_str()),
        device_name: given_or(&parsed.device_name, current.device_name.as_str()),
        chain_name: given_or(&parsed.chain_name, current.chain_name.as_str()),
        traceroute_start: match parsed.traceroute_start {
            Some(n) => n,
            None => current.traceroute_start,
        },
        traceroute_end: match parsed.traceroute_end {
            Some(n) => n,
            None => current.traceroute_end,
        },
        nft_file: nft_file.to_owned(),
        updated_at: "".to_owned(),
    }
}

/// The record of a group that a scan has found.
pub open spec fn found_group() -> spec_fn(NamedAddrs) -> Seq<SubnetGroupModel> {
    |g: NamedAddrs|
        seq![
            SubnetGroupModel {
                id: 0,
                name: g.name@,
                description: "자동 감지"@,
                cidrs_v4: views(g.v4@),
                cidrs_v6: views(g.v6@),
            },
        ]
}

/// The records of the groups that a scan has found.
pub fn group_records(groups: &Vec<NamedAddrs>) -> (r: Vec<NftSubnetGroup>)
    ensures
        views(r@) == flat(groups@, found_group()),
{
    let mut out: Vec<NftSubnetGroup> = Vec::new();
    let mut i: usize = 0;
    assert(views(out@) =~= Seq::<SubnetGroupModel>::empty());
    while i < groups.len()
        invariant
            i <= groups.len(),
            views(out@) == flat(groups@.take(i as int), found_group()),
        decreases groups.len() - i,
    {
        let ghost seen = views(out@);
        proof {
            lemma_flat_take(groups@, found_group(), i as int);
        }
        let record = NftSubnetGroup {
            id: 0,
            name: groups[i].name.clone(),
            description: "자동 감지".to_owned(),
            cidrs_v4: copy_lines(&groups[i].v4),
            cidrs_v6: copy_lines(&groups[i].v6),
        };
        proof {
            lemma_views_push(out@, record);
        }
        out.push(record);
        assert(views(out@) =~= seen + seq![record@]);
        i += 1;
    }
    assert(groups@.take(i as int) =~= groups@);
    out
}

/// The message of a scan.
pub open spec fn scan_message(existed: bool, groups: nat, services: nat, targets: nat) -> Seq<char> {
    "스캔 완료 (파일 "@ + (if existed {
        "기존"@
    } else {
        "신규 생성"@
    }) + "): 그룹 "@ + decimal(groups) + "개, 서비스 "@ + decimal(services) + "개, 대상 "@
        + decimal(targets) + "개 업데이트"@
}

/// The report of a scan, with the numbers of records that were updated.
pub fn after_update(
    state: ScanState,
    groups_updated: usize,
    services_updated: usize,
    targets_updated: usize,
) -> (r: NftScanResult)
    ensures
        r.file_existed == state.file_existed,
        r.groups_updated == groups_updated,
        r.services_updated == services_updated,
        r.targets_updated == targets_updated,
        r.ansible_output == state.ansible_output,
        r.message@ == scan_message(
            state.file_existed,
            groups_updated as nat,
            services_updated as nat,
            targets_updated as nat,
        ),
{
    let mut message = "스캔 완료 (파일 ".to_owned();
    if state.file_existed {
        message.push_str("기존");
    } else {
        message.push_str("신규 생성");
    }
    message.push_str("): 그룹 ");
    push_number(&mut message, groups_updated as u64);
    message.push_str("개, 서비스 ");
    push_number(&mut message, services_updated as u64);
    message.push_str("개, 대상 ");
    push_number(&mut message, targets_updated as u64);
    message.push_str("개 업데이트");
    NftScanResult {
        file_existed: state.file_existed,
        groups_updated,
        services_updated,
        targets_updated,
        ansible_output: state.ansible_output,
        message,
    }
}

} // verus!
