//! Reading what is installed: the nodes and resources of DRBD, the networks and pods of
//! Quadlet, the nodes of Pacemaker, and the interfaces that networks sit on.

use crate::address::{in_subnet4, in_subnet6, ip4_in_subnet, ip6_in_subnet};
use crate::chars::{eq_ignore_ascii_case, same_ignoring_ascii_case};
use crate::db::{
    DbNetwork, DbNode, DbNodeInterface, DbVolume, NetworkModel, NodeModel, VolumeModel,
    scanned_db_node, scanned_node_record,
};
use crate::lines::{
    first_match, flat, lemma_flat_take, lemma_lines_total, lemma_split_on_len, lemma_total_take,
    lemma_views_push, lines, lines_of, split, split_on, total_len,
};
use crate::models::drbd::{ScannedDrbdResource, ScannedResourceModel};
use crate::models::quadlet::{PodNetworkEntry, PodNetworkModel};
use crate::res_file::{brace_change, or_text, parse_res_file, scanned_resource};
use crate::text::{
    contains_char, count, find, find_text, has_char, opt_view, rfind, rfind_text, same,
    starts_with, strip_prefix, trim, trim_end_char, trim_end_matches, trim_start_matches, trimmed,
    views, without_prefixes, without_suffixes, without_trailing,
};
use vstd::prelude::*;
use vstd::string::*;

verus! {

// ---------------------------------------------------------------------------
// Nodes of `.res` files
// ---------------------------------------------------------------------------

/// How far the reading of nodes has come.
pub struct NodeState {
    /// How many braces are open.
    pub depth: int,
    /// How many are open inside the section of the host.
    pub on_depth: int,
    /// The host whose section is being read.
    pub host: Option<Seq<char>>,
    /// The address of that host so far.
    pub ip: Seq<char>,
    /// The nodes found.
    pub nodes: Seq<NodeModel>,
}

/// The host whose section a line opens.
pub open spec fn opened_host(t: Seq<char>) -> Option<Seq<char>> {
    if "on "@.is_prefix_of(t) {
        let host = trimmed(without_trailing(t.skip(3), '{'));
        if host.len() > 0 && host[0] != '#' {
            Some(host)
        } else {
            None
        }
    } else {
        None
    }
}

/// The address that a line gives, without its port.
pub open spec fn line_address(t: Seq<char>) -> Option<Seq<char>> {
    if "address "@.is_prefix_of(t) {
        let a = trimmed(without_trailing(without_prefixes(t, "address "@), ';'));
        Some(trimmed(split_on(a, ':')[0]))
    } else {
        None
    }
}

/// Whether a node of that name is known.
pub open spec fn knows_node(nodes: Seq<NodeModel>, hostname: Seq<char>) -> bool {
    exists|i: int| 0 <= i < nodes.len() && (#[trigger] nodes[i]).hostname == hostname
}

/// `nodes` with a node more, unless one of that name is known.
pub open spec fn with_node(nodes: Seq<NodeModel>, hostname: Seq<char>, ip: Seq<char>) -> Seq<
    NodeModel,
> {
    if knows_node(nodes, hostname) {
        nodes
    } else {
        nodes.push(scanned_node_record(hostname, ip))
    }
}

/// Reading one more line.
pub open spec fn node_step(s: NodeState, line: Seq<char>) -> NodeState {
    let t = trimmed(line);
    let opened = if s.host is None {
        opened_host(t)
    } else {
        None
    };
    let depth = s.depth + brace_change(t);
    let on_depth = if opened is Some {
        s.depth + 1
    } else {
        s.on_depth
    };
    let host = if opened is Some {
        opened
    } else {
        s.host
    };
    let ip = if host is Some && line_address(t) is Some {
        line_address(t)->0
    } else if opened is Some {
        Seq::empty()
    } else {
        s.ip
    };
    if host is Some && depth < on_depth {
        NodeState { depth, on_depth, host: None, ip, nodes: with_node(s.nodes, host->0, ip) }
    } else {
        NodeState { depth, on_depth, host, ip, nodes: s.nodes }
    }
}

pub open spec fn node_start(nodes: Seq<NodeModel>) -> NodeState {
    NodeState { depth: 0, on_depth: 0, host: None, ip: Seq::empty(), nodes }
}

/// How far the reading has come after the given lines.
pub open spec fn node_scan(lines: Seq<Seq<char>>, nodes: Seq<NodeModel>) -> NodeState
    decreases lines.len(),
{
    if lines.len() == 0 {
        node_start(nodes)
    } else {
        node_step(node_scan(lines.drop_last(), nodes), lines.last())
    }
}

fn read_opened_host<'a>(t: &'a str) -> (r: Option<&'a str>)
    ensures
        opt_view(r) == opened_host(t@),
{
    proof {
        reveal_strlit("on ");
    }
    match strip_prefix(t, "on ") {
        Some(rest) => {
            let host = trim(trim_end_char(rest, '{'));
            if host.unicode_len() > 0 && host.get_char(0) != '#' {
                Some(host)
            } else {
                None
            }
        },
        None => None,
    }
}

fn read_line_address<'a>(t: &'a str) -> (r: Option<&'a str>)
    ensures
        opt_view(r) == line_address(t@),
{
    proof {
        reveal_strlit("address ");
    }
    if starts_with(t, "address ") {
        let a = trim(trim_end_char(trim_start_matches(t, "address "), ';'));
        let parts = split(a, ':');
        proof {
            lemma_split_on_len(a@, ':');
            assert(views(parts@)[0] == parts@[0]@);
        }
        Some(trim(parts[0]))
    } else {
        None
    }
}

fn is_known(nodes: &Vec<DbNode>, hostname: &str) -> (r: bool)
    ensures
        r == knows_node(views(nodes@), hostname@),
{
    let mut i: usize = 0;
    while i < nodes.len()
        invariant
            i <= nodes.len(),
            forall|j: int|
                0 <= j < i ==> (#[trigger] views(nodes@)[j]).hostname != hostname@,
        decreases nodes.len() - i,
    {
        assert(views(nodes@)[i as int] == nodes@[i as int]@);
        if same(nodes[i].hostname.as_str(), hostname) {
            return true;
        }
        i += 1;
    }
    false
}

fn add_node(nodes: &mut Vec<DbNode>, hostname: &str, ip: &str)
    ensures
        views(final(nodes)@) == with_node(views(old(nodes)@), hostname@, ip@),
{
    if !is_known(nodes, hostname) {
        let node = scanned_db_node(hostname, ip);
        proof {
            lemma_views_push(nodes@, node);
        }
        nodes.push(node);
    }
}

/// Adds the hosts of the `on` sections of a `.res` file to the nodes, each with its
/// address, unless a node of that name is known.
pub fn parse_res_for_nodes(content: &str, nodes: &mut Vec<DbNode>)
    ensures
        views(final(nodes)@) == node_scan(lines_of(content@), views(old(nodes)@)).nodes,
{
    let lines = lines(content);
    let size = content.unicode_len();
    let ghost all = lines_of(content@);
    let ghost given_nodes = views(nodes@);
    let mut depth: i128 = 0;
    let mut on_depth: i128 = 0;
    let mut host: Option<&str> = None;
    let mut ip = String::new();
    let mut i: usize = 0;
    proof {
        lemma_lines_total(content@);
    }
    while i < lines.len()
        invariant
            all == views(lines@),
            i <= lines.len(),
            total_len(all) <= size <= usize::MAX,
            given_nodes == views(old(nodes)@),
            node_scan(all.take(i as int), given_nodes) == (NodeState {
                depth: depth as int,
                on_depth: on_depth as int,
                host: opt_view(host),
                ip: ip@,
                nodes: views(nodes@),
            }),
            -(total_len(all.take(i as int)) as int) <= depth <= total_len(all.take(i as int)),
        decreases lines.len() - i,
    {
        proof {
            lemma_total_take(all, i as int);
            lemma_total_take(all, i as int + 1);
            assert(all.take(i as int + 1).drop_last() =~= all.take(i as int));
            assert(all.take(i as int + 1).last() == lines@[i as int]@);
        }
        let t = trim(lines[i]);
        if host.is_none() {
            let opened = read_opened_host(t);
            if opened.is_some() {
                host = opened;
                ip = String::new();
                on_depth = depth + 1;
            }
        }
        depth = depth + (count(t, '{') as i128 - count(t, '}') as i128);
        if host.is_some() {
            if let Some(a) = read_line_address(t) {
                ip = a.to_owned();
            }
        }
        if let Some(h) = host {
            if depth < on_depth {
                add_node(nodes, h, ip.as_str());
                host = None;
            }
        }
        i += 1;
    }
    assert(all.take(i as int) =~= all);
}

/// No two nodes have the same name.
pub open spec fn distinct_nodes(nodes: Seq<NodeModel>) -> bool {
    forall|i: int, j: int|
        0 <= i < j < nodes.len() ==> (#[trigger] nodes[i]).hostname != (
        #[trigger] nodes[j]).hostname
}

/// Reading files one after the other never lists a node twice, and keeps what was found
/// before.
pub proof fn law_scanned_nodes_are_distinct(lines: Seq<Seq<char>>, nodes: Seq<NodeModel>)
    requires
        distinct_nodes(nodes),
    ensures
        distinct_nodes(node_scan(lines, nodes).nodes),
        nodes.is_prefix_of(node_scan(lines, nodes).nodes),
    decreases lines.len(),
{
    if lines.len() > 0 {
        law_scanned_nodes_are_distinct(lines.drop_last(), nodes);
        let s = node_scan(lines.drop_last(), nodes);
        let r = node_step(s, lines.last());
        assert(nodes =~= s.nodes.subrange(0, nodes.len() as int));
        if r.nodes.len() == s.nodes.len() + 1 {
            assert(r.nodes.subrange(0, nodes.len() as int) =~= s.nodes.subrange(
                0,
                nodes.len() as int,
            ));
        }
    } else {
        assert(nodes.subrange(0, nodes.len() as int) =~= nodes);
    }
}

// ---------------------------------------------------------------------------
// Resources of `.res` files
// ---------------------------------------------------------------------------

/// A resource and the disk that it lies on.
#[derive(Debug, Clone)]
pub struct DrbdResInfo {
    pub name: String,
    pub disk_path: String,
}

/// What `f` gives for the last text that it gives anything for.
pub open spec fn last_match<T>(v: Seq<Seq<char>>, f: spec_fn(Seq<char>) -> Option<T>) -> Option<T>
    decreases v.len(),
{
    if v.len() == 0 {
        None
    } else {
        match f(v.last()) {
            Some(x) => Some(x),
            None => last_match(v.drop_last(), f),
        }
    }
}

/// The resource that a line names.
pub open spec fn named_resource() -> spec_fn(Seq<char>) -> Option<Seq<char>> {
    |line: Seq<char>|
        {
            let t = trimmed(line);
            let name = trimmed(without_trailing(t.skip(9), '{'));
            if "resource "@.is_prefix_of(t) && name.len() > 0 {
                Some(name)
            } else {
                None
            }
        }
}

/// The disk that a line names.
pub open spec fn named_disk() -> spec_fn(Seq<char>) -> Option<Seq<char>> {
    |line: Seq<char>|
        {
            let t = trimmed(line);
            let path = trimmed(without_trailing(t.skip(5), ';'));
            if "disk "@.is_prefix_of(t) && path.len() > 0 && path != "none"@ {
                Some(path)
            } else {
                None
            }
        }
}

/// The resource of a `.res` file, by default named after the file, and its first disk.
/// Nothing where no disk is named.
pub fn parse_res_for_resource(stem: &str, content: &str) -> (r: Option<DrbdResInfo>)
    ensures
        r is Some <==> first_match(lines_of(content@), named_disk()) is Some,
        r matches Some(info) ==> first_match(lines_of(content@), named_disk()) == Some(
            info.disk_path@,
        ) && info.name@ == or_text(last_match(lines_of(content@), named_resource()), stem@),
{
    let lines = lines(content);
    let ghost all = lines_of(content@);
    let mut name: Option<String> = None;
    let mut disk: Option<String> = None;
    let mut i: usize = 0;
    assert(all.skip(0) =~= all);
    while i < lines.len()
        invariant
            all == views(lines@),
            i <= lines.len(),
            opt_view(name) == last_match(all.take(i as int), named_resource()),
            disk is None ==> first_match(all, named_disk()) == first_match(
                all.skip(i as int),
                named_disk(),
            ),
            disk is Some ==> first_match(all, named_disk()) == opt_view(disk),
        decreases lines.len() - i,
    {
        proof {
            reveal_strlit("resource ");
            reveal_strlit("disk ");
            assert(all.take(i as int + 1).drop_last() =~= all.take(i as int));
            assert(all.take(i as int + 1).last() == lines@[i as int]@);
            assert(all.skip(i as int)[0] == lines@[i as int]@);
            assert(all.skip(i as int).skip(1) =~= all.skip(i as int + 1));
        }
        let t = trim(lines[i]);
        if let Some(rest) = strip_prefix(t, "resource ") {
            let found = trim(trim_end_char(rest, '{'));
            if found.unicode_len() > 0 {
                name = Some(found.to_owned());
            }
        }
        if disk.is_none() {
            if let Some(rest) = strip_prefix(t, "disk ") {
                let path = trim(trim_end_char(rest, ';'));
                if path.unicode_len() > 0 && !same(path, "none") {
                    disk = Some(path.to_owned());
                }
            }
        }
        i += 1;
    }
    assert(all.take(i as int) =~= all);
    match disk {
        Some(disk_path) => {
            let name = match name {
                Some(n) => n,
                None => stem.to_owned(),
            };
            Some(DrbdResInfo { name, disk_path })
        },
        None => None,
    }
}

/// The volume under which a scanned resource is registered.
pub open spec fn resource_volume(name: Seq<char>, disk_path: Seq<char>) -> VolumeModel {
    VolumeModel {
        id: 0,
        name,
        host_path: "/mnt/drbd/"@ + name,
        description: disk_path,
        drbd_resource: name,
        created_at: ""@,
    }
}

/// The volume under which a scanned resource is registered.
pub fn volume_of_resource(res: &DrbdResInfo) -> (r: DbVolume)
    ensures
        r@ == resource_volume(res.name@, res.disk_path@),
{
    let mut host_path = "/mnt/drbd/".to_owned();
    host_path.push_str(res.name.as_str());
    DbVolume {
        id: 0,
        name: res.name.clone(),
        host_path,
        description: res.disk_path.clone(),
        drbd_resource: res.name.clone(),
        created_at: "".to_owned(),
    }
}

// ---------------------------------------------------------------------------
// Networks
// ---------------------------------------------------------------------------

/// The value that a line of a unit file sets for `key`.
pub open spec fn unit_value(key: Seq<char>) -> spec_fn(Seq<char>) -> Option<Seq<char>> {
    |line: Seq<char>|
        {
            let t = trimmed(line);
            if key.is_prefix_of(t) {
                Some(trimmed(t.skip(key.len() as int)))
            } else {
                None
            }
        }
}

/// The value that a line sets for `key`, where it is of the given address family. An IPv6
/// value is one with a colon.
pub open spec fn family_value(key: Seq<char>, v6: bool) -> spec_fn(Seq<char>) -> Option<
    Seq<char>,
> {
    |line: Seq<char>|
        match unit_value(key)(line) {
            Some(v) => if contains_char(v, ':') == v6 {
                Some(v)
            } else {
                None
            },
            None => None,
        }
}

/// Whether a line switches IPv6 on.
pub open spec fn enables_ipv6(line: Seq<char>) -> bool {
    same_ignoring_ascii_case(trimmed(line), "IPv6=true"@) || same_ignoring_ascii_case(
        trimmed(line),
        "IPv6=yes"@,
    )
}

/// The network that the lines of a `.network` file describe: nothing without a driver.
/// Where a key is set more than once, the last value counts.
pub open spec fn scanned_network(name: Seq<char>, lines: Seq<Seq<char>>) -> Option<NetworkModel> {
    let driver = or_text(last_match(lines, unit_value("Driver="@)), ""@);
    let subnet6 = or_text(last_match(lines, family_value("Subnet="@, true)), ""@);
    if driver.len() == 0 {
        None
    } else {
        Some(
            NetworkModel {
                id: 0,
                name,
                driver,
                interface: or_text(last_match(lines, unit_value("Options=parent="@)), ""@),
                subnet: or_text(last_match(lines, family_value("Subnet="@, false)), ""@),
                gateway: or_text(last_match(lines, family_value("Gateway="@, false)), ""@),
                subnet6,
                gateway6: or_text(last_match(lines, family_value("Gateway="@, true)), ""@),
                ipv6: subnet6.len() > 0 || exists|i: int|
                    0 <= i < lines.len() && enables_ipv6(#[trigger] lines[i]),
                ipvlan_mode: or_text(last_match(lines, unit_value("Options=mode="@)), "l2"@),
                source: "scanned"@,
                created_at: ""@,
            },
        )
    }
}

fn read_unit_value<'a>(line: &'a str, key: &str) -> (r: Option<&'a str>)
    ensures
        opt_view(r) == unit_value(key@)(line@),
{
    match strip_prefix(trim(line), key) {
        Some(rest) => Some(trim(rest)),
        None => None,
    }
}

fn last_value(lines: &Vec<&str>, key: &str, default: &str) -> (r: String)
    ensures
        r@ == or_text(last_match(views(lines@), unit_value(key@)), default@),
{
    let ghost all = views(lines@);
    let mut i: usize = lines.len();
    assert(all.take(i as int) =~= all);
    while i > 0
        invariant
            all == views(lines@),
            i <= lines.len(),
            last_match(all, unit_value(key@)) == last_match(all.take(i as int), unit_value(key@)),
        decreases i,
    {
        proof {
            assert(all.take(i as int).last() == lines@[i - 1]@);
            assert(all.take(i as int).drop_last() =~= all.take(i - 1));
        }
        if let Some(v) = read_unit_value(lines[i - 1], key) {
            return v.to_owned();
        }
        i -= 1;
    }
    default.to_owned()
}

fn last_family_value(lines: &Vec<&str>, key: &str, v6: bool) -> (r: String)
    ensures
        r@ == or_text(last_match(views(lines@), family_value(key@, v6)), ""@),
{
    let ghost all = views(lines@);
    let mut i: usize = lines.len();
    assert(all.take(i as int) =~= all);
    while i > 0
        invariant
            all == views(lines@),
            i <= lines.len(),
            last_match(all, family_value(key@, v6)) == last_match(
                all.take(i as int),
                family_value(key@, v6),
            ),
        decreases i,
    {
        proof {
            assert(all.take(i as int).last() == lines@[i - 1]@);
            assert(all.take(i as int).drop_last() =~= all.take(i - 1));
        }
        if let Some(v) = read_unit_value(lines[i - 1], key) {
            if has_char(v, ':') == v6 {
                return v.to_owned();
            }
        }
        i -= 1;
    }
    "".to_owned()
}

fn some_line_enables_ipv6(lines: &Vec<&str>) -> (r: bool)
    ensures
        r == exists|i: int|
            0 <= i < views(lines@).len() && enables_ipv6(#[trigger] views(lines@)[i]),
{
    let mut i: usize = 0;
    while i < lines.len()
        invariant
            i <= lines.len(),
            forall|j: int| 0 <= j < i ==> !enables_ipv6(#[trigger] views(lines@)[j]),
        decreases lines.len() - i,
    {
        let t = trim(lines[i]);
        assert(views(lines@)[i as int] == lines@[i as int]@);
        if eq_ignore_ascii_case(t, "IPv6=true") || eq_ignore_ascii_case(t, "IPv6=yes") {
            return true;
        }
        i += 1;
    }
    false
}

/// The network that the content of a `.network` file describes.
pub fn parse_network_file(name: &str, content: &str) -> (r: Option<DbNetwork>)
    ensures
        opt_view(r) == scanned_network(name@, lines_of(content@)),
{
    let lines = lines(content);
    let driver = last_value(&lines, "Driver=", "");
    if driver.as_str().unicode_len() == 0 {
        return None;
    }
    let subnet6 = last_family_value(&lines, "Subnet=", true);
    let ipv6 = subnet6.as_str().unicode_len() > 0 || some_line_enables_ipv6(&lines);
    Some(
        DbNetwork {
            id: 0,
            name: name.to_owned(),
            driver,
            interface: last_value(&lines, "Options=parent=", ""),
            subnet: last_family_value(&lines, "Subnet=", false),
            gateway: last_family_value(&lines, "Gateway=", false),
            subnet6,
            gateway6: last_family_value(&lines, "Gateway=", true),
            ipv6,
            ipvlan_mode: last_value(&lines, "Options=mode=", "l2"),
            source: "scanned".to_owned(),
            created_at: "".to_owned(),
        },
    )
}

// ---------------------------------------------------------------------------
// Pods
// ---------------------------------------------------------------------------

/// A pod and the networks that it is attached to.
#[derive(Debug, Clone)]
pub struct ScannedPodInfo {
    pub name: String,
    pub networks: Vec<PodNetworkEntry>,
}

/// How far the reading of the addresses of a network has come.
pub struct AddressState {
    pub ip: Option<Seq<char>>,
    pub ip6: Option<Seq<char>>,
    /// Whether the last piece belongs to the IPv6 address, so that the next may too.
    pub in_ip6: bool,
}

/// Reading one more piece between colons. An IPv6 address holds colons itself: a piece
/// without `=` behind one is a part of it.
pub open spec fn address_step(s: AddressState, piece: Seq<char>) -> AddressState {
    if "ip="@.is_prefix_of(piece) {
        AddressState { ip: Some(piece.skip(3)), in_ip6: false, ..s }
    } else if "ip6="@.is_prefix_of(piece) {
        AddressState { ip6: Some(piece.skip(4)), in_ip6: true, ..s }
    } else if s.in_ip6 && !contains_char(piece, '=') {
        AddressState { ip6: Some(or_text(s.ip6, ""@) + ":"@ + piece), ..s }
    } else {
        AddressState { in_ip6: false, ..s }
    }
}

/// The addresses that pieces give.
pub open spec fn address_scan(pieces: Seq<Seq<char>>) -> AddressState
    decreases pieces.len(),
{
    if pieces.len() == 0 {
        AddressState { ip: None, ip6: None, in_ip6: false }
    } else {
        address_step(address_scan(pieces.drop_last()), pieces.last())
    }
}

/// What stands before the first colon.
pub open spec fn before_colon(s: Seq<char>) -> Seq<char> {
    match find_text(s, ":"@) {
        Some(i) => s.take(i),
        None => s,
    }
}

/// What stands behind the first colon.
pub open spec fn behind_colon(s: Seq<char>) -> Seq<char> {
    match find_text(s, ":"@) {
        Some(i) => s.skip(i + 1),
        None => Seq::empty(),
    }
}

/// The network that a parameter of the form `name.network:ip=X:ip6=Y` describes.
pub open spec fn scanned_param(param: Seq<char>) -> PodNetworkModel {
    let found = address_scan(split_on(behind_colon(param), ':'));
    PodNetworkModel {
        network: without_suffixes(before_colon(param), ".network"@),
        ip: found.ip,
        ip6: found.ip6,
        gateway: None,
        gateway6: None,
    }
}

/// The network that a line attaches a pod to.
pub open spec fn network_of_line() -> spec_fn(Seq<char>) -> Seq<PodNetworkModel> {
    |line: Seq<char>|
        match unit_value("Network="@)(line) {
            Some(v) => seq![scanned_param(v)],
            None => Seq::empty(),
        }
}

/// The network that a parameter of the form `name.network:ip=X:ip6=Y` describes.
pub fn parse_network_param(param: &str) -> (r: PodNetworkEntry)
    ensures
        r@ == scanned_param(param@),
{
    proof {
        reveal_strlit(":");
        reveal_strlit("ip=");
        reveal_strlit("ip6=");
        reveal_strlit(".network");
    }
    let n = param.unicode_len();
    let (name, rest) = match find(param, ":") {
        Some(i) => (param.substring_char(0, i), param.substring_char(i + 1, n)),
        None => (param, ""),
    };
    proof {
        assert(name@ =~= before_colon(param@));
        reveal_strlit("");
        assert(rest@ =~= behind_colon(param@));
    }
    let pieces = split(rest, ':');
    let ghost all = views(pieces@);
    let mut ip: Option<String> = None;
    let mut ip6: Option<String> = None;
    let mut in_ip6 = false;
    let mut i: usize = 0;
    while i < pieces.len()
        invariant
            all == views(pieces@),
            i <= pieces.len(),
            "ip="@.len() == 3,
            "ip6="@.len() == 4,
            address_scan(all.take(i as int)) == (AddressState {
                ip: opt_view(ip),
                ip6: opt_view(ip6),
                in_ip6,
            }),
        decreases pieces.len() - i,
    {
        proof {
            assert(all.take(i as int + 1).drop_last() =~= all.take(i as int));
            assert(all.take(i as int + 1).last() == pieces@[i as int]@);
        }
        let piece: &str = pieces[i];
        if let Some(v) = strip_prefix(piece, "ip=") {
            ip = Some(v.to_owned());
            in_ip6 = false;
        } else if let Some(v) = strip_prefix(piece, "ip6=") {
            ip6 = Some(v.to_owned());
            in_ip6 = true;
        } else if in_ip6 && !has_char(piece, '=') {
            let mut v = match &ip6 {
                Some(s) => s.clone(),
                None => "".to_owned(),
            };
            v.push_str(":");
            v.push_str(piece);
            ip6 = Some(v);
        } else {
            in_ip6 = false;
        }
        i += 1;
    }
    assert(all.take(i as int) =~= all);
    PodNetworkEntry {
        network: trim_end_matches(name, ".network").to_owned(),
        ip,
        ip6,
        gateway: None,
        gateway6: None,
    }
}

/// The pod that the content of a `.pod` file describes, by default named after the file.
pub fn parse_pod_file(stem: &str, content: &str) -> (r: ScannedPodInfo)
    ensures
        r.name@ == or_text(last_match(lines_of(content@), unit_value("PodName="@)), stem@),
        views(r.networks@) == flat(lines_of(content@), network_of_line()),
{
    let lines = lines(content);
    let ghost all = views(lines@);
    let name = last_value(&lines, "PodName=", stem);
    let mut networks: Vec<PodNetworkEntry> = Vec::new();
    let mut i: usize = 0;
    assert(views(networks@) =~= Seq::<PodNetworkModel>::empty());
    while i < lines.len()
        invariant
            all == views(lines@),
            i <= lines.len(),
            views(networks@) == flat(all.take(i as int), network_of_line()),
        decreases lines.len() - i,
    {
        let ghost before = views(networks@);
        proof {
            lemma_flat_take(all, network_of_line(), i as int);
            assert(all[i as int] == lines@[i as int]@);
        }
        if let Some(v) = read_unit_value(lines[i], "Network=") {
            let network = parse_network_param(v);
            proof {
                lemma_views_push(networks@, network);
            }
            networks.push(network);
            assert(views(networks@) =~= before + seq![network@]);
        } else {
            assert(views(networks@) =~= before + Seq::<PodNetworkModel>::empty());
        }
        i += 1;
    }
    assert(all.take(i as int) =~= all);
    ScannedPodInfo { name, networks }
}

// ---------------------------------------------------------------------------
// Nodes of Pacemaker
// ---------------------------------------------------------------------------

/// The value of an attribute of an XML element.
pub open spec fn xml_attr(s: Seq<char>, attr: Seq<char>) -> Option<Seq<char>> {
    let pattern = attr + "=\""@;
    match find_text(s, pattern) {
        Some(i) => {
            let rest = s.skip(i + pattern.len());
            match find_text(rest, "\""@) {
                Some(j) => Some(rest.take(j)),
                None => None,
            }
        },
        None => None,
    }
}

/// The node that a line of the status of Pacemaker lists.
pub open spec fn node_of_line() -> spec_fn(Seq<char>) -> Seq<NodeModel> {
    |line: Seq<char>|
        {
            let t = trimmed(line);
            match xml_attr(t, "name"@) {
                Some(name) => if "<node "@.is_prefix_of(t) {
                    seq![scanned_node_record(name, ""@)]
                } else {
                    Seq::empty()
                },
                None => Seq::empty(),
            }
        }
}

/// The value of an attribute of an XML element.
pub fn extract_xml_attr(s: &str, attr: &str) -> (r: Option<String>)
    ensures
        opt_view(r) == xml_attr(s@, attr@),
{
    let mut pattern = attr.to_owned();
    pattern.push_str("=\"");
    match find(s, pattern.as_str()) {
        Some(i) => {
            let n = pattern.as_str().unicode_len();
            let m = s.unicode_len();
            let rest = s.substring_char(i + n, m);
            assert(rest@ =~= s@.skip(i + n));
            match find(rest, "\"") {
                Some(j) => {
                    assert(rest@.subrange(0, j as int) =~= rest@.take(j as int));
                    Some(rest.substring_char(0, j).to_owned())
                },
                None => None,
            }
        },
        None => None,
    }
}

/// The nodes that the status of Pacemaker lists.
pub fn parse_crm_mon_xml(xml: &str) -> (r: Vec<DbNode>)
    ensures
        views(r@) == flat(lines_of(xml@), node_of_line()),
{
    let lines = lines(xml);
    let ghost all = views(lines@);
    let mut nodes: Vec<DbNode> = Vec::new();
    let mut i: usize = 0;
    assert(views(nodes@) =~= Seq::<NodeModel>::empty());
    while i < lines.len()
        invariant
            all == views(lines@),
            i <= lines.len(),
            views(nodes@) == flat(all.take(i as int), node_of_line()),
        decreases lines.len() - i,
    {
        let ghost before = views(nodes@);
        proof {
            lemma_flat_take(all, node_of_line(), i as int);
            assert(all[i as int] == lines@[i as int]@);
            assert(before + Seq::<NodeModel>::empty() =~= before);
        }
        let t = trim(lines[i]);
        if starts_with(t, "<node ") {
            if let Some(name) = extract_xml_attr(t, "name") {
                let node = scanned_db_node(name.as_str(), "");
                proof {
                    lemma_views_push(nodes@, node);
                }
                nodes.push(node);
                assert(views(nodes@) =~= before + seq![node@]);
            }
        }
        i += 1;
    }
    assert(all.take(i as int) =~= all);
    nodes
}

// ---------------------------------------------------------------------------
// Interfaces of networks
// ---------------------------------------------------------------------------

/// Whether an address of an interface lies in the subnet of a network.
pub open spec fn on_network(i: DbNodeInterface, net: DbNetwork) -> bool {
    if i.family@ == "inet"@ && net.subnet@.len() > 0 {
        in_subnet4(i.ip@, net.subnet@)
    } else if i.family@ == "inet6"@ && net.subnet6@.len() > 0 {
        in_subnet6(i.ip@, net.subnet6@)
    } else {
        false
    }
}

/// The first interface, from position `i` on, with an address on the network.
pub open spec fn interface_from(
    interfaces: Seq<DbNodeInterface>,
    net: DbNetwork,
    i: int,
) -> Option<Seq<char>>
    decreases interfaces.len() - i,
{
    if i < 0 || i >= interfaces.len() {
        None
    } else if on_network(interfaces[i], net) {
        Some(interfaces[i].interface@)
    } else {
        interface_from(interfaces, net, i + 1)
    }
}

fn lies_on_network(i: &DbNodeInterface, net: &DbNetwork) -> (r: bool)
    ensures
        r == on_network(*i, *net),
{
    if same(i.family.as_str(), "inet") && net.subnet.as_str().unicode_len() > 0 {
        ip4_in_subnet(i.ip.as_str(), net.subnet.as_str())
    } else if same(i.family.as_str(), "inet6") && net.subnet6.as_str().unicode_len() > 0 {
        ip6_in_subnet(i.ip.as_str(), net.subnet6.as_str())
    } else {
        false
    }
}

/// The interface that a network sits on: the first one with an address in its subnet.
pub fn find_interface_for_network(interfaces: &Vec<DbNodeInterface>, net: &DbNetwork) -> (r: Option<
    String,
>)
    ensures
        opt_view(r) == interface_from(interfaces@, *net, 0),
{
    let mut i: usize = 0;
    while i < interfaces.len()
        invariant
            i <= interfaces.len(),
            interface_from(interfaces@, *net, 0) == interface_from(interfaces@, *net, i as int),
        decreases interfaces.len() - i,
    {
        if lies_on_network(&interfaces[i], net) {
            return Some(interfaces[i].interface.clone());
        }
        i += 1;
    }
    None
}

/// The change that a network needs: its name and the interface that it sits on, where that
/// is known and is not the one on record.
pub open spec fn interface_update(interfaces: Seq<DbNodeInterface>) -> spec_fn(DbNetwork) -> Seq<
    (Seq<char>, Seq<char>),
> {
    |net: DbNetwork|
        match interface_from(interfaces, net, 0) {
            Some(name) => if name != net.interface@ {
                seq![(net.name@, name)]
            } else {
                Seq::empty()
            },
            None => Seq::empty(),
        }
}

/// The networks whose interface on record is to be changed, each with its interface.
pub fn interface_updates(interfaces: &Vec<DbNodeInterface>, networks: &Vec<DbNetwork>) -> (r: Vec<
    (String, String),
>)
    ensures
        views(r@) == flat(networks@, interface_update(interfaces@)),
{
    let mut out: Vec<(String, String)> = Vec::new();
    let mut i: usize = 0;
    assert(views(out@) =~= Seq::<(Seq<char>, Seq<char>)>::empty());
    while i < networks.len()
        invariant
            i <= networks.len(),
            views(out@) == flat(networks@.take(i as int), interface_update(interfaces@)),
        decreases networks.len() - i,
    {
        let ghost before = views(out@);
        proof {
            lemma_flat_take(networks@, interface_update(interfaces@), i as int);
            assert(before + Seq::<(Seq<char>, Seq<char>)>::empty() =~= before);
        }
        let net = &networks[i];
        if let Some(name) = find_interface_for_network(interfaces, net) {
            if !same(name.as_str(), net.interface.as_str()) {
                let update = (net.name.clone(), name);
                proof {
                    lemma_views_push(out@, update);
                }
                out.push(update);
                assert(views(out@) =~= before + seq![update@]);
            }
        }
        i += 1;
    }
    assert(networks@.take(i as int) =~= networks@);
    out
}

// ---------------------------------------------------------------------------
// Directories
// ---------------------------------------------------------------------------

/// What stands before the extension of a file name; nothing where the file has another
/// extension. A name that starts with its only dot has none.
pub open spec fn stem_of(filename: Seq<char>, extension: Seq<char>) -> Option<Seq<char>> {
    match rfind_text(filename, "."@) {
        Some(i) => if i > 0 && filename.skip(i + 1) == extension {
            Some(filename.take(i))
        } else {
            None
        },
        None => None,
    }
}

/// What stands before the extension of a file name.
pub fn file_stem<'a>(filename: &'a str, extension: &str) -> (r: Option<&'a str>)
    ensures
        opt_view(r) == stem_of(filename@, extension@),
{
    proof {
        reveal_strlit(".");
    }
    match rfind(filename, ".") {
        Some(i) => {
            let n = filename.unicode_len();
            let tail = filename.substring_char(i + 1, n);
            assert(tail@ =~= filename@.skip(i + 1));
            if i > 0 && same(tail, extension) {
                assert(filename@.subrange(0, i as int) =~= filename@.take(i as int));
                Some(filename.substring_char(0, i))
            } else {
                None
            }
        },
        None => None,
    }
}

/// The nodes that are known after reading the `.res` files among the given files, each a
/// name and a content.
pub open spec fn nodes_of_files(files: Seq<(String, String)>) -> Seq<NodeModel>
    decreases files.len(),
{
    if files.len() == 0 {
        Seq::empty()
    } else {
        let front = nodes_of_files(files.drop_last());
        if stem_of(files.last().0@, "res"@) is Some {
            node_scan(lines_of(files.last().1@), front).nodes
        } else {
            front
        }
    }
}

/// The nodes that the `.res` files among the given files name.
pub fn scan_drbd_nodes(files: &Vec<(String, String)>) -> (r: Vec<DbNode>)
    ensures
        views(r@) == nodes_of_files(files@),
{
    let mut nodes: Vec<DbNode> = Vec::new();
    let mut i: usize = 0;
    assert(views(nodes@) =~= Seq::<NodeModel>::empty());
    while i < files.len()
        invariant
            i <= files.len(),
            views(nodes@) == nodes_of_files(files@.take(i as int)),
        decreases files.len() - i,
    {
        proof {
            assert(files@.take(i as int + 1).drop_last() =~= files@.take(i as int));
            assert(files@.take(i as int + 1).last() == files@[i as int]);
        }
        if file_stem(files[i].0.as_str(), "res").is_some() {
            parse_res_for_nodes(files[i].1.as_str(), &mut nodes);
        }
        i += 1;
    }
    assert(files@.take(i as int) =~= files@);
    nodes
}

/// However many files name a node, it is listed once.
pub proof fn law_nodes_of_files_are_distinct(files: Seq<(String, String)>)
    ensures
        distinct_nodes(nodes_of_files(files)),
    decreases files.len(),
{
    if files.len() > 0 {
        law_nodes_of_files_are_distinct(files.drop_last());
        law_scanned_nodes_are_distinct(
            lines_of(files.last().1@),
            nodes_of_files(files.drop_last()),
        );
    }
}

/// The name and the disk of the resource of a file, where it is a `.res` file with a disk.
pub open spec fn resource_of_file() -> spec_fn((String, String)) -> Seq<(Seq<char>, Seq<char>)> {
    |f: (String, String)|
        match (stem_of(f.0@, "res"@), first_match(lines_of(f.1@), named_disk())) {
            (Some(stem), Some(disk)) => seq![
                (or_text(last_match(lines_of(f.1@), named_resource()), stem), disk),
            ],
            _ => Seq::empty(),
        }
}

/// The names and disks of resources.
pub open spec fn resource_pairs(v: Seq<DrbdResInfo>) -> Seq<(Seq<char>, Seq<char>)> {
    Seq::new(v.len(), |i: int| (v[i].name@, v[i].disk_path@))
}

/// The resources that the `.res` files among the given files describe.
pub fn scan_drbd_resources(files: &Vec<(String, String)>) -> (r: Vec<DrbdResInfo>)
    ensures
        resource_pairs(r@) == flat(files@, resource_of_file()),
{
    let mut out: Vec<DrbdResInfo> = Vec::new();
    let mut i: usize = 0;
    assert(resource_pairs(out@) =~= Seq::<(Seq<char>, Seq<char>)>::empty());
    while i < files.len()
        invariant
            i <= files.len(),
            resource_pairs(out@) == flat(files@.take(i as int), resource_of_file()),
        decreases files.len() - i,
    {
        let ghost seen = resource_pairs(out@);
        proof {
            lemma_flat_take(files@, resource_of_file(), i as int);
            assert(seen + Seq::<(Seq<char>, Seq<char>)>::empty() =~= seen);
        }
        if let Some(stem) = file_stem(files[i].0.as_str(), "res") {
            if let Some(info) = parse_res_for_resource(stem, files[i].1.as_str()) {
                let ghost pair = (info.name@, info.disk_path@);
                out.push(info);
                assert(resource_pairs(out@) =~= seen + seq![pair]);
            }
        }
        i += 1;
    }
    assert(files@.take(i as int) =~= files@);
    out
}

/// The network of a file, where it is a `.network` file with a driver.
pub open spec fn network_of_file() -> spec_fn((String, String)) -> Seq<NetworkModel> {
    |f: (String, String)|
        match stem_of(f.0@, "network"@) {
            Some(stem) => match scanned_network(stem, lines_of(f.1@)) {
                Some(n) => seq![n],
                None => Seq::empty(),
            },
            None => Seq::empty(),
        }
}

/// The networks that the `.network` files among the given files describe.
pub fn scan_quadlet_networks(files: &Vec<(String, String)>) -> (r: Vec<DbNetwork>)
    ensures
        views(r@) == flat(files@, network_of_file()),
{
    let mut out: Vec<DbNetwork> = Vec::new();
    let mut i: usize = 0;
    assert(views(out@) =~= Seq::<NetworkModel>::empty());
    while i < files.len()
        invariant
            i <= files.len(),
            views(out@) == flat(files@.take(i as int), network_of_file()),
        decreases files.len() - i,
    {
        let ghost seen = views(out@);
        proof {
            lemma_flat_take(files@, network_of_file(), i as int);
            assert(seen + Seq::<NetworkModel>::empty() =~= seen);
        }
        if let Some(stem) = file_stem(files[i].0.as_str(), "network") {
            if let Some(net) = parse_network_file(stem, files[i].1.as_str()) {
                proof {
                    lemma_views_push(out@, net);
                }
                out.push(net);
                assert(views(out@) =~= seen + seq![net@]);
            }
        }
        i += 1;
    }
    assert(files@.take(i as int) =~= files@);
    out
}

/// What a [`ScannedPodInfo`] holds.
pub struct PodModel {
    pub name: Seq<char>,
    pub networks: Seq<PodNetworkModel>,
}

impl View for ScannedPodInfo {
    type V = PodModel;

    open spec fn view(&self) -> PodModel {
        PodModel { name: self.name@, networks: views(self.networks@) }
    }
}

/// The pod of a file, where it is a `.pod` file.
pub open spec fn pod_of_file() -> spec_fn((String, String)) -> Seq<PodModel> {
    |f: (String, String)|
        match stem_of(f.0@, "pod"@) {
            Some(stem) => seq![
                PodModel {
                    name: or_text(last_match(lines_of(f.1@), unit_value("PodName="@)), stem),
                    networks: flat(lines_of(f.1@), network_of_line()),
                },
            ],
            None => Seq::empty(),
        }
}

/// The pods that the `.pod` files among the given files describe.
pub fn scan_quadlet_pods(files: &Vec<(String, String)>) -> (r: Vec<ScannedPodInfo>)
    ensures
        views(r@) == flat(files@, pod_of_file()),
{
    let mut out: Vec<ScannedPodInfo> = Vec::new();
    let mut i: usize = 0;
    assert(views(out@) =~= Seq::<PodModel>::empty());
    while i < files.len()
        invariant
            i <= files.len(),
            views(out@) == flat(files@.take(i as int), pod_of_file()),
        decreases files.len() - i,
    {
        let ghost seen = views(out@);
        proof {
            lemma_flat_take(files@, pod_of_file(), i as int);
            assert(seen + Seq::<PodModel>::empty() =~= seen);
        }
        if let Some(stem) = file_stem(files[i].0.as_str(), "pod") {
            let pod = parse_pod_file(stem, files[i].1.as_str());
            proof {
                lemma_views_push(out@, pod);
            }
            out.push(pod);
            assert(views(out@) =~= seen + seq![pod@]);
        }
        i += 1;
    }
    assert(files@.take(i as int) =~= files@);
    out
}

/// The resource of a file, where it is a `.res` file that opens one.
pub open spec fn scanned_of_file() -> spec_fn((String, String)) -> Seq<ScannedResourceModel> {
    |f: (String, String)|
        match scanned_resource(f.1@, f.0@) {
            Some(r) => if stem_of(f.0@, "res"@) is Some {
                seq![r]
            } else {
                Seq::empty()
            },
            None => Seq::empty(),
        }
}

/// The resources, with all their nodes, that the `.res` files among the given files
/// describe.
pub fn scan_drbd_dir(files: &Vec<(String, String)>) -> (r: Vec<ScannedDrbdResource>)
    ensures
        views(r@) == flat(files@, scanned_of_file()),
{
    let mut out: Vec<ScannedDrbdResource> = Vec::new();
    let mut i: usize = 0;
    assert(views(out@) =~= Seq::<ScannedResourceModel>::empty());
    while i < files.len()
        invariant
            i <= files.len(),
            views(out@) == flat(files@.take(i as int), scanned_of_file()),
        decreases files.len() - i,
    {
        let ghost seen = views(out@);
        proof {
            lemma_flat_take(files@, scanned_of_file(), i as int);
            assert(seen + Seq::<ScannedResourceModel>::empty() =~= seen);
        }
        if file_stem(files[i].0.as_str(), "res").is_some() {
            if let Some(res) = parse_res_file(files[i].1.as_str(), files[i].0.as_str()) {
                proof {
                    lemma_views_push(out@, res);
                }
                out.push(res);
                assert(views(out@) =~= seen + seq![res@]);
            }
        }
        i += 1;
    }
    assert(files@.take(i as int) =~= files@);
    out
}

/// Where the scan looks.
#[derive(Debug, Clone)]
pub struct ScanConfig {
    pub drbd_dir: String,
    pub quadlet_dir: String,
    pub pcsd_url: String,
    pub pcsd_user: String,
    pub pcsd_pass: String,
    pub temp_dir: String,
}

} // verus!
