//! Reading DRBD resource files.

use crate::lines::{
    first_match, lemma_lines_total, lemma_total_take, lemma_views_push, lines, lines_of, split,
    split_on, total_len,
};
use crate::models::drbd::{
    ScannedDrbdNode, ScannedDrbdResource, ScannedNodeModel, ScannedResourceModel,
};
use crate::number::{parse_number, parse_port, parsed_number};
use crate::text::{
    chars_of, count, count_of, ends_with, find, find_text, is_space, is_space_char,
    lemma_find_from, opt_view, rfind, rfind_text, same, starts_with, strip_prefix, trim,
    trim_end_char, trim_start_char, trimmed, views, without_leading, without_trailing,
};
use vstd::prelude::*;
use vstd::string::*;

verus! {

// ---------------------------------------------------------------------------
// Single lines
// ---------------------------------------------------------------------------

/// What stands between the word `head` and the brace that ends the line, where a line
/// has both.
pub open spec fn block_name(line: Seq<char>, head: Seq<char>) -> Option<Seq<char>> {
    let t = trimmed(line);
    if head.is_prefix_of(t) && "{"@.is_suffix_of(t) {
        Some(trimmed(t.subrange(head.len() as int, t.len() - 1)))
    } else {
        None
    }
}

/// The resource that a line opens.
pub open spec fn resource_line() -> spec_fn(Seq<char>) -> Option<Seq<char>> {
    |line: Seq<char>| block_name(line, "resource "@)
}

/// The protocol that a line sets.
pub open spec fn protocol_line() -> spec_fn(Seq<char>) -> Option<Seq<char>> {
    |line: Seq<char>|
        {
            let t = trimmed(line);
            if "protocol "@.is_prefix_of(t) {
                Some(trimmed(without_trailing(t.skip(9), ';')))
            } else {
                None
            }
        }
}

/// What stands between the first `p` in `s` and the next one or the end.
pub open spec fn after_first(s: Seq<char>, p: Seq<char>) -> Option<Seq<char>> {
    match find_text(s, p) {
        Some(i) => {
            let rest = s.skip(i + p.len());
            match find_text(rest, p) {
                Some(j) => Some(rest.take(j)),
                None => Some(rest),
            }
        },
        None => None,
    }
}

/// The minor number that a line sets.
pub open spec fn minor_line() -> spec_fn(Seq<char>) -> Option<nat> {
    |line: Seq<char>|
        {
            let t = trimmed(line);
            if "device"@.is_prefix_of(t) {
                match after_first(t, "/dev/drbd"@) {
                    Some(part) => parsed_number(
                        trimmed(without_trailing(part, ';')),
                        u32::MAX as nat,
                    ),
                    None => None,
                }
            } else {
                None
            }
        }
}

/// The value that a line sets for `key`.
pub open spec fn value_of(key: Seq<char>) -> spec_fn(Seq<char>) -> Option<Seq<char>> {
    |line: Seq<char>|
        {
            let t = trimmed(line);
            if key.is_prefix_of(t) {
                Some(trimmed(without_trailing(trimmed(t.skip(key.len() as int)), ';')))
            } else {
                None
            }
        }
}

/// What follows the last white space of `s`.
pub open spec fn last_word(s: Seq<char>) -> Seq<char>
    decreases s.len(),
{
    if s.len() == 0 || is_space(s.last()) {
        Seq::empty()
    } else {
        last_word(s.drop_last()).push(s.last())
    }
}

/// The host part of an address line: `address`, an address family or none, and the host
/// with its port. An IPv6 host stands in square brackets.
pub open spec fn drbd_address(line: Seq<char>) -> Option<Seq<char>> {
    let t = trimmed(line);
    if "address "@.is_prefix_of(t) {
        let endpoint = last_word(trimmed(without_trailing(trimmed(t.skip(8)), ';')));
        if endpoint.len() == 0 {
            None
        } else if endpoint[0] == '[' {
            match find_text(endpoint, "]"@) {
                Some(i) => Some(endpoint.subrange(1, i)),
                None => None,
            }
        } else {
            match rfind_text(endpoint, ":"@) {
                Some(i) => Some(endpoint.take(i)),
                None => Some(endpoint),
            }
        }
    } else {
        None
    }
}

/// The port of an address, which follows its last colon.
pub open spec fn address_port(address: Seq<char>) -> nat {
    let a = without_trailing(address, ';');
    match rfind_text(a, ":"@) {
        Some(i) => match parsed_number(trimmed(a.skip(i + 1)), 65535) {
            Some(n) => n,
            None => 7789,
        },
        None => 7789,
    }
}

/// Whether a device name is that of a whole disk rather than of a volume group.
pub open spec fn is_raw_device(name: Seq<char>) -> bool {
    "sd"@.is_prefix_of(name) || "hd"@.is_prefix_of(name) || "vd"@.is_prefix_of(name)
        || "xvd"@.is_prefix_of(name) || "nvme"@.is_prefix_of(name) || "drbd"@.is_prefix_of(name)
}

/// The volume group of a disk path of the form `/dev/group/volume`.
pub open spec fn volume_group(disk: Seq<char>) -> Option<Seq<char>> {
    let parts = split_on(without_leading(disk, '/'), '/');
    if parts.len() == 3 && parts[0] == "dev"@ && !is_raw_device(parts[1]) {
        Some(parts[1])
    } else {
        None
    }
}

/// `o`, or `default` where there is nothing.
pub open spec fn or_text(o: Option<Seq<char>>, default: Seq<char>) -> Seq<char> {
    match o {
        Some(s) => s,
        None => default,
    }
}

/// The node that the lines of an `on` section describe.
pub open spec fn scanned_node(hostname: Seq<char>, lines: Seq<Seq<char>>) -> ScannedNodeModel {
    let disk = or_text(first_match(lines, value_of("disk"@)), ""@);
    let address = or_text(first_match(lines, value_of("address"@)), ""@);
    ScannedNodeModel {
        hostname,
        ip: or_text(drbd_address("address "@ + address), address),
        port: address_port(address),
        disk,
        meta: or_text(first_match(lines, value_of("meta-disk"@)), "internal"@),
        disk_type: if volume_group(disk) is Some {
            "lvm"@
        } else {
            "block"@
        },
        lvm_vg: or_text(volume_group(disk), ""@),
        lvm_size: ""@,
    }
}

// ---------------------------------------------------------------------------
// The `on` sections
// ---------------------------------------------------------------------------

/// How far the reading of the `on` sections has come.
pub struct OnState {
    /// How many braces are open.
    pub depth: int,
    /// How many were open behind the brace that opened the resource.
    pub resource_depth: int,
    /// The host whose section is being read.
    pub host: Option<Seq<char>>,
    /// The lines of that section so far.
    pub block: Seq<Seq<char>>,
    /// The sections that are complete.
    pub nodes: Seq<ScannedNodeModel>,
}

/// How a line changes the number of open braces.
pub open spec fn brace_change(t: Seq<char>) -> int {
    count_of(t, '{') - count_of(t, '}')
}

/// Reading one more line: a resource opens at depth zero, a section of a host opens
/// directly below a resource and ends at the line that closes it.
pub open spec fn on_step(s: OnState, line: Seq<char>) -> OnState {
    let t = trimmed(line);
    let depth = s.depth + brace_change(t);
    if s.depth == 0 && block_name(line, "resource "@) is Some {
        OnState { depth, resource_depth: depth, ..s }
    } else if s.depth > 0 {
        if s.host is None && s.depth == s.resource_depth && block_name(line, "on "@) is Some {
            OnState { depth, host: block_name(line, "on "@), block: Seq::empty(), ..s }
        } else if s.host is Some && count_of(t, '}') > 0 && depth == s.resource_depth {
            OnState {
                depth,
                host: None,
                block: Seq::empty(),
                nodes: s.nodes.push(scanned_node(s.host->0, s.block)),
                ..s
            }
        } else if s.host is Some {
            OnState { depth, block: s.block.push(line), ..s }
        } else {
            OnState { depth, ..s }
        }
    } else if s.depth < 0 {
        OnState { depth: 0, ..s }
    } else {
        s
    }
}

pub open spec fn on_start() -> OnState {
    OnState {
        depth: 0,
        resource_depth: 0,
        host: None,
        block: Seq::empty(),
        nodes: Seq::empty(),
    }
}

/// How far the reading has come after the given lines.
pub open spec fn on_scan(lines: Seq<Seq<char>>) -> OnState
    decreases lines.len(),
{
    if lines.len() == 0 {
        on_start()
    } else {
        on_step(on_scan(lines.drop_last()), lines.last())
    }
}

/// The resource that a file describes: nothing where no line opens a resource.
pub open spec fn scanned_resource(
    content: Seq<char>,
    source_file: Seq<char>,
) -> Option<ScannedResourceModel> {
    let lines = lines_of(content);
    match first_match(lines, resource_line()) {
        Some(resource_name) => Some(
            ScannedResourceModel {
                resource_name,
                protocol: or_text(first_match(lines, protocol_line()), "C"@),
                minor: match first_match(lines, minor_line()) {
                    Some(n) => n,
                    None => 0,
                },
                nodes: on_scan(lines).nodes,
                source_file,
            },
        ),
        None => None,
    }
}

// ---------------------------------------------------------------------------
// Reading
// ---------------------------------------------------------------------------

fn read_block_name<'a>(line: &'a str, head: &str) -> (r: Option<&'a str>)
    requires
        head@.len() > 0,
        head@.last() != '{',
    ensures
        opt_view(r) == block_name(line@, head@),
{
    let t = trim(line);
    if starts_with(t, head) && ends_with(t, "{") {
        let n = head.unicode_len();
        let m = t.unicode_len();
        proof {
            reveal_strlit("{");
            if n == m {
                assert(t@ =~= head@);
                assert(t@.subrange(m - 1, m as int)[0] == "{"@[0]);
            }
        }
        Some(trim(t.substring_char(n, m - 1)))
    } else {
        None
    }
}

fn read_resource_name<'a>(lines: &Vec<&'a str>) -> (r: Option<&'a str>)
    ensures
        opt_view(r) == first_match(views(lines@), resource_line()),
{
    let mut i: usize = 0;
    let ghost all = views(lines@);
    assert(all.skip(0) =~= all);
    while i < lines.len()
        invariant
            all == views(lines@),
            i <= lines.len(),
            first_match(all, resource_line()) == first_match(all.skip(i as int), resource_line()),
        decreases lines.len() - i,
    {
        proof {
            reveal_strlit("resource ");
            assert(all.skip(i as int)[0] == lines@[i as int]@);
            assert(all.skip(i as int).skip(1) =~= all.skip(i as int + 1));
        }
        let name = read_block_name(lines[i], "resource ");
        if name.is_some() {
            return name;
        }
        i += 1;
    }
    None
}

fn read_protocol<'a>(lines: &Vec<&'a str>) -> (r: Option<&'a str>)
    ensures
        opt_view(r) == first_match(views(lines@), protocol_line()),
{
    let mut i: usize = 0;
    let ghost all = views(lines@);
    assert(all.skip(0) =~= all);
    while i < lines.len()
        invariant
            all == views(lines@),
            i <= lines.len(),
            first_match(all, protocol_line()) == first_match(all.skip(i as int), protocol_line()),
        decreases lines.len() - i,
    {
        proof {
            reveal_strlit("protocol ");
            assert(all.skip(i as int)[0] == lines@[i as int]@);
            assert(all.skip(i as int).skip(1) =~= all.skip(i as int + 1));
        }
        if let Some(rest) = strip_prefix(trim(lines[i]), "protocol ") {
            return Some(trim(trim_end_char(rest, ';')));
        }
        i += 1;
    }
    None
}

fn read_after_first<'a>(s: &'a str, p: &str) -> (r: Option<&'a str>)
    ensures
        opt_view(r) == after_first(s@, p@),
{
    match find(s, p) {
        Some(i) => {
            let n = p.unicode_len();
            let m = s.unicode_len();
            let rest = s.substring_char(i + n, m);
            assert(rest@ =~= s@.skip(i + n));
            match find(rest, p) {
                Some(j) => {
                    assert(rest@.subrange(0, j as int) =~= rest@.take(j as int));
                    Some(rest.substring_char(0, j))
                },
                None => Some(rest),
            }
        },
        None => None,
    }
}

fn read_minor(lines: &Vec<&str>) -> (r: Option<u32>)
    ensures
        match r {
            Some(n) => first_match(views(lines@), minor_line()) == Some(n as nat),
            None => first_match(views(lines@), minor_line()) is None,
        },
{
    let mut i: usize = 0;
    let ghost all = views(lines@);
    assert(all.skip(0) =~= all);
    while i < lines.len()
        invariant
            all == views(lines@),
            i <= lines.len(),
            first_match(all, minor_line()) == first_match(all.skip(i as int), minor_line()),
        decreases lines.len() - i,
    {
        proof {
            assert(all.skip(i as int)[0] == lines@[i as int]@);
            assert(all.skip(i as int).skip(1) =~= all.skip(i as int + 1));
        }
        let t = trim(lines[i]);
        if starts_with(t, "device") {
            if let Some(part) = read_after_first(t, "/dev/drbd") {
                let minor = parse_number(trim(trim_end_char(part, ';')), u32::MAX);
                if minor.is_some() {
                    return minor;
                }
            }
        }
        i += 1;
    }
    None
}

/// The value that the first line with `key` sets.
pub fn extract_kv(lines: &Vec<String>, key: &str) -> (r: Option<String>)
    ensures
        opt_view(r) == first_match(views(lines@), value_of(key@)),
{
    let mut i: usize = 0;
    let ghost all = views(lines@);
    assert(all.skip(0) =~= all);
    while i < lines.len()
        invariant
            all == views(lines@),
            i <= lines.len(),
            first_match(all, value_of(key@)) == first_match(all.skip(i as int), value_of(key@)),
        decreases lines.len() - i,
    {
        proof {
            assert(all.skip(i as int)[0] == lines@[i as int]@);
            assert(all.skip(i as int).skip(1) =~= all.skip(i as int + 1));
        }
        if let Some(rest) = strip_prefix(trim(lines[i].as_str()), key) {
            return Some(trim(trim_end_char(trim(rest), ';')).to_owned());
        }
        i += 1;
    }
    None
}

fn read_last_word<'a>(s: &'a str) -> (r: &'a str)
    ensures
        r@ == last_word(s@),
{
    let v = chars_of(s);
    let mut i: usize = v.len();
    assert(s@.take(i as int) =~= s@);
    assert(s@.skip(i as int) =~= Seq::<char>::empty());
    assert(last_word(s@) =~= last_word(s@.take(i as int)) + s@.skip(i as int));
    while i > 0 && !is_space_char(v[i - 1])
        invariant
            v@ == s@,
            i <= v.len(),
            last_word(s@) == last_word(s@.take(i as int)) + s@.skip(i as int),
        decreases i,
    {
        proof {
            let t = s@.take(i as int);
            assert(t.last() == v@[i - 1]);
            assert(t.drop_last() =~= s@.take(i - 1));
            assert(last_word(t) == last_word(s@.take(i - 1)).push(v@[i - 1]));
            assert(last_word(s@) =~= last_word(s@.take(i - 1)) + s@.skip(i - 1));
        }
        i -= 1;
    }
    proof {
        if i > 0 {
            assert(s@.take(i as int).last() == v@[i - 1]);
        }
        assert(last_word(s@) =~= s@.skip(i as int));
        assert(s@.subrange(i as int, v.len() as int) =~= s@.skip(i as int));
    }
    s.substring_char(i, v.len())
}

/// The host part of an address line.
pub fn parse_drbd_address(line: &str) -> (r: Option<String>)
    ensures
        opt_view(r) == drbd_address(line@),
{
    proof {
        reveal_strlit("address ");
        reveal_strlit("]");
        reveal_strlit(":");
    }
    let rest = match strip_prefix(trim(line), "address ") {
        Some(rest) => rest,
        None => {
            return None;
        },
    };
    let endpoint = read_last_word(trim(trim_end_char(trim(rest), ';')));
    if endpoint.unicode_len() == 0 {
        return None;
    }
    if endpoint.get_char(0) == '[' {
        match find(endpoint, "]") {
            Some(i) => {
                proof {
                    lemma_find_from(endpoint@, "]"@, 0);
                    if i == 0 {
                        assert(endpoint@.subrange(0, 1)[0] == "]"@[0]);
                    }
                }
                Some(endpoint.substring_char(1, i).to_owned())
            },
            None => None,
        }
    } else {
        match rfind(endpoint, ":") {
            Some(i) => {
                assert(endpoint@.subrange(0, i as int) =~= endpoint@.take(i as int));
                Some(endpoint.substring_char(0, i).to_owned())
            },
            None => Some(endpoint.to_owned()),
        }
    }
}

fn read_port(address: &str) -> (r: u16)
    ensures
        r == address_port(address@),
{
    proof {
        reveal_strlit(":");
    }
    let a = trim_end_char(address, ';');
    match rfind(a, ":") {
        Some(i) => {
            let m = a.unicode_len();
            let tail = a.substring_char(i + 1, m);
            assert(tail@ =~= a@.skip(i + 1));
            match parse_port(trim(tail)) {
                Some(p) => p,
                None => 7789,
            }
        },
        None => 7789,
    }
}

fn read_raw_device(name: &str) -> (r: bool)
    ensures
        r == is_raw_device(name@),
{
    starts_with(name, "sd") || starts_with(name, "hd") || starts_with(name, "vd") || starts_with(
        name,
        "xvd",
    ) || starts_with(name, "nvme") || starts_with(name, "drbd")
}

fn read_volume_group(disk: &str) -> (r: Option<String>)
    ensures
        opt_view(r) == volume_group(disk@),
{
    let parts = split(trim_start_char(disk, '/'), '/');
    proof {
        if parts.len() == 3 {
            assert(views(parts@)[0] == parts@[0]@);
            assert(views(parts@)[1] == parts@[1]@);
        }
    }
    if parts.len() == 3 && same(parts[0], "dev") && !read_raw_device(parts[1]) {
        Some(parts[1].to_owned())
    } else {
        None
    }
}

fn text_or(o: Option<String>, default: &str) -> (r: String)
    ensures
        r@ == or_text(opt_view(o), default@),
{
    match o {
        Some(s) => s,
        None => default.to_owned(),
    }
}

/// The node that the lines of an `on` section describe.
pub fn build_scanned_node(hostname: &str, lines: &Vec<String>) -> (r: ScannedDrbdNode)
    ensures
        r@ == scanned_node(hostname@, views(lines@)),
{
    let disk = text_or(extract_kv(lines, "disk"), "");
    let address = text_or(extract_kv(lines, "address"), "");
    let meta = text_or(extract_kv(lines, "meta-disk"), "internal");
    let mut line = "address ".to_owned();
    line.push_str(address.as_str());
    let ip = text_or(parse_drbd_address(line.as_str()), address.as_str());
    let port = read_port(address.as_str());
    let group = read_volume_group(disk.as_str());
    let disk_type = if group.is_some() {
        "lvm".to_owned()
    } else {
        "block".to_owned()
    };
    ScannedDrbdNode {
        hostname: hostname.to_owned(),
        ip,
        port,
        disk,
        meta,
        disk_type,
        lvm_vg: text_or(group, ""),
        lvm_size: "".to_owned(),
    }
}

/// How far the reading of the `on` sections has come.
struct OnScanner {
    depth: i128,
    resource_depth: i128,
    in_on: bool,
    host: String,
    block: Vec<String>,
    nodes: Vec<ScannedDrbdNode>,
}

impl View for OnScanner {
    type V = OnState;

    closed spec fn view(&self) -> OnState {
        OnState {
            depth: self.depth as int,
            resource_depth: self.resource_depth as int,
            host: if self.in_on {
                Some(self.host@)
            } else {
                None
            },
            block: views(self.block@),
            nodes: views(self.nodes@),
        }
    }
}

impl OnScanner {
    fn start() -> (r: OnScanner)
        ensures
            r@ == on_start(),
    {
        let r = OnScanner {
            depth: 0,
            resource_depth: 0,
            in_on: false,
            host: String::new(),
            block: Vec::new(),
            nodes: Vec::new(),
        };
        assert(r@.block =~= Seq::<Seq<char>>::empty());
        assert(r@.nodes =~= Seq::<ScannedNodeModel>::empty());
        r
    }

    fn step(&mut self, line: &str)
        requires
            -0x1_0000_0000_0000_0000 * 2 <= old(self)@.depth <= 0x1_0000_0000_0000_0000 * 2,
        ensures
            final(self)@ == on_step(old(self)@, line@),
            final(self)@.depth <= vstd::math::max(old(self)@.depth, 0) + line@.len(),
            final(self)@.depth >= vstd::math::min(old(self)@.depth, 0) - line@.len(),
    {
        proof {
            reveal_strlit("resource ");
            reveal_strlit("on ");
        }
        let ghost before = self@;
        let t = trim(line);
        let opens = count(t, '{');
        let closes = count(t, '}');
        let change: i128 = opens as i128 - closes as i128;
        if self.depth == 0 && read_block_name(line, "resource ").is_some() {
            self.depth = self.depth + change;
            self.resource_depth = self.depth;
        } else if self.depth > 0 {
            let host = read_block_name(line, "on ");
            if !self.in_on && self.depth == self.resource_depth && host.is_some() {
                if let Some(h) = host {
                    self.host = h.to_owned();
                }
                self.block = Vec::new();
                self.in_on = true;
                self.depth = self.depth + change;
                assert(self@.block =~= Seq::<Seq<char>>::empty());
            } else if self.in_on && closes > 0 && self.depth + change == self.resource_depth {
                let node = build_scanned_node(self.host.as_str(), &self.block);
                proof {
                    lemma_views_push(self.nodes@, node);
                }
                self.nodes.push(node);
                self.in_on = false;
                self.block = Vec::new();
                self.depth = self.depth + change;
                assert(self@.block =~= Seq::<Seq<char>>::empty());
            } else if self.in_on {
                let copy = line.to_owned();
                proof {
                    lemma_views_push(self.block@, copy);
                }
                self.block.push(copy);
                self.depth = self.depth + change;
            } else {
                self.depth = self.depth + change;
            }
        } else if self.depth < 0 {
            self.depth = 0;
        }
    }
}

/// The nodes of the `on` sections of a file.
pub fn parse_on_blocks(content: &str) -> (r: Vec<ScannedDrbdNode>)
    ensures
        views(r@) == on_scan(lines_of(content@)).nodes,
{
    let lines = lines(content);
    let size = content.unicode_len();
    let ghost all = lines_of(content@);
    let mut scanner = OnScanner::start();
    let mut i: usize = 0;
    proof {
        lemma_lines_total(content@);
    }
    while i < lines.len()
        invariant
            all == views(lines@),
            i <= lines.len(),
            total_len(all) <= size <= usize::MAX,
            scanner@ == on_scan(all.take(i as int)),
            -(total_len(all.take(i as int)) as int) <= scanner@.depth <= total_len(
                all.take(i as int),
            ),
        decreases lines.len() - i,
    {
        proof {
            lemma_total_take(all, i as int);
            lemma_total_take(all, i as int + 1);
            assert(all.take(i as int + 1).drop_last() =~= all.take(i as int));
            assert(all.take(i as int + 1).last() == lines@[i as int]@);
        }
        scanner.step(lines[i]);
        i += 1;
    }
    assert(all.take(i as int) =~= all);
    scanner.nodes
}

/// The resource that the content of a `.res` file describes.
pub fn parse_res_file(content: &str, source_file: &str) -> (r: Option<ScannedDrbdResource>)
    ensures
        opt_view(r) == scanned_resource(content@, source_file@),
{
    let lines = lines(content);
    let resource_name = match read_resource_name(&lines) {
        Some(name) => name.to_owned(),
        None => {
            return None;
        },
    };
    let protocol = match read_protocol(&lines) {
        Some(p) => p.to_owned(),
        None => "C".to_owned(),
    };
    let minor: u32 = match read_minor(&lines) {
        Some(n) => n,
        None => 0,
    };
    Some(
        ScannedDrbdResource {
            resource_name,
            protocol,
            minor,
            nodes: parse_on_blocks(content),
            source_file: source_file.to_owned(),
        },
    )
}

} // verus!
