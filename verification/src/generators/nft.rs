//! The nftables policy file and the playbook that deploys it.

use crate::chars::{lowercase, to_word, uppercase, word};
use crate::lines::{
    add_copies, flat, flat_indexed, join, joined, keep_when, lemma_flat_indexed_take,
    lemma_flat_take, lines, lines_of, push_when, wrap, wrap_slices, wrapped,
};
use crate::models::nft::{
    NftGlobalRule, NftPolicy, NftServiceDef, NftSubnetGroup, NftTarget, NftTargetRule,
};
use crate::number::{decimal, decimal_text, push_number};
use crate::occurs::{
    lemma_before_in_part, lemma_before_in_sum, lemma_contains_self, lemma_contains_sum,
    lemma_contains_trans, lemma_flat_contains, stands_before,
};
use crate::text::{chars_of, contains_text, given, opt_view, same, trim_or, trimmed_or, views};
use vstd::prelude::*;
use vstd::string::*;

verus! {

// ---------------------------------------------------------------------------
// Names and lists
// ---------------------------------------------------------------------------

/// A name as nftables takes it for a set.
pub open spec fn set_name(name: Seq<char>) -> Seq<char> {
    word(lowercase(name))
}

/// A list as nftables writes it: nothing, the one item, or the items in braces.
pub open spec fn list_expr(v: Seq<Seq<char>>) -> Seq<char> {
    if v.len() == 0 {
        Seq::empty()
    } else if v.len() == 1 {
        v[0]
    } else {
        "{ "@ + joined(v, ", "@) + " }"@
    }
}

/// A name in capitals, with underscores for hyphens and dots.
pub open spec fn log_label(name: Seq<char>) -> Seq<char> {
    uppercase(name).map_values(
        |c: char|
            if c == '-' || c == '.' {
                '_'
            } else {
                c
            },
    )
}

/// A name as nftables takes it for a set.
pub fn sanitize_set_name(name: &str) -> (r: String)
    ensures
        r@ == set_name(name@),
{
    to_word(name.to_lowercase().as_str())
}

/// The ports of a rule.
pub fn format_port_expr(ports: &Vec<String>) -> (r: String)
    ensures
        r@ == list_expr(views(ports@)),
{
    format_list(ports)
}

/// The addresses of a rule.
pub fn format_inline_ips(ips: &Vec<String>) -> (r: String)
    ensures
        r@ == list_expr(views(ips@)),
{
    format_list(ips)
}

fn format_list(v: &Vec<String>) -> (r: String)
    ensures
        r@ == list_expr(views(v@)),
{
    if v.len() == 0 {
        String::new()
    } else if v.len() == 1 {
        v[0].clone()
    } else {
        wrap("{ ", join(v, ", ").as_str(), " }")
    }
}

fn drop_log_label(name: &str) -> (r: String)
    ensures
        r@ == log_label(name@),
{
    let upper = name.to_uppercase();
    let v = chars_of(upper.as_str());
    let mut out = String::new();
    let mut i: usize = 0;
    while i < v.len()
        invariant
            v@ == uppercase(name@),
            i <= v.len(),
            out@ =~= log_label(name@).take(i as int),
        decreases v.len() - i,
    {
        let c = v[i];
        if c == '-' || c == '.' {
            out.push('_');
        } else {
            out.push(c);
        }
        i += 1;
    }
    out
}

// ---------------------------------------------------------------------------
// What a policy says
// ---------------------------------------------------------------------------

/// The addresses of a target in one address family.
pub open spec fn addrs(t: NftTarget, v6: bool) -> Seq<Seq<char>> {
    if v6 {
        views(t.ipv6_addrs@)
    } else {
        views(t.ipv4_addrs@)
    }
}

/// The subnets of a group in one address family.
pub open spec fn cidrs(g: NftSubnetGroup, v6: bool) -> Seq<Seq<char>> {
    if v6 {
        views(g.cidrs_v6@)
    } else {
        views(g.cidrs_v4@)
    }
}

/// The addresses of all targets in one address family.
pub open spec fn all_addrs(targets: Seq<NftTarget>, v6: bool) -> Seq<Seq<char>> {
    flat(targets, addrs_of(v6))
}

pub open spec fn addrs_of(v6: bool) -> spec_fn(NftTarget) -> Seq<Seq<char>> {
    |t: NftTarget| addrs(t, v6)
}

/// The group that a rule lets in, where it names one.
pub open spec fn source_group(r: NftTargetRule) -> Option<Seq<char>> {
    match r.subnet_group {
        Some(g) => if g@.len() > 0 {
            Some(g@)
        } else {
            None
        },
        None => None,
    }
}

/// Whether some rule of some target names the group.
pub open spec fn referenced(targets: Seq<NftTarget>, group: Seq<char>) -> bool {
    exists|i: int, j: int|
        0 <= i < targets.len() && 0 <= j < targets[i].rules@.len() && opt_view(
            (#[trigger] targets[i].rules@[j]).subnet_group,
        ) == Some(group)
}

/// The definition of a service: the last one of that name.
pub open spec fn service_named(services: Seq<NftServiceDef>, name: Seq<char>) -> Option<
    NftServiceDef,
>
    decreases services.len(),
{
    if services.len() == 0 {
        None
    } else if services.last().name@ == name {
        Some(services.last())
    } else {
        service_named(services.drop_last(), name)
    }
}

/// The position of the first group of that name.
pub open spec fn group_from(groups: Seq<NftSubnetGroup>, name: Seq<char>, i: int) -> Option<int>
    decreases groups.len() - i,
{
    if i < 0 || i >= groups.len() {
        None
    } else if groups[i].name@ == name {
        Some(i)
    } else {
        group_from(groups, name, i + 1)
    }
}

/// Whether the first group of that name has subnets in the address family.
pub open spec fn group_has_cidrs(
    groups: Seq<NftSubnetGroup>,
    name: Seq<char>,
    v6: bool,
) -> bool {
    match group_from(groups, name, 0) {
        Some(k) => cidrs(groups[k], v6).len() > 0,
        None => false,
    }
}

// ---------------------------------------------------------------------------
// The text of a policy
// ---------------------------------------------------------------------------

pub const TARGETS_HEAD: &'static str = "    # --- 1. 대상 Pod/컨테이너 IP 그룹 (Targets) ---\n";

pub const GROUPS_HEAD: &'static str = "\n    # --- 2. 서브넷 그룹 (Subnet Groups) ---\n";

pub const GLOBAL_HEAD: &'static str = "\n    # --- 3. 전역 허용 규칙 포트 집합 ---\n";

pub const TOOLS_HEAD: &'static str = "\n    # --- 3. 공통 설정 (Tools) ---\n    set traceroute_udp_ports {\n        type inet_service; flags interval\n        elements = { ";

/// The rules that let answers to outgoing connections through.
pub const BYPASS_RULES: &'static str = "        tcp flags & (ack | rst) != 0 accept\n        udp sport 53 accept\n";

pub const COMMON_HEAD: &'static str = "\n        # ==================================================\n        # 공통 허용 규칙 (Global Open: ICMP & 전역 규칙)\n        # ==================================================\n";

pub const SERVICES_HEAD: &'static str = "\n        # ==================================================\n        # 서비스별 상세 규칙\n        # ==================================================\n";

pub const DROPS_HEAD: &'static str = "\n        # ==================================================\n        # 대상별 개별 차단 로그\n        # ==================================================\n";

/// `ip` or `ip6`.
pub open spec fn ip_word(v6: bool) -> Seq<char> {
    if v6 {
        "ip6"@
    } else {
        "ip"@
    }
}

/// The ending of the name of a set of addresses.
pub open spec fn family_suffix(v6: bool) -> Seq<char> {
    if v6 {
        "_v6"@
    } else {
        "_v4"@
    }
}

/// The type of a set of addresses.
pub open spec fn family_type(v6: bool) -> Seq<char> {
    if v6 {
        "ipv6_addr"@
    } else {
        "ipv4_addr"@
    }
}

/// What matches the protocol of a packet.
pub open spec fn protocol_match(v6: bool) -> Seq<char> {
    if v6 {
        " ip6 nexthdr "@
    } else {
        " ip protocol "@
    }
}

/// The set of the addresses of a target.
pub open spec fn target_set(t: NftTarget, v6: bool) -> Seq<char> {
    given(
        addrs(t, v6).len() > 0,
        "    set target_"@ + set_name(t.name@) + family_suffix(v6) + " { type "@ + family_type(v6)
            + "; elements = { "@ + joined(addrs(t, v6), ", "@) + " } }\n"@,
    )
}

pub open spec fn target_sets_of() -> spec_fn(NftTarget) -> Seq<char> {
    |t: NftTarget| target_set(t, false) + target_set(t, true)
}

/// The set of the subnets of a group.
pub open spec fn group_set(g: NftSubnetGroup, v6: bool) -> Seq<char> {
    given(
        cidrs(g, v6).len() > 0,
        "    set sg_"@ + set_name(g.name@) + family_suffix(v6) + " {\n        type "@ + family_type(
            v6,
        ) + "; flags interval\n        elements = { "@ + joined(cidrs(g, v6), ", "@)
            + " }\n    }\n"@,
    )
}

/// The sets of the groups that a rule names.
pub open spec fn group_sets_of(targets: Seq<NftTarget>) -> spec_fn(NftSubnetGroup) -> Seq<char> {
    |g: NftSubnetGroup|
        given(referenced(targets, g.name@), group_set(g, false) + group_set(g, true))
}

/// Whether some rule names one of the groups.
pub open spec fn some_group_used(p: NftPolicy) -> bool {
    exists|k: int|
        0 <= k < p.subnet_groups@.len() && referenced(
            p.targets@,
            (#[trigger] p.subnet_groups@[k]).name@,
        )
}

pub open spec fn group_section(p: NftPolicy) -> Seq<char> {
    given(
        some_group_used(p),
        GROUPS_HEAD@ + flat(p.subnet_groups@, group_sets_of(p.targets@)),
    )
}

/// A port, or a range of ports.
pub open spec fn port_range_text(from: u16, to: u16) -> Seq<char> {
    if from == to {
        decimal(from as nat)
    } else {
        decimal(from as nat) + "-"@ + decimal(to as nat)
    }
}

/// The name of the set of the ports of a global rule.
pub open spec fn global_set_name(i: int, g: NftGlobalRule) -> Seq<char> {
    "global_"@ + g.protocol@ + "_"@ + decimal(i as nat) + "_ports"@
}

pub open spec fn global_set(i: int, g: NftGlobalRule) -> Seq<char> {
    "    set "@ + global_set_name(i, g)
        + " {\n        type inet_service; flags interval\n        elements = { "@
        + port_range_text(g.port_start, g.port_end) + " }\n    }\n"@
}

pub open spec fn global_set_of() -> spec_fn(int, NftGlobalRule) -> Seq<char> {
    |i: int, g: NftGlobalRule| global_set(i, g)
}

pub open spec fn port_sets(p: NftPolicy) -> Seq<char> {
    if p.global_rules@.len() > 0 {
        GLOBAL_HEAD@ + flat_indexed(p.global_rules@, global_set_of())
    } else {
        TOOLS_HEAD@ + decimal(p.traceroute_start as nat) + "-"@ + decimal(p.traceroute_end as nat)
            + " }\n    }\n"@
    }
}

/// The rule that opens the ports of a global rule on the given addresses.
pub open spec fn global_accept(
    ips: Seq<char>,
    v6: bool,
) -> spec_fn(int, NftGlobalRule) -> Seq<char> {
    |i: int, g: NftGlobalRule|
        if v6 {
            "        ip6 daddr "@ + ips + " ip6 nexthdr "@ + v6_protocol(g) + " "@ + v6_protocol(g)
                + " dport @"@ + global_set_name(i, g) + " accept\n"@
        } else {
            "        ip daddr "@ + ips + " "@ + g.protocol@ + " dport @"@ + global_set_name(i, g)
                + " accept\n"@
        }
}

/// The protocol of a global rule as the IPv6 rules name it.
pub open spec fn v6_protocol(g: NftGlobalRule) -> Seq<char> {
    if g.protocol@ == "tcp"@ {
        "tcp"@
    } else {
        "udp"@
    }
}

/// What is open on all addresses of a family: ICMP and the global rules.
pub open spec fn common_rules(p: NftPolicy, v6: bool) -> Seq<char> {
    let ips = list_expr(all_addrs(p.targets@, v6));
    given(
        all_addrs(p.targets@, v6).len() > 0,
        "        "@ + ip_word(v6) + " daddr "@ + ips + (if v6 {
            " ip6 nexthdr icmpv6 accept\n"@
        } else {
            " ip protocol icmp accept\n"@
        }) + (if p.global_rules@.len() > 0 {
            flat_indexed(p.global_rules@, global_accept(ips, v6))
        } else {
            "        "@ + ip_word(v6) + " daddr "@ + ips
                + " udp dport @traceroute_udp_ports accept\n"@
        }),
    )
}

/// The rule that lets a service of a target in, from a group or from everywhere.
pub open spec fn accept_line(
    target: Seq<char>,
    source: Option<Seq<char>>,
    protocol: Seq<char>,
    ports: Seq<Seq<char>>,
    v6: bool,
) -> Seq<char> {
    "        "@ + ip_word(v6) + " daddr @target_"@ + set_name(target) + family_suffix(v6) + (
    match source {
        Some(g) => " "@ + ip_word(v6) + " saddr @sg_"@ + set_name(g) + family_suffix(v6),
        None => Seq::empty(),
    }) + protocol_match(v6) + protocol + " "@ + protocol + " dport "@ + list_expr(ports)
        + " accept\n"@
}

/// Whether a rule of a target gives a line in the address family: the target has
/// addresses, and the group that it lets in, if any, has subnets.
pub open spec fn rule_applies(p: NftPolicy, t: NftTarget, r: NftTargetRule, v6: bool) -> bool {
    addrs(t, v6).len() > 0 && match source_group(r) {
        Some(g) => group_has_cidrs(p.subnet_groups@, g, v6),
        None => true,
    }
}

pub open spec fn protocol_lines(
    p: NftPolicy,
    t: NftTarget,
    r: NftTargetRule,
    protocol: Seq<char>,
    ports: Seq<Seq<char>>,
) -> Seq<char> {
    given(
        ports.len() > 0,
        given(
            rule_applies(p, t, r, false),
            accept_line(t.name@, source_group(r), protocol, ports, false),
        ) + given(
            rule_applies(p, t, r, true),
            accept_line(t.name@, source_group(r), protocol, ports, true),
        ),
    )
}

/// What a rule of a target lets in; nothing where its service is not defined.
pub open spec fn rule_lines(p: NftPolicy, t: NftTarget) -> spec_fn(NftTargetRule) -> Seq<char> {
    |r: NftTargetRule|
        match service_named(p.services@, r.service_name@) {
            Some(svc) => protocol_lines(p, t, r, "tcp"@, views(svc.tcp_ports@)) + protocol_lines(
                p,
                t,
                r,
                "udp"@,
                views(svc.udp_ports@),
            ),
            None => Seq::empty(),
        }
}

pub open spec fn target_rules(p: NftPolicy) -> spec_fn(NftTarget) -> Seq<char> {
    |t: NftTarget|
        "\n        # "@ + uppercase(t.name@) + "\n"@ + flat(t.rules@, rule_lines(p, t))
}

/// The rule that logs and drops what no rule has let in.
pub open spec fn drop_line(t: NftTarget, v6: bool) -> Seq<char> {
    given(
        addrs(t, v6).len() > 0,
        "        "@ + ip_word(v6) + " daddr @target_"@ + set_name(t.name@) + family_suffix(v6)
            + " counter log prefix \"NFT_"@ + log_label(t.name@) + (if v6 {
            "_V6_DROP: \" drop\n"@
        } else {
            "_V4_DROP: \" drop\n"@
        }),
    )
}

pub open spec fn drop_lines_of() -> spec_fn(NftTarget) -> Seq<char> {
    |t: NftTarget| drop_line(t, false) + drop_line(t, true)
}

/// The chain: its head, the answers, what is open everywhere, the services, the drops.
pub open spec fn chain_text(p: NftPolicy) -> Seq<char> {
    chain_head(p) + BYPASS_RULES@ + given(
        all_addrs(p.targets@, false).len() > 0 || all_addrs(p.targets@, true).len() > 0,
        COMMON_HEAD@,
    ) + common_rules(p, false) + common_rules(p, true) + given(
        p.targets@.len() > 0,
        SERVICES_HEAD@,
    ) + flat(p.targets@, target_rules(p)) + given(p.targets@.len() > 0, DROPS_HEAD@) + flat(
        p.targets@,
        drop_lines_of(),
    ) + "\n        accept\n    }\n"@
}

pub open spec fn chain_head(p: NftPolicy) -> Seq<char> {
    "\n    chain "@ + p.chain_name@ + " {\n        type filter hook ingress device \""@
        + p.device_name@ + "\" priority -500; policy accept;\n"@
}

/// The content of the policy file.
pub open spec fn policy_text(p: NftPolicy) -> Seq<char> {
    "table netdev "@ + p.table_name@ + " {\n"@ + TARGETS_HEAD@ + flat(p.targets@, target_sets_of())
        + group_section(p) + port_sets(p) + chain_text(p) + "}\n"@
}

// ---------------------------------------------------------------------------
// What holds of a policy
// ---------------------------------------------------------------------------

/// The rules that let answers through stand directly behind the head of the chain, before
/// all other rules.
pub proof fn law_answers_pass_first(p: NftPolicy)
    ensures
        (chain_head(p) + BYPASS_RULES@).is_prefix_of(chain_text(p)),
{
    let front = chain_head(p) + BYPASS_RULES@;
    assert(chain_text(p).take(front.len() as int) =~= front);
}

/// What stands in a part of the policy file stands in the file.
proof fn lemma_in_policy(p: NftPolicy, t: Seq<char>)
    requires
        contains_text(flat(p.targets@, target_sets_of()), t) || contains_text(group_section(p), t)
            || contains_text(port_sets(p), t) || contains_text(chain_text(p), t),
    ensures
        contains_text(policy_text(p), t),
{
    let s0 = "table netdev "@ + p.table_name@ + " {\n"@ + TARGETS_HEAD@;
    let x1 = flat(p.targets@, target_sets_of());
    lemma_contains_sum(s0, x1, t);
    lemma_contains_sum(s0 + x1, group_section(p), t);
    lemma_contains_sum(s0 + x1 + group_section(p), port_sets(p), t);
    lemma_contains_sum(s0 + x1 + group_section(p) + port_sets(p), chain_text(p), t);
    lemma_contains_sum(s0 + x1 + group_section(p) + port_sets(p) + chain_text(p), "}\n"@, t);
}

proof fn lemma_group_from(groups: Seq<NftSubnetGroup>, name: Seq<char>, i: int)
    requires
        0 <= i,
    ensures
        match group_from(groups, name, i) {
            Some(k) => i <= k < groups.len() && groups[k].name@ == name,
            None => true,
        },
    decreases groups.len() - i,
{
    if i < groups.len() && groups[i].name@ != name {
        lemma_group_from(groups, name, i + 1);
    }
}

/// The set of the addresses of each target that has some is defined.
pub proof fn law_target_sets_are_defined(p: NftPolicy, i: int, v6: bool)
    requires
        0 <= i < p.targets@.len(),
        addrs(p.targets@[i], v6).len() > 0,
    ensures
        target_set(p.targets@[i], v6).len() > 0,
        contains_text(policy_text(p), target_set(p.targets@[i], v6)),
{
    let t = p.targets@[i];
    reveal_strlit("    set target_");
    lemma_flat_contains(p.targets@, target_sets_of(), i);
    lemma_contains_self(target_set(t, v6));
    lemma_contains_sum(target_set(t, false), target_set(t, true), target_set(t, v6));
    lemma_contains_trans(
        flat(p.targets@, target_sets_of()),
        target_sets_of()(t),
        target_set(t, v6),
    );
    lemma_in_policy(p, target_set(t, v6));
}

/// The set of the subnets of a group that a rule names is defined.
pub proof fn lemma_group_set_is_defined(p: NftPolicy, k: int, v6: bool)
    requires
        0 <= k < p.subnet_groups@.len(),
        referenced(p.targets@, p.subnet_groups@[k].name@),
    ensures
        contains_text(policy_text(p), group_set(p.subnet_groups@[k], v6)),
{
    let g = p.subnet_groups@[k];
    assert(some_group_used(p));
    let sets = flat(p.subnet_groups@, group_sets_of(p.targets@));
    lemma_flat_contains(p.subnet_groups@, group_sets_of(p.targets@), k);
    lemma_contains_self(group_set(g, v6));
    lemma_contains_sum(group_set(g, false), group_set(g, true), group_set(g, v6));
    lemma_contains_trans(sets, group_sets_of(p.targets@)(g), group_set(g, v6));
    lemma_contains_sum(GROUPS_HEAD@, sets, group_set(g, v6));
    lemma_in_policy(p, group_set(g, v6));
}

/// A rule refers to no set that the file lacks: where a rule of a target gives a line, the
/// set of the target is defined, and so is the set of the group that the rule lets in.
pub proof fn law_rules_use_defined_sets(p: NftPolicy, i: int, j: int, v6: bool)
    requires
        0 <= i < p.targets@.len(),
        0 <= j < p.targets@[i].rules@.len(),
        rule_applies(p, p.targets@[i], p.targets@[i].rules@[j], v6),
    ensures
        contains_text(policy_text(p), target_set(p.targets@[i], v6)),
        target_set(p.targets@[i], v6).len() > 0,
        match source_group(p.targets@[i].rules@[j]) {
            Some(g) => exists|k: int|
                0 <= k < p.subnet_groups@.len() && (#[trigger] p.subnet_groups@[k]).name@ == g
                    && group_set(p.subnet_groups@[k], v6).len() > 0 && contains_text(
                    policy_text(p),
                    group_set(p.subnet_groups@[k], v6),
                ),
            None => true,
        },
{
    law_target_sets_are_defined(p, i, v6);
    let r = p.targets@[i].rules@[j];
    if let Some(name) = source_group(r) {
        lemma_group_from(p.subnet_groups@, name, 0);
        let k = group_from(p.subnet_groups@, name, 0)->0;
        let g = p.subnet_groups@[k];
        assert(opt_view(p.targets@[i].rules@[j].subnet_group) == Some(g.name@));
        assert(referenced(p.targets@, g.name@));
        reveal_strlit("    set sg_");
        lemma_group_set_is_defined(p, k, v6);
    }
}

/// What no rule lets in is dropped: each target that has addresses has a rule that logs and
/// drops, and it stands behind all rules that let something in.
pub proof fn law_the_rest_is_dropped(p: NftPolicy, i: int, v6: bool)
    requires
        0 <= i < p.targets@.len(),
        addrs(p.targets@[i], v6).len() > 0,
    ensures
        drop_line(p.targets@[i], v6).len() > 0,
        stands_before(
            chain_text(p),
            flat(p.targets@, target_rules(p)),
            drop_line(p.targets@[i], v6),
        ),
{
    let t = p.targets@[i];
    reveal_strlit("        ");
    let rules = flat(p.targets@, target_rules(p));
    let drops = flat(p.targets@, drop_lines_of());
    let s0 = chain_head(p) + BYPASS_RULES@ + given(
        all_addrs(p.targets@, false).len() > 0 || all_addrs(p.targets@, true).len() > 0,
        COMMON_HEAD@,
    ) + common_rules(p, false) + common_rules(p, true) + given(
        p.targets@.len() > 0,
        SERVICES_HEAD@,
    );
    let rest = given(p.targets@.len() > 0, DROPS_HEAD@) + drops;
    let tail = "\n        accept\n    }\n"@;
    lemma_flat_contains(p.targets@, drop_lines_of(), i);
    lemma_contains_self(drop_line(t, v6));
    lemma_contains_sum(drop_line(t, false), drop_line(t, true), drop_line(t, v6));
    lemma_contains_trans(drops, drop_lines_of()(t), drop_line(t, v6));
    lemma_contains_sum(given(p.targets@.len() > 0, DROPS_HEAD@), drops, drop_line(t, v6));
    lemma_contains_self(rules);
    lemma_before_in_sum(rules, rest, rules, drop_line(t, v6));
    lemma_before_in_part(s0, rules + rest, tail, rules, drop_line(t, v6));
    assert(chain_text(p) =~= s0 + (rules + rest) + tail);
}

// ---------------------------------------------------------------------------
// Writing it
// ---------------------------------------------------------------------------

fn ip_keyword(v6: bool) -> (r: &'static str)
    ensures
        r@ == ip_word(v6),
{
    if v6 {
        "ip6"
    } else {
        "ip"
    }
}

fn suffix_of(v6: bool) -> (r: &'static str)
    ensures
        r@ == family_suffix(v6),
{
    if v6 {
        "_v6"
    } else {
        "_v4"
    }
}

fn type_of(v6: bool) -> (r: &'static str)
    ensures
        r@ == family_type(v6),
{
    if v6 {
        "ipv6_addr"
    } else {
        "ipv4_addr"
    }
}

fn target_addrs(t: &NftTarget, v6: bool) -> (r: &Vec<String>)
    ensures
        views(r@) == addrs(*t, v6),
{
    if v6 {
        &t.ipv6_addrs
    } else {
        &t.ipv4_addrs
    }
}

fn group_cidrs(g: &NftSubnetGroup, v6: bool) -> (r: &Vec<String>)
    ensures
        views(r@) == cidrs(*g, v6),
{
    if v6 {
        &g.cidrs_v6
    } else {
        &g.cidrs_v4
    }
}

fn write_target_set(t: &NftTarget, v6: bool) -> (r: String)
    ensures
        r@ == target_set(*t, v6),
{
    let list = target_addrs(t, v6);
    if list.len() == 0 {
        return String::new();
    }
    let mut out = "    set target_".to_owned();
    out.push_str(sanitize_set_name(t.name.as_str()).as_str());
    out.push_str(suffix_of(v6));
    out.push_str(" { type ");
    out.push_str(type_of(v6));
    out.push_str("; elements = { ");
    out.push_str(join(list, ", ").as_str());
    out.push_str(" } }\n");
    out
}

fn write_target_sets(targets: &Vec<NftTarget>) -> (r: String)
    ensures
        r@ == flat(targets@, target_sets_of()),
{
    let mut out = String::new();
    let mut i: usize = 0;
    while i < targets.len()
        invariant
            i <= targets.len(),
            out@ == flat(targets@.take(i as int), target_sets_of()),
        decreases targets.len() - i,
    {
        let mut piece = write_target_set(&targets[i], false);
        piece.push_str(write_target_set(&targets[i], true).as_str());
        proof {
            lemma_flat_take(targets@, target_sets_of(), i as int);
        }
        out.push_str(piece.as_str());
        i += 1;
    }
    assert(targets@.take(i as int) =~= targets@);
    out
}

fn write_group_set(g: &NftSubnetGroup, v6: bool) -> (r: String)
    ensures
        r@ == group_set(*g, v6),
{
    let list = group_cidrs(g, v6);
    if list.len() == 0 {
        return String::new();
    }
    let mut out = "    set sg_".to_owned();
    out.push_str(sanitize_set_name(g.name.as_str()).as_str());
    out.push_str(suffix_of(v6));
    out.push_str(" {\n        type ");
    out.push_str(type_of(v6));
    out.push_str("; flags interval\n        elements = { ");
    out.push_str(join(list, ", ").as_str());
    out.push_str(" }\n    }\n");
    out
}

/// Whether some rule of some target names the group.
pub fn is_referenced(targets: &Vec<NftTarget>, group: &str) -> (r: bool)
    ensures
        r == referenced(targets@, group@),
{
    let mut i: usize = 0;
    while i < targets.len()
        invariant
            i <= targets.len(),
            forall|a: int, b: int|
                0 <= a < i && 0 <= b < targets@[a].rules@.len() ==> opt_view(
                    (#[trigger] targets@[a].rules@[b]).subnet_group,
                ) != Some(group@),
        decreases targets.len() - i,
    {
        let rules = &targets[i].rules;
        let mut j: usize = 0;
        while j < rules.len()
            invariant
                i < targets.len(),
                rules@ == targets@[i as int].rules@,
                j <= rules.len(),
                forall|b: int|
                    0 <= b < j ==> opt_view((#[trigger] rules@[b]).subnet_group) != Some(group@),
            decreases rules.len() - j,
        {
            if let Some(g) = &rules[j].subnet_group {
                if same(g.as_str(), group) {
                    assert(opt_view(targets@[i as int].rules@[j as int].subnet_group) == Some(
                        group@,
                    ));
                    return true;
                }
            }
            j += 1;
        }
        i += 1;
    }
    false
}

fn write_group_section(p: &NftPolicy) -> (r: String)
    ensures
        r@ == group_section(*p),
{
    let groups = &p.subnet_groups;
    let mut sets = String::new();
    let mut used = false;
    let mut i: usize = 0;
    while i < groups.len()
        invariant
            groups@ == p.subnet_groups@,
            i <= groups.len(),
            sets@ == flat(groups@.take(i as int), group_sets_of(p.targets@)),
            used == exists|k: int|
                0 <= k < i && referenced(p.targets@, (#[trigger] p.subnet_groups@[k]).name@),
        decreases groups.len() - i,
    {
        let group = &groups[i];
        let hit = is_referenced(&p.targets, group.name.as_str());
        let mut piece = write_group_set(group, false);
        piece.push_str(write_group_set(group, true).as_str());
        let piece = keep_when(hit, piece);
        proof {
            lemma_flat_take(groups@, group_sets_of(p.targets@), i as int);
            assert(p.subnet_groups@[i as int] == *group);
        }
        sets.push_str(piece.as_str());
        if hit {
            used = true;
        }
        i += 1;
    }
    assert(groups@.take(i as int) =~= groups@);
    let mut out = GROUPS_HEAD.to_owned();
    out.push_str(sets.as_str());
    keep_when(used, out)
}

fn write_port_range(from: u16, to: u16) -> (r: String)
    ensures
        r@ == port_range_text(from, to),
{
    let mut out = decimal_text(from as u64);
    if from != to {
        out.push_str("-");
        push_number(&mut out, to as u64);
    }
    out
}

fn write_global_set_name(i: usize, g: &NftGlobalRule) -> (r: String)
    ensures
        r@ == global_set_name(i as int, *g),
{
    let mut out = "global_".to_owned();
    out.push_str(g.protocol.as_str());
    out.push_str("_");
    push_number(&mut out, i as u64);
    out.push_str("_ports");
    out
}

fn write_global_set(i: usize, g: &NftGlobalRule) -> (r: String)
    ensures
        r@ == global_set(i as int, *g),
{
    let mut out = "    set ".to_owned();
    out.push_str(write_global_set_name(i, g).as_str());
    out.push_str(" {\n        type inet_service; flags interval\n        elements = { ");
    out.push_str(write_port_range(g.port_start, g.port_end).as_str());
    out.push_str(" }\n    }\n");
    out
}

fn write_port_sets(p: &NftPolicy) -> (r: String)
    ensures
        r@ == port_sets(*p),
{
    let rules = &p.global_rules;
    if rules.len() == 0 {
        let mut out = TOOLS_HEAD.to_owned();
        push_number(&mut out, p.traceroute_start as u64);
        out.push_str("-");
        push_number(&mut out, p.traceroute_end as u64);
        out.push_str(" }\n    }\n");
        return out;
    }
    let mut sets = String::new();
    let mut i: usize = 0;
    while i < rules.len()
        invariant
            rules@ == p.global_rules@,
            i <= rules.len(),
            sets@ == flat_indexed(rules@.take(i as int), global_set_of()),
        decreases rules.len() - i,
    {
        proof {
            lemma_flat_indexed_take(rules@, global_set_of(), i as int);
        }
        sets.push_str(write_global_set(i, &rules[i]).as_str());
        i += 1;
    }
    assert(rules@.take(i as int) =~= rules@);
    let mut out = GLOBAL_HEAD.to_owned();
    out.push_str(sets.as_str());
    out
}

fn collect_addrs(targets: &Vec<NftTarget>, v6: bool) -> (r: Vec<String>)
    ensures
        views(r@) == all_addrs(targets@, v6),
{
    let mut out: Vec<String> = Vec::new();
    let mut i: usize = 0;
    assert(views(out@) =~= Seq::<Seq<char>>::empty());
    while i < targets.len()
        invariant
            i <= targets.len(),
            views(out@) == flat(targets@.take(i as int), addrs_of(v6)),
        decreases targets.len() - i,
    {
        proof {
            lemma_flat_take(targets@, addrs_of(v6), i as int);
        }
        add_copies(&mut out, target_addrs(&targets[i], v6));
        i += 1;
    }
    assert(targets@.take(i as int) =~= targets@);
    out
}

fn write_global_accept(i: usize, g: &NftGlobalRule, ips: &str, v6: bool) -> (r: String)
    ensures
        r@ == global_accept(ips@, v6)(i as int, *g),
{
    if v6 {
        let protocol = if same(g.protocol.as_str(), "tcp") {
            "tcp"
        } else {
            "udp"
        };
        let mut out = "        ip6 daddr ".to_owned();
        out.push_str(ips);
        out.push_str(" ip6 nexthdr ");
        out.push_str(protocol);
        out.push_str(" ");
        out.push_str(protocol);
        out.push_str(" dport @");
        out.push_str(write_global_set_name(i, g).as_str());
        out.push_str(" accept\n");
        out
    } else {
        let mut out = "        ip daddr ".to_owned();
        out.push_str(ips);
        out.push_str(" ");
        out.push_str(g.protocol.as_str());
        out.push_str(" dport @");
        out.push_str(write_global_set_name(i, g).as_str());
        out.push_str(" accept\n");
        out
    }
}

fn write_global_accepts(rules: &Vec<NftGlobalRule>, ips: &str, v6: bool) -> (r: String)
    ensures
        r@ == flat_indexed(rules@, global_accept(ips@, v6)),
{
    let mut out = String::new();
    let mut i: usize = 0;
    while i < rules.len()
        invariant
            i <= rules.len(),
            out@ == flat_indexed(rules@.take(i as int), global_accept(ips@, v6)),
        decreases rules.len() - i,
    {
        proof {
            lemma_flat_indexed_take(rules@, global_accept(ips@, v6), i as int);
        }
        out.push_str(write_global_accept(i, &rules[i], ips, v6).as_str());
        i += 1;
    }
    assert(rules@.take(i as int) =~= rules@);
    out
}

fn write_common_rules(p: &NftPolicy, v6: bool) -> (r: String)
    ensures
        r@ == common_rules(*p, v6),
{
    let all = collect_addrs(&p.targets, v6);
    if all.len() == 0 {
        return String::new();
    }
    let ips = format_inline_ips(&all);
    let mut out = "        ".to_owned();
    out.push_str(ip_keyword(v6));
    out.push_str(" daddr ");
    out.push_str(ips.as_str());
    if v6 {
        out.push_str(" ip6 nexthdr icmpv6 accept\n");
    } else {
        out.push_str(" ip protocol icmp accept\n");
    }
    if p.global_rules.len() > 0 {
        out.push_str(write_global_accepts(&p.global_rules, ips.as_str(), v6).as_str());
    } else {
        let mut line = "        ".to_owned();
        line.push_str(ip_keyword(v6));
        line.push_str(" daddr ");
        line.push_str(ips.as_str());
        line.push_str(" udp dport @traceroute_udp_ports accept\n");
        out.push_str(line.as_str());
    }
    out
}

fn find_service<'a>(services: &'a Vec<NftServiceDef>, name: &str) -> (r: Option<&'a NftServiceDef>)
    ensures
        match r {
            Some(svc) => service_named(services@, name@) == Some(*svc),
            None => service_named(services@, name@) is None,
        },
{
    let mut i: usize = services.len();
    assert(services@.take(i as int) =~= services@);
    while i > 0
        invariant
            i <= services.len(),
            service_named(services@, name@) == service_named(services@.take(i as int), name@),
        decreases i,
    {
        proof {
            assert(services@.take(i as int).last() == services@[i - 1]);
            assert(services@.take(i as int).drop_last() =~= services@.take(i - 1));
        }
        if same(services[i - 1].name.as_str(), name) {
            return Some(&services[i - 1]);
        }
        i -= 1;
    }
    None
}

fn has_cidrs(groups: &Vec<NftSubnetGroup>, name: &str, v6: bool) -> (r: bool)
    ensures
        r == group_has_cidrs(groups@, name@, v6),
{
    let mut i: usize = 0;
    while i < groups.len()
        invariant
            i <= groups.len(),
            group_from(groups@, name@, 0) == group_from(groups@, name@, i as int),
        decreases groups.len() - i,
    {
        if same(groups[i].name.as_str(), name) {
            return group_cidrs(&groups[i], v6).len() > 0;
        }
        i += 1;
    }
    false
}

fn write_accept_line(
    target: &str,
    source: Option<&String>,
    protocol: &str,
    ports: &Vec<String>,
    v6: bool,
) -> (r: String)
    ensures
        r@ == accept_line(target@, opt_view(source), protocol@, views(ports@), v6),
{
    let mut out = "        ".to_owned();
    out.push_str(ip_keyword(v6));
    out.push_str(" daddr @target_");
    out.push_str(sanitize_set_name(target).as_str());
    out.push_str(suffix_of(v6));
    let mut from = String::new();
    if let Some(g) = source {
        from = " ".to_owned();
        from.push_str(ip_keyword(v6));
        from.push_str(" saddr @sg_");
        from.push_str(sanitize_set_name(g.as_str()).as_str());
        from.push_str(suffix_of(v6));
    }
    out.push_str(from.as_str());
    if v6 {
        out.push_str(" ip6 nexthdr ");
    } else {
        out.push_str(" ip protocol ");
    }
    out.push_str(protocol);
    out.push_str(" ");
    out.push_str(protocol);
    out.push_str(" dport ");
    out.push_str(format_port_expr(ports).as_str());
    out.push_str(" accept\n");
    out
}

fn rule_source(r: &NftTargetRule) -> (s: Option<&String>)
    ensures
        opt_view(s) == source_group(*r),
{
    match &r.subnet_group {
        Some(g) => if g.as_str().unicode_len() > 0 {
            Some(g)
        } else {
            None
        },
        None => None,
    }
}

fn applies(p: &NftPolicy, t: &NftTarget, r: &NftTargetRule, v6: bool) -> (b: bool)
    ensures
        b == rule_applies(*p, *t, *r, v6),
{
    if target_addrs(t, v6).len() == 0 {
        return false;
    }
    match rule_source(r) {
        Some(g) => has_cidrs(&p.subnet_groups, g.as_str(), v6),
        None => true,
    }
}

fn write_protocol_lines(
    p: &NftPolicy,
    t: &NftTarget,
    rule: &NftTargetRule,
    protocol: &str,
    ports: &Vec<String>,
) -> (r: String)
    ensures
        r@ == protocol_lines(*p, *t, *rule, protocol@, views(ports@)),
{
    if ports.len() == 0 {
        return String::new();
    }
    let source = rule_source(rule);
    let mut out = keep_when(
        applies(p, t, rule, false),
        write_accept_line(t.name.as_str(), source, protocol, ports, false),
    );
    push_when(
        &mut out,
        applies(p, t, rule, true),
        write_accept_line(t.name.as_str(), source, protocol, ports, true).as_str(),
    );
    out
}

fn write_rule_lines(p: &NftPolicy, t: &NftTarget, rule: &NftTargetRule) -> (r: String)
    ensures
        r@ == rule_lines(*p, *t)(*rule),
{
    match find_service(&p.services, rule.service_name.as_str()) {
        Some(svc) => {
            let mut out = write_protocol_lines(p, t, rule, "tcp", &svc.tcp_ports);
            out.push_str(write_protocol_lines(p, t, rule, "udp", &svc.udp_ports).as_str());
            out
        },
        None => String::new(),
    }
}

fn write_target_rules(p: &NftPolicy, t: &NftTarget) -> (r: String)
    ensures
        r@ == target_rules(*p)(*t),
{
    let mut lines = String::new();
    let mut i: usize = 0;
    while i < t.rules.len()
        invariant
            i <= t.rules.len(),
            lines@ == flat(t.rules@.take(i as int), rule_lines(*p, *t)),
        decreases t.rules.len() - i,
    {
        proof {
            lemma_flat_take(t.rules@, rule_lines(*p, *t), i as int);
        }
        lines.push_str(write_rule_lines(p, t, &t.rules[i]).as_str());
        i += 1;
    }
    assert(t.rules@.take(i as int) =~= t.rules@);
    let mut out = "\n        # ".to_owned();
    out.push_str(t.name.as_str().to_uppercase().as_str());
    out.push_str("\n");
    out.push_str(lines.as_str());
    out
}

fn write_drop_line(t: &NftTarget, v6: bool) -> (r: String)
    ensures
        r@ == drop_line(*t, v6),
{
    if target_addrs(t, v6).len() == 0 {
        return String::new();
    }
    let mut out = "        ".to_owned();
    out.push_str(ip_keyword(v6));
    out.push_str(" daddr @target_");
    out.push_str(sanitize_set_name(t.name.as_str()).as_str());
    out.push_str(suffix_of(v6));
    out.push_str(" counter log prefix \"NFT_");
    out.push_str(drop_log_label(t.name.as_str()).as_str());
    if v6 {
        out.push_str("_V6_DROP: \" drop\n");
    } else {
        out.push_str("_V4_DROP: \" drop\n");
    }
    out
}

fn write_service_rules(p: &NftPolicy) -> (r: String)
    ensures
        r@ == flat(p.targets@, target_rules(*p)),
{
    let mut out = String::new();
    let mut i: usize = 0;
    while i < p.targets.len()
        invariant
            i <= p.targets.len(),
            out@ == flat(p.targets@.take(i as int), target_rules(*p)),
        decreases p.targets.len() - i,
    {
        proof {
            lemma_flat_take(p.targets@, target_rules(*p), i as int);
        }
        out.push_str(write_target_rules(p, &p.targets[i]).as_str());
        i += 1;
    }
    assert(p.targets@.take(i as int) =~= p.targets@);
    out
}

fn write_drop_rules(targets: &Vec<NftTarget>) -> (r: String)
    ensures
        r@ == flat(targets@, drop_lines_of()),
{
    let mut out = String::new();
    let mut i: usize = 0;
    while i < targets.len()
        invariant
            i <= targets.len(),
            out@ == flat(targets@.take(i as int), drop_lines_of()),
        decreases targets.len() - i,
    {
        proof {
            lemma_flat_take(targets@, drop_lines_of(), i as int);
        }
        let mut piece = write_drop_line(&targets[i], false);
        piece.push_str(write_drop_line(&targets[i], true).as_str());
        out.push_str(piece.as_str());
        i += 1;
    }
    assert(targets@.take(i as int) =~= targets@);
    out
}

fn write_chain(p: &NftPolicy) -> (r: String)
    ensures
        r@ == chain_text(*p),
{
    let has_v4 = collect_addrs(&p.targets, false).len() > 0;
    let has_v6 = collect_addrs(&p.targets, true).len() > 0;
    let has_targets = p.targets.len() > 0;
    let mut out = "\n    chain ".to_owned();
    out.push_str(p.chain_name.as_str());
    out.push_str(" {\n        type filter hook ingress device \"");
    out.push_str(p.device_name.as_str());
    out.push_str("\" priority -500; policy accept;\n");
    out.push_str(BYPASS_RULES);
    push_when(&mut out, has_v4 || has_v6, COMMON_HEAD);
    out.push_str(write_common_rules(p, false).as_str());
    out.push_str(write_common_rules(p, true).as_str());
    push_when(&mut out, has_targets, SERVICES_HEAD);
    out.push_str(write_service_rules(p).as_str());
    push_when(&mut out, has_targets, DROPS_HEAD);
    out.push_str(write_drop_rules(&p.targets).as_str());
    out.push_str("\n        accept\n    }\n");
    out
}

/// The content of the policy file: a table with the sets of the targets, of the subnet
/// groups that a rule names and of the open ports, and one ingress chain.
pub fn generate_nft_policy(policy: &NftPolicy) -> (r: String)
    ensures
        r@ == policy_text(*policy),
{
    let mut out = "table netdev ".to_owned();
    out.push_str(policy.table_name.as_str());
    out.push_str(" {\n");
    out.push_str(TARGETS_HEAD);
    out.push_str(write_target_sets(&policy.targets).as_str());
    out.push_str(write_group_section(policy).as_str());
    out.push_str(write_port_sets(policy).as_str());
    out.push_str(write_chain(policy).as_str());
    out.push_str("}\n");
    out
}

// ---------------------------------------------------------------------------
// The playbook
// ---------------------------------------------------------------------------

/// Where the policy is deployed.
pub const NFT_DEST_PATH: &'static str = "/etc/nftables/ipvlan_l2.nft";

pub const PLAYBOOK_HEAD: &'static str = "---
- name: nftables netdev ingress 필터 배포 (클러스터 전 노드 동일 적용)
  hosts: ";

pub const PLAYBOOK_VARS: &'static str = "
  become: yes
  vars:
    ansible_ssh_private_key_file: ";

pub const PLAYBOOK_COPY: &'static str = " 배포
      ansible.builtin.copy:
        dest: ";

pub const PLAYBOOK_CONTENT: &'static str = "
        backup: yes
        mode: '0600'
        content: |
";

pub const PLAYBOOK_LINE: &'static str = "      notify: restart nftables service

    - name: /etc/sysconfig/nftables.conf에 include 보장
      ansible.builtin.lineinfile:
        path: /etc/sysconfig/nftables.conf
        line: 'include \"";

pub const PLAYBOOK_TAIL: &'static str = "\"'
        state: present
        backup: yes
        owner: root
        group: root
        mode: '0600'
      notify: restart nftables service

  handlers:
    - name: restart nftables service
      ansible.builtin.systemd:
        name: nftables
        state: restarted
";

/// The playbook that deploys the policy to the given hosts.
pub open spec fn nft_playbook_text(
    p: NftPolicy,
    hosts: Seq<char>,
    user: Seq<char>,
    key: Seq<char>,
) -> Seq<char> {
    PLAYBOOK_HEAD@ + trimmed_or(hosts, "all"@) + "\n  remote_user: "@ + trimmed_or(user, "root"@)
        + PLAYBOOK_VARS@ + trimmed_or(key, "~/.ssh/id_rsa"@) + "\n  tasks:\n    - name: "@
        + NFT_DEST_PATH@ + PLAYBOOK_COPY@ + NFT_DEST_PATH@ + PLAYBOOK_CONTENT@ + wrapped(
        lines_of(policy_text(p)),
        "          "@,
        "\n"@,
    ) + PLAYBOOK_LINE@ + NFT_DEST_PATH@ + PLAYBOOK_TAIL@
}

/// The playbook that deploys the policy to the given hosts. A blank argument stands for
/// its default: all hosts, the user `root`, the key `~/.ssh/id_rsa`.
pub fn generate_nft_ansible_playbook(
    policy: &NftPolicy,
    ansible_hosts: &str,
    ansible_user: &str,
    ansible_ssh_key: &str,
) -> (r: String)
    ensures
        r@ == nft_playbook_text(*policy, ansible_hosts@, ansible_user@, ansible_ssh_key@),
{
    let content = generate_nft_policy(policy);
    let mut out = PLAYBOOK_HEAD.to_owned();
    out.push_str(trim_or(ansible_hosts, "all"));
    out.push_str("\n  remote_user: ");
    out.push_str(trim_or(ansible_user, "root"));
    out.push_str(PLAYBOOK_VARS);
    out.push_str(trim_or(ansible_ssh_key, "~/.ssh/id_rsa"));
    out.push_str("\n  tasks:\n    - name: ");
    out.push_str(NFT_DEST_PATH);
    out.push_str(PLAYBOOK_COPY);
    out.push_str(NFT_DEST_PATH);
    out.push_str(PLAYBOOK_CONTENT);
    out.push_str(wrap_slices(&lines(content.as_str()), "          ", "\n").as_str());
    out.push_str(PLAYBOOK_LINE);
    out.push_str(NFT_DEST_PATH);
    out.push_str(PLAYBOOK_TAIL);
    out
}

} // verus!
