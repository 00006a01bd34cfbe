//! Reading back the firewall policies that are written.

use crate::chars::{ascii_lower, ascii_upper, is_ascii_text, lowercase, uppercase, word_char};
use crate::generators::nft::{
    BYPASS_RULES, COMMON_HEAD, DROPS_HEAD, GLOBAL_HEAD, GROUPS_HEAD, SERVICES_HEAD, TARGETS_HEAD,
    TOOLS_HEAD, accept_line, addrs, all_addrs, chain_head, chain_text, cidrs, common_rules,
    drop_line, drop_lines_of, family_suffix, family_type, global_accept, global_set,
    global_set_name, global_set_of, group_section, group_set, group_sets_of, ip_word, list_expr,
    log_label, policy_text, port_range_text, port_sets, protocol_lines, protocol_match, referenced,
    rule_applies, rule_lines, service_named, set_name, some_group_used, source_group, target_rules,
    target_set, target_sets_of, v6_protocol,
};
use crate::lines::{
    flat, flat_indexed, joined, lemma_none_empty, lines_of, split_on, unless_empty, wrapped,
};
use crate::models::nft::{
    NftGlobalRule, NftPolicy, NftServiceDef, NftSubnetGroup, NftTarget, NftTargetRule,
};
use crate::nft_scanner::{
    Found, NamedAddrsModel, NftState, RuleModel, addrs_from, before, behind, comma_list, device_of,
    elements_content, found_nothing, headed_name, lemma_addrs_from, nft_scan, nft_start, nft_step,
    port_expr_of, port_range, ports_of, put_addrs, read_rule, rule_group, rule_protocol, table_of,
    traceroute_step, trimmed_piece, with_chain_rule, with_elements, word_from,
};
use crate::number::{decimal, is_digit, law_decimal_round_trip, lemma_decimal};
use crate::occurs::lemma_regrouped;
use crate::order::sorted_texts;
use crate::read_back::{
    all_space, is_line, is_quiet, lemma_count_sum, lemma_find_at, lemma_find_nowhere,
    lemma_quiet_change, lemma_quiet_sum, lemma_split_single, lemma_split_sum, lemma_trimmed,
    lemma_trimmed_end_is_part, lemma_trimmed_kept, lemma_trimmed_start, lemma_written_lines,
};
use crate::res_file::brace_change;
use crate::text::{
    contains_char, contains_text, count_of, find_text, is_space, lemma_find_from,
    lemma_rfind_before, occurs_at, rfind_text, trimmed, trimmed_start, views, without_leading,
    without_prefixes, without_trailing,
};
use crate::unit_read_back::lemma_flat_sum;
use vstd::prelude::*;
use vstd::string::*;

verus! {

// ---------------------------------------------------------------------------
// Texts made of lines
// ---------------------------------------------------------------------------

/// The text with the given lines.
spec fn text_of_lines(v: Seq<Seq<char>>) -> Seq<char> {
    wrapped(v, ""@, "\n"@)
}

/// Lines that are there only where a condition holds.
spec fn lines_when(cond: bool, v: Seq<Seq<char>>) -> Seq<Seq<char>> {
    if cond {
        v
    } else {
        Seq::empty()
    }
}

proof fn lemma_text_sum(a: Seq<Seq<char>>, b: Seq<Seq<char>>)
    ensures
        text_of_lines(a + b) == text_of_lines(a) + text_of_lines(b),
    decreases b.len(),
{
    if b.len() == 0 {
        assert(a + b =~= a);
        assert(text_of_lines(a) + text_of_lines(b) =~= text_of_lines(a));
    } else {
        assert((a + b).drop_last() =~= a + b.drop_last());
        assert((a + b).last() == b.last());
        lemma_text_sum(a, b.drop_last());
        assert(text_of_lines(a + b) =~= text_of_lines(a) + text_of_lines(b));
    }
}

proof fn lemma_text_one(x: Seq<char>)
    ensures
        text_of_lines(seq![x]) == x + "\n"@,
{
    reveal_strlit("");
    assert(seq![x].drop_last() =~= Seq::<Seq<char>>::empty());
    assert(seq![x].last() == x);
    reveal_with_fuel(wrapped, 2);
    assert(text_of_lines(seq![x]) =~= x + "\n"@);
}

proof fn lemma_text_pair(x: Seq<char>, y: Seq<char>)
    ensures
        text_of_lines(seq![x, y]) == x + "\n"@ + y + "\n"@,
{
    assert(seq![x, y] =~= seq![x] + seq![y]);
    lemma_text_sum(seq![x], seq![y]);
    lemma_text_one(x);
    lemma_text_one(y);
    assert(text_of_lines(seq![x, y]) =~= x + "\n"@ + y + "\n"@);
}

proof fn lemma_text_four(a: Seq<char>, b: Seq<char>, c: Seq<char>, d: Seq<char>)
    ensures
        text_of_lines(seq![a, b, c, d]) == a + "\n"@ + b + "\n"@ + c + "\n"@ + d + "\n"@,
{
    assert(seq![a, b, c, d] =~= seq![a, b] + seq![c, d]);
    lemma_text_sum(seq![a, b], seq![c, d]);
    lemma_text_pair(a, b);
    lemma_text_pair(c, d);
    assert(text_of_lines(seq![a, b, c, d]) =~= a + "\n"@ + b + "\n"@ + c + "\n"@ + d + "\n"@);
}

proof fn lemma_text_flat<T>(
    v: Seq<T>,
    f: spec_fn(T) -> Seq<char>,
    g: spec_fn(T) -> Seq<Seq<char>>,
)
    requires
        forall|i: int| 0 <= i < v.len() ==> f(#[trigger] v[i]) == text_of_lines(g(v[i])),
    ensures
        text_of_lines(flat(v, g)) == flat(v, f),
    decreases v.len(),
{
    if v.len() > 0 {
        assert forall|i: int| 0 <= i < v.drop_last().len() implies f(#[trigger] v.drop_last()[i])
            == text_of_lines(g(v.drop_last()[i])) by {
            assert(v.drop_last()[i] == v[i]);
        }
        lemma_text_flat(v.drop_last(), f, g);
        assert(f(v[v.len() - 1]) == text_of_lines(g(v[v.len() - 1])));
        lemma_text_sum(flat(v.drop_last(), g), g(v.last()));
    }
}

proof fn lemma_text_flat_indexed<T>(
    v: Seq<T>,
    f: spec_fn(int, T) -> Seq<char>,
    g: spec_fn(int, T) -> Seq<Seq<char>>,
)
    requires
        forall|i: int| 0 <= i < v.len() ==> f(i, #[trigger] v[i]) == text_of_lines(g(i, v[i])),
    ensures
        text_of_lines(flat_indexed(v, g)) == flat_indexed(v, f),
    decreases v.len(),
{
    if v.len() > 0 {
        assert forall|i: int| 0 <= i < v.drop_last().len() implies f(
            i,
            #[trigger] v.drop_last()[i],
        ) == text_of_lines(g(i, v.drop_last()[i])) by {
            assert(v.drop_last()[i] == v[i]);
        }
        lemma_text_flat_indexed(v.drop_last(), f, g);
        assert(f(v.len() - 1, v[v.len() - 1]) == text_of_lines(g(v.len() - 1, v[v.len() - 1])));
        lemma_text_sum(flat_indexed(v.drop_last(), g), g(v.len() - 1, v.last()));
    }
}

// ---------------------------------------------------------------------------
// The lines of a policy
// ---------------------------------------------------------------------------

spec fn target_set_line(t: NftTarget, v6: bool) -> Seq<char> {
    "    set target_"@ + set_name(t.name@) + family_suffix(v6) + " { type "@ + family_type(v6)
        + "; elements = { "@ + joined(addrs(t, v6), ", "@) + " } }"@
}

spec fn target_set_lines() -> spec_fn(NftTarget) -> Seq<Seq<char>> {
    |t: NftTarget|
        lines_when(addrs(t, false).len() > 0, seq![target_set_line(t, false)]) + lines_when(
            addrs(t, true).len() > 0,
            seq![target_set_line(t, true)],
        )
}

proof fn lemma_target_sets(p: NftPolicy)
    ensures
        text_of_lines(flat(p.targets@, target_set_lines())) == flat(p.targets@, target_sets_of()),
{
    reveal_strlit(" } }\n");
    reveal_strlit(" } }");
    reveal_strlit("\n");
    assert forall|i: int| 0 <= i < p.targets@.len() implies target_sets_of()(
        #[trigger] p.targets@[i],
    ) == text_of_lines(target_set_lines()(p.targets@[i])) by {
        let t = p.targets@[i];
        lemma_text_one(target_set_line(t, false));
        lemma_text_one(target_set_line(t, true));
        assert(target_set(t, false) =~= text_of_lines(
            lines_when(addrs(t, false).len() > 0, seq![target_set_line(t, false)]),
        ));
        assert(target_set(t, true) =~= text_of_lines(
            lines_when(addrs(t, true).len() > 0, seq![target_set_line(t, true)]),
        ));
        lemma_text_sum(
            lines_when(addrs(t, false).len() > 0, seq![target_set_line(t, false)]),
            lines_when(addrs(t, true).len() > 0, seq![target_set_line(t, true)]),
        );
    }
    lemma_text_flat(p.targets@, target_sets_of(), target_set_lines());
}

/// The line that lists the elements of a set.
spec fn elements_line(content: Seq<char>) -> Seq<char> {
    "        elements = { "@ + content + " }"@
}

/// A set of several lines.
spec fn set_lines(name: Seq<char>, kind: Seq<char>, content: Seq<char>) -> Seq<Seq<char>> {
    seq![
        "    set "@ + name + " {"@,
        "        type "@ + kind + "; flags interval"@,
        elements_line(content),
        "    }"@,
    ]
}

/// The name of the set of the subnets of a group.
spec fn group_set_name(g: NftSubnetGroup, v6: bool) -> Seq<char> {
    "sg_"@ + set_name(g.name@) + family_suffix(v6)
}

spec fn group_set_lines(g: NftSubnetGroup, v6: bool) -> Seq<Seq<char>> {
    lines_when(
        cidrs(g, v6).len() > 0,
        set_lines(group_set_name(g, v6), family_type(v6), joined(cidrs(g, v6), ", "@)),
    )
}

spec fn group_lines(targets: Seq<NftTarget>) -> spec_fn(NftSubnetGroup) -> Seq<Seq<char>> {
    |g: NftSubnetGroup|
        lines_when(
            referenced(targets, g.name@),
            group_set_lines(g, false) + group_set_lines(g, true),
        )
}

spec fn group_section_lines(p: NftPolicy) -> Seq<Seq<char>> {
    lines_when(
        some_group_used(p),
        seq![""@, "    # --- 2. 서브넷 그룹 (Subnet Groups) ---"@] + flat(
            p.subnet_groups@,
            group_lines(p.targets@),
        ),
    )
}

proof fn lemma_set_text(name: Seq<char>, kind: Seq<char>, content: Seq<char>)
    ensures
        text_of_lines(set_lines(name, kind, content)) == "    set "@ + name + " {\n        type "@
            + kind + "; flags interval\n        elements = { "@ + content + " }\n    }\n"@,
{
    reveal_strlit("    set ");
    reveal_strlit(" {");
    reveal_strlit("        type ");
    reveal_strlit("; flags interval");
    reveal_strlit("        elements = { ");
    reveal_strlit(" }");
    reveal_strlit("    }");
    reveal_strlit(" {\n        type ");
    reveal_strlit("; flags interval\n        elements = { ");
    reveal_strlit(" }\n    }\n");
    reveal_strlit("\n");
    lemma_text_four(
        "    set "@ + name + " {"@,
        "        type "@ + kind + "; flags interval"@,
        elements_line(content),
        "    }"@,
    );
    assert(text_of_lines(set_lines(name, kind, content)) =~= "    set "@ + name
        + " {\n        type "@ + kind + "; flags interval\n        elements = { "@ + content
        + " }\n    }\n"@);
}

proof fn lemma_group_set_text(g: NftSubnetGroup, v6: bool)
    ensures
        text_of_lines(group_set_lines(g, v6)) == group_set(g, v6),
{
    reveal_strlit("    set ");
    reveal_strlit("    set sg_");
    reveal_strlit("sg_");
    lemma_set_text(group_set_name(g, v6), family_type(v6), joined(cidrs(g, v6), ", "@));
    assert(text_of_lines(group_set_lines(g, v6)) =~= group_set(g, v6));
}

proof fn lemma_group_section(p: NftPolicy)
    ensures
        text_of_lines(group_section_lines(p)) == group_section(p),
{
    reveal_strlit("");
    reveal_strlit("\n");
    reveal_strlit("    # --- 2. 서브넷 그룹 (Subnet Groups) ---");
    reveal_strlit("\n    # --- 2. 서브넷 그룹 (Subnet Groups) ---\n");
    let head = seq![""@, "    # --- 2. 서브넷 그룹 (Subnet Groups) ---"@];
    lemma_text_pair(""@, "    # --- 2. 서브넷 그룹 (Subnet Groups) ---"@);
    assert(text_of_lines(head) =~= GROUPS_HEAD@);
    let targets = p.targets@;
    assert forall|i: int| 0 <= i < p.subnet_groups@.len() implies group_sets_of(targets)(
        #[trigger] p.subnet_groups@[i],
    ) == text_of_lines(group_lines(targets)(p.subnet_groups@[i])) by {
        let g = p.subnet_groups@[i];
        lemma_group_set_text(g, false);
        lemma_group_set_text(g, true);
        lemma_text_sum(group_set_lines(g, false), group_set_lines(g, true));
    }
    lemma_text_flat(p.subnet_groups@, group_sets_of(targets), group_lines(targets));
    lemma_text_sum(head, flat(p.subnet_groups@, group_lines(targets)));
}

spec fn global_set_lines() -> spec_fn(int, NftGlobalRule) -> Seq<Seq<char>> {
    |i: int, g: NftGlobalRule|
        set_lines(
            global_set_name(i, g),
            "inet_service"@,
            port_range_text(g.port_start, g.port_end),
        )
}

/// The range of the traceroute ports.
spec fn traceroute_text(p: NftPolicy) -> Seq<char> {
    decimal(p.traceroute_start as nat) + "-"@ + decimal(p.traceroute_end as nat)
}

spec fn port_set_lines(p: NftPolicy) -> Seq<Seq<char>> {
    if p.global_rules@.len() > 0 {
        seq![""@, "    # --- 3. 전역 허용 규칙 포트 집합 ---"@] + flat_indexed(
            p.global_rules@,
            global_set_lines(),
        )
    } else {
        seq![""@, "    # --- 3. 공통 설정 (Tools) ---"@] + set_lines(
            "traceroute_udp_ports"@,
            "inet_service"@,
            traceroute_text(p),
        )
    }
}

proof fn lemma_port_sets(p: NftPolicy)
    ensures
        text_of_lines(port_set_lines(p)) == port_sets(p),
{
    reveal_strlit("");
    reveal_strlit("\n");
    reveal_strlit("inet_service");
    reveal_strlit("    set ");
    reveal_strlit(" {\n        type ");
    reveal_strlit("; flags interval\n        elements = { ");
    if p.global_rules@.len() > 0 {
        reveal_strlit("    # --- 3. 전역 허용 규칙 포트 집합 ---");
        reveal_strlit("\n    # --- 3. 전역 허용 규칙 포트 집합 ---\n");
        reveal_strlit(" {\n        type inet_service; flags interval\n        elements = { ");
        let head = seq![""@, "    # --- 3. 전역 허용 규칙 포트 집합 ---"@];
        lemma_text_pair(""@, "    # --- 3. 전역 허용 규칙 포트 집합 ---"@);
        assert(text_of_lines(head) =~= GLOBAL_HEAD@);
        assert forall|i: int| 0 <= i < p.global_rules@.len() implies global_set_of()(
            i,
            #[trigger] p.global_rules@[i],
        ) == text_of_lines(global_set_lines()(i, p.global_rules@[i])) by {
            let g = p.global_rules@[i];
            lemma_set_text(
                global_set_name(i, g),
                "inet_service"@,
                port_range_text(g.port_start, g.port_end),
            );
            assert(" {\n        type "@ + "inet_service"@ + "; flags interval\n        elements = { "@
                =~= " {\n        type inet_service; flags interval\n        elements = { "@);
            assert(global_set(i, g) =~= text_of_lines(global_set_lines()(i, g)));
        }
        lemma_text_flat_indexed(p.global_rules@, global_set_of(), global_set_lines());
        lemma_text_sum(head, flat_indexed(p.global_rules@, global_set_lines()));
    } else {
        reveal_strlit("    # --- 3. 공통 설정 (Tools) ---");
        reveal_strlit(
            "\n    # --- 3. 공통 설정 (Tools) ---\n    set traceroute_udp_ports {\n        type inet_service; flags interval\n        elements = { ",
        );
        reveal_strlit("traceroute_udp_ports");
        let head = seq![""@, "    # --- 3. 공통 설정 (Tools) ---"@];
        lemma_text_pair(""@, "    # --- 3. 공통 설정 (Tools) ---"@);
        lemma_set_text("traceroute_udp_ports"@, "inet_service"@, traceroute_text(p));
        lemma_text_sum(
            head,
            set_lines("traceroute_udp_ports"@, "inet_service"@, traceroute_text(p)),
        );
        assert(TOOLS_HEAD@ =~= ""@ + "\n"@ + "    # --- 3. 공통 설정 (Tools) ---"@ + "\n"@
            + "    set "@ + "traceroute_udp_ports"@ + " {\n        type "@ + "inet_service"@
            + "; flags interval\n        elements = { "@);
        assert(text_of_lines(port_set_lines(p)) =~= port_sets(p));
    }
}

/// Three lines that frame a title, behind an empty one.
spec fn title_lines(title: Seq<char>) -> Seq<Seq<char>> {
    seq![
        ""@,
        "        # =================================================="@,
        "        # "@ + title,
        "        # =================================================="@,
    ]
}

/// The rule that opens a protocol on the given addresses.
spec fn icmp_line(ips: Seq<char>, v6: bool) -> Seq<char> {
    "        "@ + ip_word(v6) + " daddr "@ + ips + (if v6 {
        " ip6 nexthdr icmpv6 accept"@
    } else {
        " ip protocol icmp accept"@
    })
}

spec fn traceroute_line(ips: Seq<char>, v6: bool) -> Seq<char> {
    "        "@ + ip_word(v6) + " daddr "@ + ips + " udp dport @traceroute_udp_ports accept"@
}

spec fn global_line(ips: Seq<char>, v6: bool, i: int, g: NftGlobalRule) -> Seq<char> {
    if v6 {
        "        ip6 daddr "@ + ips + " ip6 nexthdr "@ + v6_protocol(g) + " "@ + v6_protocol(g)
            + " dport @"@ + global_set_name(i, g) + " accept"@
    } else {
        "        ip daddr "@ + ips + " "@ + g.protocol@ + " dport @"@ + global_set_name(i, g)
            + " accept"@
    }
}

spec fn global_lines(
    ips: Seq<char>,
    v6: bool,
) -> spec_fn(int, NftGlobalRule) -> Seq<Seq<char>> {
    |i: int, g: NftGlobalRule| seq![global_line(ips, v6, i, g)]
}

spec fn common_lines(p: NftPolicy, v6: bool) -> Seq<Seq<char>> {
    let ips = list_expr(all_addrs(p.targets@, v6));
    lines_when(
        all_addrs(p.targets@, v6).len() > 0,
        seq![icmp_line(ips, v6)] + (if p.global_rules@.len() > 0 {
            flat_indexed(p.global_rules@, global_lines(ips, v6))
        } else {
            seq![traceroute_line(ips, v6)]
        }),
    )
}

proof fn lemma_common_rules(p: NftPolicy, v6: bool)
    ensures
        text_of_lines(common_lines(p, v6)) == common_rules(p, v6),
{
    reveal_strlit("\n");
    reveal_strlit(" accept");
    reveal_strlit(" accept\n");
    reveal_strlit(" ip6 nexthdr icmpv6 accept");
    reveal_strlit(" ip6 nexthdr icmpv6 accept\n");
    reveal_strlit(" ip protocol icmp accept");
    reveal_strlit(" ip protocol icmp accept\n");
    reveal_strlit(" udp dport @traceroute_udp_ports accept");
    reveal_strlit(" udp dport @traceroute_udp_ports accept\n");
    let ips = list_expr(all_addrs(p.targets@, v6));
    let first = "        "@ + ip_word(v6) + " daddr "@ + ips + (if v6 {
        " ip6 nexthdr icmpv6 accept\n"@
    } else {
        " ip protocol icmp accept\n"@
    });
    lemma_text_one(icmp_line(ips, v6));
    assert(text_of_lines(seq![icmp_line(ips, v6)]) =~= first);
    if p.global_rules@.len() > 0 {
        assert forall|i: int| 0 <= i < p.global_rules@.len() implies global_accept(ips, v6)(
            i,
            #[trigger] p.global_rules@[i],
        ) == text_of_lines(global_lines(ips, v6)(i, p.global_rules@[i])) by {
            let g = p.global_rules@[i];
            lemma_text_one(global_line(ips, v6, i, g));
            assert(global_accept(ips, v6)(i, g) =~= global_line(ips, v6, i, g) + "\n"@);
        }
        lemma_text_flat_indexed(p.global_rules@, global_accept(ips, v6), global_lines(ips, v6));
        lemma_text_sum(
            seq![icmp_line(ips, v6)],
            flat_indexed(p.global_rules@, global_lines(ips, v6)),
        );
    } else {
        lemma_text_one(traceroute_line(ips, v6));
        lemma_text_sum(seq![icmp_line(ips, v6)], seq![traceroute_line(ips, v6)]);
        assert(text_of_lines(seq![traceroute_line(ips, v6)]) =~= "        "@ + ip_word(v6)
            + " daddr "@ + ips + " udp dport @traceroute_udp_ports accept\n"@);
    }
}

/// The rule that lets a service of a target in, as one line.
pub open spec fn accept_text(
    target: Seq<char>,
    source: Option<Seq<char>>,
    protocol: Seq<char>,
    ports: Seq<Seq<char>>,
    v6: bool,
) -> Seq<char> {
    ip_word(v6) + " daddr @target_"@ + set_name(target) + family_suffix(v6) + (match source {
        Some(g) => " "@ + ip_word(v6) + " saddr @sg_"@ + set_name(g) + family_suffix(v6),
        None => Seq::empty(),
    }) + protocol_match(v6) + protocol + " "@ + protocol + " dport "@ + list_expr(ports)
        + " accept"@
}

spec fn protocol_line_list(
    p: NftPolicy,
    t: NftTarget,
    r: NftTargetRule,
    protocol: Seq<char>,
    ports: Seq<Seq<char>>,
) -> Seq<Seq<char>> {
    lines_when(
        ports.len() > 0,
        lines_when(
            rule_applies(p, t, r, false),
            seq!["        "@ + accept_text(t.name@, source_group(r), protocol, ports, false)],
        ) + lines_when(
            rule_applies(p, t, r, true),
            seq!["        "@ + accept_text(t.name@, source_group(r), protocol, ports, true)],
        ),
    )
}

spec fn rule_line_list(p: NftPolicy, t: NftTarget) -> spec_fn(NftTargetRule) -> Seq<Seq<char>> {
    |r: NftTargetRule|
        match service_named(p.services@, r.service_name@) {
            Some(svc) => protocol_line_list(p, t, r, "tcp"@, views(svc.tcp_ports@))
                + protocol_line_list(p, t, r, "udp"@, views(svc.udp_ports@)),
            None => Seq::empty(),
        }
}

spec fn target_rule_lines(p: NftPolicy) -> spec_fn(NftTarget) -> Seq<Seq<char>> {
    |t: NftTarget|
        seq![""@, "        # "@ + uppercase(t.name@)] + flat(t.rules@, rule_line_list(p, t))
}

proof fn lemma_accept_text(
    target: Seq<char>,
    source: Option<Seq<char>>,
    protocol: Seq<char>,
    ports: Seq<Seq<char>>,
    v6: bool,
)
    ensures
        text_of_lines(seq!["        "@ + accept_text(target, source, protocol, ports, v6)])
            == accept_line(target, source, protocol, ports, v6),
{
    let pre = "        "@;
    let from = match source {
        Some(g) => " "@ + ip_word(v6) + " saddr @sg_"@ + set_name(g) + family_suffix(v6),
        None => Seq::empty(),
    };
    let a0 = ip_word(v6);
    let a1 = a0 + " daddr @target_"@;
    let a2 = a1 + set_name(target);
    let a3 = a2 + family_suffix(v6);
    let a4 = a3 + from;
    let a5 = a4 + protocol_match(v6);
    let a6 = a5 + protocol;
    let a7 = a6 + " "@;
    let a8 = a7 + protocol;
    let a9 = a8 + " dport "@;
    let a10 = a9 + list_expr(ports);
    lemma_regrouped(pre, a0, " daddr @target_"@);
    lemma_regrouped(pre, a1, set_name(target));
    lemma_regrouped(pre, a2, family_suffix(v6));
    lemma_regrouped(pre, a3, from);
    lemma_regrouped(pre, a4, protocol_match(v6));
    lemma_regrouped(pre, a5, protocol);
    lemma_regrouped(pre, a6, " "@);
    lemma_regrouped(pre, a7, protocol);
    lemma_regrouped(pre, a8, " dport "@);
    lemma_regrouped(pre, a9, list_expr(ports));
    lemma_regrouped(pre, a10, " accept"@);
    lemma_regrouped(pre + a10, " accept"@, "\n"@);
    assert(" accept"@ + "\n"@ == " accept\n"@) by {
        reveal_strlit("\n");
        reveal_strlit(" accept");
        reveal_strlit(" accept\n");
        assert(" accept"@ + "\n"@ =~= " accept\n"@);
    }
    lemma_text_one(pre + (a10 + " accept"@));
}

proof fn lemma_protocol_lines(
    p: NftPolicy,
    t: NftTarget,
    r: NftTargetRule,
    protocol: Seq<char>,
    ports: Seq<Seq<char>>,
)
    ensures
        text_of_lines(protocol_line_list(p, t, r, protocol, ports)) == protocol_lines(
            p,
            t,
            r,
            protocol,
            ports,
        ),
{
    lemma_accept_text(t.name@, source_group(r), protocol, ports, false);
    lemma_accept_text(t.name@, source_group(r), protocol, ports, true);
    lemma_text_sum(
        lines_when(
            rule_applies(p, t, r, false),
            seq!["        "@ + accept_text(t.name@, source_group(r), protocol, ports, false)],
        ),
        lines_when(
            rule_applies(p, t, r, true),
            seq!["        "@ + accept_text(t.name@, source_group(r), protocol, ports, true)],
        ),
    );
}

proof fn lemma_target_rules(p: NftPolicy)
    ensures
        text_of_lines(flat(p.targets@, target_rule_lines(p))) == flat(p.targets@, target_rules(p)),
{
    reveal_strlit("");
    reveal_strlit("\n");
    reveal_strlit("        # ");
    reveal_strlit("\n        # ");
    assert forall|i: int| 0 <= i < p.targets@.len() implies target_rules(p)(
        #[trigger] p.targets@[i],
    ) == text_of_lines(target_rule_lines(p)(p.targets@[i])) by {
        let t = p.targets@[i];
        assert forall|j: int| 0 <= j < t.rules@.len() implies rule_lines(p, t)(
            #[trigger] t.rules@[j],
        ) == text_of_lines(rule_line_list(p, t)(t.rules@[j])) by {
            let r = t.rules@[j];
            if let Some(svc) = service_named(p.services@, r.service_name@) {
                lemma_protocol_lines(p, t, r, "tcp"@, views(svc.tcp_ports@));
                lemma_protocol_lines(p, t, r, "udp"@, views(svc.udp_ports@));
                lemma_text_sum(
                    protocol_line_list(p, t, r, "tcp"@, views(svc.tcp_ports@)),
                    protocol_line_list(p, t, r, "udp"@, views(svc.udp_ports@)),
                );
            }
        }
        lemma_text_flat(t.rules@, rule_lines(p, t), rule_line_list(p, t));
        let head = seq![""@, "        # "@ + uppercase(t.name@)];
        lemma_text_pair(""@, "        # "@ + uppercase(t.name@));
        assert(text_of_lines(head) =~= "\n        # "@ + uppercase(t.name@) + "\n"@);
        lemma_text_sum(head, flat(t.rules@, rule_line_list(p, t)));
    }
    lemma_text_flat(p.targets@, target_rules(p), target_rule_lines(p));
}

spec fn drop_text(t: NftTarget, v6: bool) -> Seq<char> {
    "        "@ + ip_word(v6) + " daddr @target_"@ + set_name(t.name@) + family_suffix(v6)
        + " counter log prefix \"NFT_"@ + log_label(t.name@) + (if v6 {
        "_V6_DROP: \" drop"@
    } else {
        "_V4_DROP: \" drop"@
    })
}

spec fn drop_line_list() -> spec_fn(NftTarget) -> Seq<Seq<char>> {
    |t: NftTarget|
        lines_when(addrs(t, false).len() > 0, seq![drop_text(t, false)]) + lines_when(
            addrs(t, true).len() > 0,
            seq![drop_text(t, true)],
        )
}

proof fn lemma_drop_lines(p: NftPolicy)
    ensures
        text_of_lines(flat(p.targets@, drop_line_list())) == flat(p.targets@, drop_lines_of()),
{
    reveal_strlit("\n");
    reveal_strlit("_V6_DROP: \" drop");
    reveal_strlit("_V4_DROP: \" drop");
    reveal_strlit("_V6_DROP: \" drop\n");
    reveal_strlit("_V4_DROP: \" drop\n");
    assert forall|i: int| 0 <= i < p.targets@.len() implies drop_lines_of()(
        #[trigger] p.targets@[i],
    ) == text_of_lines(drop_line_list()(p.targets@[i])) by {
        let t = p.targets@[i];
        lemma_text_one(drop_text(t, false));
        lemma_text_one(drop_text(t, true));
        assert(drop_line(t, false) =~= text_of_lines(
            lines_when(addrs(t, false).len() > 0, seq![drop_text(t, false)]),
        ));
        assert(drop_line(t, true) =~= text_of_lines(
            lines_when(addrs(t, true).len() > 0, seq![drop_text(t, true)]),
        ));
        lemma_text_sum(
            lines_when(addrs(t, false).len() > 0, seq![drop_text(t, false)]),
            lines_when(addrs(t, true).len() > 0, seq![drop_text(t, true)]),
        );
    }
    lemma_text_flat(p.targets@, drop_lines_of(), drop_line_list());
}

/// The line that binds the chain to its device.
spec fn hook_line(device: Seq<char>) -> Seq<char> {
    "        type filter hook ingress device \""@ + device
        + "\" priority -500; policy accept;"@
}

spec fn chain_head_lines(p: NftPolicy) -> Seq<Seq<char>> {
    seq![""@, "    chain "@ + p.chain_name@ + " {"@, hook_line(p.device_name@)]
}

spec fn bypass_lines() -> Seq<Seq<char>> {
    seq!["        tcp flags & (ack | rst) != 0 accept"@, "        udp sport 53 accept"@]
}

/// The lines that end the chain.
spec fn chain_end_lines() -> Seq<Seq<char>> {
    seq![""@, "        accept"@, "    }"@]
}

/// The lines of the chain.
spec fn chain_lines(p: NftPolicy) -> Seq<Seq<char>> {
    chain_head_lines(p) + bypass_lines() + lines_when(
        all_addrs(p.targets@, false).len() > 0 || all_addrs(p.targets@, true).len() > 0,
        title_lines("공통 허용 규칙 (Global Open: ICMP & 전역 규칙)"@),
    ) + common_lines(p, false) + common_lines(p, true) + lines_when(
        p.targets@.len() > 0,
        title_lines("서비스별 상세 규칙"@),
    ) + flat(p.targets@, target_rule_lines(p)) + lines_when(
        p.targets@.len() > 0,
        title_lines("대상별 개별 차단 로그"@),
    ) + flat(p.targets@, drop_line_list()) + chain_end_lines()
}

proof fn lemma_titles()
    ensures
        text_of_lines(title_lines("공통 허용 규칙 (Global Open: ICMP & 전역 규칙)"@))
            == COMMON_HEAD@,
        text_of_lines(title_lines("서비스별 상세 규칙"@)) == SERVICES_HEAD@,
        text_of_lines(title_lines("대상별 개별 차단 로그"@)) == DROPS_HEAD@,
{
    reveal_strlit("");
    reveal_strlit("\n");
    reveal_strlit("        # ==================================================");
    reveal_strlit("        # ");
    reveal_strlit("공통 허용 규칙 (Global Open: ICMP & 전역 규칙)");
    reveal_strlit("서비스별 상세 규칙");
    reveal_strlit("대상별 개별 차단 로그");
    reveal_strlit(
        "\n        # ==================================================\n        # 공통 허용 규칙 (Global Open: ICMP & 전역 규칙)\n        # ==================================================\n",
    );
    reveal_strlit(
        "\n        # ==================================================\n        # 서비스별 상세 규칙\n        # ==================================================\n",
    );
    reveal_strlit(
        "\n        # ==================================================\n        # 대상별 개별 차단 로그\n        # ==================================================\n",
    );
    let bar = "        # =================================================="@;
    lemma_text_four(
        ""@,
        bar,
        "        # "@ + "공통 허용 규칙 (Global Open: ICMP & 전역 규칙)"@,
        bar,
    );
    lemma_text_four(""@, bar, "        # "@ + "서비스별 상세 규칙"@, bar);
    lemma_text_four(""@, bar, "        # "@ + "대상별 개별 차단 로그"@, bar);
    assert(text_of_lines(title_lines("공통 허용 규칙 (Global Open: ICMP & 전역 규칙)"@))
        =~= COMMON_HEAD@);
    assert(text_of_lines(title_lines("서비스별 상세 규칙"@)) =~= SERVICES_HEAD@);
    assert(text_of_lines(title_lines("대상별 개별 차단 로그"@)) =~= DROPS_HEAD@);
}

proof fn lemma_chain_head(p: NftPolicy)
    ensures
        text_of_lines(chain_head_lines(p)) == chain_head(p),
        text_of_lines(bypass_lines()) == BYPASS_RULES@,
        text_of_lines(chain_end_lines()) == "\n        accept\n    }\n"@,
{
    reveal_strlit("");
    reveal_strlit("\n");
    reveal_strlit("    chain ");
    reveal_strlit("\n    chain ");
    reveal_strlit(" {");
    reveal_strlit("        type filter hook ingress device \"");
    reveal_strlit(" {\n        type filter hook ingress device \"");
    reveal_strlit("\" priority -500; policy accept;");
    reveal_strlit("\" priority -500; policy accept;\n");
    reveal_strlit("        tcp flags & (ack | rst) != 0 accept");
    reveal_strlit("        udp sport 53 accept");
    reveal_strlit("        tcp flags & (ack | rst) != 0 accept\n        udp sport 53 accept\n");
    reveal_strlit("        accept");
    reveal_strlit("    }");
    reveal_strlit("\n        accept\n    }\n");
    let open = "    chain "@ + p.chain_name@ + " {"@;
    let hook = hook_line(p.device_name@);
    assert(chain_head_lines(p) =~= seq![""@, open] + seq![hook]);
    lemma_text_sum(seq![""@, open], seq![hook]);
    lemma_text_pair(""@, open);
    lemma_text_one(hook);
    assert(text_of_lines(chain_head_lines(p)) =~= chain_head(p));
    lemma_text_pair("        tcp flags & (ack | rst) != 0 accept"@, "        udp sport 53 accept"@);
    assert(text_of_lines(bypass_lines()) =~= BYPASS_RULES@);
    lemma_text_pair(""@, "        accept"@);
    lemma_text_one("    }"@);
    lemma_text_sum(seq![""@, "        accept"@], seq!["    }"@]);
    assert(chain_end_lines() =~= seq![""@, "        accept"@] + seq!["    }"@]);
    assert(text_of_lines(chain_end_lines()) =~= "\n        accept\n    }\n"@);
}

proof fn lemma_chain_text(p: NftPolicy)
    ensures
        text_of_lines(chain_lines(p)) == chain_text(p),
{
    lemma_chain_head(p);
    lemma_titles();
    lemma_common_rules(p, false);
    lemma_common_rules(p, true);
    lemma_target_rules(p);
    lemma_drop_lines(p);
    let a0 = chain_head_lines(p);
    let a1 = bypass_lines();
    let a2 = lines_when(
        all_addrs(p.targets@, false).len() > 0 || all_addrs(p.targets@, true).len() > 0,
        title_lines("공통 허용 규칙 (Global Open: ICMP & 전역 규칙)"@),
    );
    let a3 = common_lines(p, false);
    let a4 = common_lines(p, true);
    let a5 = lines_when(p.targets@.len() > 0, title_lines("서비스별 상세 규칙"@));
    let a6 = flat(p.targets@, target_rule_lines(p));
    let a7 = lines_when(p.targets@.len() > 0, title_lines("대상별 개별 차단 로그"@));
    let a8 = flat(p.targets@, drop_line_list());
    let a9 = chain_end_lines();
    lemma_text_sum(a0, a1);
    lemma_text_sum(a0 + a1, a2);
    lemma_text_sum(a0 + a1 + a2, a3);
    lemma_text_sum(a0 + a1 + a2 + a3, a4);
    lemma_text_sum(a0 + a1 + a2 + a3 + a4, a5);
    lemma_text_sum(a0 + a1 + a2 + a3 + a4 + a5, a6);
    lemma_text_sum(a0 + a1 + a2 + a3 + a4 + a5 + a6, a7);
    lemma_text_sum(a0 + a1 + a2 + a3 + a4 + a5 + a6 + a7, a8);
    lemma_text_sum(a0 + a1 + a2 + a3 + a4 + a5 + a6 + a7 + a8, a9);
}

/// The lines that open the table.
spec fn table_head_lines(p: NftPolicy) -> Seq<Seq<char>> {
    seq![
        "table netdev "@ + p.table_name@ + " {"@,
        "    # --- 1. 대상 Pod/컨테이너 IP 그룹 (Targets) ---"@,
    ]
}

/// The lines of a policy file.
spec fn policy_lines(p: NftPolicy) -> Seq<Seq<char>> {
    table_head_lines(p) + flat(p.targets@, target_set_lines()) + group_section_lines(p)
        + port_set_lines(p) + chain_lines(p) + seq!["}"@]
}

proof fn lemma_table_head(p: NftPolicy)
    ensures
        text_of_lines(table_head_lines(p)) == "table netdev "@ + p.table_name@ + " {\n"@
            + TARGETS_HEAD@,
        text_of_lines(seq!["}"@]) == "}\n"@,
{
    reveal_strlit("\n");
    reveal_strlit(" {");
    reveal_strlit(" {\n");
    reveal_strlit("}");
    reveal_strlit("}\n");
    reveal_strlit("    # --- 1. 대상 Pod/컨테이너 IP 그룹 (Targets) ---");
    reveal_strlit("    # --- 1. 대상 Pod/컨테이너 IP 그룹 (Targets) ---\n");
    lemma_text_pair(table_head_lines(p)[0], table_head_lines(p)[1]);
    lemma_text_one("}"@);
    assert(table_head_lines(p) =~= seq![table_head_lines(p)[0], table_head_lines(p)[1]]);
    assert(text_of_lines(table_head_lines(p)) =~= "table netdev "@ + p.table_name@ + " {\n"@
        + TARGETS_HEAD@);
    assert("}"@ + "\n"@ =~= "}\n"@);
}

proof fn lemma_policy_text(p: NftPolicy)
    ensures
        text_of_lines(policy_lines(p)) == policy_text(p),
{
    lemma_table_head(p);
    lemma_target_sets(p);
    lemma_group_section(p);
    lemma_port_sets(p);
    lemma_chain_text(p);
    let a0 = table_head_lines(p);
    let a1 = flat(p.targets@, target_set_lines());
    let a2 = group_section_lines(p);
    let a3 = port_set_lines(p);
    let a4 = chain_lines(p);
    let a5 = seq!["}"@];
    lemma_text_sum(a0, a1);
    lemma_text_sum(a0 + a1, a2);
    lemma_text_sum(a0 + a1 + a2, a3);
    lemma_text_sum(a0 + a1 + a2 + a3, a4);
    lemma_text_sum(a0 + a1 + a2 + a3 + a4, a5);
}

// ---------------------------------------------------------------------------
// Reading the lines one after the other
// ---------------------------------------------------------------------------

/// How far the reading has come after some more lines.
spec fn nft_run(s: NftState, lines: Seq<Seq<char>>) -> NftState
    decreases lines.len(),
{
    if lines.len() == 0 {
        s
    } else {
        nft_step(nft_run(s, lines.drop_last()), lines.last())
    }
}

proof fn lemma_run_start(lines: Seq<Seq<char>>)
    ensures
        nft_run(nft_start(), lines) == nft_scan(lines),
    decreases lines.len(),
{
    if lines.len() > 0 {
        lemma_run_start(lines.drop_last());
    }
}

proof fn lemma_run_sum(s: NftState, a: Seq<Seq<char>>, b: Seq<Seq<char>>)
    ensures
        nft_run(s, a + b) == nft_run(nft_run(s, a), b),
    decreases b.len(),
{
    if b.len() == 0 {
        assert(a + b =~= a);
    } else {
        assert((a + b).drop_last() =~= a + b.drop_last());
        assert((a + b).last() == b.last());
        lemma_run_sum(s, a, b.drop_last());
    }
}

proof fn lemma_run_one(s: NftState, line: Seq<char>)
    ensures
        nft_run(s, seq![line]) == nft_step(s, line),
{
    assert(seq![line].drop_last() =~= Seq::<Seq<char>>::empty());
    assert(seq![line].last() == line);
    reveal_with_fuel(nft_run, 2);
}

proof fn lemma_run_two(s: NftState, a: Seq<char>, b: Seq<char>)
    ensures
        nft_run(s, seq![a, b]) == nft_step(nft_step(s, a), b),
{
    assert(seq![a, b] =~= seq![a] + seq![b]);
    lemma_run_sum(s, seq![a], seq![b]);
    lemma_run_one(s, a);
    lemma_run_one(nft_step(s, a), b);
}

/// Whether the text is a line for each of the given ones.
spec fn all_lines(v: Seq<Seq<char>>) -> bool {
    forall|i: int| 0 <= i < v.len() ==> is_line(#[trigger] v[i])
}

proof fn lemma_all_lines_sum(a: Seq<Seq<char>>, b: Seq<Seq<char>>)
    requires
        all_lines(a),
        all_lines(b),
    ensures
        all_lines(a + b),
{
    assert forall|i: int| 0 <= i < (a + b).len() implies is_line(#[trigger] (a + b)[i]) by {
        if i < a.len() {
            assert((a + b)[i] == a[i]);
        } else {
            assert((a + b)[i] == b[i - a.len()]);
        }
    }
}

proof fn lemma_all_lines_flat<T>(v: Seq<T>, f: spec_fn(T) -> Seq<Seq<char>>)
    requires
        forall|i: int| 0 <= i < v.len() ==> all_lines(f(#[trigger] v[i])),
    ensures
        all_lines(flat(v, f)),
    decreases v.len(),
{
    if v.len() > 0 {
        assert forall|i: int| 0 <= i < v.drop_last().len() implies all_lines(
            f(#[trigger] v.drop_last()[i]),
        ) by {
            assert(v.drop_last()[i] == v[i]);
        }
        lemma_all_lines_flat(v.drop_last(), f);
        assert(all_lines(f(v[v.len() - 1])));
        lemma_all_lines_sum(flat(v.drop_last(), f), f(v.last()));
    }
}

proof fn lemma_run_flat_kept<T>(s: NftState, v: Seq<T>, f: spec_fn(T) -> Seq<Seq<char>>)
    requires
        forall|i: int| 0 <= i < v.len() ==> nft_run(s, f(#[trigger] v[i])) == s,
    ensures
        nft_run(s, flat(v, f)) == s,
    decreases v.len(),
{
    if v.len() > 0 {
        assert forall|i: int| 0 <= i < v.drop_last().len() implies nft_run(
            s,
            f(#[trigger] v.drop_last()[i]),
        ) == s by {
            assert(v.drop_last()[i] == v[i]);
        }
        lemma_run_flat_kept(s, v.drop_last(), f);
        assert(nft_run(s, f(v[v.len() - 1])) == s);
        lemma_run_sum(s, flat(v.drop_last(), f), f(v.last()));
    }
}

/// Whether the line starts with `n` blanks, and the next character is none.
spec fn is_indented(line: Seq<char>, n: int) -> bool {
    &&& 0 <= n < line.len()
    &&& forall|j: int| 0 <= j < n ==> #[trigger] line[j] == ' '
    &&& !is_space(line[n])
}

proof fn lemma_indented(line: Seq<char>, n: int)
    requires
        is_indented(line, n),
        !is_space(line.last()),
    ensures
        trimmed(line) == line.skip(n),
{
    let pre = line.take(n);
    let body = line.skip(n);
    assert(all_space(pre)) by {
        assert forall|j: int| 0 <= j < pre.len() implies is_space(#[trigger] pre[j]) by {
            assert(pre[j] == line[j]);
        }
    }
    assert(body[0] == line[n] && body.last() == line.last());
    assert(pre + body + Seq::<char>::empty() =~= line);
    lemma_trimmed(pre, body, Seq::empty());
}

/// A comment changes nothing.
proof fn lemma_comment(s: NftState, line: Seq<char>, n: int)
    requires
        is_indented(line, n),
        line[n] == '#',
    ensures
        nft_step(s, line) == s,
{
    reveal_strlit("#");
    let pre = line.take(n);
    let body = line.skip(n);
    assert(all_space(pre)) by {
        assert forall|j: int| 0 <= j < pre.len() implies is_space(#[trigger] pre[j]) by {
            assert(pre[j] == line[j]);
        }
    }
    assert(body[0] == '#');
    assert(pre + body =~= line);
    lemma_trimmed_start(pre, body);
    let b = lemma_trimmed_end_is_part(body);
    assert(trimmed(line) == body.take(b));
    assert(b > 0) by {
        if b == 0 {
            assert(is_space(body[0]));
        }
    }
    assert("#"@ =~= body.take(b).take(1));
}

/// An empty line changes nothing inside a table.
proof fn lemma_empty_line(s: NftState)
    requires
        s.in_table,
        s.in_set is None,
    ensures
        nft_step(s, ""@) == s,
{
    reveal_strlit("");
    reveal_strlit("#");
    reveal_strlit("set ");
    reveal_strlit("chain ");
    reveal_strlit("}");
    reveal_strlit("{");
    reveal_strlit("accept");
    reveal_strlit("hook ingress device");
    assert(trimmed(""@) =~= ""@);
    assert(brace_change(""@) == 0);
    lemma_find_nowhere(""@, "hook ingress device"@);
}

// ---------------------------------------------------------------------------
// Lines of the chain
// ---------------------------------------------------------------------------

/// Whether the reading stands in the chain of a table.
spec fn in_chain(s: NftState) -> bool {
    s.in_table && s.in_set is None && s.in_chain
}

/// Whether the text holds no line break.
pub open spec fn is_unbroken(s: Seq<char>) -> bool {
    forall|i: int| 0 <= i < s.len() ==> #[trigger] s[i] != '\n'
}

proof fn lemma_unbroken_sum(a: Seq<char>, b: Seq<char>)
    requires
        is_unbroken(a),
        is_unbroken(b),
    ensures
        is_unbroken(a + b),
{
}

/// Whether the text names no device as the head of a chain does.
pub open spec fn names_no_hook(s: Seq<char>) -> bool {
    !contains_text(s, "hook ingress device"@)
}

/// A line that names no device and is no IPv4 rule for a protocol.
spec fn is_idle(line: Seq<char>) -> bool {
    &&& is_indented(line, 8)
    &&& !is_space(line.last())
    &&& is_unbroken(line)
    &&& line[8] != '}'
    &&& names_no_hook(line.skip(8))
    &&& line[8] != 'i' || line.len() <= 10 || line[10] != ' ' || rule_protocol(line.skip(8)) is None
}

proof fn lemma_idle(s: NftState, line: Seq<char>)
    requires
        in_chain(s),
        is_idle(line),
    ensures
        nft_step(s, line) == s,
{
    reveal_strlit("#");
    reveal_strlit("}");
    reveal_strlit("ip daddr @target_");
    lemma_indented(line, 8);
    let t = line.skip(8);
    assert(t[0] == line[8]);
    assert(t != "}"@);
    if "ip daddr @target_"@.is_prefix_of(t) {
        assert("ip daddr @target_"@[0] == t[0]);
        assert("ip daddr @target_"@[2] == t[2] && t[2] == line[10]);
        assert(read_rule(t) is None);
    }
    if "#"@.is_prefix_of(t) {
        assert(nft_step(s, line) == s);
    }
}

/// A text without an `h` names no device.
proof fn lemma_no_hook_nowhere(t: Seq<char>)
    requires
        forall|j: int| 0 <= j < t.len() ==> #[trigger] t[j] != 'h',
    ensures
        names_no_hook(t),
{
    reveal_strlit("hook ingress device");
    lemma_find_nowhere(t, "hook ingress device"@);
}

/// A text without white space and braces.
pub open spec fn is_bare(s: Seq<char>) -> bool {
    forall|i: int|
        0 <= i < s.len() ==> !is_space(#[trigger] s[i]) && s[i] != '{' && s[i] != '}'
}

/// Whether all texts are bare.
pub open spec fn all_bare(v: Seq<Seq<char>>) -> bool {
    forall|i: int| 0 <= i < v.len() ==> is_bare(#[trigger] v[i])
}

proof fn lemma_bare_is_unbroken(s: Seq<char>)
    requires
        is_bare(s),
    ensures
        is_unbroken(s),
{
    assert(is_space('\n') && is_space('\r'));
}

proof fn lemma_joined_is_unbroken(v: Seq<Seq<char>>)
    requires
        all_bare(v),
    ensures
        is_unbroken(joined(v, ", "@)),
    decreases v.len(),
{
    reveal_strlit(", ");
    if v.len() == 1 {
        lemma_bare_is_unbroken(v[0]);
    } else if v.len() > 1 {
        assert(all_bare(v.drop_last())) by {
            assert forall|i: int| 0 <= i < v.drop_last().len() implies is_bare(
                #[trigger] v.drop_last()[i],
            ) by {
                assert(v.drop_last()[i] == v[i]);
            }
        }
        lemma_joined_is_unbroken(v.drop_last());
        lemma_bare_is_unbroken(v[v.len() - 1]);
        lemma_unbroken_sum(joined(v.drop_last(), ", "@), ", "@);
        lemma_unbroken_sum(joined(v.drop_last(), ", "@) + ", "@, v.last());
    }
}

proof fn lemma_list_is_unbroken(v: Seq<Seq<char>>)
    requires
        all_bare(v),
    ensures
        is_unbroken(list_expr(v)),
{
    reveal_strlit("{ ");
    reveal_strlit(" }");
    lemma_joined_is_unbroken(v);
    if v.len() == 1 {
        lemma_bare_is_unbroken(v[0]);
    } else if v.len() > 1 {
        lemma_unbroken_sum("{ "@, joined(v, ", "@));
        lemma_unbroken_sum("{ "@ + joined(v, ", "@), " }"@);
    }
}

/// Where blanks stand in a text that joins bare texts: behind commas.
proof fn lemma_joined_blanks(v: Seq<Seq<char>>)
    requires
        all_bare(v),
    ensures
        forall|k: int|
            #![trigger joined(v, ", "@)[k]]
            0 <= k < joined(v, ", "@).len() && joined(v, ", "@)[k] == ' ' ==> k > 0 && joined(
                v,
                ", "@,
            )[k - 1] == ',',
    decreases v.len(),
{
    reveal_strlit(", ");
    assert(is_space(' '));
    if v.len() == 1 {
        assert(is_bare(v[0]));
    } else if v.len() > 1 {
        let front = v.drop_last();
        assert forall|i: int| 0 <= i < front.len() implies is_bare(#[trigger] front[i]) by {
            assert(front[i] == v[i]);
        }
        lemma_joined_blanks(front);
        let a = joined(front, ", "@);
        let x = v[v.len() - 1];
        assert(is_bare(x));
        let all = joined(v, ", "@);
        assert(all == a + ", "@ + x);
        assert forall|k: int| #![trigger all[k]] 0 <= k < all.len() && all[k] == ' ' implies k > 0
            && all[k - 1] == ',' by {
            if k < a.len() {
                assert(all[k] == a[k]);
                assert(all[k - 1] == a[k - 1]);
            } else if k < a.len() + 2 {
                assert(all[k] == ", "@[k - a.len()]);
                assert(k == a.len() + 1);
                assert(all[k - 1] == ", "@[0]);
            } else {
                assert(all[k] == x[k - a.len() - 2]);
            }
        }
    }
}

/// A text without blanks, or one in braces whose blanks stand next to a brace or a comma.
spec fn is_list(s: Seq<char>) -> bool {
    (forall|k: int| 0 <= k < s.len() ==> #[trigger] s[k] != ' ') || (s.len() > 0 && s.last() == '}'
        && forall|k: int|
        #![trigger s[k]]
        0 <= k < s.len() && s[k] == ' ' ==> (k > 0 && (s[k - 1] == ',' || s[k - 1] == '{')) || (k + 1
            < s.len() && s[k + 1] == '}'))
}

proof fn lemma_list_blanks(v: Seq<Seq<char>>)
    requires
        all_bare(v),
    ensures
        is_list(list_expr(v)),
{
    reveal_strlit("{ ");
    reveal_strlit(" }");
    assert(is_space(' '));
    if v.len() == 1 {
        assert(is_bare(v[0]));
    } else if v.len() > 1 {
        lemma_joined_blanks(v);
        let a = joined(v, ", "@);
        let s = list_expr(v);
        assert(s.last() == '}');
        assert forall|k: int| #![trigger s[k]] 0 <= k < s.len() && s[k] == ' ' implies (k > 0 && (
        s[k - 1] == ',' || s[k - 1] == '{')) || (k + 1 < s.len() && s[k + 1] == '}') by {
            if k < 2 {
                assert(s[k] == "{ "@[k]);
                assert(k == 1);
                assert(s[0] == "{ "@[0]);
            } else if k < 2 + a.len() {
                assert(s[k] == a[k - 2]);
                assert(s[k - 1] == a[k - 3]);
            } else {
                assert(s[k] == " }"@[k - 2 - a.len()]);
                assert(k == 2 + a.len());
                assert(s[k + 1] == " }"@[1]);
            }
        }
    }
}

/// Whether each blank stands behind a character that ends neither `hook` nor `ingress`.
spec fn is_safe(s: Seq<char>) -> bool {
    forall|k: int|
        #![trigger s[k]]
        0 <= k < s.len() && s[k] == ' ' ==> k > 0 && s[k - 1] != 's' && s[k - 1] != 'k'
}

/// The same of each blank but one at the start.
spec fn is_safe_behind(s: Seq<char>) -> bool {
    forall|k: int|
        #![trigger s[k]]
        0 < k < s.len() && s[k] == ' ' ==> s[k - 1] != 's' && s[k - 1] != 'k'
}

proof fn lemma_safe_sum(a: Seq<char>, b: Seq<char>)
    requires
        is_safe(a),
        is_safe_behind(b),
        b.len() > 0 && b[0] == ' ' ==> a.len() > 0 && a.last() != 's' && a.last() != 'k',
    ensures
        is_safe(a + b),
{
    let s = a + b;
    assert forall|k: int| #![trigger s[k]] 0 <= k < s.len() && s[k] == ' ' implies k > 0 && s[k - 1]
        != 's' && s[k - 1] != 'k' by {
        if k < a.len() {
            assert(s[k] == a[k]);
            assert(s[k - 1] == a[k - 1]);
        } else if k == a.len() {
            assert(s[k] == b[0]);
            assert(s[k - 1] == a.last());
        } else {
            assert(s[k] == b[k - a.len()]);
            assert(s[k - 1] == b[k - 1 - a.len()]);
        }
    }
}

/// A rule names no device: a list between a head and a tail with such blanks.
proof fn lemma_no_hook(head: Seq<char>, list: Seq<char>, tail: Seq<char>)
    requires
        is_safe(head),
        head.len() > 0,
        head.last() == ' ',
        is_list(list),
        tail.len() > 0,
        forall|k: int|
            #![trigger tail[k]]
            0 < k < tail.len() && tail[k] == ' ' ==> k + 2 < tail.len() && (tail[k + 1] != 'd'
                || tail[k + 2] != 'e'),
    ensures
        names_no_hook(head + list + tail),
{
    let p = "hook ingress device"@;
    reveal_strlit("hook ingress device");
    let t = head + list + tail;
    lemma_find_from(t, p, 0);
    if let Some(i) = find_text(t, p) {
        let part = t.subrange(i, i + 19);
        assert(part[3] == t[i + 3] && part[4] == t[i + 4] && part[11] == t[i + 11] && part[12]
            == t[i + 12] && part[13] == t[i + 13] && part[14] == t[i + 14]);
        let one = i + 4;
        let two = i + 12;
        let n = head.len() as int;
        let m = list.len() as int;
        if two < n {
            assert(t[two] == head[two] && t[two - 1] == head[two - 1]);
        } else if two < n + m {
            let k = two - n;
            assert(t[two] == list[k]);
            if k > 0 {
                assert(t[two - 1] == list[k - 1]);
            }
            if k + 1 < m {
                assert(t[two + 1] == list[k + 1]);
            }
        } else if two == n + m {
            if m == 0 {
                assert(t[two - 1] == head.last());
            } else {
                assert(t[two - 1] == list.last());
                if one < n {
                    assert(t[one] == head[one] && t[one - 1] == head[one - 1]);
                } else {
                    assert(t[one] == list[one - n]);
                }
            }
        } else {
            let k = two - n - m;
            assert(t[two] == tail[k]);
            assert(t[two + 1] == tail[k + 1] && t[two + 2] == tail[k + 2]);
        }
    }
}

/// No rule for the addresses of a list matches a protocol by a text of the given form.
proof fn lemma_no_match(list: Seq<char>, tail: Seq<char>, p: Seq<char>, b: int)
    requires
        is_list(list),
        tail.len() > 0,
        forall|k: int|
            #![trigger tail[k]]
            0 < k < tail.len() && tail[k] == ' ' ==> k + 1 < tail.len() && tail[k + 1] != 't'
                && tail[k + 1] != 'u',
        p.len() == 15,
        2 <= b <= 3,
        p[b] == ' ' && p[11] == ' ',
        p[b - 1] == 'p' || p[b - 1] == '6',
        p[b + 1] == 'p' || p[b + 1] == 'n',
        p[10] == 'l' || p[10] == 'r',
        p[12] == 't' || p[12] == 'u',
    ensures
        !contains_text("ip daddr "@ + list + tail, p),
{
    reveal_strlit("ip daddr ");
    let t = "ip daddr "@ + list + tail;
    lemma_find_from(t, p, 0);
    if let Some(i) = find_text(t, p) {
        let part = t.subrange(i, i + 15);
        assert(part[b - 1] == t[i + b - 1] && part[b] == t[i + b] && part[b + 1] == t[i + b + 1]);
        assert(part[10] == t[i + 10] && part[11] == t[i + 11] && part[12] == t[i + 12]);
        let one = i + b;
        let two = i + 11;
        let m = list.len() as int;
        if two < 9 {
            assert(t[two] == "ip daddr "@[two] && t[two - 1] == "ip daddr "@[two - 1]);
        } else if two < 9 + m {
            let k = two - 9;
            assert(t[two] == list[k]);
            if k > 0 {
                assert(t[two - 1] == list[k - 1]);
            }
            if k + 1 < m {
                assert(t[two + 1] == list[k + 1]);
            }
        } else if two == 9 + m {
            if m == 0 {
                assert(t[two - 1] == "ip daddr "@[8]);
            } else {
                assert(t[two - 1] == list.last());
                if one < 9 {
                    assert(t[one] == "ip daddr "@[one] && t[one - 1] == "ip daddr "@[one - 1]);
                    if one < 8 {
                        assert(t[one + 1] == "ip daddr "@[one + 1]);
                    }
                } else {
                    assert(t[one] == list[one - 9]);
                }
            }
        } else {
            let k = two - 9 - m;
            assert(t[two] == tail[k]);
            assert(t[two + 1] == tail[k + 1]);
        }
    }
}

proof fn lemma_no_rule_protocol(list: Seq<char>, tail: Seq<char>)
    requires
        is_list(list),
        tail.len() > 0,
        forall|k: int|
            #![trigger tail[k]]
            0 < k < tail.len() && tail[k] == ' ' ==> k + 1 < tail.len() && tail[k + 1] != 't'
                && tail[k + 1] != 'u',
    ensures
        rule_protocol("ip daddr "@ + list + tail) is None,
{
    reveal_strlit("ip protocol tcp");
    reveal_strlit("ip protocol udp");
    reveal_strlit("ip6 nexthdr tcp");
    reveal_strlit("ip6 nexthdr udp");
    lemma_no_match(list, tail, "ip protocol tcp"@, 2);
    lemma_no_match(list, tail, "ip protocol udp"@, 2);
    lemma_no_match(list, tail, "ip6 nexthdr tcp"@, 3);
    lemma_no_match(list, tail, "ip6 nexthdr udp"@, 3);
}

/// A rule for the addresses of all targets is idle.
proof fn lemma_common_line(v6: bool, ips: Seq<char>, tail: Seq<char>)
    requires
        is_list(ips),
        is_unbroken(ips),
        is_unbroken(tail),
        tail.len() > 0,
        tail.last() == 't',
        forall|k: int|
            #![trigger tail[k]]
            0 < k < tail.len() && tail[k] == ' ' ==> {
                &&& k + 2 < tail.len()
                &&& tail[k + 1] != 'd' || tail[k + 2] != 'e'
                &&& v6 || (tail[k + 1] != 't' && tail[k + 1] != 'u')
            },
    ensures
        is_idle("        "@ + ip_word(v6) + " daddr "@ + ips + tail),
{
    reveal_strlit("        ");
    reveal_strlit("ip");
    reveal_strlit("ip6");
    reveal_strlit(" daddr ");
    reveal_strlit("ip daddr ");
    let head = ip_word(v6) + " daddr "@;
    let line = "        "@ + ip_word(v6) + " daddr "@ + ips + tail;
    assert(is_unbroken("        "@ + ip_word(v6) + " daddr "@));
    lemma_unbroken_sum("        "@ + ip_word(v6) + " daddr "@, ips);
    lemma_unbroken_sum("        "@ + ip_word(v6) + " daddr "@ + ips, tail);
    assert(line.last() == tail.last());
    assert forall|j: int| 0 <= j < 8 implies #[trigger] line[j] == ' ' by {
        assert(line[j] == "        "@[j]);
    }
    assert(line[8] == 'i');
    assert(line.skip(8) =~= head + ips + tail);
    assert(is_safe(head));
    assert(head.last() == ' ');
    lemma_no_hook(head, ips, tail);
    if v6 {
        assert(line[10] == '6');
    } else {
        assert(head =~= "ip daddr "@);
        lemma_no_rule_protocol(ips, tail);
    }
}

proof fn lemma_idle_is_line(line: Seq<char>)
    requires
        is_idle(line),
    ensures
        is_line(line),
{
    assert(is_space('\r'));
}

/// Idle lines change nothing.
proof fn lemma_idle_run(s: NftState, v: Seq<Seq<char>>)
    requires
        in_chain(s),
        forall|i: int| 0 <= i < v.len() ==> is_idle(#[trigger] v[i]),
    ensures
        nft_run(s, v) == s,
        all_lines(v),
    decreases v.len(),
{
    if v.len() > 0 {
        let front = v.drop_last();
        assert forall|i: int| 0 <= i < front.len() implies is_idle(#[trigger] front[i]) by {
            assert(front[i] == v[i]);
        }
        lemma_idle_run(s, front);
        assert(is_idle(v[v.len() - 1]));
        lemma_idle(s, v.last());
        assert forall|i: int| 0 <= i < v.len() implies is_line(#[trigger] v[i]) by {
            lemma_idle_is_line(v[i]);
        }
    }
}

proof fn lemma_bypass_run(s: NftState)
    requires
        in_chain(s),
    ensures
        nft_run(s, bypass_lines()) == s,
        all_lines(bypass_lines()),
{
    reveal_strlit("        tcp flags & (ack | rst) != 0 accept");
    reveal_strlit("        udp sport 53 accept");
    lemma_no_hook_nowhere("        tcp flags & (ack | rst) != 0 accept"@.skip(8));
    lemma_no_hook_nowhere("        udp sport 53 accept"@.skip(8));
    assert(is_idle("        tcp flags & (ack | rst) != 0 accept"@));
    assert(is_idle("        udp sport 53 accept"@));
    lemma_idle_run(s, bypass_lines());
}

/// A comment that ends in a line is one.
proof fn lemma_note_is_line(text: Seq<char>)
    requires
        is_line(text),
    ensures
        is_line("        # "@ + text),
{
    reveal_strlit("        # ");
    let note = "        # "@ + text;
    assert forall|i: int| 0 <= i < note.len() implies #[trigger] note[i] != '\n' by {
        if i >= 10 {
            assert(note[i] == text[i - 10]);
        }
    }
    if text.len() > 0 {
        assert(note.last() == text.last());
    }
}

proof fn lemma_title_run(s: NftState, title: Seq<char>)
    requires
        in_chain(s),
        is_line(title),
    ensures
        nft_run(s, title_lines(title)) == s,
        all_lines(title_lines(title)),
{
    reveal_strlit("");
    reveal_strlit("        # ==================================================");
    reveal_strlit("        # ");
    let bar = "        # =================================================="@;
    let text = "        # "@ + title;
    lemma_empty_line(s);
    lemma_comment(s, bar, 8);
    lemma_comment(s, text, 8);
    assert(title_lines(title) =~= seq![""@, bar] + seq![text, bar]);
    lemma_run_sum(s, seq![""@, bar], seq![text, bar]);
    lemma_run_two(s, ""@, bar);
    lemma_run_two(s, text, bar);
    lemma_note_is_line(title);
    assert(is_line(bar));
}

proof fn lemma_icmp_line(ips: Seq<char>, v6: bool)
    requires
        is_list(ips),
        is_unbroken(ips),
    ensures
        is_idle(icmp_line(ips, v6)),
        is_idle(traceroute_line(ips, v6)),
{
    reveal_strlit(" ip6 nexthdr icmpv6 accept");
    reveal_strlit(" ip protocol icmp accept");
    reveal_strlit(" udp dport @traceroute_udp_ports accept");
    lemma_common_line(
        v6,
        ips,
        if v6 {
            " ip6 nexthdr icmpv6 accept"@
        } else {
            " ip protocol icmp accept"@
        },
    );
    lemma_common_line(v6, ips, " udp dport @traceroute_udp_ports accept"@);
}

proof fn lemma_global_name_is_bare(i: int, g: NftGlobalRule)
    requires
        is_bare(g.protocol@),
    ensures
        is_bare(global_set_name(i, g)),
        global_set_name(i, g).len() > 7,
        global_set_name(i, g)[0] == 'g',
{
    reveal_strlit("global_");
    reveal_strlit("_");
    reveal_strlit("_ports");
    let name = global_set_name(i, g);
    let number = decimal(i as nat);
    let proto = g.protocol@;
    lemma_decimal_is_bare(i as nat);
    assert forall|k: int| 0 <= k < name.len() implies !is_space(#[trigger] name[k]) && name[k]
        != '{' && name[k] != '}' by {
        if k < 7 {
            assert(name[k] == "global_"@[k]);
        } else if k < 7 + proto.len() {
            assert(name[k] == proto[k - 7]);
        } else if k < 8 + proto.len() {
            assert(name[k] == '_');
        } else if k < 8 + proto.len() + number.len() {
            assert(name[k] == number[k - 8 - proto.len()]);
        } else {
            assert(name[k] == "_ports"@[k - 8 - proto.len() - number.len()]);
        }
    }
}

proof fn lemma_global_line(ips: Seq<char>, v6: bool, i: int, g: NftGlobalRule)
    requires
        is_list(ips),
        is_unbroken(ips),
        is_bare(g.protocol@),
    ensures
        is_idle(global_line(ips, v6, i, g)),
{
    reveal_strlit("        ip6 daddr ");
    reveal_strlit("        ip daddr ");
    reveal_strlit("        ");
    reveal_strlit("ip");
    reveal_strlit("ip6");
    reveal_strlit(" daddr ");
    reveal_strlit(" ip6 nexthdr ");
    reveal_strlit(" ");
    reveal_strlit("tcp");
    reveal_strlit("udp");
    reveal_strlit(" dport @");
    reveal_strlit(" accept");
    assert(is_space(' '));
    lemma_global_name_is_bare(i, g);
    let line = global_line(ips, v6, i, g);
    let name = global_set_name(i, g);
    let n = name.len() as int;
    lemma_bare_is_unbroken(name);
    if v6 {
        let x = v6_protocol(g);
        let front = " ip6 nexthdr "@ + x + " "@ + x + " dport @"@;
        let tail = front + name + " accept"@;
        assert(x.len() == 3);
        assert(front.len() == 28);
        assert(is_unbroken(front));
        lemma_unbroken_sum(front, name);
        lemma_unbroken_sum(front + name, " accept"@);
        assert(tail.last() == 't');
        assert forall|k: int| #![trigger tail[k]] 0 < k < tail.len() && tail[k] == ' ' implies k + 2
            < tail.len() && (tail[k + 1] != 'd' || tail[k + 2] != 'e') by {
            if k < 28 {
                assert(tail[k] == front[k]);
                assert(k + 1 < 28);
                assert(tail[k + 1] == front[k + 1]);
                if k < 26 {
                    assert(tail[k + 2] == front[k + 2]);
                }
            } else if k < 28 + n {
                assert(tail[k] == name[k - 28]);
            } else {
                assert(tail[k] == " accept"@[k - 28 - n]);
                assert(k == 28 + n);
                assert(tail[k + 1] == " accept"@[1]);
            }
        }
        lemma_common_line(true, ips, tail);
        assert(line =~= "        "@ + ip_word(v6) + " daddr "@ + ips + tail);
    } else {
        let x = g.protocol@;
        let m = x.len() as int;
        let tail = " "@ + x + " dport @"@ + name + " accept"@;
        lemma_bare_is_unbroken(x);
        lemma_unbroken_sum(" "@, x);
        lemma_unbroken_sum(" "@ + x, " dport @"@);
        lemma_unbroken_sum(" "@ + x + " dport @"@, name);
        lemma_unbroken_sum(" "@ + x + " dport @"@ + name, " accept"@);
        assert(tail.last() == 't');
        assert forall|k: int| #![trigger tail[k]] 0 < k < tail.len() && tail[k] == ' ' implies k + 2
            < tail.len() && (tail[k + 1] != 'd' || tail[k + 2] != 'e') && tail[k + 1] != 't'
            && tail[k + 1] != 'u' by {
            if k < 1 + m {
                assert(tail[k] == x[k - 1]);
            } else if k < 9 + m {
                assert(tail[k] == " dport @"@[k - 1 - m]);
                assert(k == 1 + m || k == 7 + m);
                assert(tail[k + 1] == " dport @"@[k - m]);
                if k == 1 + m {
                    assert(tail[k + 2] == " dport @"@[2]);
                }
            } else if k < 9 + m + n {
                assert(tail[k] == name[k - 9 - m]);
            } else {
                assert(tail[k] == " accept"@[k - 9 - m - n]);
                assert(k == 9 + m + n);
                assert(tail[k + 1] == " accept"@[1]);
            }
        }
        lemma_common_line(false, ips, tail);
        assert(line =~= "        "@ + ip_word(v6) + " daddr "@ + ips + tail);
    }
}

proof fn lemma_all_addrs(targets: Seq<NftTarget>, v6: bool)
    requires
        forall|i: int| 0 <= i < targets.len() ==> all_bare(addrs(#[trigger] targets[i], v6)),
    ensures
        all_bare(all_addrs(targets, v6)),
    decreases targets.len(),
{
    if targets.len() > 0 {
        let front = targets.drop_last();
        assert forall|i: int| 0 <= i < front.len() implies all_bare(
            addrs(#[trigger] front[i], v6),
        ) by {
            assert(front[i] == targets[i]);
        }
        lemma_all_addrs(front, v6);
        let a = all_addrs(front, v6);
        let b = addrs(targets[targets.len() - 1], v6);
        assert(all_bare(b));
        let all = all_addrs(targets, v6);
        assert(all == a + b);
        assert forall|i: int| 0 <= i < all.len() implies is_bare(#[trigger] all[i]) by {
            if i < a.len() {
                assert(all[i] == a[i]);
            } else {
                assert(all[i] == b[i - a.len()]);
            }
        }
    }
}

proof fn lemma_globals_are_idle(
    v: Seq<NftGlobalRule>,
    ips: Seq<char>,
    v6: bool,
)
    requires
        is_list(ips),
        is_unbroken(ips),
        forall|i: int| 0 <= i < v.len() ==> is_bare((#[trigger] v[i]).protocol@),
    ensures
        forall|i: int|
            0 <= i < flat_indexed(v, global_lines(ips, v6)).len() ==> is_idle(
                #[trigger] flat_indexed(v, global_lines(ips, v6))[i],
            ),
    decreases v.len(),
{
    if v.len() > 0 {
        let front = v.drop_last();
        assert forall|i: int| 0 <= i < front.len() implies is_bare(
            (#[trigger] front[i]).protocol@,
        ) by {
            assert(front[i] == v[i]);
        }
        lemma_globals_are_idle(front, ips, v6);
        assert(is_bare(v[v.len() - 1].protocol@));
        lemma_global_line(ips, v6, v.len() - 1, v.last());
        let a = flat_indexed(front, global_lines(ips, v6));
        let all = flat_indexed(v, global_lines(ips, v6));
        assert(all == a + seq![global_line(ips, v6, v.len() - 1, v.last())]);
        assert forall|i: int| 0 <= i < all.len() implies is_idle(#[trigger] all[i]) by {
            if i < a.len() {
                assert(all[i] == a[i]);
            }
        }
    }
}

proof fn lemma_common_run(s: NftState, p: NftPolicy, v6: bool)
    requires
        in_chain(s),
        all_bare(all_addrs(p.targets@, v6)),
        forall|i: int|
            0 <= i < p.global_rules@.len() ==> is_bare((#[trigger] p.global_rules@[i]).protocol@),
    ensures
        nft_run(s, common_lines(p, v6)) == s,
        all_lines(common_lines(p, v6)),
{
    let v = all_addrs(p.targets@, v6);
    let ips = list_expr(v);
    lemma_list_is_unbroken(v);
    lemma_list_blanks(v);
    if v.len() > 0 {
        lemma_icmp_line(ips, v6);
        lemma_globals_are_idle(p.global_rules@, ips, v6);
        let all = common_lines(p, v6);
        assert forall|i: int| 0 <= i < all.len() implies is_idle(#[trigger] all[i]) by {
            if i > 0 && p.global_rules@.len() > 0 {
                assert(all[i] == flat_indexed(p.global_rules@, global_lines(ips, v6))[i - 1]);
            }
        }
        lemma_idle_run(s, all);
    }
}

// ---------------------------------------------------------------------------
// Rules of the targets
// ---------------------------------------------------------------------------

/// `f` with what the given accept rules say.
pub open spec fn with_chain_rules(f: Found, rules: Seq<Seq<char>>) -> Found
    decreases rules.len(),
{
    if rules.len() == 0 {
        f
    } else {
        with_chain_rule(with_chain_rules(f, rules.drop_last()), rules.last())
    }
}

proof fn lemma_chain_rules_sum(f: Found, a: Seq<Seq<char>>, b: Seq<Seq<char>>)
    ensures
        with_chain_rules(f, a + b) == with_chain_rules(with_chain_rules(f, a), b),
    decreases b.len(),
{
    if b.len() == 0 {
        assert(a + b =~= a);
    } else {
        assert((a + b).drop_last() =~= a + b.drop_last());
        assert((a + b).last() == b.last());
        lemma_chain_rules_sum(f, a, b.drop_last());
    }
}

/// The IPv4 rule that lets a service in over one protocol, where there is one.
pub open spec fn protocol_rules(
    p: NftPolicy,
    t: NftTarget,
    r: NftTargetRule,
    protocol: Seq<char>,
    ports: Seq<Seq<char>>,
) -> Seq<Seq<char>> {
    if ports.len() > 0 && rule_applies(p, t, r, false) {
        seq![accept_text(t.name@, source_group(r), protocol, ports, false)]
    } else {
        Seq::empty()
    }
}

/// The IPv4 rules that a rule of a target gives.
pub open spec fn rules_of(p: NftPolicy, t: NftTarget) -> spec_fn(NftTargetRule) -> Seq<Seq<char>> {
    |r: NftTargetRule|
        match service_named(p.services@, r.service_name@) {
            Some(svc) => protocol_rules(p, t, r, "tcp"@, views(svc.tcp_ports@)) + protocol_rules(
                p,
                t,
                r,
                "udp"@,
                views(svc.udp_ports@),
            ),
            None => Seq::empty(),
        }
}

/// The IPv4 rules of a target.
pub open spec fn target_rule_texts(p: NftPolicy) -> spec_fn(NftTarget) -> Seq<Seq<char>> {
    |t: NftTarget| flat(t.rules@, rules_of(p, t))
}

/// The state with other findings.
spec fn finding(s: NftState, f: Found) -> NftState {
    NftState { found: f, ..s }
}

proof fn lemma_accept_is_unbroken(
    target: Seq<char>,
    source: Option<Seq<char>>,
    protocol: Seq<char>,
    ports: Seq<Seq<char>>,
    v6: bool,
)
    requires
        is_bare(set_name(target)),
        source is Some ==> is_bare(set_name(source->0)),
        is_bare(protocol),
        all_bare(ports),
    ensures
        is_unbroken(accept_text(target, source, protocol, ports, v6)),
{
    reveal_strlit("ip");
    reveal_strlit("ip6");
    reveal_strlit(" daddr @target_");
    reveal_strlit("_v4");
    reveal_strlit("_v6");
    reveal_strlit(" ");
    reveal_strlit(" saddr @sg_");
    reveal_strlit(" ip6 nexthdr ");
    reveal_strlit(" ip protocol ");
    reveal_strlit(" dport ");
    reveal_strlit(" accept");
    lemma_bare_is_unbroken(set_name(target));
    lemma_bare_is_unbroken(protocol);
    lemma_list_is_unbroken(ports);
    let from = match source {
        Some(g) => " "@ + ip_word(v6) + " saddr @sg_"@ + set_name(g) + family_suffix(v6),
        None => Seq::empty(),
    };
    assert(is_unbroken(from)) by {
        if let Some(g) = source {
            lemma_bare_is_unbroken(set_name(g));
            lemma_unbroken_sum(" "@, ip_word(v6));
            lemma_unbroken_sum(" "@ + ip_word(v6), " saddr @sg_"@);
            lemma_unbroken_sum(" "@ + ip_word(v6) + " saddr @sg_"@, set_name(g));
            lemma_unbroken_sum(
                " "@ + ip_word(v6) + " saddr @sg_"@ + set_name(g),
                family_suffix(v6),
            );
        }
    }
    let a = ip_word(v6) + " daddr @target_"@;
    lemma_unbroken_sum(ip_word(v6), " daddr @target_"@);
    let b = a + set_name(target);
    lemma_unbroken_sum(a, set_name(target));
    let c = b + family_suffix(v6);
    lemma_unbroken_sum(b, family_suffix(v6));
    let d = c + from;
    lemma_unbroken_sum(c, from);
    let e = d + protocol_match(v6);
    lemma_unbroken_sum(d, protocol_match(v6));
    lemma_unbroken_sum(e, protocol);
    lemma_unbroken_sum(e + protocol, " "@);
    lemma_unbroken_sum(e + protocol + " "@, protocol);
    lemma_unbroken_sum(e + protocol + " "@ + protocol, " dport "@);
    lemma_unbroken_sum(e + protocol + " "@ + protocol + " dport "@, list_expr(ports));
    lemma_unbroken_sum(
        e + protocol + " "@ + protocol + " dport "@ + list_expr(ports),
        " accept"@,
    );
}

/// What an accept rule starts and ends with.
proof fn lemma_accept_ends(
    target: Seq<char>,
    source: Option<Seq<char>>,
    protocol: Seq<char>,
    ports: Seq<Seq<char>>,
    v6: bool,
)
    ensures
        ({
            let t = accept_text(target, source, protocol, ports, v6);
            &&& t.len() > 17
            &&& t[0] == 'i'
            &&& v6 ==> t[2] == '6'
            &&& !v6 ==> "ip daddr @target_"@.is_prefix_of(t)
            &&& "accept"@.is_suffix_of(t)
        }),
{
    reveal_strlit("ip");
    reveal_strlit("ip6");
    reveal_strlit(" daddr @target_");
    reveal_strlit("ip daddr @target_");
    reveal_strlit("_v4");
    reveal_strlit("_v6");
    reveal_strlit(" accept");
    reveal_strlit("accept");
    let t = accept_text(target, source, protocol, ports, v6);
    let head = ip_word(v6) + " daddr @target_"@;
    let front = head + set_name(target) + family_suffix(v6) + (match source {
        Some(g) => " "@ + ip_word(v6) + " saddr @sg_"@ + set_name(g) + family_suffix(v6),
        None => Seq::empty(),
    }) + protocol_match(v6) + protocol + " "@ + protocol + " dport "@ + list_expr(ports);
    assert(t == front + " accept"@);
    assert forall|i: int| 0 <= i < head.len() implies #[trigger] t[i] == head[i] by {}
    if !v6 {
        assert(head =~= "ip daddr @target_"@);
        assert(t.take(17) =~= head);
    } else {
        assert(t[2] == head[2]);
    }
    assert(t[0] == head[0]);
    assert(t.skip(t.len() - 6) =~= "accept"@);
}

proof fn lemma_accept_names_no_hook(
    target: Seq<char>,
    source: Option<Seq<char>>,
    protocol: Seq<char>,
    ports: Seq<Seq<char>>,
    v6: bool,
)
    requires
        is_bare(set_name(target)),
        source is Some ==> is_bare(set_name(source->0)),
        protocol == "tcp"@ || protocol == "udp"@,
        all_bare(ports),
    ensures
        names_no_hook(accept_text(target, source, protocol, ports, v6)),
{
    reveal_strlit("ip");
    reveal_strlit("ip6");
    reveal_strlit(" daddr @target_");
    reveal_strlit("_v4");
    reveal_strlit("_v6");
    reveal_strlit(" ");
    reveal_strlit(" saddr @sg_");
    reveal_strlit(" ip6 nexthdr ");
    reveal_strlit(" ip protocol ");
    reveal_strlit(" dport ");
    reveal_strlit(" accept");
    reveal_strlit("tcp");
    reveal_strlit("udp");
    assert(is_space(' '));
    let from = match source {
        Some(g) => " "@ + ip_word(v6) + " saddr @sg_"@ + set_name(g) + family_suffix(v6),
        None => Seq::empty(),
    };
    assert(is_safe_behind(from)) by {
        if let Some(g) = source {
            let b = " "@ + ip_word(v6) + " saddr @sg_"@;
            let group = set_name(g);
            assert forall|k: int| #![trigger from[k]] 0 < k < from.len() && from[k]
                == ' ' implies from[k - 1] != 's' && from[k - 1] != 'k' by {
                if k < b.len() {
                    assert(from[k] == b[k] && from[k - 1] == b[k - 1]);
                } else if k < b.len() + group.len() {
                    assert(from[k] == group[k - b.len()]);
                } else {
                    assert(from[k] == family_suffix(v6)[k - b.len() - group.len()]);
                }
            }
        }
    }
    assert(is_safe_behind(set_name(target))) by {
        assert(is_bare(set_name(target)));
    }
    let a0 = ip_word(v6);
    assert(is_safe(a0));
    let a1 = a0 + " daddr @target_"@;
    lemma_safe_sum(a0, " daddr @target_"@);
    let a2 = a1 + set_name(target);
    lemma_safe_sum(a1, set_name(target));
    let a3 = a2 + family_suffix(v6);
    lemma_safe_sum(a2, family_suffix(v6));
    assert(a3.last() == '4' || a3.last() == '6');
    let a4 = a3 + from;
    lemma_safe_sum(a3, from);
    assert(a4.last() == '4' || a4.last() == '6') by {
        if source is Some {
            assert(a4.last() == from.last());
        } else {
            assert(a4 =~= a3);
        }
    }
    let a5 = a4 + protocol_match(v6);
    lemma_safe_sum(a4, protocol_match(v6));
    let a6 = a5 + protocol;
    lemma_safe_sum(a5, protocol);
    let a7 = a6 + " "@;
    assert(a6.last() == 'p');
    lemma_safe_sum(a6, " "@);
    let a8 = a7 + protocol;
    lemma_safe_sum(a7, protocol);
    let a9 = a8 + " dport "@;
    assert(a8.last() == 'p');
    lemma_safe_sum(a8, " dport "@);
    assert(a9.last() == ' ');
    lemma_list_blanks(ports);
    lemma_no_hook(a9, list_expr(ports), " accept"@);
}

proof fn lemma_accept_step(
    s: NftState,
    target: Seq<char>,
    source: Option<Seq<char>>,
    protocol: Seq<char>,
    ports: Seq<Seq<char>>,
    v6: bool,
)
    requires
        in_chain(s),
        is_bare(set_name(target)),
        source is Some ==> is_bare(set_name(source->0)),
        protocol == "tcp"@ || protocol == "udp"@,
        all_bare(ports),
    ensures
        is_line("        "@ + accept_text(target, source, protocol, ports, v6)),
        nft_step(s, "        "@ + accept_text(target, source, protocol, ports, v6)) == if v6 {
            s
        } else {
            finding(
                s,
                with_chain_rule(s.found, accept_text(target, source, protocol, ports, v6)),
            )
        },
{
    reveal_strlit("        ");
    reveal_strlit("#");
    reveal_strlit("}");
    reveal_strlit("accept");
    let t = accept_text(target, source, protocol, ports, v6);
    let line = "        "@ + t;
    lemma_accept_ends(target, source, protocol, ports, v6);
    reveal_strlit("tcp");
    reveal_strlit("udp");
    assert(is_bare(protocol));
    lemma_accept_is_unbroken(target, source, protocol, ports, v6);
    lemma_accept_names_no_hook(target, source, protocol, ports, v6);
    lemma_unbroken_sum("        "@, t);
    assert(t.last() == 't') by {
        assert(t.skip(t.len() - 6)[5] == t.last());
        assert("accept"@[5] == 't');
    }
    assert(line.last() == 't');
    assert(line[8] == 'i');
    assert forall|j: int| 0 <= j < 8 implies #[trigger] line[j] == ' ' by {
        assert(line[j] == "        "@[j]);
    }
    assert(line.skip(8) =~= t);
    if v6 {
        assert(line[10] == '6');
        lemma_idle(s, line);
    } else {
        lemma_indented(line, 8);
        assert(t != "}"@);
        assert(!"#"@.is_prefix_of(t)) by {
            if "#"@.is_prefix_of(t) {
                assert("#"@[0] == t[0]);
            }
        }
    }
}

proof fn lemma_protocol_run(
    s: NftState,
    p: NftPolicy,
    t: NftTarget,
    r: NftTargetRule,
    protocol: Seq<char>,
    ports: Seq<Seq<char>>,
)
    requires
        in_chain(s),
        is_bare(set_name(t.name@)),
        source_group(r) is Some ==> is_bare(set_name(source_group(r)->0)),
        protocol == "tcp"@ || protocol == "udp"@,
        all_bare(ports),
    ensures
        all_lines(protocol_line_list(p, t, r, protocol, ports)),
        nft_run(s, protocol_line_list(p, t, r, protocol, ports)) == finding(
            s,
            with_chain_rules(s.found, protocol_rules(p, t, r, protocol, ports)),
        ),
{
    let source = source_group(r);
    let a = lines_when(
        rule_applies(p, t, r, false),
        seq!["        "@ + accept_text(t.name@, source, protocol, ports, false)],
    );
    let b = lines_when(
        rule_applies(p, t, r, true),
        seq!["        "@ + accept_text(t.name@, source, protocol, ports, true)],
    );
    lemma_accept_step(s, t.name@, source, protocol, ports, false);
    lemma_run_one(s, "        "@ + accept_text(t.name@, source, protocol, ports, false));
    let n = nft_run(s, a);
    assert(in_chain(n));
    lemma_accept_step(n, t.name@, source, protocol, ports, true);
    lemma_run_one(n, "        "@ + accept_text(t.name@, source, protocol, ports, true));
    lemma_run_sum(s, a, b);
    lemma_all_lines_sum(a, b);
    let rules = protocol_rules(p, t, r, protocol, ports);
    reveal_with_fuel(with_chain_rules, 2);
    if rules.len() > 0 {
        assert(rules.drop_last() =~= Seq::<Seq<char>>::empty());
        assert(rules.last() == accept_text(t.name@, source, protocol, ports, false));
    }
    assert(finding(s, s.found) == s);
}

/// A service whose ports hold no white space and no braces.
pub open spec fn is_findable_service(svc: NftServiceDef) -> bool {
    all_bare(views(svc.tcp_ports@)) && all_bare(views(svc.udp_ports@))
}

/// Whether a name can stand in a policy that is found again: the name of its set holds no
/// white space, and in capitals it is one line that names no device.
pub open spec fn is_findable_name(name: Seq<char>) -> bool {
    &&& is_bare(set_name(name))
    &&& is_line(uppercase(name))
    &&& names_no_hook(log_label(name))
}

/// A target whose rules can be found again: its name can stand in the policy, its addresses
/// hold no white space and no braces, and the names of the sets of its groups hold none.
pub open spec fn is_findable_target(t: NftTarget) -> bool {
    &&& is_findable_name(t.name@)
    &&& all_bare(addrs(t, false))
    &&& all_bare(addrs(t, true))
    &&& forall|i: int|
        0 <= i < t.rules@.len() && source_group(t.rules@[i]) is Some ==> is_bare(
            set_name(source_group(#[trigger] t.rules@[i])->0),
        )
}

proof fn lemma_service_is_listed(services: Seq<NftServiceDef>, name: Seq<char>)
    requires
        forall|i: int| 0 <= i < services.len() ==> is_findable_service(#[trigger] services[i]),
    ensures
        service_named(services, name) is Some ==> is_findable_service(
            service_named(services, name)->0,
        ),
    decreases services.len(),
{
    if services.len() > 0 {
        assert(is_findable_service(services[services.len() - 1]));
        assert forall|i: int| 0 <= i < services.drop_last().len() implies is_findable_service(
            #[trigger] services.drop_last()[i],
        ) by {
            assert(services.drop_last()[i] == services[i]);
        }
        lemma_service_is_listed(services.drop_last(), name);
    }
}

proof fn lemma_rule_run(s: NftState, p: NftPolicy, t: NftTarget, r: NftTargetRule)
    requires
        in_chain(s),
        is_bare(set_name(t.name@)),
        source_group(r) is Some ==> is_bare(set_name(source_group(r)->0)),
        forall|i: int| 0 <= i < p.services@.len() ==> is_findable_service(#[trigger] p.services@[i]),
    ensures
        all_lines(rule_line_list(p, t)(r)),
        nft_run(s, rule_line_list(p, t)(r)) == finding(
            s,
            with_chain_rules(s.found, rules_of(p, t)(r)),
        ),
{
    lemma_service_is_listed(p.services@, r.service_name@);
    assert(finding(s, s.found) == s);
    if let Some(svc) = service_named(p.services@, r.service_name@) {
        reveal_strlit("tcp");
        reveal_strlit("udp");
        let tcp = views(svc.tcp_ports@);
        let udp = views(svc.udp_ports@);
        let a = protocol_line_list(p, t, r, "tcp"@, tcp);
        let b = protocol_line_list(p, t, r, "udp"@, udp);
        lemma_protocol_run(s, p, t, r, "tcp"@, tcp);
        let n = nft_run(s, a);
        lemma_protocol_run(n, p, t, r, "udp"@, udp);
        lemma_run_sum(s, a, b);
        lemma_all_lines_sum(a, b);
        lemma_chain_rules_sum(
            s.found,
            protocol_rules(p, t, r, "tcp"@, tcp),
            protocol_rules(p, t, r, "udp"@, udp),
        );
    }
}

proof fn lemma_rules_run(s: NftState, p: NftPolicy, t: NftTarget, rules: Seq<NftTargetRule>)
    requires
        in_chain(s),
        is_bare(set_name(t.name@)),
        forall|i: int|
            0 <= i < rules.len() && source_group(rules[i]) is Some ==> is_bare(
                set_name(source_group(#[trigger] rules[i])->0),
            ),
        forall|i: int| 0 <= i < p.services@.len() ==> is_findable_service(#[trigger] p.services@[i]),
    ensures
        all_lines(flat(rules, rule_line_list(p, t))),
        nft_run(s, flat(rules, rule_line_list(p, t))) == finding(
            s,
            with_chain_rules(s.found, flat(rules, rules_of(p, t))),
        ),
    decreases rules.len(),
{
    if rules.len() == 0 {
        assert(finding(s, s.found) == s);
    } else {
        let front = rules.drop_last();
        let r = rules[rules.len() - 1];
        assert forall|i: int|
            0 <= i < front.len() && source_group(front[i]) is Some implies is_bare(
            set_name(source_group(#[trigger] front[i])->0),
        ) by {
            assert(front[i] == rules[i]);
        }
        lemma_rules_run(s, p, t, front);
        let n = nft_run(s, flat(front, rule_line_list(p, t)));
        lemma_rule_run(n, p, t, r);
        lemma_run_sum(s, flat(front, rule_line_list(p, t)), rule_line_list(p, t)(r));
        lemma_all_lines_sum(flat(front, rule_line_list(p, t)), rule_line_list(p, t)(r));
        lemma_chain_rules_sum(s.found, flat(front, rules_of(p, t)), rules_of(p, t)(r));
    }
}

proof fn lemma_target_run(s: NftState, p: NftPolicy, t: NftTarget)
    requires
        in_chain(s),
        is_findable_target(t),
        forall|i: int| 0 <= i < p.services@.len() ==> is_findable_service(#[trigger] p.services@[i]),
    ensures
        all_lines(target_rule_lines(p)(t)),
        nft_run(s, target_rule_lines(p)(t)) == finding(
            s,
            with_chain_rules(s.found, target_rule_texts(p)(t)),
        ),
{
    let note = "        # "@ + uppercase(t.name@);
    let head = seq![""@, note];
    lemma_empty_line(s);
    assert(is_indented(note, 8) && note[8] == '#') by {
        reveal_strlit("        # ");
    }
    lemma_comment(s, note, 8);
    lemma_run_two(s, ""@, note);
    lemma_note_is_line(uppercase(t.name@));
    assert(all_lines(head)) by {
        reveal_strlit("");
    }
    let body = flat(t.rules@, rule_line_list(p, t));
    lemma_rules_run(s, p, t, t.rules@);
    lemma_run_sum(s, head, body);
    lemma_all_lines_sum(head, body);
}

proof fn lemma_targets_run(s: NftState, p: NftPolicy, targets: Seq<NftTarget>)
    requires
        in_chain(s),
        forall|i: int| 0 <= i < targets.len() ==> is_findable_target(#[trigger] targets[i]),
        forall|i: int| 0 <= i < p.services@.len() ==> is_findable_service(#[trigger] p.services@[i]),
    ensures
        all_lines(flat(targets, target_rule_lines(p))),
        nft_run(s, flat(targets, target_rule_lines(p))) == finding(
            s,
            with_chain_rules(s.found, flat(targets, target_rule_texts(p))),
        ),
    decreases targets.len(),
{
    if targets.len() == 0 {
        assert(finding(s, s.found) == s);
    } else {
        let front = targets.drop_last();
        let t = targets[targets.len() - 1];
        assert(is_findable_target(t));
        assert forall|i: int| 0 <= i < front.len() implies is_findable_target(
            #[trigger] front[i],
        ) by {
            assert(front[i] == targets[i]);
        }
        lemma_targets_run(s, p, front);
        let lines = flat(front, target_rule_lines(p));
        let n = nft_run(s, lines);
        lemma_target_run(n, p, t);
        lemma_run_sum(s, lines, target_rule_lines(p)(t));
        lemma_all_lines_sum(lines, target_rule_lines(p)(t));
        lemma_chain_rules_sum(
            s.found,
            flat(front, target_rule_texts(p)),
            target_rule_texts(p)(t),
        );
    }
}

// ---------------------------------------------------------------------------
// The lines that drop the rest
// ---------------------------------------------------------------------------

proof fn lemma_label_is_unbroken(name: Seq<char>)
    requires
        is_unbroken(uppercase(name)),
    ensures
        is_unbroken(log_label(name)),
{
    let label = log_label(name);
    assert forall|i: int| 0 <= i < label.len() implies #[trigger] label[i] != '\n' by {
        assert(uppercase(name)[i] != '\n');
    }
}

/// A text that names no device names none between two others either, where the first has
/// such blanks and ends in an underscore, and the other is short and starts with one.
proof fn lemma_framed_names_no_hook(front: Seq<char>, label: Seq<char>, back: Seq<char>)
    requires
        is_safe(front),
        front.len() > 0,
        front.last() == '_',
        names_no_hook(label),
        0 < back.len() < 19,
        back[0] == '_',
    ensures
        names_no_hook(front + label + back),
{
    let p = "hook ingress device"@;
    reveal_strlit("hook ingress device");
    let t = front + label + back;
    lemma_find_from(t, p, 0);
    lemma_find_from(label, p, 0);
    if let Some(i) = find_text(t, p) {
        let part = t.subrange(i, i + 19);
        assert(forall|j: int| 0 <= j < 19 ==> #[trigger] part[j] == t[i + j]);
        let n = front.len() as int;
        let m = label.len() as int;
        if i + 4 < n {
            assert(part[3] == t[i + 3] && part[4] == t[i + 4]);
            assert(t[i + 4] == front[i + 4] && t[i + 3] == front[i + 3]);
        } else if i < n {
            let j = n - 1 - i;
            assert(part[j] == t[i + j]);
            assert(t[n - 1] == front.last());
        } else if i + 19 <= n + m {
            assert(label.subrange(i - n, i - n + 19) =~= part);
            assert(occurs_at(label, p, i - n));
        } else {
            let j = n + m - i;
            assert(part[j] == t[i + j]);
            assert(t[n + m] == back[0]);
        }
    }
}

proof fn lemma_drop_step(s: NftState, t: NftTarget, v6: bool)
    requires
        in_chain(s),
        is_findable_name(t.name@),
    ensures
        is_line(drop_text(t, v6)),
        nft_step(s, drop_text(t, v6)) == s,
{
    reveal_strlit("        ");
    reveal_strlit("ip");
    reveal_strlit("ip6");
    reveal_strlit(" daddr @target_");
    reveal_strlit("_v4");
    reveal_strlit("_v6");
    reveal_strlit(" counter log prefix \"NFT_");
    reveal_strlit("_V6_DROP: \" drop");
    reveal_strlit("_V4_DROP: \" drop");
    reveal_strlit("#");
    reveal_strlit("}");
    reveal_strlit("accept");
    assert(is_space(' '));
    let line = drop_text(t, v6);
    let body = line.skip(8);
    let name = set_name(t.name@);
    let a = ip_word(v6) + " daddr @target_"@;
    let b = a + name;
    let c = b + family_suffix(v6);
    let front = c + " counter log prefix \"NFT_"@;
    let label = log_label(t.name@);
    let back = if v6 {
        "_V6_DROP: \" drop"@
    } else {
        "_V4_DROP: \" drop"@
    };
    lemma_bare_is_unbroken(name);
    lemma_label_is_unbroken(t.name@);
    lemma_unbroken_sum(a, name);
    lemma_unbroken_sum(b, family_suffix(v6));
    lemma_unbroken_sum(c, " counter log prefix \"NFT_"@);
    lemma_unbroken_sum(front, label);
    lemma_unbroken_sum(front + label, back);
    assert(body =~= front + label + back);
    assert(is_bare(name));
    assert(is_safe_behind(name));
    assert(is_safe(a));
    lemma_safe_sum(a, name);
    lemma_safe_sum(b, family_suffix(v6));
    assert(c.last() == '4' || c.last() == '6');
    lemma_safe_sum(c, " counter log prefix \"NFT_"@);
    assert(front.last() == '_');
    lemma_framed_names_no_hook(front, label, back);
    assert(line.last() == 'p');
    assert(line[8] == 'i');
    assert forall|j: int| 0 <= j < 8 implies #[trigger] line[j] == ' ' by {
        assert(line[j] == "        "@[j]);
    }
    lemma_indented(line, 8);
    assert(body[0] == 'i');
    assert(!"#"@.is_prefix_of(body)) by {
        if "#"@.is_prefix_of(body) {
            assert("#"@[0] == body[0]);
        }
    }
    assert(body != "}"@);
    assert(!"accept"@.is_suffix_of(body)) by {
        if "accept"@.is_suffix_of(body) {
            assert(body.skip(body.len() - 6)[5] == body.last());
            assert("accept"@[5] == 't');
        }
    }
    assert(is_line(line)) by {
        assert forall|i: int| 0 <= i < line.len() implies #[trigger] line[i] != '\n' by {
            if i >= 8 {
                assert(line[i] == body[i - 8]);
            }
        }
    }
}

proof fn lemma_drops_run(s: NftState, targets: Seq<NftTarget>)
    requires
        in_chain(s),
        forall|i: int| 0 <= i < targets.len() ==> is_findable_target(#[trigger] targets[i]),
    ensures
        all_lines(flat(targets, drop_line_list())),
        nft_run(s, flat(targets, drop_line_list())) == s,
{
    assert forall|i: int| 0 <= i < targets.len() implies nft_run(
        s,
        drop_line_list()(#[trigger] targets[i]),
    ) == s && all_lines(drop_line_list()(targets[i])) by {
        let t = targets[i];
        assert(is_findable_target(t));
        let a = lines_when(addrs(t, false).len() > 0, seq![drop_text(t, false)]);
        let b = lines_when(addrs(t, true).len() > 0, seq![drop_text(t, true)]);
        lemma_drop_step(s, t, false);
        lemma_drop_step(s, t, true);
        lemma_run_one(s, drop_text(t, false));
        lemma_run_one(s, drop_text(t, true));
        lemma_run_sum(s, a, b);
        lemma_all_lines_sum(a, b);
    }
    lemma_run_flat_kept(s, targets, drop_line_list());
    lemma_all_lines_flat(targets, drop_line_list());
}

// ---------------------------------------------------------------------------
// Lines outside the chain
// ---------------------------------------------------------------------------

/// Whether the reading stands in a table, outside its sets and chains, and has found `f`.
spec fn settled(s: NftState, f: Found) -> bool {
    &&& s.in_table
    &&& s.depth == 1
    &&& s.in_set is None
    &&& !s.in_chain
    &&& !s.in_elements
    &&& s.found == f
}

/// The name that stands between a word and a brace is read back.
proof fn lemma_headed(head: Seq<char>, name: Seq<char>)
    requires
        head.len() > 1,
        head.last() == ' ',
        is_bare(name),
        name + " "@ != head,
    ensures
        headed_name(head + name + " {"@, head) == Some(name),
{
    reveal_strlit(" {");
    reveal_strlit("{");
    reveal_strlit(" ");
    let t = head + name + " {"@;
    assert(t.take(head.len() as int) =~= head);
    assert(t.skip(t.len() - 1) =~= "{"@);
    let rest = t.skip(head.len() as int);
    assert(rest =~= name + " {"@);
    assert(!head.is_prefix_of(rest)) by {
        if head.is_prefix_of(rest) {
            let k = head.len() - 1;
            assert(rest[k] == head[k]);
            if k < name.len() {
                assert(rest[k] == name[k]);
                assert(is_space(' '));
            } else if k == name.len() {
                assert(name + " "@ =~= rest.take(head.len() as int));
            } else {
                assert(rest[k] == '{');
            }
        }
    }
    reveal_with_fuel(without_prefixes, 2);
    assert(without_prefixes(t, head) == rest);
    assert(rest.drop_last() =~= name + " "@);
    reveal_with_fuel(without_trailing, 2);
    assert(without_trailing(rest, '{') == name + " "@);
    if name.len() == 0 {
        assert(name + " "@ =~= " "@);
        assert(" "@.skip(1) =~= name);
        reveal_with_fuel(trimmed_start, 2);
        assert(is_space(' '));
        assert(trimmed(" "@) =~= name);
    } else {
        assert(all_space(" "@));
        assert(Seq::<char>::empty() + name + " "@ =~= name + " "@);
        assert(is_bare(name));
        assert(!is_space(name[0]) && !is_space(name[name.len() - 1]));
        lemma_trimmed(Seq::empty(), name, " "@);
    }
}

proof fn lemma_char_found(s: Seq<char>, c: char, k: int)
    requires
        0 <= k < s.len(),
        s[k] == c,
        forall|j: int| 0 <= j < k ==> #[trigger] s[j] != c,
    ensures
        find_text(s, seq![c]) == Some(k),
{
    assert(s.subrange(k, k + 1) =~= seq![c]);
    lemma_find_at(s, seq![c], k);
}

proof fn lemma_elements_content(content: Seq<char>)
    requires
        is_quiet(content),
    ensures
        elements_content("elements = { "@ + content + " }"@) == Some(" "@ + content + " "@),
{
    reveal_strlit("elements = { ");
    reveal_strlit(" }");
    reveal_strlit(" ");
    reveal_strlit("{");
    reveal_strlit("}");
    let t = "elements = { "@ + content + " }"@;
    assert("{"@ =~= seq!['{']);
    assert("}"@ =~= seq!['}']);
    lemma_char_found(t, '{', 11);
    let b = t.len() - 1;
    lemma_rfind_before(t, "}"@, t.len() as int + 1);
    assert(occurs_at(t, "}"@, b)) by {
        assert(t.subrange(b, b + 1) =~= "}"@);
    }
    assert(rfind_text(t, "}"@) == Some(b));
    assert(t.subrange(12, b) =~= " "@ + content + " "@);
}

proof fn lemma_no_elements_content(t: Seq<char>)
    requires
        forall|j: int| 0 <= j < t.len() ==> #[trigger] t[j] != '{',
    ensures
        elements_content(t) is None,
{
    reveal_strlit("{");
    lemma_find_nowhere(t, "{"@);
}

/// What is found when a set with the given elements is read.
spec fn with_set(f: Found, name: Seq<char>, content: Seq<char>) -> Found {
    let line = "elements = { "@ + content + " }"@;
    traceroute_step(with_elements(f, name, line), name, line)
}

proof fn lemma_set_open(s: NftState, name: Seq<char>)
    requires
        s.in_table,
        s.in_set is None,
        !s.in_chain,
        is_bare(name),
        name.len() > 0,
        name != "set"@,
    ensures
        is_line("    set "@ + name + " {"@),
        nft_step(s, "    set "@ + name + " {"@) == (NftState { in_set: Some(name), ..s }),
{
    reveal_strlit("    set ");
    reveal_strlit("set ");
    reveal_strlit("set");
    reveal_strlit(" {");
    reveal_strlit(" ");
    reveal_strlit("#");
    let line = "    set "@ + name + " {"@;
    lemma_bare_is_unbroken(name);
    lemma_unbroken_sum("    set "@, name);
    lemma_unbroken_sum("    set "@ + name, " {"@);
    assert(line.last() == '{');
    assert(line[4] == 's');
    lemma_indented(line, 4);
    let t = line.skip(4);
    assert(t =~= "set "@ + name + " {"@);
    assert(name + " "@ != "set "@) by {
        if name + " "@ == "set "@ {
            assert(name =~= (name + " "@).drop_last());
            assert("set "@.drop_last() =~= "set"@);
        }
    }
    lemma_headed("set "@, name);
    assert(!"#"@.is_prefix_of(t)) by {
        if "#"@.is_prefix_of(t) {
            assert("#"@[0] == t[0]);
        }
    }
}

proof fn lemma_set_type(s: NftState, kind: Seq<char>)
    requires
        s.in_table,
        s.in_set is Some,
        !s.in_elements,
        is_bare(kind),
    ensures
        is_line("        type "@ + kind + "; flags interval"@),
        nft_step(s, "        type "@ + kind + "; flags interval"@) == s,
{
    reveal_strlit("        type ");
    reveal_strlit("; flags interval");
    reveal_strlit("#");
    reveal_strlit("}");
    reveal_strlit("elements = {");
    let line = "        type "@ + kind + "; flags interval"@;
    lemma_bare_is_unbroken(kind);
    lemma_unbroken_sum("        type "@, kind);
    lemma_unbroken_sum("        type "@ + kind, "; flags interval"@);
    assert(line.last() == 'l');
    assert(line[8] == 't');
    lemma_indented(line, 8);
    let t = line.skip(8);
    assert(t[0] == 't');
    assert(!"#"@.is_prefix_of(t)) by {
        if "#"@.is_prefix_of(t) {
            assert("#"@[0] == t[0]);
        }
    }
    assert(!"elements = {"@.is_prefix_of(t)) by {
        if "elements = {"@.is_prefix_of(t) {
            assert("elements = {"@[0] == t[0]);
        }
    }
    assert(t != "}"@);
    assert forall|j: int| 0 <= j < t.len() implies #[trigger] t[j] != '{' by {
        assert(t[j] == line[j + 8]);
        if j + 8 < 13 {
            assert(line[j + 8] == "        type "@[j + 8]);
        } else if j + 8 < 13 + kind.len() {
            assert(line[j + 8] == kind[j - 5]);
        } else {
            assert(line[j + 8] == "; flags interval"@[j - 5 - kind.len()]);
        }
    }
    lemma_no_elements_content(t);
}

proof fn lemma_set_elements(s: NftState, content: Seq<char>)
    requires
        s.in_table,
        s.in_set is Some,
        !s.in_elements,
        is_quiet(content),
    ensures
        is_line(elements_line(content)),
        nft_step(s, elements_line(content)) == (NftState {
            elements: "elements = { "@ + content + " }"@,
            found: with_set(s.found, s.in_set->0, content),
            ..s
        }),
{
    reveal_strlit("        elements = { ");
    reveal_strlit("elements = { ");
    reveal_strlit("elements = {");
    reveal_strlit(" }");
    reveal_strlit("}");
    reveal_strlit("#");
    let line = elements_line(content);
    let t = "elements = { "@ + content + " }"@;
    assert(line.last() == '}');
    assert(line[8] == 'e');
    lemma_indented(line, 8);
    assert(line.skip(8) =~= t);
    assert(!"#"@.is_prefix_of(t)) by {
        if "#"@.is_prefix_of(t) {
            assert("#"@[0] == t[0]);
        }
    }
    assert(t.take(12) =~= "elements = {"@);
    assert(t[t.len() - 1] == '}');
    assert(contains_char(t, '}'));
    assert(t != "}"@);
    assert forall|i: int| 0 <= i < line.len() implies #[trigger] line[i] != '\n' by {
        if i < 21 {
            assert(line[i] == "        elements = { "@[i]);
        } else if i < 21 + content.len() {
            assert(line[i] == content[i - 21]);
        } else {
            assert(line[i] == " }"@[i - 21 - content.len()]);
        }
    }
}

proof fn lemma_closing(s: NftState)
    requires
        s.in_table,
        s.in_set is Some ==> !s.in_elements,
        s.in_set is Some || s.in_chain,
    ensures
        is_line("    }"@),
        nft_step(s, "    }"@) == (if s.in_set is Some {
            NftState { in_set: None, ..s }
        } else {
            NftState { in_chain: false, ..s }
        }),
{
    reveal_strlit("    }");
    reveal_strlit("}");
    reveal_strlit("#");
    reveal_strlit("elements = {");
    reveal_strlit("set ");
    reveal_strlit("ip daddr @target_");
    lemma_indented("    }"@, 4);
    let t = "    }"@.skip(4);
    assert(t =~= "}"@);
    assert(t[0] == '}');
    lemma_no_elements_content(t);
    lemma_no_hook_nowhere(t);
    assert(!"#"@.is_prefix_of(t)) by {
        if "#"@.is_prefix_of(t) {
            assert("#"@[0] == t[0]);
        }
    }
    assert(!"set "@.is_prefix_of(t));
    assert(!"elements = {"@.is_prefix_of(t));
    assert(!"ip daddr @target_"@.is_prefix_of(t));
}

proof fn lemma_set_run(
    s: NftState,
    f: Found,
    name: Seq<char>,
    kind: Seq<char>,
    content: Seq<char>,
)
    requires
        settled(s, f),
        is_bare(name),
        name.len() > 0,
        name != "set"@,
        is_bare(kind),
        is_quiet(content),
    ensures
        all_lines(set_lines(name, kind, content)),
        settled(nft_run(s, set_lines(name, kind, content)), with_set(f, name, content)),
{
    let a = "    set "@ + name + " {"@;
    let b = "        type "@ + kind + "; flags interval"@;
    let c = elements_line(content);
    let d = "    }"@;
    lemma_set_open(s, name);
    let s1 = nft_step(s, a);
    lemma_set_type(s1, kind);
    lemma_set_elements(s1, content);
    let s2 = nft_step(s1, c);
    lemma_closing(s2);
    assert(set_lines(name, kind, content) =~= seq![a, b] + seq![c, d]);
    lemma_run_sum(s, seq![a, b], seq![c, d]);
    lemma_run_two(s, a, b);
    lemma_run_two(s1, c, d);
}

// ---------------------------------------------------------------------------
// The sets of the groups
// ---------------------------------------------------------------------------

/// Texts without white space, braces and commas: the items of a list.
pub open spec fn are_items(v: Seq<Seq<char>>) -> bool {
    forall|i: int| 0 <= i < v.len() ==> is_item(#[trigger] v[i])
}

/// A text without white space, braces and commas.
pub open spec fn is_item(s: Seq<char>) -> bool {
    is_bare(s) && forall|i: int| 0 <= i < s.len() ==> #[trigger] s[i] != ','
}

/// Nothing or one blank.
spec fn is_gap(s: Seq<char>) -> bool {
    s == ""@ || s == " "@
}

/// A text, in blanks or not, is one item of a list, or none where it is empty.
proof fn lemma_one_item(lead: Seq<char>, x: Seq<char>, tail: Seq<char>)
    requires
        is_item(x),
        is_gap(lead),
        is_gap(tail),
    ensures
        comma_list(lead + x + tail) == unless_empty()(x),
{
    reveal_strlit("");
    reveal_strlit(" ");
    let s = lead + x + tail;
    assert forall|i: int| 0 <= i < s.len() implies #[trigger] s[i] != ',' by {
        if i < lead.len() {
            assert(s[i] == lead[i]);
        } else if i < lead.len() + x.len() {
            assert(s[i] == x[i - lead.len()]);
        } else {
            assert(s[i] == tail[i - lead.len() - x.len()]);
        }
    }
    lemma_split_single(s, ',');
    assert(all_space(lead) && all_space(tail));
    if x.len() > 0 {
        assert(is_bare(x));
        assert(!is_space(x[0]) && !is_space(x[x.len() - 1]));
        lemma_trimmed(lead, x, tail);
    } else {
        assert forall|j: int| 0 <= j < s.len() implies is_space(#[trigger] s[j]) by {
            if j < lead.len() {
                assert(s[j] == lead[j]);
            } else {
                assert(s[j] == tail[j - lead.len()]);
            }
        }
        assert(s + Seq::<char>::empty() =~= s);
        lemma_trimmed_start(s, Seq::empty());
        assert(trimmed(s).len() == 0);
    }
    assert(seq![s].drop_last() =~= Seq::<Seq<char>>::empty());
    assert(seq![s].last() == s);
    reveal_with_fuel(flat, 2);
    assert(comma_list(s) =~= unless_empty()(x));
}

/// A list is read back from the text that joins its items, but for the empty ones.
proof fn lemma_comma_list(lead: Seq<char>, v: Seq<Seq<char>>, tail: Seq<char>)
    requires
        v.len() > 0,
        are_items(v),
        is_gap(lead),
        is_gap(tail),
    ensures
        comma_list(lead + joined(v, ", "@) + tail) == flat(v, unless_empty()),
    decreases v.len(),
{
    reveal_strlit("");
    reveal_strlit(" ");
    reveal_strlit(", ");
    let x = v[v.len() - 1];
    assert(is_item(x));
    if v.len() == 1 {
        lemma_one_item(lead, x, tail);
        assert(v.drop_last() =~= Seq::<Seq<char>>::empty());
        reveal_with_fuel(flat, 2);
        assert(flat(v, unless_empty()) =~= unless_empty()(x));
    } else {
        let front = v.drop_last();
        assert forall|i: int| 0 <= i < front.len() implies is_item(#[trigger] front[i]) by {
            assert(front[i] == v[i]);
        }
        lemma_one_item(" "@, x, tail);
        lemma_comma_list(lead, front, ""@);
        let a = lead + joined(front, ", "@) + ""@;
        let b = " "@ + x + tail;
        assert(lead + joined(v, ", "@) + tail =~= a + seq![','] + b);
        lemma_split_sum(a, b, ',');
        lemma_flat_sum(split_on(a, ','), split_on(b, ','), trimmed_piece());
    }
}

proof fn lemma_joined_is_quiet(v: Seq<Seq<char>>)
    requires
        all_bare(v),
    ensures
        is_quiet(joined(v, ", "@)),
    decreases v.len(),
{
    reveal_strlit(", ");
    assert(is_space('\n') && is_space('\r'));
    if v.len() == 1 {
        assert(is_bare(v[0]));
    } else if v.len() > 1 {
        let front = v.drop_last();
        assert forall|i: int| 0 <= i < front.len() implies is_bare(#[trigger] front[i]) by {
            assert(front[i] == v[i]);
        }
        lemma_joined_is_quiet(front);
        assert(is_bare(v[v.len() - 1]));
        assert(is_quiet(v.last()));
        lemma_quiet_sum(joined(front, ", "@), ", "@);
        lemma_quiet_sum(joined(front, ", "@) + ", "@, v.last());
    }
}

/// `f` with the subnets of a group in one address family, but for empty ones.
pub open spec fn with_subnets(f: Found, g: NftSubnetGroup, v6: bool) -> Found {
    if cidrs(g, v6).len() > 0 {
        Found {
            subnet_groups: put_addrs(
                f.subnet_groups,
                set_name(g.name@),
                v6,
                flat(cidrs(g, v6), unless_empty()),
            ),
            ..f
        }
    } else {
        f
    }
}

/// `f` with the subnets of the groups that some rule names.
pub open spec fn with_groups(f: Found, groups: Seq<NftSubnetGroup>, targets: Seq<NftTarget>) -> Found
    decreases groups.len(),
{
    if groups.len() == 0 {
        f
    } else {
        let n = with_groups(f, groups.drop_last(), targets);
        let g = groups.last();
        if referenced(targets, g.name@) {
            with_subnets(with_subnets(n, g, false), g, true)
        } else {
            n
        }
    }
}

/// A group whose subnets can be found again: the name of its set holds no white space, and
/// its subnets hold no white space, braces and commas.
pub open spec fn is_findable_group(g: NftSubnetGroup) -> bool {
    is_bare(set_name(g.name@)) && are_items(cidrs(g, false)) && are_items(cidrs(g, true))
}

proof fn lemma_group_set_run(s: NftState, f: Found, g: NftSubnetGroup, v6: bool)
    requires
        settled(s, f),
        is_findable_group(g),
    ensures
        all_lines(group_set_lines(g, v6)),
        settled(nft_run(s, group_set_lines(g, v6)), with_subnets(f, g, v6)),
{
    if cidrs(g, v6).len() > 0 {
        reveal_strlit("sg_");
        reveal_strlit("_v4");
        reveal_strlit("_v6");
        reveal_strlit("set");
        reveal_strlit("ipv4_addr");
        reveal_strlit("ipv6_addr");
        reveal_strlit("target_");
        reveal_strlit("traceroute_udp_ports");
        let name = group_set_name(g, v6);
        let stem = set_name(g.name@);
        let content = joined(cidrs(g, v6), ", "@);
        let line = "elements = { "@ + content + " }"@;
        assert(name.len() == stem.len() + 6);
        assert(is_bare(name)) by {
            assert forall|i: int| 0 <= i < name.len() implies !is_space(#[trigger] name[i])
                && name[i] != '{' && name[i] != '}' by {
                if i < 3 {
                    assert(name[i] == "sg_"@[i]);
                } else if i < 3 + stem.len() {
                    assert(name[i] == stem[i - 3]);
                } else {
                    assert(name[i] == family_suffix(v6)[i - 3 - stem.len()]);
                }
            }
        }
        assert(is_bare(family_type(v6)));
        assert(all_bare(cidrs(g, v6))) by {
            assert forall|i: int| 0 <= i < cidrs(g, v6).len() implies is_bare(
                #[trigger] cidrs(g, v6)[i],
            ) by {
                assert(is_item(cidrs(g, v6)[i]));
            }
        }
        lemma_joined_is_quiet(cidrs(g, v6));
        lemma_set_run(s, f, name, family_type(v6), content);
        lemma_elements_content(content);
        reveal_strlit(" ");
        lemma_comma_list(" "@, cidrs(g, v6), " "@);
        assert(name[0] == 's');
        assert(!"target_"@.is_prefix_of(name)) by {
            if "target_"@.is_prefix_of(name) {
                assert("target_"@[0] == name[0]);
            }
        }
        assert(name.take(3) =~= "sg_"@);
        let rest = name.skip(3);
        assert(rest =~= stem + family_suffix(v6));
        assert(rest.skip(rest.len() - 3) =~= family_suffix(v6));
        assert(rest.take(rest.len() - 3) =~= stem);
        if v6 {
            assert(!"_v4"@.is_suffix_of(rest)) by {
                if "_v4"@.is_suffix_of(rest) {
                    assert(rest.skip(rest.len() - 3)[2] == "_v4"@[2]);
                    assert("_v6"@[2] == '6');
                }
            }
        }
        assert(name != "traceroute_udp_ports"@) by {
            if name == "traceroute_udp_ports"@ {
                assert(name[0] == 't');
            }
        }
        assert(with_set(f, name, content) == with_subnets(f, g, v6));
    }
}

proof fn lemma_groups_run(
    s: NftState,
    f: Found,
    groups: Seq<NftSubnetGroup>,
    targets: Seq<NftTarget>,
)
    requires
        settled(s, f),
        forall|i: int| 0 <= i < groups.len() ==> is_findable_group(#[trigger] groups[i]),
    ensures
        all_lines(flat(groups, group_lines(targets))),
        settled(
            nft_run(s, flat(groups, group_lines(targets))),
            with_groups(f, groups, targets),
        ),
    decreases groups.len(),
{
    if groups.len() > 0 {
        let front = groups.drop_last();
        let g = groups[groups.len() - 1];
        assert(is_findable_group(g));
        assert forall|i: int| 0 <= i < front.len() implies is_findable_group(#[trigger] front[i]) by {
            assert(front[i] == groups[i]);
        }
        lemma_groups_run(s, f, front, targets);
        let lines = flat(front, group_lines(targets));
        let n = nft_run(s, lines);
        let nf = with_groups(f, front, targets);
        lemma_run_sum(s, lines, group_lines(targets)(g));
        if referenced(targets, g.name@) {
            let a = group_set_lines(g, false);
            let b = group_set_lines(g, true);
            lemma_group_set_run(n, nf, g, false);
            lemma_group_set_run(nft_run(n, a), with_subnets(nf, g, false), g, true);
            lemma_run_sum(n, a, b);
            lemma_all_lines_sum(a, b);
        }
        lemma_all_lines_sum(lines, group_lines(targets)(g));
    }
}

proof fn lemma_unused_groups(f: Found, groups: Seq<NftSubnetGroup>, targets: Seq<NftTarget>)
    requires
        forall|k: int|
            0 <= k < groups.len() ==> !referenced(targets, (#[trigger] groups[k]).name@),
    ensures
        with_groups(f, groups, targets) == f,
    decreases groups.len(),
{
    if groups.len() > 0 {
        let front = groups.drop_last();
        assert forall|k: int| 0 <= k < front.len() implies !referenced(
            targets,
            (#[trigger] front[k]).name@,
        ) by {
            assert(front[k] == groups[k]);
        }
        assert(!referenced(targets, groups[groups.len() - 1].name@));
        lemma_unused_groups(f, front, targets);
    }
}

proof fn lemma_group_section_run(s: NftState, f: Found, p: NftPolicy)
    requires
        settled(s, f),
        forall|i: int|
            0 <= i < p.subnet_groups@.len() ==> is_findable_group(#[trigger] p.subnet_groups@[i]),
    ensures
        all_lines(group_section_lines(p)),
        settled(
            nft_run(s, group_section_lines(p)),
            with_groups(f, p.subnet_groups@, p.targets@),
        ),
{
    if some_group_used(p) {
        reveal_strlit("");
        reveal_strlit("    # --- 2. 서브넷 그룹 (Subnet Groups) ---");
        let note = "    # --- 2. 서브넷 그룹 (Subnet Groups) ---"@;
        let head = seq![""@, note];
        lemma_empty_line(s);
        lemma_comment(s, note, 4);
        lemma_run_two(s, ""@, note);
        assert(is_line(note));
        assert(all_lines(head));
        let body = flat(p.subnet_groups@, group_lines(p.targets@));
        lemma_groups_run(s, f, p.subnet_groups@, p.targets@);
        lemma_run_sum(s, head, body);
        lemma_all_lines_sum(head, body);
    } else {
        lemma_unused_groups(f, p.subnet_groups@, p.targets@);
    }
}

// ---------------------------------------------------------------------------
// The sets of ports and of addresses
// ---------------------------------------------------------------------------

proof fn lemma_decimal_is_bare(n: nat)
    ensures
        is_bare(decimal(n)),
        is_quiet(decimal(n)),
        decimal(n).len() > 0,
        forall|i: int| 0 <= i < decimal(n).len() ==> #[trigger] decimal(n)[i] != '-',
{
    lemma_decimal(n);
    let s = decimal(n);
    assert forall|i: int| 0 <= i < s.len() implies !is_space(#[trigger] s[i]) && s[i] != '{'
        && s[i] != '}' && s[i] != '-' && s[i] != '\n'
        && s[i] != '\r' by {
        assert(is_digit(s[i]));
    }
}

/// A range of ports is read back.
proof fn lemma_port_range(a: u16, b: u16)
    ensures
        port_range(" "@ + (decimal(a as nat) + "-"@ + decimal(b as nat)) + " "@) == Some(
            (a as nat, b as nat),
        ),
{
    reveal_strlit(" ");
    reveal_strlit("-");
    let x = decimal(a as nat);
    let y = decimal(b as nat);
    lemma_decimal_is_bare(a as nat);
    lemma_decimal_is_bare(b as nat);
    let t = x + "-"@ + y;
    assert(t[0] == x[0] && t.last() == y[y.len() - 1]);
    assert(is_bare(x) && is_bare(y));
    assert(!is_space(x[0]) && !is_space(x[x.len() - 1]));
    assert(!is_space(y[0]) && !is_space(y[y.len() - 1]));
    assert(all_space(" "@));
    lemma_trimmed(" "@, t, " "@);
    let k = x.len() as int;
    assert(t[k] == '-');
    assert forall|j: int| 0 <= j < k implies #[trigger] t[j] != '-' by {
        assert(t[j] == x[j]);
    }
    assert("-"@ =~= seq!['-']);
    lemma_char_found(t, '-', k);
    assert(t.take(k) =~= x);
    assert(t.skip(k + 1) =~= y);
    lemma_trimmed_kept(x);
    lemma_trimmed_kept(y);
    law_decimal_round_trip(a as nat, 65535);
    law_decimal_round_trip(b as nat, 65535);
}

proof fn lemma_global_set_run(s: NftState, f: Found, i: int, g: NftGlobalRule)
    requires
        settled(s, f),
        is_bare(g.protocol@),
    ensures
        all_lines(global_set_lines()(i, g)),
        settled(nft_run(s, global_set_lines()(i, g)), f),
{
    reveal_strlit("set");
    reveal_strlit("-");
    reveal_strlit("inet_service");
    reveal_strlit("target_");
    reveal_strlit("sg_");
    reveal_strlit("traceroute_udp_ports");
    let name = global_set_name(i, g);
    let content = port_range_text(g.port_start, g.port_end);
    lemma_decimal_is_bare(g.port_start as nat);
    lemma_decimal_is_bare(g.port_end as nat);
    lemma_global_name_is_bare(i, g);
    assert(is_quiet(content)) by {
        lemma_quiet_sum(decimal(g.port_start as nat), "-"@);
        lemma_quiet_sum(decimal(g.port_start as nat) + "-"@, decimal(g.port_end as nat));
    }
    assert(is_bare("inet_service"@));
    assert(name != "set"@) by {
        if name == "set"@ {
            assert(name[0] == 's');
        }
    }
    lemma_set_run(s, f, name, "inet_service"@, content);
    lemma_elements_content(content);
    assert(!"target_"@.is_prefix_of(name)) by {
        if "target_"@.is_prefix_of(name) {
            assert("target_"@[0] == name[0]);
        }
    }
    assert(!"sg_"@.is_prefix_of(name)) by {
        if "sg_"@.is_prefix_of(name) {
            assert("sg_"@[0] == name[0]);
        }
    }
    assert(name != "traceroute_udp_ports"@) by {
        if name == "traceroute_udp_ports"@ {
            assert(name[0] == 't');
        }
    }
}

proof fn lemma_global_sets_run(s: NftState, f: Found, v: Seq<NftGlobalRule>)
    requires
        settled(s, f),
        forall|i: int| 0 <= i < v.len() ==> is_bare((#[trigger] v[i]).protocol@),
    ensures
        all_lines(flat_indexed(v, global_set_lines())),
        settled(nft_run(s, flat_indexed(v, global_set_lines())), f),
    decreases v.len(),
{
    if v.len() > 0 {
        let front = v.drop_last();
        assert forall|i: int| 0 <= i < front.len() implies is_bare(
            (#[trigger] front[i]).protocol@,
        ) by {
            assert(front[i] == v[i]);
        }
        lemma_global_sets_run(s, f, front);
        let a = flat_indexed(front, global_set_lines());
        let b = global_set_lines()(v.len() - 1, v.last());
        assert(is_bare(v[v.len() - 1].protocol@));
        lemma_global_set_run(nft_run(s, a), f, v.len() - 1, v.last());
        lemma_run_sum(s, a, b);
        lemma_all_lines_sum(a, b);
    }
}

/// `f` with the range of the traceroute ports, where the policy names one.
pub open spec fn with_traceroute(f: Found, p: NftPolicy) -> Found {
    if p.global_rules@.len() > 0 {
        f
    } else {
        Found {
            traceroute: Some((p.traceroute_start as nat, p.traceroute_end as nat)),
            ..f
        }
    }
}

proof fn lemma_traceroute_set_run(s: NftState, f: Found, p: NftPolicy)
    requires
        settled(s, f),
        p.global_rules@.len() == 0,
    ensures
        all_lines(set_lines("traceroute_udp_ports"@, "inet_service"@, traceroute_text(p))),
        settled(
            nft_run(s, set_lines("traceroute_udp_ports"@, "inet_service"@, traceroute_text(p))),
            with_traceroute(f, p),
        ),
{
    reveal_strlit("traceroute_udp_ports");
    reveal_strlit("inet_service");
    reveal_strlit("set");
    reveal_strlit("-");
    reveal_strlit("target_");
    reveal_strlit("sg_");
    let name = "traceroute_udp_ports"@;
    let content = traceroute_text(p);
    lemma_decimal_is_bare(p.traceroute_start as nat);
    lemma_decimal_is_bare(p.traceroute_end as nat);
    lemma_quiet_sum(decimal(p.traceroute_start as nat), "-"@);
    lemma_quiet_sum(
        decimal(p.traceroute_start as nat) + "-"@,
        decimal(p.traceroute_end as nat),
    );
    assert(is_bare(name));
    assert(is_bare("inet_service"@));
    lemma_set_run(s, f, name, "inet_service"@, content);
    lemma_elements_content(content);
    lemma_port_range(p.traceroute_start, p.traceroute_end);
    assert(!"target_"@.is_prefix_of(name)) by {
        if "target_"@.is_prefix_of(name) {
            assert("target_"@[1] == name[1]);
        }
    }
    assert(!"sg_"@.is_prefix_of(name)) by {
        if "sg_"@.is_prefix_of(name) {
            assert("sg_"@[0] == name[0]);
        }
    }
    assert(with_set(f, name, content) == with_traceroute(f, p));
}

proof fn lemma_port_sets_run(s: NftState, f: Found, p: NftPolicy)
    requires
        settled(s, f),
        forall|i: int|
            0 <= i < p.global_rules@.len() ==> is_bare((#[trigger] p.global_rules@[i]).protocol@),
    ensures
        all_lines(port_set_lines(p)),
        settled(nft_run(s, port_set_lines(p)), with_traceroute(f, p)),
{
    reveal_strlit("");
    reveal_strlit("    # --- 3. 전역 허용 규칙 포트 집합 ---");
    reveal_strlit("    # --- 3. 공통 설정 (Tools) ---");
    let note = if p.global_rules@.len() > 0 {
        "    # --- 3. 전역 허용 규칙 포트 집합 ---"@
    } else {
        "    # --- 3. 공통 설정 (Tools) ---"@
    };
    let head = seq![""@, note];
    lemma_empty_line(s);
    lemma_comment(s, note, 4);
    lemma_run_two(s, ""@, note);
    assert(is_line(note));
    assert(all_lines(head));
    if p.global_rules@.len() > 0 {
        let body = flat_indexed(p.global_rules@, global_set_lines());
        lemma_global_sets_run(s, f, p.global_rules@);
        lemma_run_sum(s, head, body);
        lemma_all_lines_sum(head, body);
    } else {
        let body = set_lines("traceroute_udp_ports"@, "inet_service"@, traceroute_text(p));
        lemma_traceroute_set_run(s, f, p);
        lemma_run_sum(s, head, body);
        lemma_all_lines_sum(head, body);
    }
}

/// The set of the addresses of a target, which stands in one line, is passed over.
proof fn lemma_target_set_step(s: NftState, t: NftTarget, v6: bool)
    requires
        s.in_table,
        s.in_set is None,
        !s.in_chain,
        is_bare(set_name(t.name@)),
        all_bare(addrs(t, v6)),
    ensures
        is_line(target_set_line(t, v6)),
        nft_step(s, target_set_line(t, v6)) == s,
{
    reveal_strlit("    set target_");
    reveal_strlit("_v4");
    reveal_strlit("_v6");
    reveal_strlit(" { type ");
    reveal_strlit("ipv4_addr");
    reveal_strlit("ipv6_addr");
    reveal_strlit("; elements = { ");
    reveal_strlit(" } }");
    reveal_strlit("#");
    reveal_strlit("}");
    reveal_strlit("{");
    reveal_strlit("chain ");
    let line = target_set_line(t, v6);
    let body = line.skip(4);
    let a = "set target_"@ + set_name(t.name@) + family_suffix(v6);
    let b = family_type(v6);
    let c = joined(addrs(t, v6), ", "@);
    reveal_strlit("set target_");
    assert(is_space('\n') && is_space('\r'));
    assert(is_quiet(set_name(t.name@))) by {
        assert(is_bare(set_name(t.name@)));
    }
    lemma_quiet_sum("set target_"@, set_name(t.name@));
    lemma_quiet_sum("set target_"@ + set_name(t.name@), family_suffix(v6));
    lemma_joined_is_quiet(addrs(t, v6));
    assert(body =~= a + " { type "@ + b + "; elements = { "@ + c + " } }"@);
    assert(line.last() == '}');
    assert(line[4] == 's');
    lemma_indented(line, 4);
    assert(body[0] == 's' && body.last() == '}');
    assert(!"#"@.is_prefix_of(body)) by {
        if "#"@.is_prefix_of(body) {
            assert("#"@[0] == body[0]);
        }
    }
    assert(!"{"@.is_suffix_of(body)) by {
        if "{"@.is_suffix_of(body) {
            assert(body.skip(body.len() - 1)[0] == body.last());
        }
    }
    assert(body != "}"@);
    assert(brace_change(body) == 0) by {
        lemma_target_set_change(a, b, c);
    }
    assert(is_line(line)) by {
        assert forall|i: int| 0 <= i < line.len() implies #[trigger] line[i] != '\n' by {
            if i >= 4 {
                let k = i - 4;
                assert(line[i] == body[k]);
                if k < a.len() {
                    assert(body[k] == a[k]);
                } else if k < a.len() + 8 {
                    assert(body[k] == " { type "@[k - a.len()]);
                } else if k < a.len() + 8 + b.len() {
                    assert(body[k] == b[k - a.len() - 8]);
                } else if k < a.len() + 8 + b.len() + 15 {
                    assert(body[k] == "; elements = { "@[k - a.len() - 8 - b.len()]);
                } else if k < a.len() + 8 + b.len() + 15 + c.len() {
                    assert(body[k] == c[k - a.len() - 23 - b.len()]);
                } else {
                    assert(body[k] == " } }"@[k - a.len() - 23 - b.len() - c.len()]);
                }
            }
        }
    }
}

proof fn lemma_target_set_change(a: Seq<char>, b: Seq<char>, c: Seq<char>)
    requires
        is_quiet(a),
        is_quiet(b),
        is_quiet(c),
    ensures
        brace_change(a + " { type "@ + b + "; elements = { "@ + c + " } }"@) == 0,
{
    reveal_strlit(" { type ");
    reveal_strlit("; elements = { ");
    reveal_strlit(" } }");
    let x = " { type "@;
    let y = "; elements = { "@;
    let z = " } }"@;
    lemma_quiet_change(a);
    lemma_quiet_change(b);
    lemma_quiet_change(c);
    assert forall|s: Seq<char>, r: Seq<char>| brace_change(#[trigger] (s + r)) == brace_change(s)
        + brace_change(r) by {
        lemma_count_sum(s, r, '{');
        lemma_count_sum(s, r, '}');
    }
    assert(brace_change(x) == 1) by {
        assert(x =~= " "@ + "{"@ + " type "@) by {
            reveal_strlit(" ");
            reveal_strlit("{");
            reveal_strlit(" type ");
        }
        lemma_brace_text();
        reveal_strlit(" ");
        reveal_strlit(" type ");
        lemma_quiet_change(" "@);
        lemma_quiet_change(" type "@);
    }
    assert(brace_change(y) == 1) by {
        assert(y =~= "; elements = "@ + "{"@ + " "@) by {
            reveal_strlit(" ");
            reveal_strlit("{");
            reveal_strlit("; elements = ");
        }
        lemma_brace_text();
        reveal_strlit(" ");
        reveal_strlit("; elements = ");
        lemma_quiet_change(" "@);
        lemma_quiet_change("; elements = "@);
    }
    assert(brace_change(z) == -2) by {
        assert(z =~= " "@ + "}"@ + " "@ + "}"@) by {
            reveal_strlit(" ");
            reveal_strlit("}");
        }
        lemma_brace_text();
        reveal_strlit(" ");
        lemma_quiet_change(" "@);
    }
}

proof fn lemma_brace_text()
    ensures
        brace_change("{"@) == 1,
        brace_change("}"@) == -1,
{
    reveal_strlit("{");
    reveal_strlit("}");
    assert("{"@ =~= seq!['{']);
    assert("}"@ =~= seq!['}']);
    assert(seq!['{'].drop_last() =~= Seq::<char>::empty());
    assert(seq!['}'].drop_last() =~= Seq::<char>::empty());
    assert(seq!['{'].last() == '{');
    assert(seq!['}'].last() == '}');
    reveal_with_fuel(count_of, 2);
}

proof fn lemma_target_sets_run(s: NftState, targets: Seq<NftTarget>)
    requires
        s.in_table,
        s.in_set is None,
        !s.in_chain,
        forall|i: int| 0 <= i < targets.len() ==> is_findable_target(#[trigger] targets[i]),
    ensures
        all_lines(flat(targets, target_set_lines())),
        nft_run(s, flat(targets, target_set_lines())) == s,
{
    assert forall|i: int| 0 <= i < targets.len() implies nft_run(
        s,
        target_set_lines()(#[trigger] targets[i]),
    ) == s && all_lines(target_set_lines()(targets[i])) by {
        let t = targets[i];
        assert(is_findable_target(t));
        let a = lines_when(addrs(t, false).len() > 0, seq![target_set_line(t, false)]);
        let b = lines_when(addrs(t, true).len() > 0, seq![target_set_line(t, true)]);
        lemma_target_set_step(s, t, false);
        lemma_target_set_step(s, t, true);
        lemma_run_one(s, target_set_line(t, false));
        lemma_run_one(s, target_set_line(t, true));
        lemma_run_sum(s, a, b);
        lemma_all_lines_sum(a, b);
    }
    lemma_run_flat_kept(s, targets, target_set_lines());
    lemma_all_lines_flat(targets, target_set_lines());
}

// ---------------------------------------------------------------------------
// The whole file
// ---------------------------------------------------------------------------

proof fn lemma_table_of(name: Seq<char>)
    requires
        is_bare(name),
    ensures
        table_of("table netdev "@ + name + " {"@) == Some(name),
{
    reveal_strlit("table netdev ");
    reveal_strlit("table");
    reveal_strlit("netdev");
    reveal_strlit(" {");
    reveal_strlit("{");
    let t = "table netdev "@ + name + " {"@;
    assert(is_space(' '));
    lemma_split_single("table"@, ' ');
    lemma_split_single("netdev"@, ' ');
    lemma_split_single(name, ' ');
    lemma_split_single("{"@, ' ');
    let a = "table"@ + seq![' '] + "netdev"@;
    let b = a + seq![' '] + name;
    lemma_split_sum("table"@, "netdev"@, ' ');
    lemma_split_sum(a, name, ' ');
    lemma_split_sum(b, "{"@, ' ');
    assert(t =~= b + seq![' '] + "{"@);
    assert(split_on(t, ' ') =~= seq!["table"@, "netdev"@, name, "{"@]);
    assert(is_bare(name));
    if name.len() > 0 {
        assert(!is_space(name[0]) && !is_space(name[name.len() - 1]) && name[name.len() - 1]
            != '{');
        lemma_trimmed_kept(name);
    } else {
        assert(trimmed(name) =~= name);
    }
    assert(without_trailing(name, '{') == name);
}

proof fn lemma_table_head_run(p: NftPolicy)
    requires
        is_bare(p.table_name@),
    ensures
        all_lines(table_head_lines(p)),
        settled(
            nft_run(nft_start(), table_head_lines(p)),
            (Found { table_name: Some(p.table_name@), ..found_nothing() }),
        ),
{
    reveal_strlit("table netdev ");
    reveal_strlit("table ");
    reveal_strlit(" {");
    reveal_strlit("#");
    reveal_strlit("    # --- 1. 대상 Pod/컨테이너 IP 그룹 (Targets) ---");
    let first = "table netdev "@ + p.table_name@ + " {"@;
    let note = "    # --- 1. 대상 Pod/컨테이너 IP 그룹 (Targets) ---"@;
    let s = nft_start();
    lemma_bare_is_unbroken(p.table_name@);
    lemma_unbroken_sum("table netdev "@, p.table_name@);
    lemma_unbroken_sum("table netdev "@ + p.table_name@, " {"@);
    assert(first[0] == 't' && first.last() == '{');
    lemma_trimmed_kept(first);
    assert(first.take(6) =~= "table "@);
    assert(!"#"@.is_prefix_of(first)) by {
        if "#"@.is_prefix_of(first) {
            assert("#"@[0] == first[0]);
        }
    }
    assert(first[first.len() - 1] == '{');
    assert(contains_char(first, '{'));
    lemma_table_of(p.table_name@);
    lemma_comment(nft_step(s, first), note, 4);
    lemma_run_two(s, first, note);
    assert(is_line(note));
    assert(table_head_lines(p) =~= seq![first, note]);
}

proof fn lemma_device_of(device: Seq<char>)
    requires
        forall|i: int| 0 <= i < device.len() ==> #[trigger] device[i] != '"',
    ensures
        ({
            let t = "type filter hook ingress device \""@ + device
                + "\" priority -500; policy accept;"@;
            &&& contains_text(t, "hook ingress device"@)
            &&& device_of(t) == Some(device)
        }),
{
    reveal_strlit("type filter hook ingress device \"");
    reveal_strlit("\" priority -500; policy accept;");
    reveal_strlit("hook ingress device");
    reveal_strlit("device \"");
    reveal_strlit("\"");
    let t = "type filter hook ingress device \""@ + device + "\" priority -500; policy accept;"@;
    assert(occurs_at(t, "hook ingress device"@, 12)) by {
        assert(t.subrange(12, 31) =~= "hook ingress device"@);
    }
    lemma_find_from(t, "hook ingress device"@, 0);
    assert(occurs_at(t, "device \""@, 25)) by {
        assert(t.subrange(25, 33) =~= "device \""@);
    }
    lemma_find_at(t, "device \""@, 25);
    let rest = t.skip(33);
    assert(rest =~= device + "\" priority -500; policy accept;"@);
    assert("\""@ =~= seq!['"']);
    let k = device.len() as int;
    assert(rest[k] == '"');
    assert forall|j: int| 0 <= j < k implies #[trigger] rest[j] != '"' by {
        assert(rest[j] == device[j]);
    }
    lemma_char_found(rest, '"', k);
    assert(rest.take(k) =~= device);
}

proof fn lemma_hook_step(s: NftState, device: Seq<char>)
    requires
        in_chain(s),
        is_unbroken(device),
        forall|i: int| 0 <= i < device.len() ==> #[trigger] device[i] != '"',
    ensures
        is_line(hook_line(device)),
        nft_step(s, hook_line(device)) == finding(
            s,
            (Found { device_name: Some(device), ..s.found }),
        ),
{
    reveal_strlit("        type filter hook ingress device \"");
    reveal_strlit("type filter hook ingress device \"");
    reveal_strlit("\" priority -500; policy accept;");
    reveal_strlit("ip daddr @target_");
    reveal_strlit("#");
    reveal_strlit("}");
    let line = hook_line(device);
    let t = "type filter hook ingress device \""@ + device + "\" priority -500; policy accept;"@;
    assert(line.last() == ';');
    assert(line[8] == 't');
    lemma_indented(line, 8);
    assert(line.skip(8) =~= t);
    assert(t[0] == 't');
    lemma_device_of(device);
    assert(!"#"@.is_prefix_of(t)) by {
        if "#"@.is_prefix_of(t) {
            assert("#"@[0] == t[0]);
        }
    }
    assert(!"ip daddr @target_"@.is_prefix_of(t)) by {
        if "ip daddr @target_"@.is_prefix_of(t) {
            assert("ip daddr @target_"@[0] == t[0]);
        }
    }
    assert(t != "}"@);
    assert forall|i: int| 0 <= i < line.len() implies #[trigger] line[i] != '\n' by {
        if i < 41 {
            assert(line[i] == "        type filter hook ingress device \""@[i]);
        } else if i < 41 + device.len() {
            assert(line[i] == device[i - 41]);
        } else {
            assert(line[i] == "\" priority -500; policy accept;"@[i - 41 - device.len()]);
        }
    }
}

proof fn lemma_chain_open(s: NftState, name: Seq<char>)
    requires
        s.in_table,
        s.in_set is None,
        !s.in_chain,
        is_bare(name),
        name != "chain"@,
    ensures
        is_line("    chain "@ + name + " {"@),
        nft_step(s, "    chain "@ + name + " {"@) == (NftState {
            in_chain: true,
            found: Found { chain_name: Some(name), ..s.found },
            ..s
        }),
{
    reveal_strlit("    chain ");
    reveal_strlit("chain ");
    reveal_strlit("chain");
    reveal_strlit("set ");
    reveal_strlit(" {");
    reveal_strlit(" ");
    reveal_strlit("#");
    let line = "    chain "@ + name + " {"@;
    lemma_bare_is_unbroken(name);
    lemma_unbroken_sum("    chain "@, name);
    lemma_unbroken_sum("    chain "@ + name, " {"@);
    assert(line.last() == '{');
    assert(line[4] == 'c');
    lemma_indented(line, 4);
    let t = line.skip(4);
    assert(t =~= "chain "@ + name + " {"@);
    assert(t[0] == 'c');
    assert(name + " "@ != "chain "@) by {
        if name + " "@ == "chain "@ {
            assert(name =~= (name + " "@).drop_last());
            assert("chain "@.drop_last() =~= "chain"@);
        }
    }
    lemma_headed("chain "@, name);
    assert(!"#"@.is_prefix_of(t)) by {
        if "#"@.is_prefix_of(t) {
            assert("#"@[0] == t[0]);
        }
    }
    assert(!"set "@.is_prefix_of(t)) by {
        if "set "@.is_prefix_of(t) {
            assert("set "@[0] == t[0]);
        }
    }
}

/// A policy that can be found again: the names of its table and chain hold no white space and
/// no braces, the chain is not called `chain`, that of its device holds no quotation mark and
/// no line break, and its targets, services, groups and global rules can be found.
pub open spec fn is_findable(p: NftPolicy) -> bool {
    &&& is_bare(p.table_name@)
    &&& is_bare(p.chain_name@) && p.chain_name@ != "chain"@
    &&& is_unbroken(p.device_name@)
    &&& forall|i: int| 0 <= i < p.device_name@.len() ==> #[trigger] p.device_name@[i] != '"'
    &&& forall|i: int| 0 <= i < p.targets@.len() ==> is_findable_target(#[trigger] p.targets@[i])
    &&& forall|i: int| 0 <= i < p.services@.len() ==> is_findable_service(#[trigger] p.services@[i])
    &&& forall|i: int|
        0 <= i < p.subnet_groups@.len() ==> is_findable_group(#[trigger] p.subnet_groups@[i])
    &&& forall|i: int|
        0 <= i < p.global_rules@.len() ==> is_bare((#[trigger] p.global_rules@[i]).protocol@)
}

/// The state in the chain, with its name and device.
spec fn chain_state(s: NftState, p: NftPolicy) -> NftState {
    NftState {
        in_chain: true,
        found: Found {
            chain_name: Some(p.chain_name@),
            device_name: Some(p.device_name@),
            ..s.found
        },
        ..s
    }
}

proof fn lemma_chain_head_run(s: NftState, p: NftPolicy)
    requires
        settled(s, s.found),
        is_findable(p),
    ensures
        all_lines(chain_head_lines(p)),
        nft_run(s, chain_head_lines(p)) == chain_state(s, p),
{
    reveal_strlit("");
    let open = "    chain "@ + p.chain_name@ + " {"@;
    let hook = hook_line(p.device_name@);
    lemma_empty_line(s);
    lemma_chain_open(s, p.chain_name@);
    let n = nft_step(s, open);
    lemma_hook_step(n, p.device_name@);
    assert(chain_head_lines(p) =~= seq![""@, open] + seq![hook]);
    lemma_run_sum(s, seq![""@, open], seq![hook]);
    lemma_run_two(s, ""@, open);
    lemma_run_one(n, hook);
}

proof fn lemma_chain_end_run(s: NftState)
    requires
        in_chain(s),
    ensures
        all_lines(chain_end_lines()),
        nft_run(s, chain_end_lines()) == (NftState { in_chain: false, ..s }),
{
    reveal_strlit("");
    reveal_strlit("        accept");
    lemma_empty_line(s);
    lemma_no_hook_nowhere("        accept"@.skip(8));
    assert(is_idle("        accept"@));
    lemma_idle(s, "        accept"@);
    lemma_closing(s);
    assert(chain_end_lines() =~= seq![""@, "        accept"@] + seq!["    }"@]);
    lemma_run_sum(s, seq![""@, "        accept"@], seq!["    }"@]);
    lemma_run_two(s, ""@, "        accept"@);
    lemma_run_one(s, "    }"@);
    assert(is_line("        accept"@));
}

proof fn lemma_title_texts(s: NftState)
    requires
        in_chain(s),
    ensures
        nft_run(s, title_lines("공통 허용 규칙 (Global Open: ICMP & 전역 규칙)"@)) == s,
        nft_run(s, title_lines("서비스별 상세 규칙"@)) == s,
        nft_run(s, title_lines("대상별 개별 차단 로그"@)) == s,
        all_lines(title_lines("공통 허용 규칙 (Global Open: ICMP & 전역 규칙)"@)),
        all_lines(title_lines("서비스별 상세 규칙"@)),
        all_lines(title_lines("대상별 개별 차단 로그"@)),
{
    reveal_strlit("공통 허용 규칙 (Global Open: ICMP & 전역 규칙)");
    reveal_strlit("서비스별 상세 규칙");
    reveal_strlit("대상별 개별 차단 로그");
    lemma_title_run(s, "공통 허용 규칙 (Global Open: ICMP & 전역 규칙)"@);
    lemma_title_run(s, "서비스별 상세 규칙"@);
    lemma_title_run(s, "대상별 개별 차단 로그"@);
}

proof fn lemma_chain_run(s: NftState, p: NftPolicy)
    requires
        settled(s, s.found),
        is_findable(p),
    ensures
        all_lines(chain_lines(p)),
        settled(
            nft_run(s, chain_lines(p)),
            with_chain_rules(
                chain_state(s, p).found,
                flat(p.targets@, target_rule_texts(p)),
            ),
        ),
{
    let c = chain_state(s, p);
    lemma_chain_head_run(s, p);
    lemma_bypass_run(c);
    lemma_title_texts(c);
    assert forall|i: int| 0 <= i < p.targets@.len() implies all_bare(
        addrs(#[trigger] p.targets@[i], false),
    ) && all_bare(addrs(p.targets@[i], true)) by {
        assert(is_findable_target(p.targets@[i]));
    }
    lemma_all_addrs(p.targets@, false);
    lemma_all_addrs(p.targets@, true);
    lemma_common_run(c, p, false);
    lemma_common_run(c, p, true);
    lemma_targets_run(c, p, p.targets@);
    let a0 = chain_head_lines(p);
    let a1 = bypass_lines();
    let a2 = lines_when(
        all_addrs(p.targets@, false).len() > 0 || all_addrs(p.targets@, true).len() > 0,
        title_lines("공통 허용 규칙 (Global Open: ICMP & 전역 규칙)"@),
    );
    let a3 = common_lines(p, false);
    let a4 = common_lines(p, true);
    let a5 = lines_when(p.targets@.len() > 0, title_lines("서비스별 상세 규칙"@));
    let a6 = flat(p.targets@, target_rule_lines(p));
    let a7 = lines_when(p.targets@.len() > 0, title_lines("대상별 개별 차단 로그"@));
    let a8 = flat(p.targets@, drop_line_list());
    let a9 = chain_end_lines();
    let d = nft_run(c, a6);
    assert(in_chain(d));
    lemma_title_texts(d);
    lemma_drops_run(d, p.targets@);
    lemma_chain_end_run(d);
    lemma_run_sum(s, a0, a1);
    lemma_run_sum(s, a0 + a1, a2);
    lemma_run_sum(s, a0 + a1 + a2, a3);
    lemma_run_sum(s, a0 + a1 + a2 + a3, a4);
    lemma_run_sum(s, a0 + a1 + a2 + a3 + a4, a5);
    lemma_run_sum(s, a0 + a1 + a2 + a3 + a4 + a5, a6);
    lemma_run_sum(s, a0 + a1 + a2 + a3 + a4 + a5 + a6, a7);
    lemma_run_sum(s, a0 + a1 + a2 + a3 + a4 + a5 + a6 + a7, a8);
    lemma_run_sum(s, a0 + a1 + a2 + a3 + a4 + a5 + a6 + a7 + a8, a9);
    lemma_all_lines_sum(a0, a1);
    lemma_all_lines_sum(a0 + a1, a2);
    lemma_all_lines_sum(a0 + a1 + a2, a3);
    lemma_all_lines_sum(a0 + a1 + a2 + a3, a4);
    lemma_all_lines_sum(a0 + a1 + a2 + a3 + a4, a5);
    lemma_all_lines_sum(a0 + a1 + a2 + a3 + a4 + a5, a6);
    lemma_all_lines_sum(a0 + a1 + a2 + a3 + a4 + a5 + a6, a7);
    lemma_all_lines_sum(a0 + a1 + a2 + a3 + a4 + a5 + a6 + a7, a8);
    lemma_all_lines_sum(a0 + a1 + a2 + a3 + a4 + a5 + a6 + a7 + a8, a9);
}

/// What a scan finds in the file of a policy: the names of the table, the device and the
/// chain, the traceroute ports, the subnets of the groups that rules name, and the IPv4 rules
/// of the targets.
pub open spec fn found_in(p: NftPolicy) -> Found {
    let named = Found { table_name: Some(p.table_name@), ..found_nothing() };
    let sets = with_traceroute(with_groups(named, p.subnet_groups@, p.targets@), p);
    with_chain_rules(
        Found { chain_name: Some(p.chain_name@), device_name: Some(p.device_name@), ..sets },
        flat(p.targets@, target_rule_texts(p)),
    )
}

proof fn lemma_last_line(s: NftState)
    requires
        settled(s, s.found),
    ensures
        is_line("}"@),
        nft_step(s, "}"@).found == s.found,
{
    reveal_strlit("}");
    reveal_strlit("#");
    reveal_strlit("set ");
    reveal_strlit("chain ");
    lemma_trimmed_kept("}"@);
    assert(!"#"@.is_prefix_of("}"@)) by {
        if "#"@.is_prefix_of("}"@) {
            assert("#"@[0] == "}"@[0]);
        }
    }
}

/// A scan of the file of a policy finds what the policy says of its table, device and chain,
/// its traceroute ports, the subnets of its groups, and the IPv4 rules of its targets. The
/// sets of the addresses of the targets are not found: each stands in one line. A chain that
/// is called `chain` is found without its name.
pub proof fn law_policy_files_are_found(p: NftPolicy)
    requires
        is_findable(p),
    ensures
        nft_scan(lines_of(policy_text(p))).found == found_in(p),
{
    lemma_policy_text(p);
    let a0 = table_head_lines(p);
    let a1 = flat(p.targets@, target_set_lines());
    let a2 = group_section_lines(p);
    let a3 = port_set_lines(p);
    let a4 = chain_lines(p);
    let a5 = seq!["}"@];
    let s = nft_start();
    let named = Found { table_name: Some(p.table_name@), ..found_nothing() };
    lemma_table_head_run(p);
    let s0 = nft_run(s, a0);
    lemma_target_sets_run(s0, p.targets@);
    lemma_group_section_run(s0, named, p);
    let s2 = nft_run(s0, a2);
    let f2 = with_groups(named, p.subnet_groups@, p.targets@);
    lemma_port_sets_run(s2, f2, p);
    let s3 = nft_run(s2, a3);
    lemma_chain_run(s3, p);
    let s4 = nft_run(s3, a4);
    lemma_last_line(s4);
    lemma_run_one(s4, "}"@);
    lemma_run_sum(s, a0, a1);
    lemma_run_sum(s, a0 + a1, a2);
    lemma_run_sum(s, a0 + a1 + a2, a3);
    lemma_run_sum(s, a0 + a1 + a2 + a3, a4);
    lemma_run_sum(s, a0 + a1 + a2 + a3 + a4, a5);
    lemma_all_lines_sum(a0, a1);
    lemma_all_lines_sum(a0 + a1, a2);
    lemma_all_lines_sum(a0 + a1 + a2, a3);
    lemma_all_lines_sum(a0 + a1 + a2 + a3, a4);
    lemma_all_lines_sum(a0 + a1 + a2 + a3 + a4, a5);
    lemma_written_lines(policy_lines(p));
    lemma_run_start(policy_lines(p));
}

// ---------------------------------------------------------------------------
// Names and groups
// ---------------------------------------------------------------------------

/// The entry of a group, where some rule names it and it has subnets.
pub open spec fn group_entry(targets: Seq<NftTarget>) -> spec_fn(NftSubnetGroup) -> Seq<
    NamedAddrsModel,
> {
    |g: NftSubnetGroup|
        if referenced(targets, g.name@) && (cidrs(g, false).len() > 0 || cidrs(g, true).len()
            > 0) {
            seq![
                NamedAddrsModel {
                    name: set_name(g.name@),
                    v4: flat(cidrs(g, false), unless_empty()),
                    v6: flat(cidrs(g, true), unless_empty()),
                },
            ]
        } else {
            Seq::empty()
        }
}

/// Whether the groups have sets of different names.
pub open spec fn have_own_sets(groups: Seq<NftSubnetGroup>) -> bool {
    forall|i: int, j: int|
        0 <= i < j < groups.len() ==> set_name((#[trigger] groups[i]).name@) != set_name(
            (#[trigger] groups[j]).name@,
        )
}

/// The first entry of a name that stands only at the end.
proof fn lemma_last_entry(m: Seq<NamedAddrsModel>, entry: NamedAddrsModel)
    requires
        forall|i: int| 0 <= i < m.len() ==> (#[trigger] m[i]).name != entry.name,
    ensures
        addrs_from(m, entry.name, 0) is None,
        addrs_from(m.push(entry), entry.name, 0) == Some(m.len() as int),
{
    let more = m.push(entry);
    lemma_addrs_from(m, entry.name, 0);
    lemma_addrs_from(more, entry.name, 0);
    if let Some(k) = addrs_from(m, entry.name, 0) {
        assert(m[k].name == entry.name);
    }
    match addrs_from(more, entry.name, 0) {
        Some(k) => {
            if k < m.len() {
                assert(more[k] == m[k]);
            }
        },
        None => {
            assert(more[m.len() as int].name != entry.name);
        },
    }
}

/// The subnets of a group that has no entry yet give it one.
proof fn lemma_new_group(f: Found, g: NftSubnetGroup)
    requires
        forall|i: int|
            0 <= i < f.subnet_groups.len() ==> (#[trigger] f.subnet_groups[i]).name != set_name(
                g.name@,
            ),
        cidrs(g, false).len() > 0 || cidrs(g, true).len() > 0,
    ensures
        with_subnets(with_subnets(f, g, false), g, true) == (Found {
            subnet_groups: f.subnet_groups.push(
                NamedAddrsModel {
                    name: set_name(g.name@),
                    v4: flat(cidrs(g, false), unless_empty()),
                    v6: flat(cidrs(g, true), unless_empty()),
                },
            ),
            ..f
        }),
{
    let m = f.subnet_groups;
    let name = set_name(g.name@);
    let v4 = flat(cidrs(g, false), unless_empty());
    let v6 = flat(cidrs(g, true), unless_empty());
    let none = Seq::<Seq<char>>::empty();
    let whole = NamedAddrsModel { name, v4, v6 };
    let half = NamedAddrsModel { name, v4, v6: none };
    lemma_last_entry(m, half);
    if cidrs(g, false).len() > 0 {
        assert(with_subnets(f, g, false).subnet_groups == m.push(half));
        if cidrs(g, true).len() > 0 {
            assert(m.push(half).update(m.len() as int, whole) =~= m.push(whole));
        } else {
            assert(v6 =~= none);
        }
    } else {
        assert(v4 =~= none);
    }
}

proof fn lemma_groups_found(f: Found, groups: Seq<NftSubnetGroup>, targets: Seq<NftTarget>)
    requires
        f.subnet_groups == Seq::<NamedAddrsModel>::empty(),
        have_own_sets(groups),
    ensures
        with_groups(f, groups, targets) == (Found {
            subnet_groups: flat(groups, group_entry(targets)),
            ..f
        }),
        forall|i: int|
            0 <= i < flat(groups, group_entry(targets)).len() ==> exists|k: int|
                0 <= k < groups.len() && set_name((#[trigger] groups[k]).name@) == (#[trigger] flat(
                    groups,
                    group_entry(targets),
                )[i]).name,
    decreases groups.len(),
{
    let all = flat(groups, group_entry(targets));
    if groups.len() > 0 {
        let front = groups.drop_last();
        let g = groups[groups.len() - 1];
        assert(have_own_sets(front)) by {
            assert forall|i: int, j: int| 0 <= i < j < front.len() implies set_name(
                (#[trigger] front[i]).name@,
            ) != set_name((#[trigger] front[j]).name@) by {
                assert(front[i] == groups[i] && front[j] == groups[j]);
            }
        }
        lemma_groups_found(f, front, targets);
        let seen = flat(front, group_entry(targets));
        let n = with_groups(f, front, targets);
        assert forall|i: int| 0 <= i < seen.len() implies (#[trigger] seen[i]).name != set_name(
            g.name@,
        ) by {
            let k = choose|k: int|
                0 <= k < front.len() && set_name((#[trigger] front[k]).name@) == seen[i].name;
            assert(front[k] == groups[k]);
        }
        if group_entry(targets)(g).len() > 0 {
            lemma_new_group(n, g);
            assert(all =~= seen.push(group_entry(targets)(g)[0]));
        } else {
            assert(all =~= seen);
        }
        assert forall|i: int| 0 <= i < all.len() implies exists|k: int|
            0 <= k < groups.len() && set_name((#[trigger] groups[k]).name@) == (
            #[trigger] all[i]).name by {
            if i < seen.len() {
                assert(all[i] == seen[i]);
                let k = choose|k: int|
                    0 <= k < front.len() && set_name((#[trigger] front[k]).name@) == seen[i].name;
                assert(front[k] == groups[k]);
            } else {
                assert(set_name(groups[groups.len() - 1].name@) == all[i].name);
            }
        }
    }
}

/// Rules add to the targets and services only.
proof fn lemma_rules_keep_the_rest(f: Found, rules: Seq<Seq<char>>)
    ensures
        ({
            let n = with_chain_rules(f, rules);
            &&& n.table_name == f.table_name
            &&& n.device_name == f.device_name
            &&& n.chain_name == f.chain_name
            &&& n.traceroute == f.traceroute
            &&& n.subnet_groups == f.subnet_groups
            &&& n.target_addrs == f.target_addrs
        }),
    decreases rules.len(),
{
    if rules.len() > 0 {
        lemma_rules_keep_the_rest(f, rules.drop_last());
    }
}

/// A scan of the file of a policy finds the names of its table, chain and device, the ports
/// of traceroute where the policy has no global rules, and, one after the other, the groups
/// that rules name and that have subnets, each with its subnets of both families (but for
/// empty ones), and no other groups.
pub proof fn law_names_and_groups_are_found(p: NftPolicy)
    requires
        is_findable(p),
        have_own_sets(p.subnet_groups@),
    ensures
        ({
            let f = nft_scan(lines_of(policy_text(p))).found;
            &&& f.table_name == Some(p.table_name@)
            &&& f.chain_name == Some(p.chain_name@)
            &&& f.device_name == Some(p.device_name@)
            &&& f.traceroute == if p.global_rules@.len() > 0 {
                None
            } else {
                Some((p.traceroute_start as nat, p.traceroute_end as nat))
            }
            &&& f.subnet_groups == flat(p.subnet_groups@, group_entry(p.targets@))
        }),
{
    law_policy_files_are_found(p);
    let named = Found { table_name: Some(p.table_name@), ..found_nothing() };
    lemma_groups_found(named, p.subnet_groups@, p.targets@);
    let sets = with_traceroute(with_groups(named, p.subnet_groups@, p.targets@), p);
    lemma_rules_keep_the_rest(
        Found { chain_name: Some(p.chain_name@), device_name: Some(p.device_name@), ..sets },
        flat(p.targets@, target_rule_texts(p)),
    );
}

/// A name in ASCII that is one line can stand in a policy that is found again.
pub proof fn law_ascii_names_are_findable(name: Seq<char>)
    requires
        is_ascii_text(name),
        is_line(name),
    ensures
        is_findable_name(name),
{
    let low = lowercase(name);
    let up = uppercase(name);
    let label = log_label(name);
    assert forall|i: int| 0 <= i < set_name(name).len() implies !is_space(
        #[trigger] set_name(name)[i],
    ) && set_name(name)[i] != '{' && set_name(name)[i] != '}' by {
        assert(low[i] == ascii_lower(name[i]));
        assert(set_name(name)[i] == word_char(low[i]));
        assert((name[i] as u32) < 128);
    }
    assert forall|i: int| 0 <= i < up.len() implies #[trigger] up[i] == ascii_upper(name[i]) by {}
    if name.len() > 0 {
        assert(up.last() == ascii_upper(name.last()));
    }
    assert forall|i: int| 0 <= i < label.len() implies #[trigger] label[i] != 'h' by {
        assert(up[i] == ascii_upper(name[i]));
    }
    lemma_no_hook_nowhere(label);
}

/// A name of small ASCII letters, digits and underscores is the name of its set.
pub proof fn law_plain_names_are_kept(name: Seq<char>)
    requires
        forall|i: int|
            0 <= i < name.len() ==> ('a' <= #[trigger] name[i] && name[i] <= 'z') || ('0' <= name[i]
                && name[i] <= '9') || name[i] == '_',
    ensures
        set_name(name) == name,
{
    assert(is_ascii_text(name));
    let low = lowercase(name);
    assert forall|i: int| 0 <= i < name.len() implies #[trigger] set_name(name)[i] == name[i] by {
        assert(low[i] == ascii_lower(name[i]));
        assert(set_name(name)[i] == word_char(low[i]));
    }
    assert(set_name(name) =~= name);
}

// ---------------------------------------------------------------------------
// What the rules of a written policy say
// ---------------------------------------------------------------------------

/// A port or a range of ports.
pub open spec fn is_port_text(s: Seq<char>) -> bool {
    s.len() > 0 && forall|i: int| 0 <= i < s.len() ==> is_digit(#[trigger] s[i]) || s[i] == '-'
}

/// The name of a set that does not hold the ending of its address family, so that the ending
/// is found where it stands.
pub open spec fn is_set_stem(s: Seq<char>) -> bool {
    is_bare(s) && !contains_text(s, "_v4"@)
}

/// The characters of a list of ports.
spec fn is_list_char(c: char) -> bool {
    is_digit(c) || c == '-' || c == '{' || c == '}' || c == ',' || c == ' '
}

proof fn lemma_ports_are_items(v: Seq<Seq<char>>)
    requires
        forall|i: int| 0 <= i < v.len() ==> is_port_text(#[trigger] v[i]),
    ensures
        are_items(v),
        all_bare(v),
        flat(v, unless_empty()) == v,
{
    assert forall|i: int| 0 <= i < v.len() implies is_item(#[trigger] v[i]) && is_bare(v[i])
        && v[i].len() > 0 by {
        let x = v[i];
        assert(is_port_text(x));
        assert forall|k: int| 0 <= k < x.len() implies !is_space(#[trigger] x[k]) && x[k] != '{'
            && x[k] != '}' && x[k] != ',' by {
            assert(is_digit(x[k]) || x[k] == '-');
        }
    }
    lemma_none_empty(v);
}

proof fn lemma_joined_chars(v: Seq<Seq<char>>)
    requires
        forall|i: int| 0 <= i < v.len() ==> is_port_text(#[trigger] v[i]),
    ensures
        forall|k: int|
            0 <= k < joined(v, ", "@).len() ==> is_list_char(#[trigger] joined(v, ", "@)[k]),
    decreases v.len(),
{
    reveal_strlit(", ");
    if v.len() == 1 {
        assert(is_port_text(v[0]));
    } else if v.len() > 1 {
        let front = v.drop_last();
        assert forall|i: int| 0 <= i < front.len() implies is_port_text(#[trigger] front[i]) by {
            assert(front[i] == v[i]);
        }
        lemma_joined_chars(front);
        let a = joined(front, ", "@);
        let b = v[v.len() - 1];
        assert(is_port_text(b));
        let all = joined(v, ", "@);
        assert(all == a + ", "@ + b);
        assert forall|k: int| 0 <= k < all.len() implies is_list_char(#[trigger] all[k]) by {
            if k < a.len() {
                assert(all[k] == a[k]);
            } else if k < a.len() + 2 {
                assert(all[k] == ", "@[k - a.len()]);
            } else {
                assert(all[k] == b[k - a.len() - 2]);
            }
        }
    }
}

proof fn lemma_list_chars(v: Seq<Seq<char>>)
    requires
        forall|i: int| 0 <= i < v.len() ==> is_port_text(#[trigger] v[i]),
    ensures
        forall|k: int| 0 <= k < list_expr(v).len() ==> is_list_char(#[trigger] list_expr(v)[k]),
{
    reveal_strlit("{ ");
    reveal_strlit(" }");
    lemma_joined_chars(v);
    if v.len() == 1 {
        assert(is_port_text(v[0]));
    } else if v.len() > 1 {
        let all = list_expr(v);
        let a = joined(v, ", "@);
        assert forall|k: int| 0 <= k < all.len() implies is_list_char(#[trigger] all[k]) by {
            if k < 2 {
                assert(all[k] == "{ "@[k]);
            } else if k < 2 + a.len() {
                assert(all[k] == a[k - 2]);
            } else {
                assert(all[k] == " }"@[k - 2 - a.len()]);
            }
        }
    }
}

/// The name of a set holds no sign that starts the name of a set.
proof fn lemma_no_at_sign(name: Seq<char>)
    ensures
        forall|i: int| 0 <= i < set_name(name).len() ==> #[trigger] set_name(name)[i] != '@',
{
    let low = lowercase(name);
    assert forall|i: int| 0 <= i < set_name(name).len() implies #[trigger] set_name(name)[i]
        != '@' by {
        assert(set_name(name)[i] == word_char(low[i]));
    }
}

/// The ending of a set is found behind the name of the set.
proof fn lemma_stem(stem: Seq<char>, tail: Seq<char>)
    requires
        is_set_stem(stem),
    ensures
        before(stem + "_v4"@ + tail, "_v4"@) == Some(stem),
{
    reveal_strlit("_v4");
    let s = stem + "_v4"@ + tail;
    let n = stem.len() as int;
    assert(occurs_at(s, "_v4"@, n)) by {
        assert(s.subrange(n, n + 3) =~= "_v4"@);
    }
    lemma_find_from(s, "_v4"@, 0);
    lemma_find_from(stem, "_v4"@, 0);
    let i = find_text(s, "_v4"@)->0;
    if i < n {
        let part = s.subrange(i, i + 3);
        assert(part[0] == s[i] && part[1] == s[i + 1] && part[2] == s[i + 2]);
        assert(s[i] == '_' && s[i + 1] == 'v' && s[i + 2] == '4');
        if i + 3 <= n {
            assert(stem.subrange(i, i + 3) =~= part);
            assert(occurs_at(stem, "_v4"@, i));
        } else if i + 2 == n {
            assert(s[n] == "_v4"@[0]);
        } else {
            assert(s[n] == "_v4"@[0]);
        }
    }
    assert(s.take(n) =~= stem);
}

/// The first word of a text that starts with a word.
proof fn lemma_word_from(x: Seq<char>, tail: Seq<char>)
    requires
        forall|i: int| 0 <= i < x.len() ==> !is_space(#[trigger] x[i]),
        tail.len() > 0,
        is_space(tail[0]),
    ensures
        word_from(x + tail) == x,
    decreases x.len(),
{
    if x.len() == 0 {
        assert(x + tail =~= tail);
        assert(word_from(tail) =~= x);
    } else {
        let y = x.skip(1);
        assert forall|i: int| 0 <= i < y.len() implies !is_space(#[trigger] y[i]) by {
            assert(y[i] == x[i + 1]);
        }
        lemma_word_from(y, tail);
        assert((x + tail).skip(1) =~= y + tail);
        assert((x + tail)[0] == x[0]);
        assert(word_from(x + tail) =~= seq![x[0]] + y);
        assert(seq![x[0]] + y =~= x);
    }
}

/// One port is read back from what stands behind the protocol.
proof fn lemma_port_of(x: Seq<char>)
    requires
        is_port_text(x),
        is_item(x),
    ensures
        ports_of(port_expr_of(x + " accept"@)) == seq![x],
{
    reveal_strlit("");
    reveal_strlit(" accept");
    reveal_strlit("{");
    let rest = x + " accept"@;
    assert(is_bare(x));
    assert(rest[0] == x[0]);
    assert(!"{"@.is_prefix_of(rest)) by {
        if "{"@.is_prefix_of(rest) {
            assert("{"@[0] == rest[0]);
        }
    }
    assert(!is_space(x[0]) && !is_space(x[x.len() - 1]));
    assert(trimmed_start(rest) == rest);
    assert forall|i: int| 0 <= i < x.len() implies !is_space(#[trigger] x[i]) by {}
    lemma_word_from(x, " accept"@);
    assert(port_expr_of(rest) == x);
    assert(!contains_char(x, '{'));
    lemma_trimmed_kept(x);
    lemma_one_item(""@, x, ""@);
    assert(""@ + x + ""@ =~= x);
}

/// What braces enclose, without the blanks inside them.
proof fn lemma_unbraced(inner: Seq<char>)
    requires
        inner.len() > 0,
        !is_space(inner[0]),
        !is_space(inner.last()),
    ensures
        ({
            let list = "{ "@ + inner + " }"@;
            &&& contains_char(list, '{')
            &&& trimmed(without_trailing(without_leading(trimmed(list), '{'), '}')) == inner
        }),
{
    reveal_strlit(" ");
    reveal_strlit("{ ");
    reveal_strlit(" }");
    let list = "{ "@ + inner + " }"@;
    assert(list[0] == '{');
    assert(list.last() == '}');
    lemma_trimmed_kept(list);
    let b = list.skip(1);
    assert(b[0] == ' ');
    reveal_with_fuel(without_leading, 2);
    assert(without_leading(list, '{') == b);
    assert(b.last() == '}');
    assert(b.drop_last() =~= " "@ + inner + " "@);
    assert(b.drop_last().last() == ' ');
    reveal_with_fuel(without_trailing, 2);
    assert(without_trailing(b, '}') == " "@ + inner + " "@);
    assert(all_space(" "@));
    lemma_trimmed(" "@, inner, " "@);
}

/// The list in braces is what stands before the first closing one.
proof fn lemma_braced_expr(inner: Seq<char>)
    requires
        is_quiet(inner),
    ensures
        port_expr_of("{ "@ + inner + " }"@ + " accept"@) == "{ "@ + inner + " }"@,
{
    reveal_strlit(" accept");
    reveal_strlit("{ ");
    reveal_strlit(" }");
    reveal_strlit("{");
    reveal_strlit("}");
    let list = "{ "@ + inner + " }"@;
    let rest = list + " accept"@;
    let k = list.len() - 1;
    assert(rest.take(1) =~= "{"@);
    assert(rest[k] == list[k] && list[k] == '}');
    assert forall|j: int| 0 <= j < k implies #[trigger] rest[j] != '}' by {
        assert(rest[j] == list[j]);
        if j < 2 {
            assert(list[j] == "{ "@[j]);
        } else if j < 2 + inner.len() {
            assert(list[j] == inner[j - 2]);
        } else {
            assert(list[j] == " }"@[j - 2 - inner.len()]);
        }
    }
    assert("}"@ =~= seq!['}']);
    lemma_char_found(rest, '}', k);
    assert(rest.take(k + 1) =~= list);
}

/// The ports of a rule are read back from what stands behind the protocol.
proof fn lemma_ports_of(v: Seq<Seq<char>>)
    requires
        v.len() > 0,
        forall|i: int| 0 <= i < v.len() ==> is_port_text(#[trigger] v[i]),
    ensures
        ports_of(port_expr_of(list_expr(v) + " accept"@)) == v,
{
    lemma_ports_are_items(v);
    if v.len() == 1 {
        assert(is_port_text(v[0]) && is_item(v[0]));
        lemma_port_of(v[0]);
        assert(v =~= seq![v[0]]);
    } else {
        let inner = joined(v, ", "@);
        lemma_joined_is_quiet(v);
        assert forall|i: int| 0 <= i < v.len() implies (#[trigger] v[i]).len() > 0 by {
            assert(is_port_text(v[i]));
        }
        lemma_joined_ends(v);
        lemma_braced_expr(inner);
        lemma_unbraced(inner);
        lemma_comma_list(""@, v, ""@);
        assert(""@ + inner + ""@ =~= inner) by {
            reveal_strlit("");
        }
    }
}

/// The text that joins items that are not empty starts and ends with no white space.
proof fn lemma_joined_ends(v: Seq<Seq<char>>)
    requires
        v.len() > 0,
        all_bare(v),
        forall|i: int| 0 <= i < v.len() ==> (#[trigger] v[i]).len() > 0,
    ensures
        joined(v, ", "@).len() > 0,
        !is_space(joined(v, ", "@)[0]),
        !is_space(joined(v, ", "@).last()),
    decreases v.len(),
{
    reveal_strlit(", ");
    let x = v[v.len() - 1];
    assert(is_bare(x) && x.len() > 0);
    assert(!is_space(x[0]) && !is_space(x[x.len() - 1]));
    if v.len() > 1 {
        let front = v.drop_last();
        assert forall|i: int| 0 <= i < front.len() implies is_bare(#[trigger] front[i])
            && front[i].len() > 0 by {
            assert(front[i] == v[i]);
        }
        lemma_joined_ends(front);
        let a = joined(front, ", "@);
        let all = joined(v, ", "@);
        assert(all == a + ", "@ + x);
        assert(all[0] == a[0]);
        assert(all.last() == x[x.len() - 1]);
    }
}

/// What names the sources of a rule, where it names a group.
spec fn source_text(source: Option<Seq<char>>) -> Seq<char> {
    match source {
        Some(g) => " ip saddr @sg_"@ + set_name(g) + "_v4"@,
        None => Seq::empty(),
    }
}

/// What an IPv4 rule holds before its protocol.
spec fn rule_front(target: Seq<char>, source: Option<Seq<char>>) -> Seq<char> {
    "ip daddr @target_"@ + set_name(target) + "_v4"@ + source_text(source)
}

/// What stands between the sets and the ports of a rule.
spec fn rule_middle(protocol: Seq<char>) -> Seq<char> {
    " ip protocol "@ + protocol + " "@ + protocol + " dport "@
}

proof fn lemma_rule_parts(
    target: Seq<char>,
    source: Option<Seq<char>>,
    protocol: Seq<char>,
    ports: Seq<Seq<char>>,
)
    ensures
        accept_text(target, source, protocol, ports, false) == rule_front(target, source)
            + rule_middle(protocol) + (list_expr(ports) + " accept"@),
{
    let front = rule_front(target, source);
    assert("ip"@ + " daddr @target_"@ == "ip daddr @target_"@) by {
        reveal_strlit("ip");
        reveal_strlit(" daddr @target_");
        reveal_strlit("ip daddr @target_");
        assert("ip"@ + " daddr @target_"@ =~= "ip daddr @target_"@);
    }
    if let Some(g) = source {
        assert(" "@ + "ip"@ + " saddr @sg_"@ == " ip saddr @sg_"@) by {
            reveal_strlit("ip");
            reveal_strlit(" ");
            reveal_strlit(" saddr @sg_");
            reveal_strlit(" ip saddr @sg_");
            assert(" "@ + "ip"@ + " saddr @sg_"@ =~= " ip saddr @sg_"@);
        }
    }
    lemma_regrouped(front, " ip protocol "@, protocol);
    lemma_regrouped(front, " ip protocol "@ + protocol, " "@);
    lemma_regrouped(front, " ip protocol "@ + protocol + " "@, protocol);
    lemma_regrouped(front, " ip protocol "@ + protocol + " "@ + protocol, " dport "@);
    lemma_regrouped(front + rule_middle(protocol), list_expr(ports), " accept"@);
}

/// Where blanks and the signs of sets stand before the protocol of a rule.
proof fn lemma_rule_front(target: Seq<char>, source: Option<Seq<char>>)
    requires
        is_bare(set_name(target)),
        source is Some ==> is_bare(set_name(source->0)),
    ensures
        ({
            let s = rule_front(target, source);
            let n = set_name(target).len();
            &&& s.len() >= 20 + n
            &&& forall|k: int|
                #![trigger s[k]]
                0 <= k < s.len() && s[k] == ' ' ==> {
                    &&& k + 2 < s.len()
                    &&& s[k + 1] != 'n' && s[k + 1] != 't'
                    &&& s[k + 1] != 'd' || s[k + 2] != 'p'
                }
            &&& forall|k: int|
                #![trigger s[k]]
                0 <= k < s.len() && s[k] == '@' ==> k == 9 || (source is Some && k == n + 30)
        }),
{
    reveal_strlit("ip daddr @target_");
    reveal_strlit("_v4");
    reveal_strlit(" ip saddr @sg_");
    lemma_no_at_sign(target);
    assert(is_space(' '));
    let a = "ip daddr @target_"@;
    let name = set_name(target);
    let n = name.len() as int;
    let s = rule_front(target, source);
    if let Some(g) = source {
        lemma_no_at_sign(g);
        let group = set_name(g);
        let b = " ip saddr @sg_"@;
        let m = group.len() as int;
        assert forall|k: int| #![trigger s[k]] 0 <= k < s.len() implies s[k] == if k < 17 {
            a[k]
        } else if k < 17 + n {
            name[k - 17]
        } else if k < 20 + n {
            "_v4"@[k - 17 - n]
        } else if k < 34 + n {
            b[k - 20 - n]
        } else if k < 34 + n + m {
            group[k - 34 - n]
        } else {
            "_v4"@[k - 34 - n - m]
        } by {}
        assert(s.len() == 37 + n + m);
        assert forall|k: int| #![trigger s[k]] 0 <= k < s.len() && s[k] == ' ' implies k + 2
            < s.len() && s[k + 1] != 'n' && s[k + 1] != 't' && (s[k + 1] != 'd' || s[k + 2]
            != 'p') by {
            if k < 17 {
                assert(s[k + 1] == a[k + 1] && s[k + 2] == a[k + 2]);
            } else {
                assert(20 + n <= k < 34 + n);
                assert(s[k + 1] == b[k + 1 - 20 - n] && s[k + 2] == b[k + 2 - 20 - n]);
            }
        }
    } else {
        assert forall|k: int| #![trigger s[k]] 0 <= k < s.len() implies s[k] == if k < 17 {
            a[k]
        } else if k < 17 + n {
            name[k - 17]
        } else {
            "_v4"@[k - 17 - n]
        } by {}
        assert(s.len() == 20 + n);
        assert forall|k: int| #![trigger s[k]] 0 <= k < s.len() && s[k] == ' ' implies k + 2
            < s.len() && s[k + 1] != 'n' && s[k + 1] != 't' && (s[k + 1] != 'd' || s[k + 2]
            != 'p') by {
            assert(s[k + 1] == a[k + 1] && s[k + 2] == a[k + 2]);
        }
    }
}

/// The target and the group of a written rule are read back.
proof fn lemma_rule_sets(target: Seq<char>, source: Option<Seq<char>>, back: Seq<char>)
    requires
        is_set_stem(set_name(target)),
        source is Some ==> is_set_stem(set_name(source->0)),
        forall|k: int| 0 <= k < back.len() ==> #[trigger] back[k] != '@',
    ensures
        ({
            let line = rule_front(target, source) + back;
            &&& behind(line, "@target_"@) is Some
            &&& before(behind(line, "@target_"@)->0, "_v4"@) == Some(set_name(target))
            &&& rule_group(line) == (match source {
                Some(g) => set_name(g),
                None => Seq::empty(),
            })
        }),
{
    reveal_strlit("ip daddr @target_");
    reveal_strlit("@target_");
    reveal_strlit("@sg_");
    reveal_strlit("_v4");
    reveal_strlit(" ip saddr @sg_");
    let front = rule_front(target, source);
    let line = front + back;
    let name = set_name(target);
    let n = name.len() as int;
    lemma_rule_front(target, source);
    assert forall|k: int| 0 <= k < 17 implies #[trigger] line[k] == "ip daddr @target_"@[k] by {}
    assert(occurs_at(line, "@target_"@, 9)) by {
        assert(line.subrange(9, 17) =~= "@target_"@);
    }
    lemma_find_at(line, "@target_"@, 9);
    let rest = line.skip(17);
    assert(rest =~= name + "_v4"@ + (source_text(source) + back));
    lemma_stem(name, source_text(source) + back);
    lemma_find_from(line, "@sg_"@, 0);
    assert forall|i: int| occurs_at(line, "@sg_"@, i) implies source is Some && i == n + 30 by {
        assert(line.subrange(i, i + 4)[0] == line[i]);
        assert(line.subrange(i, i + 4)[1] == line[i + 1]);
        assert(line[i] == '@' && line[i + 1] == 's');
        if i < front.len() {
            assert(line[i] == front[i]);
            if i == 9 {
                assert(line[10] == "ip daddr @target_"@[10]);
            }
        } else {
            assert(line[i] == back[i - front.len()]);
        }
    }
    if let Some(g) = source {
        let group = set_name(g);
        let at = n + 30;
        assert(occurs_at(line, "@sg_"@, at)) by {
            assert(line.subrange(at, at + 4) =~= "@sg_"@);
        }
        assert(find_text(line, "@sg_"@) == Some(at));
        let tail = line.skip(at + 4);
        assert(tail =~= group + "_v4"@ + back);
        lemma_stem(group, back);
    } else {
        assert(find_text(line, "@sg_"@) is None);
    }
}

/// Where the protocol and the ports of a written rule are read.
proof fn lemma_rule_protocol(
    target: Seq<char>,
    source: Option<Seq<char>>,
    protocol: Seq<char>,
    tail: Seq<char>,
)
    requires
        is_bare(set_name(target)),
        source is Some ==> is_bare(set_name(source->0)),
        protocol == "tcp"@ || protocol == "udp"@,
        forall|k: int|
            #![trigger tail[k]]
            0 < k < tail.len() && tail[k - 1] == ' ' ==> tail[k] != 'n' && tail[k] != 't'
                && tail[k] != 'd',
        tail.len() > 0,
        tail[0] != 'n' && tail[0] != 't' && tail[0] != 'd',
    ensures
        ({
            let line = rule_front(target, source) + rule_middle(protocol) + tail;
            &&& rule_protocol(line) == Some(protocol)
            &&& behind(line, protocol + " dport "@) == Some(tail)
        }),
{
    reveal_strlit("tcp");
    reveal_strlit("udp");
    reveal_strlit(" ");
    reveal_strlit(" dport ");
    reveal_strlit(" ip protocol ");
    reveal_strlit("ip protocol tcp");
    reveal_strlit("ip protocol udp");
    reveal_strlit("ip6 nexthdr tcp");
    reveal_strlit("ip6 nexthdr udp");
    let front = rule_front(target, source);
    let mid = rule_middle(protocol);
    let line = front + mid + tail;
    let q = front.len() as int;
    lemma_rule_front(target, source);
    assert(mid.len() == 27);
    assert forall|k: int| 0 <= k < 27 implies #[trigger] line[q + k] == mid[k] by {}
    // A blank comes before an `n` nowhere, before a `t` only where the protocol stands, and
    // before `dp` only behind it.
    assert forall|k: int| #![trigger line[k]] 0 <= k && k + 2 < line.len() && line[k] == ' ' implies {
        &&& line[k + 1] != 'n'
        &&& line[k + 1] == 't' ==> protocol == "tcp"@
        &&& line[k + 1] == 'd' && line[k + 2] == 'p' ==> k == q + 20
    } by {
        if k < q {
            assert(line[k] == front[k]);
            assert(line[k + 1] == front[k + 1] && line[k + 2] == front[k + 2]);
        } else if k < q + 27 {
            assert(line[k] == mid[k - q]);
            if k < q + 25 {
                assert(line[k + 1] == mid[k + 1 - q] && line[k + 2] == mid[k + 2 - q]);
            } else if k == q + 26 {
                assert(line[k + 1] == tail[0]);
            }
        } else {
            assert(line[k] == tail[k - q - 27]);
            assert(line[k + 1] == tail[k + 1 - q - 27]);
        }
    }
    lemma_find_from(line, "ip6 nexthdr tcp"@, 0);
    lemma_find_from(line, "ip6 nexthdr udp"@, 0);
    lemma_find_from(line, "ip protocol tcp"@, 0);
    lemma_find_from(line, "ip protocol udp"@, 0);
    assert forall|i: int| !occurs_at(line, "ip6 nexthdr tcp"@, i) by {
        if occurs_at(line, "ip6 nexthdr tcp"@, i) {
            assert(line.subrange(i, i + 15)[3] == line[i + 3]);
            assert(line.subrange(i, i + 15)[4] == line[i + 4]);
            assert(line[i + 3] == ' ' && line[i + 4] == 'n');
        }
    }
    assert forall|i: int| !occurs_at(line, "ip6 nexthdr udp"@, i) by {
        if occurs_at(line, "ip6 nexthdr udp"@, i) {
            assert(line.subrange(i, i + 15)[3] == line[i + 3]);
            assert(line.subrange(i, i + 15)[4] == line[i + 4]);
            assert(line[i + 3] == ' ' && line[i + 4] == 'n');
        }
    }
    if protocol == "tcp"@ {
        assert(occurs_at(line, "ip protocol tcp"@, q + 1)) by {
            assert(line.subrange(q + 1, q + 16) =~= "ip protocol tcp"@);
        }
    } else {
        assert("udp"@[0] != "tcp"@[0]);
        assert forall|i: int| !occurs_at(line, "ip protocol tcp"@, i) by {
            if occurs_at(line, "ip protocol tcp"@, i) {
                assert(line.subrange(i, i + 15)[11] == line[i + 11]);
                assert(line.subrange(i, i + 15)[12] == line[i + 12]);
                assert(line[i + 11] == ' ' && line[i + 12] == 't');
            }
        }
        assert(occurs_at(line, "ip protocol udp"@, q + 1)) by {
            assert(line.subrange(q + 1, q + 16) =~= "ip protocol udp"@);
        }
    }
    let p = protocol + " dport "@;
    assert(p.len() == 10);
    lemma_find_from(line, p, 0);
    assert(occurs_at(line, p, q + 17)) by {
        assert(line.subrange(q + 17, q + 27) =~= p);
    }
    assert forall|i: int| occurs_at(line, p, i) implies i == q + 17 by {
        assert(line.subrange(i, i + 10)[3] == line[i + 3]);
        assert(line.subrange(i, i + 10)[4] == line[i + 4]);
        assert(line.subrange(i, i + 10)[5] == line[i + 5]);
        assert(p[3] == ' ' && p[4] == 'd' && p[5] == 'p');
    }
    assert(line.skip(q + 27) =~= tail);
}

/// Each IPv4 rule that a policy writes for a target is read back: the target, the group of
/// sources, the protocol and the ports, which a scan sorts. A name that holds the ending of
/// the IPv4 sets is cut there, and so is left out.
pub proof fn law_written_rules_are_read_back(
    target: Seq<char>,
    source: Option<Seq<char>>,
    protocol: Seq<char>,
    ports: Seq<Seq<char>>,
)
    requires
        is_set_stem(set_name(target)),
        source is Some ==> is_set_stem(set_name(source->0)),
        protocol == "tcp"@ || protocol == "udp"@,
        ports.len() > 0,
        forall|i: int| 0 <= i < ports.len() ==> is_port_text(#[trigger] ports[i]),
    ensures
        read_rule(accept_text(target, source, protocol, ports, false)) == Some(
            RuleModel {
                target: set_name(target),
                group: match source {
                    Some(g) => set_name(g),
                    None => Seq::empty(),
                },
                protocol,
                ports: sorted_texts(ports),
            },
        ),
{
    lemma_rule_parts(target, source, protocol, ports);
    lemma_list_chars(ports);
    lemma_ports_of(ports);
    reveal_strlit(" accept");
    let list = list_expr(ports);
    let tail = list + " accept"@;
    let front = rule_front(target, source);
    let mid = rule_middle(protocol);
    let line = front + mid + tail;
    assert forall|k: int| 0 <= k < tail.len() implies {
        &&& #[trigger] tail[k] != '@'
        &&& tail[k] != 'n'
        &&& tail[k] != 'd'
        &&& tail[k] == 't' ==> k == tail.len() - 1
    } by {
        if k < list.len() {
            assert(tail[k] == list[k]);
            assert(is_list_char(list[k]));
        } else {
            assert(tail[k] == " accept"@[k - list.len()]);
        }
    }
    assert forall|k: int| #![trigger tail[k]] 0 < k < tail.len() && tail[k - 1] == ' ' implies tail[k]
        != 'n' && tail[k] != 't' && tail[k] != 'd' by {
        if tail[k] == 't' {
            assert(tail[k - 1] == " accept"@[5]);
        }
    }
    lemma_rule_protocol(target, source, protocol, tail);
    let back = mid + tail;
    assert(line =~= front + back);
    assert forall|k: int| 0 <= k < back.len() implies #[trigger] back[k] != '@' by {
        lemma_middle_chars(protocol);
        if k < mid.len() {
            assert(back[k] == mid[k]);
        } else {
            assert(back[k] == tail[k - mid.len()]);
        }
    }
    lemma_rule_sets(target, source, back);
}

proof fn lemma_middle_chars(protocol: Seq<char>)
    requires
        protocol == "tcp"@ || protocol == "udp"@,
    ensures
        forall|k: int|
            0 <= k < rule_middle(protocol).len() ==> #[trigger] rule_middle(protocol)[k] != '@',
{
    reveal_strlit("tcp");
    reveal_strlit("udp");
    reveal_strlit(" ");
    reveal_strlit(" dport ");
    reveal_strlit(" ip protocol ");
}

} // verus!
