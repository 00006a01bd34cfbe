//! What the rules of a firewall policy let in, and what they drop.

use crate::chars::{ascii_lower, ascii_upper, is_ascii_text, lowercase, uppercase, word_char};
use crate::generators::nft::{
    BYPASS_RULES, COMMON_HEAD, DROPS_HEAD, SERVICES_HEAD, TARGETS_HEAD, accept_line, addrs_of,
    all_addrs, chain_head, common_rules, drop_line, drop_lines_of, family_suffix, global_accept,
    global_set, global_set_of, group_from, group_section, group_sets_of, ip_word,
    law_target_sets_are_defined, lemma_group_set_is_defined, list_expr, log_label, policy_text,
    port_range_text, port_sets, protocol_lines, referenced, rule_applies, rule_lines,
    service_named, set_name, some_group_used, source_group, target_rules, target_sets_of,
    v6_protocol,
};
use crate::lines::{flat, flat_indexed, joined};
use crate::models::nft::{
    NftGlobalRule, NftPolicy, NftServiceDef, NftSubnetGroup, NftTarget, NftTargetRule,
};
use crate::number::decimal;
use crate::occurs::{
    lemma_before_in_part, lemma_before_in_sum, lemma_contains_self, lemma_contains_sum,
    lemma_contains_trans, lemma_flat_contains, lemma_regrouped, stands_before,
};
use crate::text::{contains_text, given, opt_view, views};
use vstd::prelude::*;
use vstd::string::*;

verus! {

// ---------------------------------------------------------------------------
// The names of the sets
// ---------------------------------------------------------------------------

/// The set of an ASCII name has its letters in lower case and its digits, and an underscore
/// for each other character. The label of its log entries has the letters in upper case, and
/// underscores for hyphens and dots.
pub proof fn law_names_are_kept_letter_by_letter(name: Seq<char>)
    requires
        is_ascii_text(name),
    ensures
        set_name(name).len() == name.len(),
        log_label(name).len() == name.len(),
        forall|i: int|
            0 <= i < name.len() ==> #[trigger] set_name(name)[i] == if 'A' <= name[i] && name[i]
                <= 'Z' {
                (name[i] as u32 + 32) as char
            } else if ('a' <= name[i] && name[i] <= 'z') || ('0' <= name[i] && name[i] <= '9') {
                name[i]
            } else {
                '_'
            },
        forall|i: int|
            0 <= i < name.len() ==> #[trigger] log_label(name)[i] == if 'a' <= name[i] && name[i]
                <= 'z' {
                (name[i] as u32 - 32) as char
            } else if name[i] == '-' || name[i] == '.' {
                '_'
            } else {
                name[i]
            },
{
    let low = lowercase(name);
    let up = uppercase(name);
    assert forall|i: int| 0 <= i < name.len() implies #[trigger] set_name(name)[i] == if 'A'
        <= name[i] && name[i] <= 'Z' {
        (name[i] as u32 + 32) as char
    } else if ('a' <= name[i] && name[i] <= 'z') || ('0' <= name[i] && name[i] <= '9') {
        name[i]
    } else {
        '_'
    } by {
        assert((name[i] as u32) < 128);
        assert(low[i] == ascii_lower(name[i]));
        assert(set_name(name)[i] == word_char(low[i]));
    }
    assert forall|i: int| 0 <= i < name.len() implies #[trigger] log_label(name)[i] == if 'a'
        <= name[i] && name[i] <= 'z' {
        (name[i] as u32 - 32) as char
    } else if name[i] == '-' || name[i] == '.' {
        '_'
    } else {
        name[i]
    } by {
        assert(up[i] == ascii_upper(name[i]));
    }
}

// ---------------------------------------------------------------------------
// What is let in
// ---------------------------------------------------------------------------

/// Whether a target has addresses in the family.
pub open spec fn is_addressed(t: NftTarget, v6: bool) -> bool {
    if v6 {
        t.ipv6_addrs@.len() > 0
    } else {
        t.ipv4_addrs@.len() > 0
    }
}

/// Whether the service of a rule is the one at the given place: the last one of that name.
pub open spec fn is_service_of(p: NftPolicy, r: NftTargetRule, s: int) -> bool {
    0 <= s < p.services@.len() && p.services@[s].name@ == r.service_name@ && forall|k: int|
        s < k < p.services@.len() ==> (#[trigger] p.services@[k]).name@ != r.service_name@
}

/// Whether a rule lets in whoever comes.
pub open spec fn lets_in_all(r: NftTargetRule) -> bool {
    r.subnet_group is None || r.subnet_group->0@.len() == 0
}

/// Whether the group of a rule is the one at the given place: the first one of that name.
pub open spec fn is_group_of(p: NftPolicy, r: NftTargetRule, g: int) -> bool {
    0 <= g < p.subnet_groups@.len() && !lets_in_all(r) && p.subnet_groups@[g].name@
        == r.subnet_group->0@ && forall|k: int|
        0 <= k < g ==> (#[trigger] p.subnet_groups@[k]).name@ != r.subnet_group->0@
}

/// Whether a rule lets something in over the family: from everywhere, or from the subnets of
/// its group.
pub open spec fn lets_in(p: NftPolicy, r: NftTargetRule, v6: bool) -> bool {
    lets_in_all(r) || exists|g: int| #[trigger]
        is_group_of(p, r, g) && if v6 {
            p.subnet_groups@[g].cidrs_v6@.len() > 0
        } else {
            p.subnet_groups@[g].cidrs_v4@.len() > 0
        }
}

/// One port, or several in braces.
pub open spec fn one_or_braced(v: Seq<Seq<char>>) -> Seq<char> {
    if v.len() == 1 {
        v[0]
    } else {
        "{ "@ + joined(v, ", "@) + " }"@
    }
}

/// The line of a rule that lets a protocol in.
pub open spec fn accepting(
    t: NftTarget,
    r: NftTargetRule,
    protocol: Seq<char>,
    ports: Seq<Seq<char>>,
    v6: bool,
) -> Seq<char> {
    if v6 {
        "        ip6 daddr @target_"@ + set_name(t.name@) + "_v6"@ + (if lets_in_all(r) {
            Seq::empty()
        } else {
            " ip6 saddr @sg_"@ + set_name(r.subnet_group->0@) + "_v6"@
        }) + " ip6 nexthdr "@ + protocol + " "@ + protocol + " dport "@ + one_or_braced(ports)
            + " accept\n"@
    } else {
        "        ip daddr @target_"@ + set_name(t.name@) + "_v4"@ + (if lets_in_all(r) {
            Seq::empty()
        } else {
            " ip saddr @sg_"@ + set_name(r.subnet_group->0@) + "_v4"@
        }) + " ip protocol "@ + protocol + " "@ + protocol + " dport "@ + one_or_braced(ports)
            + " accept\n"@
    }
}

/// The lines of a rule for one protocol.
pub open spec fn accepting_lines(
    p: NftPolicy,
    t: NftTarget,
    r: NftTargetRule,
    protocol: Seq<char>,
    ports: Seq<Seq<char>>,
) -> Seq<char> {
    (if ports.len() > 0 && is_addressed(t, false) && lets_in(p, r, false) {
        accepting(t, r, protocol, ports, false)
    } else {
        Seq::empty()
    }) + (if ports.len() > 0 && is_addressed(t, true) && lets_in(p, r, true) {
        accepting(t, r, protocol, ports, true)
    } else {
        Seq::empty()
    })
}

/// The lines of a rule: those of the TCP ports of its service, then those of its UDP ports,
/// and none where no service has the name.
pub open spec fn lines_of_rule(p: NftPolicy, t: NftTarget) -> spec_fn(NftTargetRule) -> Seq<char> {
    |r: NftTargetRule|
        if exists|s: int| is_service_of(p, r, s) {
            let s = choose|s: int| is_service_of(p, r, s);
            accepting_lines(p, t, r, "tcp"@, views(p.services@[s].tcp_ports@)) + accepting_lines(
                p,
                t,
                r,
                "udp"@,
                views(p.services@[s].udp_ports@),
            )
        } else {
            Seq::empty()
        }
}

/// The rules of a target, under its name in capitals.
pub open spec fn rules_of_target(p: NftPolicy) -> spec_fn(NftTarget) -> Seq<char> {
    |t: NftTarget|
        "\n        # "@ + uppercase(t.name@) + "\n"@ + flat(t.rules@, lines_of_rule(p, t))
}

/// The line that drops what comes for a target over the family.
pub open spec fn dropping(t: NftTarget, v6: bool) -> Seq<char> {
    if v6 {
        "        ip6 daddr @target_"@ + set_name(t.name@) + "_v6 counter log prefix \"NFT_"@
            + log_label(t.name@) + "_V6_DROP: \" drop\n"@
    } else {
        "        ip daddr @target_"@ + set_name(t.name@) + "_v4 counter log prefix \"NFT_"@
            + log_label(t.name@) + "_V4_DROP: \" drop\n"@
    }
}

/// The lines that drop what comes for a target: one for each family in which it has
/// addresses.
pub open spec fn drops_of_target() -> spec_fn(NftTarget) -> Seq<char> {
    |t: NftTarget|
        (if is_addressed(t, false) {
            dropping(t, false)
        } else {
            Seq::empty()
        }) + (if is_addressed(t, true) {
            dropping(t, true)
        } else {
            Seq::empty()
        })
}

// ---------------------------------------------------------------------------
// Proofs
// ---------------------------------------------------------------------------

proof fn lemma_flat_same<T, U>(v: Seq<T>, f: spec_fn(T) -> Seq<U>, g: spec_fn(T) -> Seq<U>)
    requires
        forall|i: int| 0 <= i < v.len() ==> f(#[trigger] v[i]) == g(v[i]),
    ensures
        flat(v, f) == flat(v, g),
    decreases v.len(),
{
    if v.len() > 0 {
        assert forall|i: int| 0 <= i < v.drop_last().len() implies f(#[trigger] v.drop_last()[i])
            == g(v.drop_last()[i]) by {
            assert(v.drop_last()[i] == v[i]);
        }
        lemma_flat_same(v.drop_last(), f, g);
        assert(f(v[v.len() - 1]) == g(v[v.len() - 1]));
    }
}

proof fn lemma_service_of(p: NftPolicy, r: NftTargetRule, services: Seq<NftServiceDef>)
    requires
        services == p.services@.take(services.len() as int),
        services.len() <= p.services@.len(),
        forall|k: int|
            services.len() <= k < p.services@.len() ==> (#[trigger] p.services@[k]).name@
                != r.service_name@,
    ensures
        match service_named(services, r.service_name@) {
            Some(svc) => exists|s: int| #[trigger] is_service_of(p, r, s) && p.services@[s] == svc,
            None => forall|s: int| !#[trigger] is_service_of(p, r, s),
        },
    decreases services.len(),
{
    if services.len() > 0 {
        let n = services.len() - 1;
        assert(services.last() == p.services@[n]);
        if services.last().name@ == r.service_name@ {
            assert(is_service_of(p, r, n));
        } else {
            let front = services.drop_last();
            assert(front =~= p.services@.take(front.len() as int));
            assert forall|k: int| front.len() <= k < p.services@.len() implies (
            #[trigger] p.services@[k]).name@ != r.service_name@ by {
                if k == n {
                    assert(p.services@[k] == services.last());
                }
            }
            lemma_service_of(p, r, front);
        }
    } else {
        assert forall|s: int| !#[trigger] is_service_of(p, r, s) by {
            if is_service_of(p, r, s) {
                assert(p.services@[s].name@ != r.service_name@);
            }
        }
    }
}

/// A rule has one service, and one group.
proof fn lemma_one_of_each(p: NftPolicy, r: NftTargetRule, a: int, b: int)
    ensures
        is_service_of(p, r, a) && is_service_of(p, r, b) ==> a == b,
        is_group_of(p, r, a) && is_group_of(p, r, b) ==> a == b,
{
    if is_service_of(p, r, a) && is_service_of(p, r, b) {
        if a < b {
            assert(p.services@[b].name@ != r.service_name@);
        } else if b < a {
            assert(p.services@[a].name@ != r.service_name@);
        }
    }
    if is_group_of(p, r, a) && is_group_of(p, r, b) {
        if a < b {
            assert(p.subnet_groups@[a].name@ != r.subnet_group->0@);
        } else if b < a {
            assert(p.subnet_groups@[b].name@ != r.subnet_group->0@);
        }
    }
}

proof fn lemma_group_of(p: NftPolicy, r: NftTargetRule, i: int)
    requires
        !lets_in_all(r),
        0 <= i <= p.subnet_groups@.len(),
        forall|k: int|
            0 <= k < i ==> (#[trigger] p.subnet_groups@[k]).name@ != r.subnet_group->0@,
    ensures
        match group_from(p.subnet_groups@, r.subnet_group->0@, i) {
            Some(g) => is_group_of(p, r, g),
            None => forall|g: int| !#[trigger] is_group_of(p, r, g),
        },
    decreases p.subnet_groups@.len() - i,
{
    if i < p.subnet_groups@.len() {
        if p.subnet_groups@[i].name@ != r.subnet_group->0@ {
            lemma_group_of(p, r, i + 1);
        }
    } else {
        assert forall|g: int| !#[trigger] is_group_of(p, r, g) by {
            if is_group_of(p, r, g) {
                assert(p.subnet_groups@[g].name@ != r.subnet_group->0@);
            }
        }
    }
}

proof fn lemma_lets_in(p: NftPolicy, t: NftTarget, r: NftTargetRule, v6: bool)
    ensures
        rule_applies(p, t, r, v6) == (is_addressed(t, v6) && lets_in(p, r, v6)),
        source_group(r) == if lets_in_all(r) {
            None
        } else {
            Some(r.subnet_group->0@)
        },
{
    if !lets_in_all(r) {
        lemma_group_of(p, r, 0);
        match group_from(p.subnet_groups@, r.subnet_group->0@, 0) {
            Some(k) => {
                assert forall|g: int| #[trigger] is_group_of(p, r, g) implies g == k by {
                    lemma_one_of_each(p, r, g, k);
                }
            },
            None => {},
        }
    }
}

/// The parts of the lines, and the lines' texts.
proof fn lemma_words()
    ensures
        "        ip daddr @target_"@ == "        "@ + "ip"@ + " daddr @target_"@,
        "        ip6 daddr @target_"@ == "        "@ + "ip6"@ + " daddr @target_"@,
        " ip saddr @sg_"@ == " "@ + "ip"@ + " saddr @sg_"@,
        " ip6 saddr @sg_"@ == " "@ + "ip6"@ + " saddr @sg_"@,
        "_v4 counter log prefix \"NFT_"@ == "_v4"@ + " counter log prefix \"NFT_"@,
        "_v6 counter log prefix \"NFT_"@ == "_v6"@ + " counter log prefix \"NFT_"@,
{
    reveal_strlit("        ip daddr @target_");
    reveal_strlit("        ip6 daddr @target_");
    reveal_strlit("        ");
    reveal_strlit("ip");
    reveal_strlit("ip6");
    reveal_strlit(" daddr @target_");
    reveal_strlit(" ip saddr @sg_");
    reveal_strlit(" ip6 saddr @sg_");
    reveal_strlit(" ");
    reveal_strlit(" saddr @sg_");
    reveal_strlit("_v4 counter log prefix \"NFT_");
    reveal_strlit("_v6 counter log prefix \"NFT_");
    reveal_strlit("_v4");
    reveal_strlit("_v6");
    reveal_strlit(" counter log prefix \"NFT_");
}

proof fn lemma_accepting(
    p: NftPolicy,
    t: NftTarget,
    r: NftTargetRule,
    protocol: Seq<char>,
    ports: Seq<Seq<char>>,
    v6: bool,
)
    requires
        ports.len() > 0,
    ensures
        accept_line(t.name@, source_group(r), protocol, ports, v6) == accepting(
            t,
            r,
            protocol,
            ports,
            v6,
        ),
{
    lemma_words();
    lemma_lets_in(p, t, r, v6);
    assert(list_expr(ports) == one_or_braced(ports));
}

proof fn lemma_accepting_lines(
    p: NftPolicy,
    t: NftTarget,
    r: NftTargetRule,
    protocol: Seq<char>,
    ports: Seq<Seq<char>>,
)
    ensures
        protocol_lines(p, t, r, protocol, ports) == accepting_lines(p, t, r, protocol, ports),
{
    lemma_lets_in(p, t, r, false);
    lemma_lets_in(p, t, r, true);
    if ports.len() > 0 {
        lemma_accepting(p, t, r, protocol, ports, false);
        lemma_accepting(p, t, r, protocol, ports, true);
    } else {
        assert(accepting_lines(p, t, r, protocol, ports) =~= Seq::<char>::empty());
    }
}

proof fn lemma_rule(p: NftPolicy, t: NftTarget, r: NftTargetRule)
    ensures
        rule_lines(p, t)(r) == lines_of_rule(p, t)(r),
{
    assert(p.services@ =~= p.services@.take(p.services@.len() as int));
    lemma_service_of(p, r, p.services@);
    match service_named(p.services@, r.service_name@) {
        Some(svc) => {
            let s = choose|s: int| #[trigger] is_service_of(p, r, s) && p.services@[s] == svc;
            let c = choose|s: int| is_service_of(p, r, s);
            lemma_one_of_each(p, r, s, c);
            lemma_accepting_lines(p, t, r, "tcp"@, views(svc.tcp_ports@));
            lemma_accepting_lines(p, t, r, "udp"@, views(svc.udp_ports@));
        },
        None => {},
    }
}

proof fn lemma_rules(p: NftPolicy)
    ensures
        flat(p.targets@, target_rules(p)) == flat(p.targets@, rules_of_target(p)),
{
    assert forall|i: int| 0 <= i < p.targets@.len() implies target_rules(p)(
        #[trigger] p.targets@[i],
    ) == rules_of_target(p)(p.targets@[i]) by {
        let t = p.targets@[i];
        assert forall|j: int| 0 <= j < t.rules@.len() implies rule_lines(p, t)(
            #[trigger] t.rules@[j],
        ) == lines_of_rule(p, t)(t.rules@[j]) by {
            lemma_rule(p, t, t.rules@[j]);
        }
        lemma_flat_same(t.rules@, rule_lines(p, t), lines_of_rule(p, t));
    }
    lemma_flat_same(p.targets@, target_rules(p), rules_of_target(p));
}

proof fn lemma_dropping(t: NftTarget, v6: bool)
    ensures
        drop_line(t, v6) == if is_addressed(t, v6) {
            dropping(t, v6)
        } else {
            Seq::empty()
        },
{
    lemma_words();
    let front = "        "@ + ip_word(v6) + " daddr @target_"@ + set_name(t.name@);
    lemma_regrouped(front, family_suffix(v6), " counter log prefix \"NFT_"@);
}

proof fn lemma_drops(p: NftPolicy)
    ensures
        flat(p.targets@, drop_lines_of()) == flat(p.targets@, drops_of_target()),
{
    assert forall|i: int| 0 <= i < p.targets@.len() implies drop_lines_of()(
        #[trigger] p.targets@[i],
    ) == drops_of_target()(p.targets@[i]) by {
        lemma_dropping(p.targets@[i], false);
        lemma_dropping(p.targets@[i], true);
    }
    lemma_flat_same(p.targets@, drop_lines_of(), drops_of_target());
}

/// What stands in a policy before the rules of the targets.
spec fn front_of(p: NftPolicy) -> Seq<char> {
    "table netdev "@ + p.table_name@ + " {\n"@ + TARGETS_HEAD@ + flat(p.targets@, target_sets_of())
        + group_section(p) + port_sets(p) + (chain_head(p) + BYPASS_RULES@ + given(
        all_addrs(p.targets@, false).len() > 0 || all_addrs(p.targets@, true).len() > 0,
        COMMON_HEAD@,
    ) + common_rules(p, false) + common_rules(p, true) + given(
        p.targets@.len() > 0,
        SERVICES_HEAD@,
    ))
}

#[verifier::rlimit(60)]
proof fn lemma_policy_parts(p: NftPolicy)
    ensures
        policy_text(p) == front_of(p) + flat(p.targets@, rules_of_target(p)) + given(
            p.targets@.len() > 0,
            DROPS_HEAD@,
        ) + flat(p.targets@, drops_of_target()) + "\n        accept\n    }\n}\n"@,
{
    lemma_rules(p);
    lemma_drops(p);
    let x = "table netdev "@ + p.table_name@ + " {\n"@ + TARGETS_HEAD@ + flat(
        p.targets@,
        target_sets_of(),
    ) + group_section(p) + port_sets(p);
    let a = chain_head(p) + BYPASS_RULES@ + given(
        all_addrs(p.targets@, false).len() > 0 || all_addrs(p.targets@, true).len() > 0,
        COMMON_HEAD@,
    ) + common_rules(p, false) + common_rules(p, true) + given(
        p.targets@.len() > 0,
        SERVICES_HEAD@,
    );
    let rules = flat(p.targets@, rules_of_target(p));
    let head = given(p.targets@.len() > 0, DROPS_HEAD@);
    let drops = flat(p.targets@, drops_of_target());
    let tail = "\n        accept\n    }\n"@;
    assert("\n        accept\n    }\n}\n"@ =~= tail + "}\n"@) by {
        reveal_strlit("\n        accept\n    }\n}\n");
        reveal_strlit("\n        accept\n    }\n");
        reveal_strlit("}\n");
    }
    lemma_regrouped(x, a, rules);
    lemma_regrouped(x, a + rules, head);
    lemma_regrouped(x, a + rules + head, drops);
    lemma_regrouped(x, a + rules + head + drops, tail);
    lemma_regrouped(x + a + rules + head + drops, tail, "}\n"@);
}

// ---------------------------------------------------------------------------
// Laws
// ---------------------------------------------------------------------------

/// A policy ends in the rules of its targets, in their order, each with what it lets in and
/// nothing more; then in the lines that drop what comes for a target, for each of them and for
/// each address family that it has; then lets in what is meant for no target.
#[verifier::rlimit(60)]
pub proof fn law_policies_end_in_their_drops(p: NftPolicy)
    ensures
        p.targets@.len() > 0 ==> (flat(p.targets@, rules_of_target(p))
            + "\n        # ==================================================\n        # 대상별 개별 차단 로그\n        # ==================================================\n"@ + flat(
            p.targets@,
            drops_of_target(),
        ) + "\n        accept\n    }\n}\n"@).is_suffix_of(policy_text(p)),
        "\n        accept\n    }\n}\n"@.is_suffix_of(policy_text(p)),
{
    lemma_policy_parts(p);
    let rules = flat(p.targets@, rules_of_target(p));
    let head = given(p.targets@.len() > 0, DROPS_HEAD@);
    let drops = flat(p.targets@, drops_of_target());
    let tail = "\n        accept\n    }\n}\n"@;
    lemma_suffix(front_of(p) + rules + head + drops, tail);
    lemma_regrouped(front_of(p), rules, head);
    lemma_regrouped(front_of(p), rules + head, drops);
    lemma_regrouped(front_of(p), rules + head + drops, tail);
    lemma_suffix(front_of(p), rules + head + drops + tail);
}

proof fn lemma_suffix(a: Seq<char>, b: Seq<char>)
    ensures
        b.is_suffix_of(a + b),
        a.is_prefix_of(a + b),
{
    assert((a + b).subrange(a.len() as int, (a + b).len() as int) =~= b);
    assert((a + b).subrange(0, a.len() as int) =~= a);
}

/// What stands among the drops of a target stands behind the rules of all targets.
proof fn lemma_behind_the_rules(p: NftPolicy, i: int, rule: Seq<char>, line: Seq<char>)
    requires
        0 <= i < p.targets@.len(),
        contains_text(drops_of_target()(p.targets@[i]), line),
        contains_text(flat(p.targets@, rules_of_target(p)), rule),
    ensures
        stands_before(policy_text(p), rule, line),
        contains_text(policy_text(p), line),
{
    lemma_policy_parts(p);
    let f = front_of(p);
    let rules = flat(p.targets@, rules_of_target(p));
    let head = given(p.targets@.len() > 0, DROPS_HEAD@);
    let drops = flat(p.targets@, drops_of_target());
    let tail = "\n        accept\n    }\n}\n"@;
    lemma_flat_contains(p.targets@, drops_of_target(), i);
    lemma_contains_trans(drops, drops_of_target()(p.targets@[i]), line);
    lemma_contains_sum(head, drops, line);
    lemma_before_in_sum(rules, head + drops, rule, line);
    lemma_before_in_part(f, rules + (head + drops), tail, rule, line);
    lemma_regrouped(f, rules, head + drops);
    lemma_regrouped(f + rules, head, drops);
    lemma_contains_sum(f + rules + head, drops, line);
    lemma_contains_sum(f + rules + head + drops, tail, line);
}

/// What no rule lets in is dropped: for each target and each address family in which it has
/// addresses, whatever its rules and its other addresses are, the chain holds a line that
/// matches the set of those addresses, logs, and drops. It stands behind all rules of all
/// targets.
pub proof fn law_targets_drop_the_rest(p: NftPolicy, i: int)
    requires
        0 <= i < p.targets@.len(),
    ensures
        p.targets@[i].ipv4_addrs@.len() > 0 ==> stands_before(
            policy_text(p),
            flat(p.targets@, rules_of_target(p)),
            "        ip daddr @target_"@ + set_name(p.targets@[i].name@)
                + "_v4 counter log prefix \"NFT_"@ + log_label(p.targets@[i].name@)
                + "_V4_DROP: \" drop\n"@,
        ),
        p.targets@[i].ipv6_addrs@.len() > 0 ==> stands_before(
            policy_text(p),
            flat(p.targets@, rules_of_target(p)),
            "        ip6 daddr @target_"@ + set_name(p.targets@[i].name@)
                + "_v6 counter log prefix \"NFT_"@ + log_label(p.targets@[i].name@)
                + "_V6_DROP: \" drop\n"@,
        ),
{
    let t = p.targets@[i];
    let rules = flat(p.targets@, rules_of_target(p));
    lemma_contains_self(rules);
    if is_addressed(t, false) {
        lemma_drop_of_target(t, false);
        lemma_behind_the_rules(p, i, rules, dropping(t, false));
    }
    if is_addressed(t, true) {
        lemma_drop_of_target(t, true);
        lemma_behind_the_rules(p, i, rules, dropping(t, true));
    }
}

proof fn lemma_drop_of_target(t: NftTarget, v6: bool)
    requires
        is_addressed(t, v6),
    ensures
        contains_text(drops_of_target()(t), dropping(t, v6)),
{
    let a = if is_addressed(t, false) {
        dropping(t, false)
    } else {
        Seq::empty()
    };
    let b = if is_addressed(t, true) {
        dropping(t, true)
    } else {
        Seq::empty()
    };
    lemma_contains_self(dropping(t, v6));
    lemma_contains_sum(a, b, dropping(t, v6));
}

/// The line of a rule, where it has one, stands among the rules.
#[verifier::rlimit(60)]
proof fn lemma_among_the_rules(p: NftPolicy, i: int, j: int, s: int, udp: bool, v6: bool)
    requires
        0 <= i < p.targets@.len(),
        0 <= j < p.targets@[i].rules@.len(),
        is_service_of(p, p.targets@[i].rules@[j], s),
        udp ==> p.services@[s].udp_ports@.len() > 0,
        !udp ==> p.services@[s].tcp_ports@.len() > 0,
        is_addressed(p.targets@[i], v6),
        lets_in(p, p.targets@[i].rules@[j], v6),
    ensures
        contains_text(
            flat(p.targets@, rules_of_target(p)),
            accepting(
                p.targets@[i],
                p.targets@[i].rules@[j],
                if udp {
                    "udp"@
                } else {
                    "tcp"@
                },
                if udp {
                    views(p.services@[s].udp_ports@)
                } else {
                    views(p.services@[s].tcp_ports@)
                },
                v6,
            ),
        ),
{
    let t = p.targets@[i];
    let r = t.rules@[j];
    let svc = p.services@[s];
    let c = choose|s: int| is_service_of(p, r, s);
    lemma_one_of_each(p, r, s, c);
    let protocol = if udp {
        "udp"@
    } else {
        "tcp"@
    };
    let ports = if udp {
        views(svc.udp_ports@)
    } else {
        views(svc.tcp_ports@)
    };
    let line = accepting(t, r, protocol, ports, v6);
    let a = if is_addressed(t, false) && lets_in(p, r, false) {
        accepting(t, r, protocol, ports, false)
    } else {
        Seq::empty()
    };
    let b = if is_addressed(t, true) && lets_in(p, r, true) {
        accepting(t, r, protocol, ports, true)
    } else {
        Seq::empty()
    };
    lemma_contains_self(line);
    lemma_contains_sum(a, b, line);
    let tcp = accepting_lines(p, t, r, "tcp"@, views(svc.tcp_ports@));
    let other = accepting_lines(p, t, r, "udp"@, views(svc.udp_ports@));
    assert(accepting_lines(p, t, r, protocol, ports) == a + b);
    lemma_contains_sum(tcp, other, line);
    lemma_flat_contains(t.rules@, lines_of_rule(p, t), j);
    lemma_contains_trans(flat(t.rules@, lines_of_rule(p, t)), lines_of_rule(p, t)(r), line);
    lemma_contains_sum(
        "\n        # "@ + uppercase(t.name@) + "\n"@,
        flat(t.rules@, lines_of_rule(p, t)),
        line,
    );
    lemma_flat_contains(p.targets@, rules_of_target(p), i);
    lemma_contains_trans(
        flat(p.targets@, rules_of_target(p)),
        rules_of_target(p)(t),
        line,
    );
}

/// Whether a line stands in a policy, and before the lines that drop the rest for a target.
pub open spec fn is_let_in_before_drops(p: NftPolicy, line: Seq<char>, t: NftTarget) -> bool {
    &&& contains_text(policy_text(p), line)
    &&& t.ipv4_addrs@.len() > 0 ==> stands_before(
        policy_text(p),
        line,
        "        ip daddr @target_"@ + set_name(t.name@) + "_v4 counter log prefix \"NFT_"@
            + log_label(t.name@) + "_V4_DROP: \" drop\n"@,
    )
    &&& t.ipv6_addrs@.len() > 0 ==> stands_before(
        policy_text(p),
        line,
        "        ip6 daddr @target_"@ + set_name(t.name@) + "_v6 counter log prefix \"NFT_"@
            + log_label(t.name@) + "_V6_DROP: \" drop\n"@,
    )
}

proof fn lemma_let_in_before_drops(p: NftPolicy, line: Seq<char>, k: int)
    requires
        0 <= k < p.targets@.len(),
        contains_text(flat(p.targets@, rules_of_target(p)), line),
    ensures
        is_let_in_before_drops(p, line, p.targets@[k]),
{
    lemma_policy_parts(p);
    let t = p.targets@[k];
    let rules = flat(p.targets@, rules_of_target(p));
    let head = given(p.targets@.len() > 0, DROPS_HEAD@);
    let drops = flat(p.targets@, drops_of_target());
    lemma_contains_sum(front_of(p), rules, line);
    lemma_contains_sum(front_of(p) + rules, head, line);
    lemma_contains_sum(front_of(p) + rules + head, drops, line);
    lemma_contains_sum(
        front_of(p) + rules + head + drops,
        "\n        accept\n    }\n}\n"@,
        line,
    );
    if is_addressed(t, false) {
        lemma_drop_of_target(t, false);
        lemma_behind_the_rules(p, k, line, dropping(t, false));
    }
    if is_addressed(t, true) {
        lemma_drop_of_target(t, true);
        lemma_behind_the_rules(p, k, line, dropping(t, true));
    }
}

proof fn lemma_source(front: Seq<char>, a: Seq<char>, b: Seq<char>, c: Seq<char>)
    ensures
        front + (a + b + c) == front + a + b + c,
{
    assert(front + (a + b + c) =~= front + a + b + c);
}

proof fn lemma_no_source(front: Seq<char>)
    ensures
        front + Seq::empty() == front,
{
    assert(front + Seq::<char>::empty() =~= front);
}

/// A rule that names no group lets its service in from everywhere: for each address family
/// that its target has, and each protocol of which the service has ports, a line accepts what
/// comes for the target on these ports, before the line that drops the rest.
#[verifier::rlimit(60)]
pub proof fn law_open_services_are_let_in(
    p: NftPolicy,
    i: int,
    j: int,
    s: int,
    
    k: int,
)
    requires
        0 <= i < p.targets@.len(),
        0 <= j < p.targets@[i].rules@.len(),
        is_service_of(p, p.targets@[i].rules@[j], s),
        lets_in_all(p.targets@[i].rules@[j]),
        0 <= k < p.targets@.len(),
    ensures
        p.targets@[i].ipv4_addrs@.len() > 0 && p.services@[s].tcp_ports@.len() > 0 ==> is_let_in_before_drops(p, "        ip daddr @target_"@ + set_name(p.targets@[i].name@) + "_v4"@ + " ip protocol "@ + "tcp"@ + " "@ + "tcp"@ + " dport "@ + one_or_braced(views(p.services@[s].tcp_ports@)) + " accept\n"@, p.targets@[k]),
        p.targets@[i].ipv4_addrs@.len() > 0 && p.services@[s].udp_ports@.len() > 0 ==> is_let_in_before_drops(p, "        ip daddr @target_"@ + set_name(p.targets@[i].name@) + "_v4"@ + " ip protocol "@ + "udp"@ + " "@ + "udp"@ + " dport "@ + one_or_braced(views(p.services@[s].udp_ports@)) + " accept\n"@, p.targets@[k]),
        p.targets@[i].ipv6_addrs@.len() > 0 && p.services@[s].tcp_ports@.len() > 0 ==> is_let_in_before_drops(p, "        ip6 daddr @target_"@ + set_name(p.targets@[i].name@) + "_v6"@ + " ip6 nexthdr "@ + "tcp"@ + " "@ + "tcp"@ + " dport "@ + one_or_braced(views(p.services@[s].tcp_ports@)) + " accept\n"@, p.targets@[k]),
        p.targets@[i].ipv6_addrs@.len() > 0 && p.services@[s].udp_ports@.len() > 0 ==> is_let_in_before_drops(p, "        ip6 daddr @target_"@ + set_name(p.targets@[i].name@) + "_v6"@ + " ip6 nexthdr "@ + "udp"@ + " "@ + "udp"@ + " dport "@ + one_or_braced(views(p.services@[s].udp_ports@)) + " accept\n"@, p.targets@[k]),
{
    if p.targets@[i].ipv4_addrs@.len() > 0 && p.services@[s].tcp_ports@.len() > 0 {
        lemma_among_the_rules(p, i, j, s, false, false);
        let line = accepting(p.targets@[i], p.targets@[i].rules@[j], "tcp"@, views(p.services@[s].tcp_ports@), false);
        lemma_no_source("        ip daddr @target_"@ + set_name(p.targets@[i].name@) + "_v4"@);
        lemma_let_in_before_drops(p, line, k);
    }
    if p.targets@[i].ipv4_addrs@.len() > 0 && p.services@[s].udp_ports@.len() > 0 {
        lemma_among_the_rules(p, i, j, s, true, false);
        let line = accepting(p.targets@[i], p.targets@[i].rules@[j], "udp"@, views(p.services@[s].udp_ports@), false);
        lemma_no_source("        ip daddr @target_"@ + set_name(p.targets@[i].name@) + "_v4"@);
        lemma_let_in_before_drops(p, line, k);
    }
    if p.targets@[i].ipv6_addrs@.len() > 0 && p.services@[s].tcp_ports@.len() > 0 {
        lemma_among_the_rules(p, i, j, s, false, true);
        let line = accepting(p.targets@[i], p.targets@[i].rules@[j], "tcp"@, views(p.services@[s].tcp_ports@), true);
        lemma_no_source("        ip6 daddr @target_"@ + set_name(p.targets@[i].name@) + "_v6"@);
        lemma_let_in_before_drops(p, line, k);
    }
    if p.targets@[i].ipv6_addrs@.len() > 0 && p.services@[s].udp_ports@.len() > 0 {
        lemma_among_the_rules(p, i, j, s, true, true);
        let line = accepting(p.targets@[i], p.targets@[i].rules@[j], "udp"@, views(p.services@[s].udp_ports@), true);
        lemma_no_source("        ip6 daddr @target_"@ + set_name(p.targets@[i].name@) + "_v6"@);
        lemma_let_in_before_drops(p, line, k);
    }
}

/// A rule that names a group lets its service in from the subnets of the group: for each
/// address family that both the target and the group have, and each protocol of which the
/// service has ports, a line accepts what comes from the group for the target on these ports,
/// before the line that drops the rest.
#[verifier::rlimit(60)]
pub proof fn law_groups_are_let_in(
    p: NftPolicy,
    i: int,
    j: int,
    s: int,
    g: int,
    k: int,
)
    requires
        0 <= i < p.targets@.len(),
        0 <= j < p.targets@[i].rules@.len(),
        is_service_of(p, p.targets@[i].rules@[j], s),
        is_group_of(p, p.targets@[i].rules@[j], g),
        0 <= k < p.targets@.len(),
    ensures
        p.targets@[i].ipv4_addrs@.len() > 0 && p.services@[s].tcp_ports@.len() > 0 && p.subnet_groups@[g].cidrs_v4@.len() > 0 ==> is_let_in_before_drops(p, "        ip daddr @target_"@ + set_name(p.targets@[i].name@) + "_v4"@ + " ip saddr @sg_"@ + set_name(p.targets@[i].rules@[j].subnet_group->0@) + "_v4"@ + " ip protocol "@ + "tcp"@ + " "@ + "tcp"@ + " dport "@ + one_or_braced(views(p.services@[s].tcp_ports@)) + " accept\n"@, p.targets@[k]),
        p.targets@[i].ipv4_addrs@.len() > 0 && p.services@[s].udp_ports@.len() > 0 && p.subnet_groups@[g].cidrs_v4@.len() > 0 ==> is_let_in_before_drops(p, "        ip daddr @target_"@ + set_name(p.targets@[i].name@) + "_v4"@ + " ip saddr @sg_"@ + set_name(p.targets@[i].rules@[j].subnet_group->0@) + "_v4"@ + " ip protocol "@ + "udp"@ + " "@ + "udp"@ + " dport "@ + one_or_braced(views(p.services@[s].udp_ports@)) + " accept\n"@, p.targets@[k]),
        p.targets@[i].ipv6_addrs@.len() > 0 && p.services@[s].tcp_ports@.len() > 0 && p.subnet_groups@[g].cidrs_v6@.len() > 0 ==> is_let_in_before_drops(p, "        ip6 daddr @target_"@ + set_name(p.targets@[i].name@) + "_v6"@ + " ip6 saddr @sg_"@ + set_name(p.targets@[i].rules@[j].subnet_group->0@) + "_v6"@ + " ip6 nexthdr "@ + "tcp"@ + " "@ + "tcp"@ + " dport "@ + one_or_braced(views(p.services@[s].tcp_ports@)) + " accept\n"@, p.targets@[k]),
        p.targets@[i].ipv6_addrs@.len() > 0 && p.services@[s].udp_ports@.len() > 0 && p.subnet_groups@[g].cidrs_v6@.len() > 0 ==> is_let_in_before_drops(p, "        ip6 daddr @target_"@ + set_name(p.targets@[i].name@) + "_v6"@ + " ip6 saddr @sg_"@ + set_name(p.targets@[i].rules@[j].subnet_group->0@) + "_v6"@ + " ip6 nexthdr "@ + "udp"@ + " "@ + "udp"@ + " dport "@ + one_or_braced(views(p.services@[s].udp_ports@)) + " accept\n"@, p.targets@[k]),
{
    if p.targets@[i].ipv4_addrs@.len() > 0 && p.services@[s].tcp_ports@.len() > 0 && p.subnet_groups@[g].cidrs_v4@.len() > 0 {
        lemma_among_the_rules(p, i, j, s, false, false);
        let line = accepting(p.targets@[i], p.targets@[i].rules@[j], "tcp"@, views(p.services@[s].tcp_ports@), false);
        lemma_source(
            "        ip daddr @target_"@ + set_name(p.targets@[i].name@) + "_v4"@,
            " ip saddr @sg_"@,
            set_name(p.targets@[i].rules@[j].subnet_group->0@),
            "_v4"@,
        );
        lemma_let_in_before_drops(p, line, k);
    }
    if p.targets@[i].ipv4_addrs@.len() > 0 && p.services@[s].udp_ports@.len() > 0 && p.subnet_groups@[g].cidrs_v4@.len() > 0 {
        lemma_among_the_rules(p, i, j, s, true, false);
        let line = accepting(p.targets@[i], p.targets@[i].rules@[j], "udp"@, views(p.services@[s].udp_ports@), false);
        lemma_source(
            "        ip daddr @target_"@ + set_name(p.targets@[i].name@) + "_v4"@,
            " ip saddr @sg_"@,
            set_name(p.targets@[i].rules@[j].subnet_group->0@),
            "_v4"@,
        );
        lemma_let_in_before_drops(p, line, k);
    }
    if p.targets@[i].ipv6_addrs@.len() > 0 && p.services@[s].tcp_ports@.len() > 0 && p.subnet_groups@[g].cidrs_v6@.len() > 0 {
        lemma_among_the_rules(p, i, j, s, false, true);
        let line = accepting(p.targets@[i], p.targets@[i].rules@[j], "tcp"@, views(p.services@[s].tcp_ports@), true);
        lemma_source(
            "        ip6 daddr @target_"@ + set_name(p.targets@[i].name@) + "_v6"@,
            " ip6 saddr @sg_"@,
            set_name(p.targets@[i].rules@[j].subnet_group->0@),
            "_v6"@,
        );
        lemma_let_in_before_drops(p, line, k);
    }
    if p.targets@[i].ipv6_addrs@.len() > 0 && p.services@[s].udp_ports@.len() > 0 && p.subnet_groups@[g].cidrs_v6@.len() > 0 {
        lemma_among_the_rules(p, i, j, s, true, true);
        let line = accepting(p.targets@[i], p.targets@[i].rules@[j], "udp"@, views(p.services@[s].udp_ports@), true);
        lemma_source(
            "        ip6 daddr @target_"@ + set_name(p.targets@[i].name@) + "_v6"@,
            " ip6 saddr @sg_"@,
            set_name(p.targets@[i].rules@[j].subnet_group->0@),
            "_v6"@,
        );
        lemma_let_in_before_drops(p, line, k);
    }
}

// ---------------------------------------------------------------------------
// What stands before the rules of the targets
// ---------------------------------------------------------------------------

/// The sets of the addresses of a target: one for each family that it has.
pub open spec fn sets_of_target() -> spec_fn(NftTarget) -> Seq<char> {
    |t: NftTarget|
        (if t.ipv4_addrs@.len() > 0 {
            "    set target_"@ + set_name(t.name@) + "_v4 { type ipv4_addr; elements = { "@ + joined(
                views(t.ipv4_addrs@),
                ", "@,
            ) + " } }\n"@
        } else {
            Seq::empty()
        }) + (if t.ipv6_addrs@.len() > 0 {
            "    set target_"@ + set_name(t.name@) + "_v6 { type ipv6_addr; elements = { "@ + joined(
                views(t.ipv6_addrs@),
                ", "@,
            ) + " } }\n"@
        } else {
            Seq::empty()
        })
}

/// Whether some rule names the group.
pub open spec fn is_named(targets: Seq<NftTarget>, name: Seq<char>) -> bool {
    exists|i: int, j: int|
        0 <= i < targets.len() && 0 <= j < targets[i].rules@.len() && (
        #[trigger] targets[i].rules@[j]).subnet_group is Some
            && targets[i].rules@[j].subnet_group->0@ == name
}

/// The sets of the subnets of a group: one for each family that it has, where a rule names it.
pub open spec fn sets_of_group(targets: Seq<NftTarget>) -> spec_fn(NftSubnetGroup) -> Seq<char> {
    |g: NftSubnetGroup|
        (if is_named(targets, g.name@) && g.cidrs_v4@.len() > 0 {
            "    set sg_"@ + set_name(g.name@)
                + "_v4 {\n        type ipv4_addr; flags interval\n        elements = { "@ + joined(
                views(g.cidrs_v4@),
                ", "@,
            ) + " }\n    }\n"@
        } else {
            Seq::empty()
        }) + (if is_named(targets, g.name@) && g.cidrs_v6@.len() > 0 {
            "    set sg_"@ + set_name(g.name@)
                + "_v6 {\n        type ipv6_addr; flags interval\n        elements = { "@ + joined(
                views(g.cidrs_v6@),
                ", "@,
            ) + " }\n    }\n"@
        } else {
            Seq::empty()
        })
}

/// The set of the ports of a global rule.
pub open spec fn set_of_ports() -> spec_fn(int, NftGlobalRule) -> Seq<char> {
    |i: int, g: NftGlobalRule|
        "    set global_"@ + g.protocol@ + "_"@ + decimal(i as nat)
            + "_ports {\n        type inet_service; flags interval\n        elements = { "@ + decimal(
            g.port_start as nat,
        ) + (if g.port_start == g.port_end {
            Seq::empty()
        } else {
            "-"@ + decimal(g.port_end as nat)
        }) + " }\n    }\n"@
}

/// The rule that opens the ports of a global rule over IPv4.
pub open spec fn opened_over_v4(ips: Seq<char>) -> spec_fn(int, NftGlobalRule) -> Seq<char> {
    |i: int, g: NftGlobalRule|
        "        ip daddr "@ + ips + " "@ + g.protocol@ + " dport @global_"@ + g.protocol@ + "_"@
            + decimal(i as nat) + "_ports accept\n"@
}

/// The rule that opens the ports of a global rule over IPv6.
pub open spec fn opened_over_v6(ips: Seq<char>) -> spec_fn(int, NftGlobalRule) -> Seq<char> {
    |i: int, g: NftGlobalRule|
        "        ip6 daddr "@ + ips + (if g.protocol@ == "tcp"@ {
            " ip6 nexthdr tcp tcp dport @global_"@
        } else {
            " ip6 nexthdr udp udp dport @global_"@
        }) + g.protocol@ + "_"@ + decimal(i as nat) + "_ports accept\n"@
}

pub open spec fn v4_addrs_of() -> spec_fn(NftTarget) -> Seq<Seq<char>> {
    |t: NftTarget| views(t.ipv4_addrs@)
}

pub open spec fn v6_addrs_of() -> spec_fn(NftTarget) -> Seq<Seq<char>> {
    |t: NftTarget| views(t.ipv6_addrs@)
}

/// What is open on the IPv4 addresses of all targets: ICMP, and the ports of the global
/// rules or, where there are none, of traceroute.
pub open spec fn open_on_v4(p: NftPolicy) -> Seq<char> {
    let all = flat(p.targets@, v4_addrs_of());
    if all.len() == 0 {
        Seq::empty()
    } else {
        "        ip daddr "@ + one_or_braced(all) + " ip protocol icmp accept\n"@ + (
        if p.global_rules@.len() > 0 {
            flat_indexed(p.global_rules@, opened_over_v4(one_or_braced(all)))
        } else {
            "        ip daddr "@ + one_or_braced(all)
                + " udp dport @traceroute_udp_ports accept\n"@
        })
    }
}

/// What is open on the IPv6 addresses of all targets.
pub open spec fn open_on_v6(p: NftPolicy) -> Seq<char> {
    let all = flat(p.targets@, v6_addrs_of());
    if all.len() == 0 {
        Seq::empty()
    } else {
        "        ip6 daddr "@ + one_or_braced(all) + " ip6 nexthdr icmpv6 accept\n"@ + (
        if p.global_rules@.len() > 0 {
            flat_indexed(p.global_rules@, opened_over_v6(one_or_braced(all)))
        } else {
            "        ip6 daddr "@ + one_or_braced(all)
                + " udp dport @traceroute_udp_ports accept\n"@
        })
    }
}

proof fn lemma_flat_indexed_same<T, U>(
    v: Seq<T>,
    f: spec_fn(int, T) -> Seq<U>,
    g: spec_fn(int, T) -> Seq<U>,
)
    requires
        forall|i: int| 0 <= i < v.len() ==> f(i, #[trigger] v[i]) == g(i, v[i]),
    ensures
        flat_indexed(v, f) == flat_indexed(v, g),
    decreases v.len(),
{
    if v.len() > 0 {
        assert forall|i: int| 0 <= i < v.drop_last().len() implies f(
            i,
            #[trigger] v.drop_last()[i],
        ) == g(i, v.drop_last()[i]) by {
            assert(v.drop_last()[i] == v[i]);
        }
        lemma_flat_indexed_same(v.drop_last(), f, g);
        assert(f(v.len() - 1, v[v.len() - 1]) == g(v.len() - 1, v[v.len() - 1]));
    }
}

proof fn lemma_set_words()
    ensures
        "_v4 { type ipv4_addr; elements = { "@ == "_v4"@ + " { type "@ + "ipv4_addr"@
            + "; elements = { "@,
        "_v6 { type ipv6_addr; elements = { "@ == "_v6"@ + " { type "@ + "ipv6_addr"@
            + "; elements = { "@,
{
    reveal_strlit("_v4 { type ipv4_addr; elements = { ");
    reveal_strlit("_v6 { type ipv6_addr; elements = { ");
    reveal_strlit("_v4");
    reveal_strlit("_v6");
    reveal_strlit(" { type ");
    reveal_strlit("ipv4_addr");
    reveal_strlit("ipv6_addr");
    reveal_strlit("; elements = { ");
}

proof fn lemma_group_words()
    ensures
        "_v4 {\n        type ipv4_addr; flags interval\n        elements = { "@ == "_v4"@
            + " {\n        type "@ + "ipv4_addr"@ + "; flags interval\n        elements = { "@,
        "_v6 {\n        type ipv6_addr; flags interval\n        elements = { "@ == "_v6"@
            + " {\n        type "@ + "ipv6_addr"@ + "; flags interval\n        elements = { "@,
{
    reveal_strlit("_v4 {\n        type ipv4_addr; flags interval\n        elements = { ");
    reveal_strlit("_v6 {\n        type ipv6_addr; flags interval\n        elements = { ");
    reveal_strlit("_v4");
    reveal_strlit("_v6");
    reveal_strlit(" {\n        type ");
    reveal_strlit("ipv4_addr");
    reveal_strlit("ipv6_addr");
    reveal_strlit("; flags interval\n        elements = { ");
}

/// Four texts behind another are one.
proof fn lemma_four(front: Seq<char>, a: Seq<char>, b: Seq<char>, c: Seq<char>, d: Seq<char>)
    ensures
        front + a + b + c + d == front + (a + b + c + d),
{
    assert(front + a + b + c + d =~= front + (a + b + c + d));
}

proof fn lemma_target_sets(p: NftPolicy)
    ensures
        flat(p.targets@, target_sets_of()) == flat(p.targets@, sets_of_target()),
{
    lemma_set_words();
    assert forall|i: int| 0 <= i < p.targets@.len() implies target_sets_of()(
        #[trigger] p.targets@[i],
    ) == sets_of_target()(p.targets@[i]) by {
        let front = "    set target_"@ + set_name(p.targets@[i].name@);
        lemma_four(front, "_v4"@, " { type "@, "ipv4_addr"@, "; elements = { "@);
        lemma_four(front, "_v6"@, " { type "@, "ipv6_addr"@, "; elements = { "@);
    }
    lemma_flat_same(p.targets@, target_sets_of(), sets_of_target());
}

proof fn lemma_named(targets: Seq<NftTarget>, name: Seq<char>)
    ensures
        referenced(targets, name) == is_named(targets, name),
{
    if referenced(targets, name) {
        let (i, j) = choose|i: int, j: int|
            0 <= i < targets.len() && 0 <= j < targets[i].rules@.len() && opt_view(
                (#[trigger] targets[i].rules@[j]).subnet_group,
            ) == Some(name);
        assert(targets[i].rules@[j].subnet_group is Some);
    }
    if is_named(targets, name) {
        let (i, j) = choose|i: int, j: int|
            0 <= i < targets.len() && 0 <= j < targets[i].rules@.len() && (
            #[trigger] targets[i].rules@[j]).subnet_group is Some
                && targets[i].rules@[j].subnet_group->0@ == name;
        assert(opt_view(targets[i].rules@[j].subnet_group) == Some(name));
    }
}

proof fn lemma_group_sets(p: NftPolicy)
    ensures
        flat(p.subnet_groups@, group_sets_of(p.targets@)) == flat(
            p.subnet_groups@,
            sets_of_group(p.targets@),
        ),
{
    lemma_group_words();
    assert forall|i: int| 0 <= i < p.subnet_groups@.len() implies group_sets_of(p.targets@)(
        #[trigger] p.subnet_groups@[i],
    ) == sets_of_group(p.targets@)(p.subnet_groups@[i]) by {
        let g = p.subnet_groups@[i];
        lemma_named(p.targets@, g.name@);
        let front = "    set sg_"@ + set_name(g.name@);
        let end = "; flags interval\n        elements = { "@;
        lemma_four(front, "_v4"@, " {\n        type "@, "ipv4_addr"@, end);
        lemma_four(front, "_v6"@, " {\n        type "@, "ipv6_addr"@, end);
        if !is_named(p.targets@, g.name@) {
            assert(sets_of_group(p.targets@)(g) =~= Seq::<char>::empty());
        }
    }
    lemma_flat_same(p.subnet_groups@, group_sets_of(p.targets@), sets_of_group(p.targets@));
}

proof fn lemma_some_group_used(p: NftPolicy)
    ensures
        some_group_used(p) <==> exists|k: int|
            0 <= k < p.subnet_groups@.len() && is_named(
                p.targets@,
                (#[trigger] p.subnet_groups@[k]).name@,
            ),
{
    assert forall|k: int| 0 <= k < p.subnet_groups@.len() implies referenced(
        p.targets@,
        (#[trigger] p.subnet_groups@[k]).name@,
    ) == is_named(p.targets@, p.subnet_groups@[k].name@) by {
        lemma_named(p.targets@, p.subnet_groups@[k].name@);
    }
    if some_group_used(p) {
        let k = choose|k: int|
            0 <= k < p.subnet_groups@.len() && referenced(
                p.targets@,
                (#[trigger] p.subnet_groups@[k]).name@,
            );
        assert(is_named(p.targets@, p.subnet_groups@[k].name@));
    }
}

proof fn lemma_port_words()
    ensures
        "    set global_"@ == "    set "@ + "global_"@,
        "_ports {\n        type inet_service; flags interval\n        elements = { "@ == "_ports"@ + " {\n        type inet_service; flags interval\n        elements = { "@,
{
    reveal_strlit("    set global_");
    reveal_strlit("    set ");
    reveal_strlit("global_");
    reveal_strlit("_ports {\n        type inet_service; flags interval\n        elements = { ");
    reveal_strlit("_ports");
    reveal_strlit(" {\n        type inet_service; flags interval\n        elements = { ");
}

proof fn lemma_open_words()
    ensures
        "        ip daddr "@ == "        "@ + "ip"@ + " daddr "@,
        "        ip6 daddr "@ == "        "@ + "ip6"@ + " daddr "@,
{
    reveal_strlit("        ip daddr ");
    reveal_strlit("        ");
    reveal_strlit("ip");
    reveal_strlit(" daddr ");
    reveal_strlit("        ip6 daddr ");
    reveal_strlit("ip6");
}

proof fn lemma_global_words()
    ensures
        " dport @global_"@ == " dport @"@ + "global_"@,
        "_ports accept\n"@ == "_ports"@ + " accept\n"@,
        " ip6 nexthdr tcp tcp dport @global_"@ == " ip6 nexthdr "@ + "tcp"@ + " "@ + "tcp"@ + " dport @"@ + "global_"@,
        " ip6 nexthdr udp udp dport @global_"@ == " ip6 nexthdr "@ + "udp"@ + " "@ + "udp"@ + " dport @"@ + "global_"@,
{
    reveal_strlit(" dport @global_");
    reveal_strlit(" dport @");
    reveal_strlit("global_");
    reveal_strlit("_ports accept\n");
    reveal_strlit("_ports");
    reveal_strlit(" accept\n");
    reveal_strlit(" ip6 nexthdr tcp tcp dport @global_");
    reveal_strlit(" ip6 nexthdr ");
    reveal_strlit("tcp");
    reveal_strlit(" ");
    reveal_strlit(" ip6 nexthdr udp udp dport @global_");
    reveal_strlit("udp");
}

proof fn lemma_port_set(i: int, g: NftGlobalRule)
    ensures
        global_set(i, g) == set_of_ports()(i, g),
{
    lemma_port_words();
    let a = "    set "@;
    let b = "global_"@;
    let c = "_ports"@;
    let d = " {\n        type inet_service; flags interval\n        elements = { "@;
    let end = " }\n    }\n"@;
    let n = decimal(i as nat);
    let ports = port_range_text(g.port_start, g.port_end);
    let low = decimal(g.port_start as nat);
    let high = if g.port_start == g.port_end {
        Seq::empty()
    } else {
        "-"@ + decimal(g.port_end as nat)
    };
    assert(ports =~= low + high);
    let x = g.protocol@;
    assert(a + (b + x + "_"@ + n + c) + d + (low + high) + end =~= (a + b) + x + "_"@ + n + (c + d)
        + low + high + end);
}

proof fn lemma_port_sets(p: NftPolicy)
    ensures
        flat_indexed(p.global_rules@, global_set_of()) == flat_indexed(
            p.global_rules@,
            set_of_ports(),
        ),
{
    assert forall|i: int| 0 <= i < p.global_rules@.len() implies global_set_of()(
        i,
        #[trigger] p.global_rules@[i],
    ) == set_of_ports()(i, p.global_rules@[i]) by {
        lemma_port_set(i, p.global_rules@[i]);
    }
    lemma_flat_indexed_same(p.global_rules@, global_set_of(), set_of_ports());
}

#[verifier::rlimit(60)]
proof fn lemma_opened(ips: Seq<char>, i: int, g: NftGlobalRule)
    ensures
        global_accept(ips, false)(i, g) == opened_over_v4(ips)(i, g),
        global_accept(ips, true)(i, g) == opened_over_v6(ips)(i, g),
{
    lemma_global_words();
    let d = " dport @"@;
    let b = "global_"@;
    let c = "_ports"@;
    let e = " accept\n"@;
    let n = decimal(i as nat);
    let x = g.protocol@;
    let four = "        ip daddr "@ + ips + " "@ + x;
    assert(four + d + (b + x + "_"@ + n + c) + e =~= four + (d + b) + x + "_"@ + n + (c + e));
    let six = "        ip6 daddr "@ + ips;
    let m = " ip6 nexthdr "@;
    let y = v6_protocol(g);
    assert(six + m + y + " "@ + y + d + (b + x + "_"@ + n + c) + e =~= six + (m + y + " "@ + y + d
        + b) + x + "_"@ + n + (c + e));
}

proof fn lemma_opened_rules(p: NftPolicy, ips: Seq<char>)
    ensures
        flat_indexed(p.global_rules@, global_accept(ips, false)) == flat_indexed(
            p.global_rules@,
            opened_over_v4(ips),
        ),
        flat_indexed(p.global_rules@, global_accept(ips, true)) == flat_indexed(
            p.global_rules@,
            opened_over_v6(ips),
        ),
{
    let v = p.global_rules@;
    assert forall|i: int| 0 <= i < v.len() implies global_accept(ips, false)(i, #[trigger] v[i])
        == opened_over_v4(ips)(i, v[i]) by {
        lemma_opened(ips, i, v[i]);
    }
    assert forall|i: int| 0 <= i < v.len() implies global_accept(ips, true)(i, #[trigger] v[i])
        == opened_over_v6(ips)(i, v[i]) by {
        lemma_opened(ips, i, v[i]);
    }
    lemma_flat_indexed_same(v, global_accept(ips, false), opened_over_v4(ips));
    lemma_flat_indexed_same(v, global_accept(ips, true), opened_over_v6(ips));
}

#[verifier::rlimit(60)]
proof fn lemma_common(p: NftPolicy)
    ensures
        all_addrs(p.targets@, false) == flat(p.targets@, v4_addrs_of()),
        all_addrs(p.targets@, true) == flat(p.targets@, v6_addrs_of()),
        common_rules(p, false) == open_on_v4(p),
        common_rules(p, true) == open_on_v6(p),
{
    lemma_open_words();
    lemma_flat_same(p.targets@, addrs_of(false), v4_addrs_of());
    lemma_flat_same(p.targets@, addrs_of(true), v6_addrs_of());
    let four = flat(p.targets@, v4_addrs_of());
    let six = flat(p.targets@, v6_addrs_of());
    if four.len() > 0 {
        assert(list_expr(four) == one_or_braced(four));
        lemma_opened_rules(p, one_or_braced(four));
    }
    if six.len() > 0 {
        assert(list_expr(six) == one_or_braced(six));
        lemma_opened_rules(p, one_or_braced(six));
    }
}

/// What a policy says of its groups: their sets, where a rule names one of them.
pub open spec fn groups_part(p: NftPolicy) -> Seq<char> {
    if exists|k: int|
        0 <= k < p.subnet_groups@.len() && is_named(
            p.targets@,
            (#[trigger] p.subnet_groups@[k]).name@,
        ) {
        "\n    # --- 2. 서브넷 그룹 (Subnet Groups) ---\n"@ + flat(
            p.subnet_groups@,
            sets_of_group(p.targets@),
        )
    } else {
        Seq::empty()
    }
}

/// The sets of the ports that are open everywhere: those of the global rules or, where there
/// are none, of traceroute.
pub open spec fn ports_part(p: NftPolicy) -> Seq<char> {
    if p.global_rules@.len() > 0 {
        "\n    # --- 3. 전역 허용 규칙 포트 집합 ---\n"@ + flat_indexed(
            p.global_rules@,
            set_of_ports(),
        )
    } else {
        "\n    # --- 3. 공통 설정 (Tools) ---\n    set traceroute_udp_ports {\n        type inet_service; flags interval\n        elements = { "@
            + decimal(p.traceroute_start as nat) + "-"@ + decimal(p.traceroute_end as nat)
            + " }\n    }\n"@
    }
}

/// A policy begins with the sets of its targets, its groups and its open ports. The chain
/// behind them filters what comes in on the device of the policy: first it lets in the answers
/// to outgoing connections, then what is open on all addresses of the targets, each in its
/// family.
#[verifier::rlimit(60)]
pub proof fn law_policies_begin_with_their_sets(p: NftPolicy)
    ensures
        ("table netdev "@ + p.table_name@ + " {\n"@
            + "    # --- 1. 대상 Pod/컨테이너 IP 그룹 (Targets) ---\n"@ + flat(
            p.targets@,
            sets_of_target(),
        ) + groups_part(p) + ports_part(p) + ("\n    chain "@ + p.chain_name@
            + " {\n        type filter hook ingress device \""@ + p.device_name@
            + "\" priority -500; policy accept;\n"@
            + "        tcp flags & (ack | rst) != 0 accept\n        udp sport 53 accept\n"@
            + (if flat(p.targets@, v4_addrs_of()).len() > 0 || flat(p.targets@, v6_addrs_of()).len()
            > 0 {
            "\n        # ==================================================\n        # 공통 허용 규칙 (Global Open: ICMP & 전역 규칙)\n        # ==================================================\n"@
        } else {
            Seq::empty()
        }) + open_on_v4(p) + open_on_v6(p))).is_prefix_of(policy_text(p)),
{
    lemma_policy_parts(p);
    lemma_target_sets(p);
    lemma_group_sets(p);
    lemma_some_group_used(p);
    lemma_port_sets(p);
    lemma_common(p);
    let x = "table netdev "@ + p.table_name@ + " {\n"@ + TARGETS_HEAD@ + flat(
        p.targets@,
        sets_of_target(),
    ) + groups_part(p) + ports_part(p);
    let a = chain_head(p) + BYPASS_RULES@ + given(
        flat(p.targets@, v4_addrs_of()).len() > 0 || flat(p.targets@, v6_addrs_of()).len() > 0,
        COMMON_HEAD@,
    ) + open_on_v4(p) + open_on_v6(p);
    let s = given(p.targets@.len() > 0, SERVICES_HEAD@);
    assert(group_section(p) == groups_part(p));
    assert(port_sets(p) == ports_part(p));
    assert(front_of(p) == x + (a + s));
    lemma_regrouped(x, a, s);
    let rules = flat(p.targets@, rules_of_target(p));
    let head = given(p.targets@.len() > 0, DROPS_HEAD@);
    let drops = flat(p.targets@, drops_of_target());
    let tail = "\n        accept\n    }\n}\n"@;
    lemma_regrouped(x + a, s, rules);
    lemma_regrouped(x + a, s + rules, head);
    lemma_regrouped(x + a, s + rules + head, drops);
    lemma_regrouped(x + a, s + rules + head + drops, tail);
    lemma_suffix(x + a, s + rules + head + drops + tail);
}

/// A policy defines the sets that its rules refer to: of each target, one for each address
/// family that it has, with all its addresses; and of each group that a rule names likewise.
#[verifier::rlimit(60)]
pub proof fn law_sets_hold_the_addresses(p: NftPolicy, i: int, g: int)
    requires
        0 <= i < p.targets@.len(),
        0 <= g < p.subnet_groups@.len(),
        is_named(p.targets@, p.subnet_groups@[g].name@),
    ensures
        p.targets@[i].ipv4_addrs@.len() > 0 ==> contains_text(
            policy_text(p),
            "    set target_"@ + set_name(p.targets@[i].name@)
                + "_v4 { type ipv4_addr; elements = { "@ + joined(
                views(p.targets@[i].ipv4_addrs@),
                ", "@,
            ) + " } }\n"@,
        ),
        p.targets@[i].ipv6_addrs@.len() > 0 ==> contains_text(
            policy_text(p),
            "    set target_"@ + set_name(p.targets@[i].name@)
                + "_v6 { type ipv6_addr; elements = { "@ + joined(
                views(p.targets@[i].ipv6_addrs@),
                ", "@,
            ) + " } }\n"@,
        ),
        p.subnet_groups@[g].cidrs_v4@.len() > 0 ==> contains_text(
            policy_text(p),
            "    set sg_"@ + set_name(p.subnet_groups@[g].name@)
                + "_v4 {\n        type ipv4_addr; flags interval\n        elements = { "@ + joined(
                views(p.subnet_groups@[g].cidrs_v4@),
                ", "@,
            ) + " }\n    }\n"@,
        ),
        p.subnet_groups@[g].cidrs_v6@.len() > 0 ==> contains_text(
            policy_text(p),
            "    set sg_"@ + set_name(p.subnet_groups@[g].name@)
                + "_v6 {\n        type ipv6_addr; flags interval\n        elements = { "@ + joined(
                views(p.subnet_groups@[g].cidrs_v6@),
                ", "@,
            ) + " }\n    }\n"@,
        ),
{
    let t = p.targets@[i];
    let s = p.subnet_groups@[g];
    lemma_set_words();
    lemma_group_words();
    let front = "    set target_"@ + set_name(t.name@);
    lemma_four(front, "_v4"@, " { type "@, "ipv4_addr"@, "; elements = { "@);
    lemma_four(front, "_v6"@, " { type "@, "ipv6_addr"@, "; elements = { "@);
    if t.ipv4_addrs@.len() > 0 {
        law_target_sets_are_defined(p, i, false);
    }
    if t.ipv6_addrs@.len() > 0 {
        law_target_sets_are_defined(p, i, true);
    }
    let of_group = "    set sg_"@ + set_name(s.name@);
    let end = "; flags interval\n        elements = { "@;
    lemma_four(of_group, "_v4"@, " {\n        type "@, "ipv4_addr"@, end);
    lemma_four(of_group, "_v6"@, " {\n        type "@, "ipv6_addr"@, end);
    lemma_named(p.targets@, s.name@);
    if s.cidrs_v4@.len() > 0 {
        lemma_group_set_is_defined(p, g, false);
    }
    if s.cidrs_v6@.len() > 0 {
        lemma_group_set_is_defined(p, g, true);
    }
}

} // verus!
