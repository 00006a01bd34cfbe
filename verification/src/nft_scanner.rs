//! Reading an nftables policy file back into groups, services and targets.

use crate::db::{DbNftTarget, DbNftTargetRule, TargetModel, TargetRuleModel};
use crate::lines::{
    add_line, copy_lines, flat, join, joined, lemma_flat_take, lemma_lines_total, lemma_total_take,
    lemma_views_push, lines, lines_of, split, split_on, total_len,
};
use crate::models::nft::{NftServiceDef, ServiceModel};
use crate::number::{parse_port, parsed_number};
use crate::order::{sort_texts, sorted_texts};
use crate::res_file::{brace_change, or_text};
use crate::text::{
    chars_of, contains, contains_char, contains_text, count, ends_with, find, find_text, has_char,
    is_space, is_space_char, opt_view, rfind, rfind_text, same, starts_with, strip_prefix,
    strip_suffix, trim, trim_end_char, trim_start_char, trim_start_matches, trimmed, trimmed_start,
    views, without_leading, without_prefixes, without_trailing,
};
use vstd::prelude::*;
use vstd::string::*;

verus! {

// ---------------------------------------------------------------------------
// Pieces of a line
// ---------------------------------------------------------------------------

/// What stands between the first opening and the last closing brace.
pub open spec fn elements_content(s: Seq<char>) -> Option<Seq<char>> {
    match (find_text(s, "{"@), rfind_text(s, "}"@)) {
        (Some(a), Some(b)) => if a < b {
            Some(s.subrange(a + 1, b))
        } else {
            None
        },
        _ => None,
    }
}

/// A trimmed piece as a sequence of one item, or of none where it is blank.
pub open spec fn trimmed_piece() -> spec_fn(Seq<char>) -> Seq<Seq<char>> {
    |p: Seq<char>|
        if trimmed(p).len() > 0 {
            seq![trimmed(p)]
        } else {
            Seq::empty()
        }
}

/// The items of a list that are separated by commas.
pub open spec fn comma_list(s: Seq<char>) -> Seq<Seq<char>> {
    flat(split_on(s, ','), trimmed_piece())
}

/// The ends of a range of ports.
pub open spec fn port_range(s: Seq<char>) -> Option<(nat, nat)> {
    let t = trimmed(s);
    match find_text(t, "-"@) {
        Some(i) => match (
            parsed_number(trimmed(t.take(i)), 65535),
            parsed_number(trimmed(t.skip(i + 1)), 65535),
        ) {
            (Some(a), Some(b)) => Some((a, b)),
            _ => None,
        },
        None => None,
    }
}

/// The device that the head of a chain names.
pub open spec fn device_of(s: Seq<char>) -> Option<Seq<char>> {
    match find_text(s, "device \""@) {
        Some(i) => {
            let rest = s.skip(i + 8);
            match find_text(rest, "\""@) {
                Some(j) => Some(rest.take(j)),
                None => None,
            }
        },
        None => None,
    }
}

/// The ports of a port expression: one port, or a list in braces.
pub open spec fn ports_of(expr: Seq<char>) -> Seq<Seq<char>> {
    comma_list(
        if contains_char(expr, '{') {
            trimmed(without_trailing(without_leading(trimmed(expr), '{'), '}'))
        } else {
            trimmed(expr)
        },
    )
}

/// The first word of `s`.
pub open spec fn first_word(s: Seq<char>) -> Seq<char> {
    word_from(trimmed_start(s))
}

/// What `s` starts with before its first white space.
pub open spec fn word_from(s: Seq<char>) -> Seq<char>
    decreases s.len(),
{
    if s.len() == 0 || is_space(s[0]) {
        Seq::empty()
    } else {
        seq![s[0]] + word_from(s.skip(1))
    }
}

/// What `s` holds behind the first `p`.
pub open spec fn behind(s: Seq<char>, p: Seq<char>) -> Option<Seq<char>> {
    match find_text(s, p) {
        Some(i) => Some(s.skip(i + p.len())),
        None => None,
    }
}

/// What `s` holds before the first `p`.
pub open spec fn before(s: Seq<char>, p: Seq<char>) -> Option<Seq<char>> {
    match find_text(s, p) {
        Some(i) => Some(s.take(i)),
        None => None,
    }
}

/// What `extract_elements_content` finds.
pub fn extract_elements_content<'a>(s: &'a str) -> (r: Option<&'a str>)
    ensures
        opt_view(r) == elements_content(s@),
{
    match (find(s, "{"), rfind(s, "}")) {
        (Some(a), Some(b)) => if a < b {
            Some(s.substring_char(a + 1, b))
        } else {
            None
        },
        _ => None,
    }
}

/// The items of a list that are separated by commas.
pub fn parse_comma_list(s: &str) -> (r: Vec<String>)
    ensures
        views(r@) == comma_list(s@),
{
    let pieces = split(s, ',');
    let ghost all = views(pieces@);
    let mut out: Vec<String> = Vec::new();
    let mut i: usize = 0;
    assert(views(out@) =~= Seq::<Seq<char>>::empty());
    while i < pieces.len()
        invariant
            all == views(pieces@),
            i <= pieces.len(),
            views(out@) == flat(all.take(i as int), trimmed_piece()),
        decreases pieces.len() - i,
    {
        let ghost seen = views(out@);
        proof {
            lemma_flat_take(all, trimmed_piece(), i as int);
            assert(all[i as int] == pieces@[i as int]@);
        }
        let t = trim(pieces[i]);
        if t.unicode_len() > 0 {
            add_line(&mut out, t);
            assert(views(out@) =~= seen + seq![t@]);
        } else {
            assert(views(out@) =~= seen + Seq::<Seq<char>>::empty());
        }
        i += 1;
    }
    assert(all.take(i as int) =~= all);
    out
}

/// The ends of a range of ports.
pub fn parse_port_range(s: &str) -> (r: Option<(u16, u16)>)
    ensures
        match r {
            Some((a, b)) => port_range(s@) == Some((a as nat, b as nat)),
            None => port_range(s@) is None,
        },
{
    proof {
        reveal_strlit("-");
    }
    let t = trim(s);
    match find(t, "-") {
        Some(i) => {
            let n = t.unicode_len();
            let low = t.substring_char(0, i);
            let high = t.substring_char(i + 1, n);
            proof {
                assert(low@ =~= t@.take(i as int));
                assert(high@ =~= t@.skip(i + 1));
            }
            match (parse_port(trim(low)), parse_port(trim(high))) {
                (Some(a), Some(b)) => Some((a, b)),
                _ => None,
            }
        },
        None => None,
    }
}

/// The device that the head of a chain names.
pub fn extract_device_name(s: &str) -> (r: Option<String>)
    ensures
        opt_view(r) == device_of(s@),
{
    proof {
        reveal_strlit("device \"");
    }
    match read_behind(s, "device \"") {
        Some(rest) => match read_before(rest, "\"") {
            Some(name) => Some(name.to_owned()),
            None => None,
        },
        None => None,
    }
}

fn read_behind<'a>(s: &'a str, p: &str) -> (r: Option<&'a str>)
    ensures
        opt_view(r) == behind(s@, p@),
{
    match find(s, p) {
        Some(i) => {
            let n = p.unicode_len();
            let m = s.unicode_len();
            assert(s@.subrange(i + n, m as int) =~= s@.skip(i + n));
            Some(s.substring_char(i + n, m))
        },
        None => None,
    }
}

fn read_before<'a>(s: &'a str, p: &str) -> (r: Option<&'a str>)
    ensures
        opt_view(r) == before(s@, p@),
{
    match find(s, p) {
        Some(i) => {
            assert(s@.subrange(0, i as int) =~= s@.take(i as int));
            Some(s.substring_char(0, i))
        },
        None => None,
    }
}

/// The ports of a port expression.
pub fn parse_port_expr(expr: &str) -> (r: Vec<String>)
    ensures
        views(r@) == ports_of(expr@),
{
    let t = trim(expr);
    if has_char(expr, '{') {
        parse_comma_list(trim(trim_end_char(trim_start_char(t, '{'), '}')))
    } else {
        parse_comma_list(t)
    }
}

fn read_first_word<'a>(s: &'a str) -> (r: &'a str)
    ensures
        r@ == first_word(s@),
{
    let v = chars_of(s);
    let mut from: usize = 0;
    assert(s@.skip(0) =~= s@);
    while from < v.len() && is_space_char(v[from])
        invariant
            v@ == s@,
            from <= v.len(),
            trimmed_start(s@) == trimmed_start(s@.skip(from as int)),
        decreases v.len() - from,
    {
        proof {
            assert(s@.skip(from as int)[0] == v@[from as int]);
            assert(s@.skip(from as int).skip(1) =~= s@.skip(from as int + 1));
        }
        from += 1;
    }
    proof {
        if from < v.len() {
            assert(s@.skip(from as int)[0] == v@[from as int]);
        }
        assert(trimmed_start(s@) == s@.skip(from as int));
    }
    let mut to: usize = from;
    let ghost tail = s@.skip(from as int);
    assert(s@.subrange(from as int, to as int) =~= Seq::<char>::empty());
    assert(word_from(tail) =~= s@.subrange(from as int, to as int) + word_from(
        s@.skip(to as int),
    ));
    while to < v.len() && !is_space_char(v[to])
        invariant
            v@ == s@,
            from <= to <= v.len(),
            word_from(tail) == s@.subrange(from as int, to as int) + word_from(s@.skip(to as int)),
        decreases v.len() - to,
    {
        proof {
            let rest = s@.skip(to as int);
            assert(rest[0] == v@[to as int]);
            assert(rest.skip(1) =~= s@.skip(to as int + 1));
            assert(word_from(rest) == seq![rest[0]] + word_from(rest.skip(1)));
            assert(s@.subrange(from as int, to as int + 1) =~= s@.subrange(
                from as int,
                to as int,
            ) + seq![rest[0]]);
            assert(word_from(tail) =~= s@.subrange(from as int, to as int + 1) + word_from(
                s@.skip(to as int + 1),
            ));
        }
        to += 1;
    }
    proof {
        let rest = s@.skip(to as int);
        if to < v.len() {
            assert(rest[0] == v@[to as int]);
        }
        assert(word_from(rest) =~= Seq::<char>::empty());
        assert(word_from(tail) =~= s@.subrange(from as int, to as int));
    }
    s.substring_char(from, to)
}

// ---------------------------------------------------------------------------
// Named sets and rules
// ---------------------------------------------------------------------------

/// The addresses or subnets of one name, in both address families.
#[derive(Debug, Clone)]
pub struct NamedAddrs {
    pub name: String,
    pub v4: Vec<String>,
    pub v6: Vec<String>,
}

/// What a [`NamedAddrs`] holds.
pub struct NamedAddrsModel {
    pub name: Seq<char>,
    pub v4: Seq<Seq<char>>,
    pub v6: Seq<Seq<char>>,
}

impl View for NamedAddrs {
    type V = NamedAddrsModel;

    open spec fn view(&self) -> NamedAddrsModel {
        NamedAddrsModel { name: self.name@, v4: views(self.v4@), v6: views(self.v6@) }
    }
}

/// The position of a name, from `i` on.
pub open spec fn addrs_from(m: Seq<NamedAddrsModel>, name: Seq<char>, i: int) -> Option<int>
    decreases m.len() - i,
{
    if i < 0 || i >= m.len() {
        None
    } else if m[i].name == name {
        Some(i)
    } else {
        addrs_from(m, name, i + 1)
    }
}

/// The entry of a name, empty where there is none.
pub open spec fn addrs_named(m: Seq<NamedAddrsModel>, name: Seq<char>) -> NamedAddrsModel {
    match addrs_from(m, name, 0) {
        Some(i) => m[i],
        None => NamedAddrsModel { name, v4: Seq::empty(), v6: Seq::empty() },
    }
}

/// `m` with `list` as the addresses of a name in one family.
pub open spec fn put_addrs(
    m: Seq<NamedAddrsModel>,
    name: Seq<char>,
    v6: bool,
    list: Seq<Seq<char>>,
) -> Seq<NamedAddrsModel> {
    let old_entry = addrs_named(m, name);
    let entry = if v6 {
        NamedAddrsModel { v6: list, ..old_entry }
    } else {
        NamedAddrsModel { v4: list, ..old_entry }
    };
    match addrs_from(m, name, 0) {
        Some(i) => m.update(i, entry),
        None => m.push(entry),
    }
}

fn find_addrs(m: &Vec<NamedAddrs>, name: &str) -> (r: Option<usize>)
    ensures
        match r {
            Some(i) => i < m.len() && addrs_from(views(m@), name@, 0) == Some(i as int),
            None => addrs_from(views(m@), name@, 0) is None,
        },
{
    let ghost all = views(m@);
    let mut i: usize = 0;
    while i < m.len()
        invariant
            all == views(m@),
            i <= m.len(),
            addrs_from(all, name@, 0) == addrs_from(all, name@, i as int),
        decreases m.len() - i,
    {
        assert(all[i as int] == m@[i as int]@);
        if same(m[i].name.as_str(), name) {
            return Some(i);
        }
        i += 1;
    }
    None
}

fn store_addrs(m: &mut Vec<NamedAddrs>, name: &str, v6: bool, list: Vec<String>)
    ensures
        views(final(m)@) == put_addrs(views(old(m)@), name@, v6, views(list@)),
{
    let ghost all = views(m@);
    match find_addrs(m, name) {
        Some(i) => {
            let entry = if v6 {
                NamedAddrs { name: m[i].name.clone(), v4: copy_lines(&m[i].v4), v6: list }
            } else {
                NamedAddrs { name: m[i].name.clone(), v4: list, v6: copy_lines(&m[i].v6) }
            };
            let ghost item = entry@;
            assert(all[i as int] == m@[i as int]@);
            m.set(i, entry);
            assert(views(m@) =~= all.update(i as int, item));
        },
        None => {
            let none: Vec<String> = Vec::new();
            assert(views(none@) =~= Seq::<Seq<char>>::empty());
            let entry = if v6 {
                NamedAddrs { name: name.to_owned(), v4: none, v6: list }
            } else {
                NamedAddrs { name: name.to_owned(), v4: list, v6: none }
            };
            proof {
                lemma_views_push(m@, entry);
            }
            m.push(entry);
        },
    }
}

/// The rules of one target.
#[derive(Debug, Clone)]
pub struct NamedRules {
    pub name: String,
    pub rules: Vec<DbNftTargetRule>,
}

/// What a [`NamedRules`] holds.
pub struct NamedRulesModel {
    pub name: Seq<char>,
    pub rules: Seq<TargetRuleModel>,
}

impl View for NamedRules {
    type V = NamedRulesModel;

    open spec fn view(&self) -> NamedRulesModel {
        NamedRulesModel { name: self.name@, rules: views(self.rules@) }
    }
}

/// The position of a name, from `i` on.
pub open spec fn rules_from(m: Seq<NamedRulesModel>, name: Seq<char>, i: int) -> Option<int>
    decreases m.len() - i,
{
    if i < 0 || i >= m.len() {
        None
    } else if m[i].name == name {
        Some(i)
    } else {
        rules_from(m, name, i + 1)
    }
}

/// The rules of a name, none where it has none.
pub open spec fn rules_named(m: Seq<NamedRulesModel>, name: Seq<char>) -> Seq<TargetRuleModel> {
    match rules_from(m, name, 0) {
        Some(i) => m[i].rules,
        None => Seq::empty(),
    }
}

/// Whether a rule for the service and the group is listed.
pub open spec fn has_rule(rules: Seq<TargetRuleModel>, service: Seq<char>, group: Seq<char>) -> bool {
    exists|i: int|
        0 <= i < rules.len() && (#[trigger] rules[i]).service_name == service
            && rules[i].subnet_group_name == group
}

/// `rules` with a rule more, unless it is listed.
pub open spec fn with_rule(
    rules: Seq<TargetRuleModel>,
    service: Seq<char>,
    group: Seq<char>,
) -> Seq<TargetRuleModel> {
    if has_rule(rules, service, group) {
        rules
    } else {
        rules.push(TargetRuleModel { id: 0, service_name: service, subnet_group_name: group })
    }
}

/// `m` with a rule more for a name, unless it is listed.
pub open spec fn put_rule(
    m: Seq<NamedRulesModel>,
    name: Seq<char>,
    service: Seq<char>,
    group: Seq<char>,
) -> Seq<NamedRulesModel> {
    let rules = with_rule(rules_named(m, name), service, group);
    match rules_from(m, name, 0) {
        Some(i) => m.update(i, NamedRulesModel { name, rules }),
        None => m.push(NamedRulesModel { name, rules }),
    }
}

fn find_rules(m: &Vec<NamedRules>, name: &str) -> (r: Option<usize>)
    ensures
        match r {
            Some(i) => i < m.len() && rules_from(views(m@), name@, 0) == Some(i as int)
                && m@[i as int].name@ == name@,
            None => rules_from(views(m@), name@, 0) is None,
        },
{
    let ghost all = views(m@);
    let mut i: usize = 0;
    while i < m.len()
        invariant
            all == views(m@),
            i <= m.len(),
            rules_from(all, name@, 0) == rules_from(all, name@, i as int),
        decreases m.len() - i,
    {
        assert(all[i as int] == m@[i as int]@);
        if same(m[i].name.as_str(), name) {
            return Some(i);
        }
        i += 1;
    }
    None
}

fn copy_rules(v: &Vec<DbNftTargetRule>) -> (r: Vec<DbNftTargetRule>)
    ensures
        views(r@) == views(v@),
{
    let mut out: Vec<DbNftTargetRule> = Vec::new();
    let mut i: usize = 0;
    while i < v.len()
        invariant
            i <= v.len(),
            views(out@) =~= views(v@).take(i as int),
        decreases v.len() - i,
    {
        let rule = DbNftTargetRule {
            id: v[i].id,
            service_name: v[i].service_name.clone(),
            subnet_group_name: v[i].subnet_group_name.clone(),
        };
        proof {
            lemma_views_push(out@, rule);
            assert(views(v@)[i as int] == rule@);
        }
        out.push(rule);
        i += 1;
    }
    out
}

fn add_rule(rules: &mut Vec<DbNftTargetRule>, service: &str, group: &str)
    ensures
        views(final(rules)@) == with_rule(views(old(rules)@), service@, group@),
{
    let mut i: usize = 0;
    while i < rules.len()
        invariant
            rules@ == old(rules)@,
            i <= rules.len(),
            forall|j: int|
                0 <= j < i ==> (#[trigger] views(rules@)[j]).service_name != service@
                    || views(rules@)[j].subnet_group_name != group@,
        decreases rules.len() - i,
    {
        assert(views(rules@)[i as int] == rules@[i as int]@);
        if same(rules[i].service_name.as_str(), service) && same(
            rules[i].subnet_group_name.as_str(),
            group,
        ) {
            return ;
        }
        i += 1;
    }
    let rule = DbNftTargetRule {
        id: 0,
        service_name: service.to_owned(),
        subnet_group_name: group.to_owned(),
    };
    proof {
        lemma_views_push(rules@, rule);
    }
    rules.push(rule);
}

fn store_rule(m: &mut Vec<NamedRules>, name: &str, service: &str, group: &str)
    ensures
        views(final(m)@) == put_rule(views(old(m)@), name@, service@, group@),
{
    let ghost all = views(m@);
    match find_rules(m, name) {
        Some(i) => {
            let mut rules = copy_rules(&m[i].rules);
            assert(all[i as int] == m@[i as int]@);
            add_rule(&mut rules, service, group);
            let entry = NamedRules { name: m[i].name.clone(), rules };
            let ghost item = entry@;
            m.set(i, entry);
            assert(views(m@) =~= all.update(i as int, item));
        },
        None => {
            let mut rules: Vec<DbNftTargetRule> = Vec::new();
            assert(views(rules@) =~= Seq::<TargetRuleModel>::empty());
            add_rule(&mut rules, service, group);
            let entry = NamedRules { name: name.to_owned(), rules };
            proof {
                lemma_views_push(m@, entry);
            }
            m.push(entry);
        },
    }
}

// ---------------------------------------------------------------------------
// Rules of a chain
// ---------------------------------------------------------------------------

/// What is collected from a file.
pub struct Found {
    pub table_name: Option<Seq<char>>,
    pub device_name: Option<Seq<char>>,
    pub chain_name: Option<Seq<char>>,
    pub traceroute: Option<(nat, nat)>,
    pub subnet_groups: Seq<NamedAddrsModel>,
    pub target_addrs: Seq<NamedAddrsModel>,
    pub target_rules: Seq<NamedRulesModel>,
    /// The names given to services, by protocol, ports and group.
    pub service_names: Seq<(Seq<char>, Seq<char>)>,
    pub services: Seq<ServiceModel>,
}

/// What an accept rule says: the target, the group of sources, the protocol, the ports.
pub struct RuleModel {
    pub target: Seq<char>,
    pub group: Seq<char>,
    pub protocol: Seq<char>,
    pub ports: Seq<Seq<char>>,
}

/// The group that a rule names, or nothing.
pub open spec fn rule_group(line: Seq<char>) -> Seq<char> {
    match behind(line, "@sg_"@) {
        Some(rest) => match before(rest, "_v4"@) {
            Some(name) => name,
            None => or_text(before(rest, " "@), rest),
        },
        None => Seq::empty(),
    }
}

/// The protocol that a rule matches.
pub open spec fn rule_protocol(line: Seq<char>) -> Option<Seq<char>> {
    if contains_text(line, "ip protocol tcp"@) || contains_text(line, "ip6 nexthdr tcp"@) {
        Some("tcp"@)
    } else if contains_text(line, "ip protocol udp"@) || contains_text(line, "ip6 nexthdr udp"@) {
        Some("udp"@)
    } else {
        None
    }
}

/// The port expression of a rule: the list in braces, or one word.
pub open spec fn port_expr_of(rest: Seq<char>) -> Seq<char> {
    if "{"@.is_prefix_of(rest) {
        match find_text(rest, "}"@) {
            Some(i) => rest.take(i + 1),
            None => rest,
        }
    } else {
        first_word(rest)
    }
}

/// What an accept rule says; nothing where a part of it is missing.
pub open spec fn read_rule(line: Seq<char>) -> Option<RuleModel> {
    match behind(line, "@target_"@) {
        Some(rest) => match (before(rest, "_v4"@), rule_protocol(line)) {
            (Some(target), Some(protocol)) => match behind(line, protocol + " dport "@) {
                Some(expr) => Some(
                    RuleModel {
                        target,
                        group: rule_group(line),
                        protocol,
                        ports: sorted_texts(ports_of(port_expr_of(expr))),
                    },
                ),
                None => None,
            },
            _ => None,
        },
        None => None,
    }
}

/// The name that a service gets from its protocol and ports.
pub open spec fn auto_name(protocol: Seq<char>, ports: Seq<Seq<char>>) -> Seq<char> {
    "auto_"@ + protocol + "_"@ + joined(ports, "_"@)
}

/// What distinguishes a service: protocol, ports and group.
pub open spec fn service_key(r: RuleModel) -> Seq<char> {
    r.protocol + "_"@ + joined(r.ports, "_"@) + "_"@ + r.group
}

/// The name given to a key, from position `i` on.
pub open spec fn name_of_key(m: Seq<(Seq<char>, Seq<char>)>, key: Seq<char>, i: int) -> Option<
    Seq<char>,
>
    decreases m.len() - i,
{
    if i < 0 || i >= m.len() {
        None
    } else if m[i].0 == key {
        Some(m[i].1)
    } else {
        name_of_key(m, key, i + 1)
    }
}

/// Whether a service of that name is listed.
pub open spec fn has_service(services: Seq<ServiceModel>, name: Seq<char>) -> bool {
    exists|i: int| 0 <= i < services.len() && (#[trigger] services[i]).name == name
}

/// The service that stands for the ports of a rule.
pub open spec fn auto_service(r: RuleModel) -> ServiceModel {
    ServiceModel {
        id: 0,
        name: auto_name(r.protocol, r.ports),
        description: "자동 감지"@,
        tcp_ports: if r.protocol == "tcp"@ {
            r.ports
        } else {
            Seq::empty()
        },
        udp_ports: if r.protocol == "udp"@ {
            r.ports
        } else {
            Seq::empty()
        },
    }
}

/// `f` with what an accept rule says.
pub open spec fn with_chain_rule(f: Found, line: Seq<char>) -> Found {
    match read_rule(line) {
        Some(r) => match name_of_key(f.service_names, service_key(r), 0) {
            Some(service) => Found {
                target_rules: put_rule(f.target_rules, r.target, service, r.group),
                ..f
            },
            None => {
                let service = auto_name(r.protocol, r.ports);
                Found {
                    services: if has_service(f.services, service) {
                        f.services
                    } else {
                        f.services.push(auto_service(r))
                    },
                    service_names: f.service_names.push((service_key(r), service)),
                    target_rules: put_rule(f.target_rules, r.target, service, r.group),
                    ..f
                }
            },
        },
        None => f,
    }
}

// ---------------------------------------------------------------------------
// Lines of a file
// ---------------------------------------------------------------------------

/// How far the reading has come.
pub struct NftState {
    pub in_table: bool,
    pub depth: int,
    /// The set that is being read.
    pub in_set: Option<Seq<char>>,
    pub in_chain: bool,
    /// Whether the elements of a set go on in the next line.
    pub in_elements: bool,
    /// The elements so far.
    pub elements: Seq<char>,
    pub found: Found,
}

/// `f` with the elements of a set: the addresses of a target, or the subnets of a group.
pub open spec fn with_elements(f: Found, set_name: Seq<char>, line: Seq<char>) -> Found {
    match elements_content(line) {
        Some(content) => {
            let list = comma_list(content);
            if "target_"@.is_prefix_of(set_name) {
                let rest = set_name.skip(7);
                if "_v4"@.is_suffix_of(rest) {
                    Found {
                        target_addrs: put_addrs(
                            f.target_addrs,
                            rest.take(rest.len() - 3),
                            false,
                            list,
                        ),
                        ..f
                    }
                } else if "_v6"@.is_suffix_of(rest) {
                    Found {
                        target_addrs: put_addrs(
                            f.target_addrs,
                            rest.take(rest.len() - 3),
                            true,
                            list,
                        ),
                        ..f
                    }
                } else {
                    f
                }
            } else if "sg_"@.is_prefix_of(set_name) {
                let rest = set_name.skip(3);
                if "_v4"@.is_suffix_of(rest) {
                    Found {
                        subnet_groups: put_addrs(
                            f.subnet_groups,
                            rest.take(rest.len() - 3),
                            false,
                            list,
                        ),
                        ..f
                    }
                } else if "_v6"@.is_suffix_of(rest) {
                    Found {
                        subnet_groups: put_addrs(
                            f.subnet_groups,
                            rest.take(rest.len() - 3),
                            true,
                            list,
                        ),
                        ..f
                    }
                } else {
                    f
                }
            } else {
                f
            }
        },
        None => f,
    }
}

/// The name between a word and the brace that ends the line.
pub open spec fn headed_name(t: Seq<char>, head: Seq<char>) -> Option<Seq<char>> {
    if head.is_prefix_of(t) && "{"@.is_suffix_of(t) {
        Some(trimmed(without_trailing(without_prefixes(t, head), '{')))
    } else {
        None
    }
}

/// The name of the table that a line opens.
pub open spec fn table_of(t: Seq<char>) -> Option<Seq<char>> {
    let parts = split_on(t, ' ');
    if parts.len() >= 3 {
        Some(trimmed(without_trailing(parts[2], '{')))
    } else {
        None
    }
}

/// Reading a line inside a set: first its elements,
pub open spec fn elements_step(s: NftState, set_name: Seq<char>, t: Seq<char>) -> NftState {
    if s.in_elements {
        let buffer = s.elements + " "@ + t;
        if contains_char(t, '}') {
            NftState {
                in_elements: false,
                elements: Seq::empty(),
                found: with_elements(s.found, set_name, buffer),
                ..s
            }
        } else {
            NftState { elements: buffer, ..s }
        }
    } else if "elements = {"@.is_prefix_of(t) {
        if contains_char(t, '}') {
            NftState { elements: t, found: with_elements(s.found, set_name, t), ..s }
        } else {
            NftState { elements: t, in_elements: true, ..s }
        }
    } else {
        s
    }
}

/// and the range of the traceroute ports.
pub open spec fn traceroute_step(f: Found, set_name: Seq<char>, t: Seq<char>) -> Found {
    match elements_content(t) {
        Some(content) => match port_range(content) {
            Some(range) => if set_name == "traceroute_udp_ports"@ {
                Found { traceroute: Some(range), ..f }
            } else {
                f
            },
            None => f,
        },
        None => f,
    }
}

/// Reading a line inside a set.
pub open spec fn set_step(s: NftState, set_name: Seq<char>, t: Seq<char>) -> NftState {
    let n = elements_step(s, set_name, t);
    NftState {
        found: traceroute_step(n.found, set_name, t),
        in_set: if t == "}"@ {
            None
        } else {
            s.in_set
        },
        ..n
    }
}

/// Reading a line inside a chain.
pub open spec fn chain_step(s: NftState, t: Seq<char>) -> NftState {
    let f = if contains_text(t, "hook ingress device"@) && device_of(t) is Some {
        Found { device_name: device_of(t), ..s.found }
    } else {
        s.found
    };
    NftState {
        found: if "ip daddr @target_"@.is_prefix_of(t) && "accept"@.is_suffix_of(t) {
            with_chain_rule(f, t)
        } else {
            f
        },
        in_chain: t != "}"@,
        ..s
    }
}

/// Reading one more line.
pub open spec fn nft_step(s: NftState, line: Seq<char>) -> NftState {
    let t = trimmed(line);
    if "#"@.is_prefix_of(t) {
        s
    } else if !s.in_table {
        if "table "@.is_prefix_of(t) && contains_char(t, '{') {
            NftState {
                in_table: true,
                depth: 1,
                found: if table_of(t) is Some {
                    Found { table_name: table_of(t), ..s.found }
                } else {
                    s.found
                },
                ..s
            }
        } else {
            s
        }
    } else if s.in_set is None && !s.in_chain && headed_name(t, "set "@) is Some {
        NftState { in_set: headed_name(t, "set "@), ..s }
    } else if s.in_set is Some {
        set_step(s, s.in_set->0, t)
    } else if !s.in_chain && headed_name(t, "chain "@) is Some {
        NftState {
            in_chain: true,
            found: Found { chain_name: headed_name(t, "chain "@), ..s.found },
            ..s
        }
    } else if s.in_chain {
        chain_step(s, t)
    } else if t == "}"@ && s.depth == 1 {
        NftState { in_table: false, depth: 0, ..s }
    } else {
        NftState { depth: s.depth + brace_change(t), ..s }
    }
}

pub open spec fn found_nothing() -> Found {
    Found {
        table_name: None,
        device_name: None,
        chain_name: None,
        traceroute: None,
        subnet_groups: Seq::empty(),
        target_addrs: Seq::empty(),
        target_rules: Seq::empty(),
        service_names: Seq::empty(),
        services: Seq::empty(),
    }
}

pub open spec fn nft_start() -> NftState {
    NftState {
        in_table: false,
        depth: 0,
        in_set: None,
        in_chain: false,
        in_elements: false,
        elements: Seq::empty(),
        found: found_nothing(),
    }
}

/// How far the reading has come after the given lines.
pub open spec fn nft_scan(lines: Seq<Seq<char>>) -> NftState
    decreases lines.len(),
{
    if lines.len() == 0 {
        nft_start()
    } else {
        nft_step(nft_scan(lines.drop_last()), lines.last())
    }
}

// ---------------------------------------------------------------------------
// What holds of what is found
// ---------------------------------------------------------------------------

/// No two entries have the same name.
pub open spec fn distinct_addrs(m: Seq<NamedAddrsModel>) -> bool {
    forall|i: int, j: int| 0 <= i < j < m.len() ==> (#[trigger] m[i]).name != (#[trigger] m[j]).name
}

/// No two targets have the same name, and no rule of a target is listed twice.
pub open spec fn distinct_rules(m: Seq<NamedRulesModel>) -> bool {
    &&& forall|i: int, j: int|
        0 <= i < j < m.len() ==> (#[trigger] m[i]).name != (#[trigger] m[j]).name
    &&& forall|i: int| 0 <= i < m.len() ==> no_rule_twice((#[trigger] m[i]).rules)
}

/// No rule is listed twice.
pub open spec fn no_rule_twice(rules: Seq<TargetRuleModel>) -> bool {
    forall|i: int, j: int|
        0 <= i < j < rules.len() ==> (#[trigger] rules[i]).service_name != (
        #[trigger] rules[j]).service_name || rules[i].subnet_group_name
            != rules[j].subnet_group_name
}

/// No two services have the same name.
pub open spec fn distinct_services(v: Seq<ServiceModel>) -> bool {
    forall|i: int, j: int| 0 <= i < j < v.len() ==> (#[trigger] v[i]).name != (#[trigger] v[j]).name
}

/// All rules name services that are listed.
pub open spec fn rules_name_services(m: Seq<NamedRulesModel>, services: Seq<ServiceModel>) -> bool {
    forall|i: int, j: int|
        0 <= i < m.len() && 0 <= j < m[i].rules.len() ==> has_service(
            services,
            (#[trigger] m[i].rules[j]).service_name,
        )
}

/// What holds after every line.
spec fn is_consistent(f: Found) -> bool {
    &&& distinct_addrs(f.subnet_groups)
    &&& distinct_addrs(f.target_addrs)
    &&& distinct_rules(f.target_rules)
    &&& distinct_services(f.services)
    &&& rules_name_services(f.target_rules, f.services)
    &&& forall|i: int|
        0 <= i < f.service_names.len() ==> has_service(
            f.services,
            (#[trigger] f.service_names[i]).1,
        )
}

pub proof fn lemma_addrs_from(m: Seq<NamedAddrsModel>, name: Seq<char>, i: int)
    requires
        0 <= i,
    ensures
        match addrs_from(m, name, i) {
            Some(k) => i <= k < m.len() && m[k].name == name,
            None => forall|k: int| i <= k < m.len() ==> (#[trigger] m[k]).name != name,
        },
    decreases m.len() - i,
{
    if i < m.len() && m[i].name != name {
        lemma_addrs_from(m, name, i + 1);
    }
}

proof fn lemma_put_addrs(m: Seq<NamedAddrsModel>, name: Seq<char>, v6: bool, list: Seq<Seq<char>>)
    requires
        distinct_addrs(m),
    ensures
        distinct_addrs(put_addrs(m, name, v6, list)),
{
    lemma_addrs_from(m, name, 0);
    let n = put_addrs(m, name, v6, list);
    assert forall|i: int, j: int| 0 <= i < j < n.len() implies (#[trigger] n[i]).name != (
    #[trigger] n[j]).name by {
        if j < m.len() {
            assert(m[i].name != m[j].name);
        } else {
            assert(m[i].name != name);
        }
    }
}

proof fn lemma_rules_from(m: Seq<NamedRulesModel>, name: Seq<char>, i: int)
    requires
        0 <= i,
    ensures
        match rules_from(m, name, i) {
            Some(k) => i <= k < m.len() && m[k].name == name,
            None => forall|k: int| i <= k < m.len() ==> (#[trigger] m[k]).name != name,
        },
    decreases m.len() - i,
{
    if i < m.len() && m[i].name != name {
        lemma_rules_from(m, name, i + 1);
    }
}

proof fn lemma_put_rule(
    m: Seq<NamedRulesModel>,
    name: Seq<char>,
    service: Seq<char>,
    group: Seq<char>,
    services: Seq<ServiceModel>,
)
    requires
        distinct_rules(m),
        rules_name_services(m, services),
        has_service(services, service),
    ensures
        distinct_rules(put_rule(m, name, service, group)),
        rules_name_services(put_rule(m, name, service, group), services),
{
    lemma_rules_from(m, name, 0);
    let n = put_rule(m, name, service, group);
    let given_rules = rules_named(m, name);
    let rules = with_rule(given_rules, service, group);
    assert(no_rule_twice(given_rules));
    assert(no_rule_twice(rules)) by {
        assert forall|i: int, j: int| 0 <= i < j < rules.len() implies (
        #[trigger] rules[i]).service_name != (#[trigger] rules[j]).service_name
            || rules[i].subnet_group_name != rules[j].subnet_group_name by {
            if j < given_rules.len() {
                assert(given_rules[i] == rules[i] && given_rules[j] == rules[j]);
            } else {
                assert(given_rules[i] == rules[i]);
            }
        }
    }
    assert forall|i: int, j: int| 0 <= i < j < n.len() implies (#[trigger] n[i]).name != (
    #[trigger] n[j]).name by {
        if j < m.len() {
            assert(m[i].name != m[j].name);
        } else {
            assert(m[i].name != name);
        }
    }
    assert forall|i: int| 0 <= i < n.len() implies no_rule_twice((#[trigger] n[i]).rules) by {
        if i < m.len() {
            assert(no_rule_twice(m[i].rules));
        }
    }
    assert forall|i: int, j: int| 0 <= i < n.len() && 0 <= j < n[i].rules.len() implies has_service(
        services,
        (#[trigger] n[i].rules[j]).service_name,
    ) by {
        if n[i].rules == rules {
            if j < given_rules.len() {
                let k = rules_from(m, name, 0)->0;
                assert(m[k].rules[j] == rules[j]);
            }
        } else {
            assert(m[i].rules[j] == n[i].rules[j]);
        }
    }
}

proof fn lemma_name_of_key(m: Seq<(Seq<char>, Seq<char>)>, key: Seq<char>, i: int)
    requires
        0 <= i,
    ensures
        name_of_key(m, key, i) is Some ==> exists|k: int|
            0 <= k < m.len() && (#[trigger] m[k]).1 == name_of_key(m, key, i)->0,
    decreases m.len() - i,
{
    if i < m.len() && m[i].0 != key {
        lemma_name_of_key(m, key, i + 1);
    }
}

proof fn lemma_services_grow(services: Seq<ServiceModel>, s: ServiceModel, name: Seq<char>)
    requires
        has_service(services, name) || s.name == name,
    ensures
        has_service(services.push(s), name),
{
    let more = services.push(s);
    if s.name == name {
        assert(more[services.len() as int].name == name);
    } else {
        let i = choose|i: int| 0 <= i < services.len() && (#[trigger] services[i]).name == name;
        assert(more[i].name == name);
    }
}

proof fn lemma_chain_rule_is_consistent(f: Found, line: Seq<char>)
    requires
        is_consistent(f),
    ensures
        is_consistent(with_chain_rule(f, line)),
{
    if let Some(r) = read_rule(line) {
        lemma_name_of_key(f.service_names, service_key(r), 0);
        match name_of_key(f.service_names, service_key(r), 0) {
            Some(service) => {
                lemma_put_rule(f.target_rules, r.target, service, r.group, f.services);
            },
            None => {
                let service = auto_name(r.protocol, r.ports);
                let n = with_chain_rule(f, line);
                let more = n.services;
                assert forall|name: Seq<char>| has_service(f.services, name) implies has_service(
                    more,
                    name,
                ) by {
                    if !has_service(f.services, service) {
                        lemma_services_grow(f.services, auto_service(r), name);
                    }
                }
                assert(has_service(more, service)) by {
                    if !has_service(f.services, service) {
                        lemma_services_grow(f.services, auto_service(r), service);
                    }
                }
                assert(distinct_services(more)) by {
                    assert forall|i: int, j: int| 0 <= i < j < more.len() implies (
                    #[trigger] more[i]).name != (#[trigger] more[j]).name by {
                        if j < f.services.len() {
                            assert(f.services[i] == more[i] && f.services[j] == more[j]);
                        } else {
                            assert(f.services[i] == more[i]);
                        }
                    }
                }
                assert(rules_name_services(f.target_rules, more)) by {
                    assert forall|i: int, j: int|
                        0 <= i < f.target_rules.len() && 0 <= j
                            < f.target_rules[i].rules.len() implies has_service(
                        more,
                        (#[trigger] f.target_rules[i].rules[j]).service_name,
                    ) by {
                        assert(has_service(f.services, f.target_rules[i].rules[j].service_name));
                    }
                }
                lemma_put_rule(f.target_rules, r.target, service, r.group, more);
                assert forall|i: int| 0 <= i < n.service_names.len() implies has_service(
                    n.services,
                    (#[trigger] n.service_names[i]).1,
                ) by {
                    if i < f.service_names.len() {
                        assert(has_service(f.services, f.service_names[i].1));
                    }
                }
            },
        }
    }
}

proof fn lemma_elements_are_consistent(f: Found, set_name: Seq<char>, line: Seq<char>)
    requires
        is_consistent(f),
    ensures
        is_consistent(with_elements(f, set_name, line)),
{
    if let Some(content) = elements_content(line) {
        let list = comma_list(content);
        let a = set_name.skip(7);
        let b = set_name.skip(3);
        lemma_put_addrs(f.target_addrs, a.take(a.len() - 3), false, list);
        lemma_put_addrs(f.target_addrs, a.take(a.len() - 3), true, list);
        lemma_put_addrs(f.subnet_groups, b.take(b.len() - 3), false, list);
        lemma_put_addrs(f.subnet_groups, b.take(b.len() - 3), true, list);
    }
}

proof fn lemma_scan_is_consistent(lines: Seq<Seq<char>>)
    ensures
        is_consistent(nft_scan(lines).found),
    decreases lines.len(),
{
    if lines.len() > 0 {
        lemma_scan_is_consistent(lines.drop_last());
        let s = nft_scan(lines.drop_last());
        let t = trimmed(lines.last());
        if let Some(name) = s.in_set {
            lemma_elements_are_consistent(s.found, name, t);
            lemma_elements_are_consistent(s.found, name, s.elements + " "@ + t);
        }
        lemma_chain_rule_is_consistent(s.found, t);
        lemma_chain_rule_is_consistent(Found { device_name: device_of(t), ..s.found }, t);
    }
}

/// Whatever a file holds, no group, target or service is found twice, no rule of a target is
/// listed twice, and every rule names a service that was found.
pub proof fn law_scans_are_consistent(lines: Seq<Seq<char>>)
    ensures
        distinct_addrs(nft_scan(lines).found.subnet_groups),
        distinct_addrs(nft_scan(lines).found.target_addrs),
        distinct_rules(nft_scan(lines).found.target_rules),
        distinct_services(nft_scan(lines).found.services),
        rules_name_services(
            nft_scan(lines).found.target_rules,
            nft_scan(lines).found.services,
        ),
{
    lemma_scan_is_consistent(lines);
}

// ---------------------------------------------------------------------------
// Targets
// ---------------------------------------------------------------------------

/// The names of targets that have rules but no addresses.
pub open spec fn rule_only_name(addrs: Seq<NamedAddrsModel>) -> spec_fn(NamedRulesModel) -> Seq<
    Seq<char>,
> {
    |r: NamedRulesModel|
        if addrs_from(addrs, r.name, 0) is Some {
            Seq::empty()
        } else {
            seq![r.name]
        }
}

/// The names of all targets, in ascending order.
pub open spec fn target_names(f: Found) -> Seq<Seq<char>> {
    sorted_texts(
        addr_names(f.target_addrs) + flat(f.target_rules, rule_only_name(f.target_addrs)),
    )
}

pub open spec fn addr_names(m: Seq<NamedAddrsModel>) -> Seq<Seq<char>> {
    Seq::new(m.len(), |i: int| m[i].name)
}

/// The target of a name, with the addresses and rules that were found.
pub open spec fn found_target(f: Found, name: Seq<char>) -> TargetModel {
    TargetModel {
        id: 0,
        name,
        ipv4_addrs: addrs_named(f.target_addrs, name).v4,
        ipv6_addrs: addrs_named(f.target_addrs, name).v6,
        rules: rules_named(f.target_rules, name),
    }
}

/// All targets, in ascending order of their names.
pub open spec fn found_targets(f: Found) -> Seq<TargetModel> {
    Seq::new(target_names(f).len(), |i: int| found_target(f, target_names(f)[i]))
}

// ---------------------------------------------------------------------------
// Reading
// ---------------------------------------------------------------------------

/// What a policy file says.
#[derive(Debug, Clone)]
pub struct ParsedNft {
    pub table_name: Option<String>,
    pub device_name: Option<String>,
    pub chain_name: Option<String>,
    pub traceroute_start: Option<u16>,
    pub traceroute_end: Option<u16>,
    pub subnet_groups: Vec<NamedAddrs>,
    pub auto_services: Vec<NftServiceDef>,
    pub targets: Vec<DbNftTarget>,
}

struct Scanner {
    in_table: bool,
    depth: i128,
    in_set: bool,
    set_name: String,
    in_chain: bool,
    in_elements: bool,
    elements: String,
    table_name: Option<String>,
    device_name: Option<String>,
    chain_name: Option<String>,
    traceroute: Option<(u16, u16)>,
    subnet_groups: Vec<NamedAddrs>,
    target_addrs: Vec<NamedAddrs>,
    target_rules: Vec<NamedRules>,
    service_names: Vec<(String, String)>,
    services: Vec<NftServiceDef>,
}

impl Scanner {
    closed spec fn found(&self) -> Found {
        Found {
            table_name: opt_view(self.table_name),
            device_name: opt_view(self.device_name),
            chain_name: opt_view(self.chain_name),
            traceroute: match self.traceroute {
                Some((a, b)) => Some((a as nat, b as nat)),
                None => None,
            },
            subnet_groups: views(self.subnet_groups@),
            target_addrs: views(self.target_addrs@),
            target_rules: views(self.target_rules@),
            service_names: views(self.service_names@),
            services: views(self.services@),
        }
    }
}

impl View for Scanner {
    type V = NftState;

    closed spec fn view(&self) -> NftState {
        NftState {
            in_table: self.in_table,
            depth: self.depth as int,
            in_set: if self.in_set {
                Some(self.set_name@)
            } else {
                None
            },
            in_chain: self.in_chain,
            in_elements: self.in_elements,
            elements: self.elements@,
            found: self.found(),
        }
    }
}

fn read_headed_name<'a>(t: &'a str, head: &str) -> (r: Option<&'a str>)
    requires
        head@.len() > 0,
    ensures
        opt_view(r) == headed_name(t@, head@),
{
    if starts_with(t, head) && ends_with(t, "{") {
        Some(trim(trim_end_char(trim_start_matches(t, head), '{')))
    } else {
        None
    }
}

fn read_table<'a>(t: &'a str) -> (r: Option<&'a str>)
    ensures
        opt_view(r) == table_of(t@),
{
    let parts = split(t, ' ');
    if parts.len() >= 3 {
        assert(views(parts@)[2] == parts@[2]@);
        Some(trim(trim_end_char(parts[2], '{')))
    } else {
        None
    }
}

struct ChainRule {
    target: String,
    group: String,
    protocol: &'static str,
    ports: Vec<String>,
}

impl View for ChainRule {
    type V = RuleModel;

    closed spec fn view(&self) -> RuleModel {
        RuleModel {
            target: self.target@,
            group: self.group@,
            protocol: self.protocol@,
            ports: views(self.ports@),
        }
    }
}

fn read_rule_group(line: &str) -> (r: String)
    ensures
        r@ == rule_group(line@),
{
    match read_behind(line, "@sg_") {
        Some(rest) => match read_before(rest, "_v4") {
            Some(name) => name.to_owned(),
            None => match read_before(rest, " ") {
                Some(name) => name.to_owned(),
                None => rest.to_owned(),
            },
        },
        None => String::new(),
    }
}

fn read_rule_protocol(line: &str) -> (r: Option<&'static str>)
    ensures
        opt_view(r) == rule_protocol(line@),
{
    if contains(line, "ip protocol tcp") || contains(line, "ip6 nexthdr tcp") {
        Some("tcp")
    } else if contains(line, "ip protocol udp") || contains(line, "ip6 nexthdr udp") {
        Some("udp")
    } else {
        None
    }
}

fn read_port_expr<'a>(rest: &'a str) -> (r: &'a str)
    ensures
        r@ == port_expr_of(rest@),
{
    proof {
        reveal_strlit("}");
    }
    if starts_with(rest, "{") {
        let n = rest.unicode_len();
        match find(rest, "}") {
            Some(i) => {
                assert(i < n);
                assert(rest@.subrange(0, i as int + 1) =~= rest@.take(i as int + 1));
                rest.substring_char(0, i + 1)
            },
            None => rest,
        }
    } else {
        read_first_word(rest)
    }
}

fn read_chain_rule(line: &str) -> (r: Option<ChainRule>)
    ensures
        opt_view(r) == read_rule(line@),
{
    let target = match read_behind(line, "@target_") {
        Some(rest) => match read_before(rest, "_v4") {
            Some(name) => name,
            None => {
                return None;
            },
        },
        None => {
            return None;
        },
    };
    let protocol = match read_rule_protocol(line) {
        Some(p) => p,
        None => {
            return None;
        },
    };
    let mut marker = protocol.to_owned();
    marker.push_str(" dport ");
    match read_behind(line, marker.as_str()) {
        Some(expr) => {
            let ports = sort_texts(&parse_port_expr(read_port_expr(expr)));
            Some(
                ChainRule {
                    target: target.to_owned(),
                    group: read_rule_group(line),
                    protocol,
                    ports,
                },
            )
        },
        None => None,
    }
}

fn find_service_name(m: &Vec<(String, String)>, key: &str) -> (r: Option<String>)
    ensures
        opt_view(r) == name_of_key(views(m@), key@, 0),
{
    let ghost all = views(m@);
    let mut i: usize = 0;
    while i < m.len()
        invariant
            all == views(m@),
            i <= m.len(),
            name_of_key(all, key@, 0) == name_of_key(all, key@, i as int),
        decreases m.len() - i,
    {
        assert(all[i as int] == m@[i as int]@);
        if same(m[i].0.as_str(), key) {
            return Some(m[i].1.clone());
        }
        i += 1;
    }
    None
}

fn lists_service(services: &Vec<NftServiceDef>, name: &str) -> (r: bool)
    ensures
        r == has_service(views(services@), name@),
{
    let mut i: usize = 0;
    while i < services.len()
        invariant
            i <= services.len(),
            forall|j: int| 0 <= j < i ==> (#[trigger] views(services@)[j]).name != name@,
        decreases services.len() - i,
    {
        assert(views(services@)[i as int] == services@[i as int]@);
        if same(services[i].name.as_str(), name) {
            return true;
        }
        i += 1;
    }
    false
}

fn build_auto_service(r: &ChainRule, name: &str) -> (s: NftServiceDef)
    requires
        name@ == auto_name(r@.protocol, r@.ports),
    ensures
        s@ == auto_service(r@),
{
    let none: Vec<String> = Vec::new();
    assert(views(none@) =~= Seq::<Seq<char>>::empty());
    let none2: Vec<String> = Vec::new();
    assert(views(none2@) =~= Seq::<Seq<char>>::empty());
    NftServiceDef {
        id: 0,
        name: name.to_owned(),
        description: "자동 감지".to_owned(),
        tcp_ports: if same(r.protocol, "tcp") {
            copy_lines(&r.ports)
        } else {
            none
        },
        udp_ports: if same(r.protocol, "udp") {
            copy_lines(&r.ports)
        } else {
            none2
        },
    }
}

impl Scanner {
    fn start() -> (r: Scanner)
        ensures
            r@ == nft_start(),
    {
        let r = Scanner {
            in_table: false,
            depth: 0,
            in_set: false,
            set_name: String::new(),
            in_chain: false,
            in_elements: false,
            elements: String::new(),
            table_name: None,
            device_name: None,
            chain_name: None,
            traceroute: None,
            subnet_groups: Vec::new(),
            target_addrs: Vec::new(),
            target_rules: Vec::new(),
            service_names: Vec::new(),
            services: Vec::new(),
        };
        proof {
            assert(r.found().subnet_groups =~= Seq::<NamedAddrsModel>::empty());
            assert(r.found().target_addrs =~= Seq::<NamedAddrsModel>::empty());
            assert(r.found().target_rules =~= Seq::<NamedRulesModel>::empty());
            assert(r.found().service_names =~= Seq::<(Seq<char>, Seq<char>)>::empty());
            assert(r.found().services =~= Seq::<ServiceModel>::empty());
        }
        r
    }

    fn process_set_elements(&mut self, set_name: &str, line: &str)
        ensures
            final(self)@ == (NftState {
                found: with_elements(old(self)@.found, set_name@, line@),
                ..old(self)@
            }),
    {
        proof {
            reveal_strlit("target_");
            reveal_strlit("sg_");
            reveal_strlit("_v4");
            reveal_strlit("_v6");
        }
        let list = match extract_elements_content(line) {
            Some(content) => parse_comma_list(content),
            None => {
                return ;
            },
        };
        if let Some(rest) = strip_prefix(set_name, "target_") {
            if let Some(name) = strip_suffix(rest, "_v4") {
                store_addrs(&mut self.target_addrs, name, false, list);
            } else if let Some(name) = strip_suffix(rest, "_v6") {
                store_addrs(&mut self.target_addrs, name, true, list);
            }
        } else if let Some(rest) = strip_prefix(set_name, "sg_") {
            if let Some(name) = strip_suffix(rest, "_v4") {
                store_addrs(&mut self.subnet_groups, name, false, list);
            } else if let Some(name) = strip_suffix(rest, "_v6") {
                store_addrs(&mut self.subnet_groups, name, true, list);
            }
        }
    }

    fn parse_chain_rule(&mut self, line: &str)
        ensures
            final(self)@ == (NftState {
                found: with_chain_rule(old(self)@.found, line@),
                ..old(self)@
            }),
    {
        let rule = match read_chain_rule(line) {
            Some(r) => r,
            None => {
                return ;
            },
        };
        let ports = join(&rule.ports, "_");
        let mut key = rule.protocol.to_owned();
        key.push_str("_");
        key.push_str(ports.as_str());
        key.push_str("_");
        key.push_str(rule.group.as_str());
        assert(key@ == service_key(rule@));
        let service = match find_service_name(&self.service_names, key.as_str()) {
            Some(name) => name,
            None => {
                let mut name = "auto_".to_owned();
                name.push_str(rule.protocol);
                name.push_str("_");
                name.push_str(ports.as_str());
                if !lists_service(&self.services, name.as_str()) {
                    let svc = build_auto_service(&rule, name.as_str());
                    proof {
                        lemma_views_push(self.services@, svc);
                    }
                    self.services.push(svc);
                }
                let pair = (key, name.clone());
                proof {
                    lemma_views_push(self.service_names@, pair);
                }
                self.service_names.push(pair);
                name
            },
        };
        store_rule(
            &mut self.target_rules,
            rule.target.as_str(),
            service.as_str(),
            rule.group.as_str(),
        );
    }

    fn step_elements(&mut self, t: &str)
        requires
            old(self)@.in_set is Some,
        ensures
            final(self)@ == elements_step(old(self)@, old(self)@.in_set->0, t@),
    {
        let set_name = self.set_name.clone();
        if self.in_elements {
            self.elements.push_str(" ");
            self.elements.push_str(t);
            if has_char(t, '}') {
                let buffer = self.elements.clone();
                self.in_elements = false;
                self.elements = String::new();
                self.process_set_elements(set_name.as_str(), buffer.as_str());
            }
        } else if starts_with(t, "elements = {") {
            self.elements = t.to_owned();
            if has_char(t, '}') {
                self.process_set_elements(set_name.as_str(), t);
            } else {
                self.in_elements = true;
            }
        }
    }

    fn step_set(&mut self, t: &str)
        requires
            old(self)@.in_set is Some,
        ensures
            final(self)@ == set_step(old(self)@, old(self)@.in_set->0, t@),
    {
        let ghost name = self@.in_set->0;
        self.step_elements(t);
        assert(self@.in_set == Some(name));
        if same(self.set_name.as_str(), "traceroute_udp_ports") {
            if let Some(content) = extract_elements_content(t) {
                let range = parse_port_range(content);
                if range.is_some() {
                    self.traceroute = range;
                }
            }
        }
        if same(t, "}") {
            self.in_set = false;
            self.set_name = String::new();
        }
    }

    fn step_chain(&mut self, t: &str)
        requires
            old(self)@.in_chain,
        ensures
            final(self)@ == chain_step(old(self)@, t@),
    {
        if contains(t, "hook ingress device") {
            let device = extract_device_name(t);
            if device.is_some() {
                self.device_name = device;
            }
        }
        if starts_with(t, "ip daddr @target_") && ends_with(t, "accept") {
            self.parse_chain_rule(t);
        }
        if same(t, "}") {
            self.in_chain = false;
        }
    }

    fn step(&mut self, line: &str)
        requires
            -0x1_0000_0000_0000_0000 * 2 <= old(self)@.depth <= 0x1_0000_0000_0000_0000 * 2,
        ensures
            final(self)@ == nft_step(old(self)@, line@),
            final(self)@.depth <= vstd::math::max(old(self)@.depth, 1) + line@.len(),
            final(self)@.depth >= vstd::math::min(old(self)@.depth, 0) - line@.len(),
    {
        proof {
            reveal_strlit("set ");
            reveal_strlit("chain ");
        }
        let t = trim(line);
        if starts_with(t, "#") {
            return ;
        }
        if !self.in_table {
            if starts_with(t, "table ") && has_char(t, '{') {
                if let Some(name) = read_table(t) {
                    self.table_name = Some(name.to_owned());
                }
                self.in_table = true;
                self.depth = 1;
            }
            return ;
        }
        let set_head = read_headed_name(t, "set ");
        if !self.in_set && !self.in_chain && set_head.is_some() {
            if let Some(name) = set_head {
                self.set_name = name.to_owned();
            }
            self.in_set = true;
            return ;
        }
        if self.in_set {
            self.step_set(t);
            return ;
        }
        let chain_head = read_headed_name(t, "chain ");
        if !self.in_chain && chain_head.is_some() {
            if let Some(name) = chain_head {
                self.chain_name = Some(name.to_owned());
            }
            self.in_chain = true;
            return ;
        }
        if self.in_chain {
            self.step_chain(t);
            return ;
        }
        if same(t, "}") && self.depth == 1 {
            self.in_table = false;
            self.depth = 0;
        } else {
            self.depth = self.depth + (count(t, '{') as i128 - count(t, '}') as i128);
        }
    }
}

fn collect_target_names(addrs: &Vec<NamedAddrs>, rules: &Vec<NamedRules>) -> (r: Vec<String>)
    ensures
        views(r@) == sorted_texts(
            addr_names(views(addrs@)) + flat(views(rules@), rule_only_name(views(addrs@))),
        ),
{
    let ghost known = views(addrs@);
    let ghost all = views(rules@);
    let mut names: Vec<String> = Vec::new();
    let mut i: usize = 0;
    while i < addrs.len()
        invariant
            known == views(addrs@),
            i <= addrs.len(),
            views(names@) =~= addr_names(known).take(i as int),
        decreases addrs.len() - i,
    {
        add_line(&mut names, addrs[i].name.as_str());
        i += 1;
        assert(addr_names(known)[i - 1] == addrs@[i - 1].name@);
    }
    let ghost first = addr_names(known);
    assert(views(names@) =~= first);
    assert(first + flat(all.take(0), rule_only_name(known)) =~= first);
    i = 0;
    while i < rules.len()
        invariant
            known == views(addrs@),
            all == views(rules@),
            i <= rules.len(),
            views(names@) == first + flat(all.take(i as int), rule_only_name(known)),
        decreases rules.len() - i,
    {
        proof {
            lemma_flat_take(all, rule_only_name(known), i as int);
            assert(all[i as int] == rules@[i as int]@);
        }
        if find_addrs(addrs, rules[i].name.as_str()).is_none() {
            add_line(&mut names, rules[i].name.as_str());
        }
        i += 1;
        assert(views(names@) =~= first + flat(all.take(i as int), rule_only_name(known)));
    }
    assert(all.take(i as int) =~= all);
    sort_texts(&names)
}

fn build_target(addrs: &Vec<NamedAddrs>, rules: &Vec<NamedRules>, name: &str) -> (r: DbNftTarget)
    ensures
        r@.id == 0,
        r@.name == name@,
        r@.ipv4_addrs == addrs_named(views(addrs@), name@).v4,
        r@.ipv6_addrs == addrs_named(views(addrs@), name@).v6,
        r@.rules == rules_named(views(rules@), name@),
{
    let mut ipv4_addrs: Vec<String> = Vec::new();
    let mut ipv6_addrs: Vec<String> = Vec::new();
    let mut own: Vec<DbNftTargetRule> = Vec::new();
    assert(views(ipv4_addrs@) =~= Seq::<Seq<char>>::empty());
    assert(views(ipv6_addrs@) =~= Seq::<Seq<char>>::empty());
    assert(views(own@) =~= Seq::<TargetRuleModel>::empty());
    if let Some(i) = find_addrs(addrs, name) {
        assert(views(addrs@)[i as int] == addrs@[i as int]@);
        ipv4_addrs = copy_lines(&addrs[i].v4);
        ipv6_addrs = copy_lines(&addrs[i].v6);
    }
    if let Some(i) = find_rules(rules, name) {
        assert(views(rules@)[i as int] == rules@[i as int]@);
        own = copy_rules(&rules[i].rules);
    }
    DbNftTarget { id: 0, name: name.to_owned(), ipv4_addrs, ipv6_addrs, rules: own }
}

/// Whether `r` is what the content of a policy file says.
pub open spec fn says(r: ParsedNft, content: Seq<char>) -> bool {
    let f = nft_scan(lines_of(content)).found;
    &&& opt_view(r.table_name) == f.table_name
    &&& opt_view(r.device_name) == f.device_name
    &&& opt_view(r.chain_name) == f.chain_name
    &&& match f.traceroute {
        Some((a, b)) => r.traceroute_start is Some && r.traceroute_start->0 == a
            && r.traceroute_end is Some && r.traceroute_end->0 == b,
        None => r.traceroute_start is None && r.traceroute_end is None,
    }
    &&& views(r.subnet_groups@) == f.subnet_groups
    &&& views(r.auto_services@) == f.services
    &&& views(r.targets@) == found_targets(f)
}

/// What the content of a policy file says.
pub fn parse_nft_file(content: &str) -> (r: ParsedNft)
    ensures
        says(r, content@),
{
    let lines = lines(content);
    let size = content.unicode_len();
    let ghost all = lines_of(content@);
    let mut scanner = Scanner::start();
    let mut i: usize = 0;
    proof {
        lemma_lines_total(content@);
    }
    while i < lines.len()
        invariant
            all == views(lines@),
            i <= lines.len(),
            total_len(all) <= size <= usize::MAX,
            scanner@ == nft_scan(all.take(i as int)),
            -(total_len(all.take(i as int)) as int) <= scanner@.depth <= 1 + total_len(
                all.take(i as int),
            ),
        decreases lines.len() - i,
    {
        proof {
            lemma_total_take(all, i as int);
            lemma_total_take(all, i as int + 1);
            assert(all.take(i as int + 1).drop_last() =~= all.take(i as int));
            assert(all.take(i as int + 1).last() == lines@[i as int]@);
        }
        scanner.step(lines[i]);
        i += 1;
    }
    assert(all.take(i as int) =~= all);
    let ghost f = scanner.found();
    let names = collect_target_names(&scanner.target_addrs, &scanner.target_rules);
    let mut targets: Vec<DbNftTarget> = Vec::new();
    i = 0;
    while i < names.len()
        invariant
            i <= names.len(),
            f == scanner.found(),
            views(names@) == target_names(f),
            views(targets@) =~= found_targets(f).take(i as int),
        decreases names.len() - i,
    {
        let target = build_target(
            &scanner.target_addrs,
            &scanner.target_rules,
            names[i].as_str(),
        );
        proof {
            lemma_views_push(targets@, target);
            assert(target_names(f)[i as int] == names@[i as int]@);
            assert(target@ == found_target(f, target_names(f)[i as int]));
        }
        targets.push(target);
        i += 1;
    }
    assert(views(targets@) =~= found_targets(f));
    let (traceroute_start, traceroute_end) = match scanner.traceroute {
        Some((a, b)) => (Some(a), Some(b)),
        None => (None, None),
    };
    ParsedNft {
        table_name: scanner.table_name,
        device_name: scanner.device_name,
        chain_name: scanner.chain_name,
        traceroute_start,
        traceroute_end,
        subnet_groups: scanner.subnet_groups,
        auto_services: scanner.services,
        targets,
    }
}

} // verus!
