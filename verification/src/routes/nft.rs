//! nftables policies: the form, the policy that it describes, and what is kept of it.

use crate::chars::{replace, replaced};
use crate::db::{
    DbNftGlobalConfig, DbNftTarget, DbNftTargetRule, NftGlobalModel, TargetModel, TargetRuleModel,
};
use crate::generators::nft::NFT_DEST_PATH;
use crate::lines::{add_line, add_lines, copy_lines, flat, lemma_flat_take, lemma_views_push};
use crate::models::nft::{
    NftGlobalRule, NftPolicy, NftServiceDef, NftSubnetGroup, NftTarget, NftTargetRule,
};
use crate::order::{
    ascending, law_sorted_texts, lemma_le_antisymmetric, sort_texts, sorted_texts, text_le,
};
use crate::res_file::or_text;
use crate::routes::drbd::{given_or, or_empty};
use crate::routes::quadlet::{keep_not_blank, not_blank};
use crate::text::{is_blank, same, trim, trimmed, views};
use vstd::prelude::*;
use vstd::string::*;

verus! {

/// A form that describes a policy. Targets and global rules come as JSON.
#[derive(Debug, Clone)]
pub struct NftGenerateForm {
    pub table_name: Option<String>,
    pub device_name: Option<String>,
    pub chain_name: Option<String>,
    pub traceroute_start: Option<u16>,
    pub traceroute_end: Option<u16>,
    pub global_rules_json: Option<String>,
    pub targets_json: String,
}

/// A request to scan the policy file, with the profile to log in with.
#[derive(Debug, Clone)]
pub struct NftScanRequest {
    pub profile_name: Option<String>,
}

impl Default for NftScanRequest {
    fn default() -> (r: Self)
        ensures
            r.profile_name is None,
    {
        NftScanRequest { profile_name: None }
    }
}

// ---------------------------------------------------------------------------
// Targets
// ---------------------------------------------------------------------------

/// A rule whose empty group stands for no group.
pub open spec fn without_empty_group(r: NftTargetRule) -> NftTargetRule {
    match r.subnet_group {
        Some(g) => if g@.len() == 0 {
            NftTargetRule { subnet_group: None, ..r }
        } else {
            r
        },
        None => r,
    }
}

/// Whether a target is another one with the empty groups of its rules left out.
pub open spec fn is_normalized(t: NftTarget, s: NftTarget) -> bool {
    &&& t.name == s.name
    &&& t.ipv4_addrs == s.ipv4_addrs
    &&& t.ipv6_addrs == s.ipv6_addrs
    &&& t.rules@ == s.rules@.map_values(|r: NftTargetRule| without_empty_group(r))
}

fn normalize_rules(rules: Vec<NftTargetRule>) -> (r: Vec<NftTargetRule>)
    ensures
        r@ == rules@.map_values(|x: NftTargetRule| without_empty_group(x)),
{
    let ghost all = rules@;
    let mut rest = rules;
    let mut out: Vec<NftTargetRule> = Vec::new();
    let total = rest.len();
    let mut i: usize = 0;
    assert(rest@ =~= all.skip(0));
    while i < total
        invariant
            i <= total,
            total == all.len(),
            rest@ == all.skip(i as int),
            out@ =~= all.map_values(|x: NftTargetRule| without_empty_group(x)).take(i as int),
        decreases total - i,
    {
        let ghost before = rest@;
        let mut rule = rest.remove(0);
        assert(rest@ =~= before.skip(1));
        assert(before.skip(1) =~= all.skip(i as int + 1));
        assert(rule == all[i as int]);
        let empty = match &rule.subnet_group {
            Some(g) => g.as_str().unicode_len() == 0,
            None => false,
        };
        if empty {
            rule.subnet_group = None;
        }
        out.push(rule);
        i += 1;
    }
    out
}

/// The targets with the empty groups of their rules left out.
pub fn normalize_targets(targets: Vec<NftTarget>) -> (r: Vec<NftTarget>)
    ensures
        r@.len() == targets@.len(),
        forall|i: int| 0 <= i < r@.len() ==> is_normalized(#[trigger] r@[i], targets@[i]),
{
    let ghost all = targets@;
    let mut rest = targets;
    let mut out: Vec<NftTarget> = Vec::new();
    let total = rest.len();
    let mut i: usize = 0;
    assert(rest@ =~= all.skip(0));
    while i < total
        invariant
            i <= total,
            total == all.len(),
            rest@ == all.skip(i as int),
            out@.len() == i,
            forall|k: int| 0 <= k < i ==> is_normalized(#[trigger] out@[k], all[k]),
        decreases total - i,
    {
        let ghost before = rest@;
        let target = rest.remove(0);
        assert(rest@ =~= before.skip(1));
        assert(before.skip(1) =~= all.skip(i as int + 1));
        assert(target == all[i as int]);
        let rules = normalize_rules(target.rules);
        out.push(
            NftTarget {
                name: target.name,
                ipv4_addrs: target.ipv4_addrs,
                ipv6_addrs: target.ipv6_addrs,
                rules,
            },
        );
        i += 1;
    }
    out
}

/// The groups that the rules of a target name.
pub open spec fn groups_of_target() -> spec_fn(NftTarget) -> Seq<Seq<char>> {
    |t: NftTarget| flat(t.rules@, group_of_rule())
}

pub open spec fn group_of_rule() -> spec_fn(NftTargetRule) -> Seq<Seq<char>> {
    |r: NftTargetRule|
        match r.subnet_group {
            Some(g) => seq![g@],
            None => Seq::empty(),
        }
}

/// The services that the rules of a target name.
pub open spec fn services_of_target() -> spec_fn(NftTarget) -> Seq<Seq<char>> {
    |t: NftTarget| Seq::new(t.rules@.len(), |i: int| t.rules@[i].service_name@)
}

/// `v` without the texts that equal the one before them.
pub open spec fn deduplicated(v: Seq<Seq<char>>) -> Seq<Seq<char>>
    decreases v.len(),
{
    if v.len() == 0 {
        Seq::empty()
    } else {
        let front = deduplicated(v.drop_last());
        if front.len() > 0 && front.last() == v.last() {
            front
        } else {
            front.push(v.last())
        }
    }
}

/// The groups that the rules of targets name, in ascending order, each once.
pub open spec fn named_groups(targets: Seq<NftTarget>) -> Seq<Seq<char>> {
    deduplicated(sorted_texts(flat(targets, groups_of_target())))
}

/// The services that the rules of targets name, in ascending order, each once.
pub open spec fn named_services(targets: Seq<NftTarget>) -> Seq<Seq<char>> {
    deduplicated(sorted_texts(flat(targets, services_of_target())))
}

fn dedup(v: &Vec<String>) -> (r: Vec<String>)
    ensures
        views(r@) == deduplicated(views(v@)),
{
    let ghost all = views(v@);
    let mut out: Vec<String> = Vec::new();
    let mut i: usize = 0;
    assert(views(out@) =~= Seq::<Seq<char>>::empty());
    while i < v.len()
        invariant
            all == views(v@),
            i <= v.len(),
            views(out@) == deduplicated(all.take(i as int)),
        decreases v.len() - i,
    {
        proof {
            assert(all.take(i as int + 1).drop_last() =~= all.take(i as int));
            assert(all.take(i as int + 1).last() == v@[i as int]@);
        }
        let repeated = if out.len() > 0 {
            assert(views(out@).last() == out@[out.len() - 1]@);
            same(out[out.len() - 1].as_str(), v[i].as_str())
        } else {
            false
        };
        if !repeated {
            add_line(&mut out, v[i].as_str());
        }
        i += 1;
    }
    assert(all.take(i as int) =~= all);
    out
}

fn collect_groups(t: &NftTarget) -> (r: Vec<String>)
    ensures
        views(r@) == groups_of_target()(*t),
{
    let mut out: Vec<String> = Vec::new();
    let mut i: usize = 0;
    assert(views(out@) =~= Seq::<Seq<char>>::empty());
    while i < t.rules.len()
        invariant
            i <= t.rules.len(),
            views(out@) == flat(t.rules@.take(i as int), group_of_rule()),
        decreases t.rules.len() - i,
    {
        let ghost seen = views(out@);
        proof {
            lemma_flat_take(t.rules@, group_of_rule(), i as int);
            assert(seen + Seq::<Seq<char>>::empty() =~= seen);
        }
        if let Some(g) = &t.rules[i].subnet_group {
            add_line(&mut out, g.as_str());
            assert(views(out@) =~= seen + seq![g@]);
        }
        i += 1;
    }
    assert(t.rules@.take(i as int) =~= t.rules@);
    out
}

fn collect_services(t: &NftTarget) -> (r: Vec<String>)
    ensures
        views(r@) == services_of_target()(*t),
{
    let ghost all = services_of_target()(*t);
    let mut out: Vec<String> = Vec::new();
    let mut i: usize = 0;
    while i < t.rules.len()
        invariant
            i <= t.rules.len(),
            all == services_of_target()(*t),
            views(out@) =~= all.take(i as int),
        decreases t.rules.len() - i,
    {
        add_line(&mut out, t.rules[i].service_name.as_str());
        i += 1;
    }
    assert(views(out@) =~= all);
    out
}

/// The groups that the rules of targets name, in ascending order, each once.
pub fn referenced_groups(targets: &Vec<NftTarget>) -> (r: Vec<String>)
    ensures
        views(r@) == named_groups(targets@),
{
    let mut names: Vec<String> = Vec::new();
    let mut i: usize = 0;
    assert(views(names@) =~= Seq::<Seq<char>>::empty());
    while i < targets.len()
        invariant
            i <= targets.len(),
            views(names@) == flat(targets@.take(i as int), groups_of_target()),
        decreases targets.len() - i,
    {
        proof {
            lemma_flat_take(targets@, groups_of_target(), i as int);
        }
        add_lines(&mut names, collect_groups(&targets[i]));
        i += 1;
    }
    assert(targets@.take(i as int) =~= targets@);
    dedup(&sort_texts(&names))
}

/// The services that the rules of targets name, in ascending order, each once.
pub fn referenced_services(targets: &Vec<NftTarget>) -> (r: Vec<String>)
    ensures
        views(r@) == named_services(targets@),
{
    let mut names: Vec<String> = Vec::new();
    let mut i: usize = 0;
    assert(views(names@) =~= Seq::<Seq<char>>::empty());
    while i < targets.len()
        invariant
            i <= targets.len(),
            views(names@) == flat(targets@.take(i as int), services_of_target()),
        decreases targets.len() - i,
    {
        proof {
            lemma_flat_take(targets@, services_of_target(), i as int);
        }
        add_lines(&mut names, collect_services(&targets[i]));
        i += 1;
    }
    assert(targets@.take(i as int) =~= targets@);
    dedup(&sort_texts(&names))
}

/// Leaving out repetitions of ascending texts leaves each text once, and all of them.
pub proof fn law_names_are_distinct(v: Seq<Seq<char>>)
    requires
        ascending(v),
    ensures
        forall|i: int, j: int|
            0 <= i < j < deduplicated(v).len() ==> text_le(
                #[trigger] deduplicated(v)[i],
                #[trigger] deduplicated(v)[j],
            ) && deduplicated(v)[i] != deduplicated(v)[j],
        forall|x: Seq<char>| #[trigger] deduplicated(v).contains(x) <==> v.contains(x),
        v.len() > 0 ==> deduplicated(v).len() > 0 && deduplicated(v).last() == v.last(),
    decreases v.len(),
{
    if v.len() > 0 {
        let front = v.drop_last();
        assert(ascending(front)) by {
            assert forall|i: int, j: int| 0 <= i < j < front.len() implies text_le(
                #[trigger] front[i],
                #[trigger] front[j],
            ) by {
                assert(front[i] == v[i] && front[j] == v[j]);
            }
        }
        law_names_are_distinct(front);
        let d = deduplicated(front);
        let all = deduplicated(v);
        if front.len() > 0 {
            assert(front.last() == v[v.len() - 2]);
            assert(text_le(v[v.len() - 2], v[v.len() - 1]));
        }
        assert forall|i: int, j: int| 0 <= i < j < all.len() implies text_le(
            #[trigger] all[i],
            #[trigger] all[j],
        ) && all[i] != all[j] by {
            if j < d.len() {
                assert(all[i] == d[i] && all[j] == d[j]);
            } else {
                assert(all[i] == d[i]);
                assert(all[j] == v.last());
                assert(d.contains(d[i]));
                assert(front.contains(d[i]));
                let k = choose|k: int| 0 <= k < front.len() && front[k] == d[i];
                assert(text_le(v[k], v[v.len() - 1]));
                if d[i] == v.last() {
                    if i < d.len() - 1 {
                        assert(text_le(d[i], d[d.len() - 1]));
                        assert(d.last() == front.last());
                        lemma_le_antisymmetric(v[v.len() - 2], v[v.len() - 1]);
                    }
                }
            }
        }
        assert forall|x: Seq<char>| #[trigger] all.contains(x) <==> v.contains(x) by {
            if all.contains(x) {
                let i = choose|i: int| 0 <= i < all.len() && all[i] == x;
                if i < d.len() {
                    assert(d.contains(x)) by {
                        assert(d[i] == x);
                    }
                    let k = choose|k: int| 0 <= k < front.len() && front[k] == x;
                    assert(v[k] == x);
                } else {
                    assert(v[v.len() - 1] == x);
                }
            }
            if v.contains(x) {
                let k = choose|k: int| 0 <= k < v.len() && v[k] == x;
                if k < front.len() {
                    assert(front[k] == x);
                    assert(front.contains(x));
                    assert(d.contains(x));
                    let i = choose|i: int| 0 <= i < d.len() && d[i] == x;
                    assert(all[i] == x);
                } else {
                    assert(all[all.len() - 1] == x);
                }
            }
        }
    }
}

// ---------------------------------------------------------------------------
// The policy
// ---------------------------------------------------------------------------

/// The device that a form names, or the first Ethernet device.
pub open spec fn form_device(form: NftGenerateForm) -> Seq<char> {
    or_text(not_blank(form.device_name), "eth0"@)
}

/// The chain that a form names, or one named after the device.
pub open spec fn form_chain(form: NftGenerateForm) -> Seq<char> {
    or_text(not_blank(form.chain_name), "ingress_"@ + replaced(form_device(form), '-', "_"@))
}

/// The table that a form names, or the table of the ingress filter.
pub open spec fn form_table(form: NftGenerateForm) -> Seq<char> {
    or_text(not_blank(form.table_name), "filter_ingress"@)
}

/// An optional port, `default` where there is none.
pub open spec fn port_or(o: Option<u16>, default: u16) -> u16 {
    match o {
        Some(n) => n,
        None => default,
    }
}

fn given_port(o: Option<u16>, default: u16) -> (r: u16)
    ensures
        r == port_or(o, default),
{
    match o {
        Some(n) => n,
        None => default,
    }
}

/// Whether the global rules of a form are to be read: they are given, and are no empty
/// list.
pub fn has_global_rules(form: &NftGenerateForm) -> (r: bool)
    ensures
        r == match form.global_rules_json {
            Some(s) => !is_blank(s@) && trimmed(s@) != "[]"@,
            None => false,
        },
{
    match &form.global_rules_json {
        Some(s) => {
            let t = trim(s.as_str());
            t.unicode_len() > 0 && !same(t, "[]")
        },
        None => false,
    }
}

/// The rule that stands in where a form gives no global rules: the traceroute ports.
pub fn default_global_rules(form: &NftGenerateForm) -> (r: Vec<NftGlobalRule>)
    ensures
        r@.len() == 1,
        r@[0].protocol@ == "udp"@,
        r@[0].port_start == port_or(form.traceroute_start, 33434),
        r@[0].port_end == port_or(form.traceroute_end, 65535),
{
    let mut rules: Vec<NftGlobalRule> = Vec::new();
    rules.push(
        NftGlobalRule {
            protocol: "udp".to_owned(),
            port_start: given_port(form.traceroute_start, 33434),
            port_end: given_port(form.traceroute_end, 65535),
        },
    );
    rules
}

fn chosen(o: &Option<String>, default: String) -> (r: String)
    ensures
        r@ == or_text(not_blank(*o), default@),
{
    match keep_not_blank(o) {
        Some(s) => s,
        None => default,
    }
}

/// The policy that a form describes, with its targets and global rules and the groups and
/// services that are on record.
pub fn build_policy(
    form: &NftGenerateForm,
    targets: Vec<NftTarget>,
    global_rules: Vec<NftGlobalRule>,
    subnet_groups: Vec<NftSubnetGroup>,
    services: Vec<NftServiceDef>,
) -> (r: NftPolicy)
    ensures
        r.filename@ == form_table(*form) + ".nft"@,
        r.table_name@ == form_table(*form),
        r.device_name@ == form_device(*form),
        r.chain_name@ == form_chain(*form),
        r.traceroute_start == port_or(form.traceroute_start, 33434),
        r.traceroute_end == port_or(form.traceroute_end, 65535),
        r.targets == targets,
        r.global_rules == global_rules,
        r.subnet_groups == subnet_groups,
        r.services == services,
{
    let device_name = chosen(&form.device_name, "eth0".to_owned());
    let mut chain = "ingress_".to_owned();
    chain.push_str(replace(device_name.as_str(), '-', "_").as_str());
    let chain_name = chosen(&form.chain_name, chain);
    let table_name = chosen(&form.table_name, "filter_ingress".to_owned());
    let mut filename = table_name.clone();
    filename.push_str(".nft");
    NftPolicy {
        filename,
        table_name,
        device_name,
        chain_name,
        traceroute_start: given_port(form.traceroute_start, 33434),
        traceroute_end: given_port(form.traceroute_end, 65535),
        global_rules,
        targets,
        subnet_groups,
        services,
    }
}

// ---------------------------------------------------------------------------
// What is kept
// ---------------------------------------------------------------------------

/// The record of a rule; an empty group stands for none.
pub open spec fn rule_record() -> spec_fn(NftTargetRule) -> Seq<TargetRuleModel> {
    |r: NftTargetRule|
        seq![
            TargetRuleModel {
                id: 0,
                service_name: r.service_name@,
                subnet_group_name: or_empty(r.subnet_group),
            },
        ]
}

/// The record of a target.
pub fn target_record(t: &NftTarget) -> (r: DbNftTarget)
    ensures
        r@ == (TargetModel {
            id: 0,
            name: t.name@,
            ipv4_addrs: views(t.ipv4_addrs@),
            ipv6_addrs: views(t.ipv6_addrs@),
            rules: flat(t.rules@, rule_record()),
        }),
{
    let mut rules: Vec<DbNftTargetRule> = Vec::new();
    let mut i: usize = 0;
    assert(views(rules@) =~= Seq::<TargetRuleModel>::empty());
    while i < t.rules.len()
        invariant
            i <= t.rules.len(),
            views(rules@) == flat(t.rules@.take(i as int), rule_record()),
        decreases t.rules.len() - i,
    {
        let ghost seen = views(rules@);
        proof {
            lemma_flat_take(t.rules@, rule_record(), i as int);
        }
        let rule = DbNftTargetRule {
            id: 0,
            service_name: t.rules[i].service_name.clone(),
            subnet_group_name: given_or(&t.rules[i].subnet_group, ""),
        };
        proof {
            lemma_views_push(rules@, rule);
        }
        rules.push(rule);
        assert(views(rules@) =~= seen + seq![rule@]);
        i += 1;
    }
    assert(t.rules@.take(i as int) =~= t.rules@);
    DbNftTarget {
        id: 0,
        name: t.name.clone(),
        ipv4_addrs: copy_lines(&t.ipv4_addrs),
        ipv6_addrs: copy_lines(&t.ipv6_addrs),
        rules,
    }
}

/// The settings that are kept of a policy.
pub fn config_of_policy(p: &NftPolicy) -> (r: DbNftGlobalConfig)
    ensures
        r@ == (NftGlobalModel {
            table_name: p.table_name@,
            device_name: p.device_name@,
            chain_name: p.chain_name@,
            traceroute_start: p.traceroute_start as nat,
            traceroute_end: p.traceroute_end as nat,
            nft_file: NFT_DEST_PATH@,
            updated_at: ""@,
        }),
{
    DbNftGlobalConfig {
        table_name: p.table_name.clone(),
        device_name: p.device_name.clone(),
        chain_name: p.chain_name.clone(),
        traceroute_start: p.traceroute_start,
        traceroute_end: p.traceroute_end,
        nft_file: NFT_DEST_PATH.to_owned(),
        updated_at: "".to_owned(),
    }
}

// ---------------------------------------------------------------------------
// Which names are looked up
// ---------------------------------------------------------------------------

proof fn lemma_in_flat<T>(v: Seq<T>, f: spec_fn(T) -> Seq<Seq<char>>, x: Seq<char>)
    ensures
        flat(v, f).contains(x) <==> exists|i: int|
            0 <= i < v.len() && f(#[trigger] v[i]).contains(x),
    decreases v.len(),
{
    if v.len() > 0 {
        let front = v.drop_last();
        lemma_in_flat(front, f, x);
        let a = flat(front, f);
        let b = f(v.last());
        if (a + b).contains(x) {
            let k = choose|k: int| 0 <= k < (a + b).len() && (a + b)[k] == x;
            if k < a.len() {
                assert(a[k] == x);
                let i = choose|i: int| 0 <= i < front.len() && f(#[trigger] front[i]).contains(x);
                assert(f(v[i]).contains(x));
            } else {
                assert(b[k - a.len()] == x);
                assert(f(v[v.len() - 1]).contains(x));
            }
        }
        if exists|i: int| 0 <= i < v.len() && f(#[trigger] v[i]).contains(x) {
            let i = choose|i: int| 0 <= i < v.len() && f(#[trigger] v[i]).contains(x);
            if i < front.len() {
                assert(f(front[i]).contains(x));
                let k = choose|k: int| 0 <= k < a.len() && a[k] == x;
                assert((a + b)[k] == x);
            } else {
                let k = choose|k: int| 0 <= k < b.len() && b[k] == x;
                assert((a + b)[a.len() + k] == x);
            }
        }
    }
}

proof fn lemma_in_sorted(v: Seq<Seq<char>>, x: Seq<char>)
    ensures
        deduplicated(sorted_texts(v)).contains(x) <==> v.contains(x),
{
    law_sorted_texts(v);
    law_names_are_distinct(sorted_texts(v));
    broadcast use vstd::seq_lib::group_to_multiset_ensures;

    assert(sorted_texts(v).to_multiset().count(x) == v.to_multiset().count(x));
}

/// The groups and the services that are looked up for a policy are those that its rules name,
/// all of them.
pub proof fn law_all_named_are_looked_up(targets: Seq<NftTarget>, x: Seq<char>)
    ensures
        named_groups(targets).contains(x) <==> exists|i: int, j: int|
            0 <= i < targets.len() && 0 <= j < targets[i].rules@.len() && (
            #[trigger] targets[i].rules@[j]).subnet_group is Some
                && targets[i].rules@[j].subnet_group->0@ == x,
        named_services(targets).contains(x) <==> exists|i: int, j: int|
            0 <= i < targets.len() && 0 <= j < targets[i].rules@.len() && (
            #[trigger] targets[i].rules@[j]).service_name@ == x,
{
    lemma_in_sorted(flat(targets, groups_of_target()), x);
    lemma_in_sorted(flat(targets, services_of_target()), x);
    lemma_in_flat(targets, groups_of_target(), x);
    lemma_in_flat(targets, services_of_target(), x);
    assert forall|i: int| 0 <= i < targets.len() implies groups_of_target()(
        #[trigger] targets[i],
    ).contains(x) == exists|j: int|
        0 <= j < targets[i].rules@.len() && group_of_rule()(
            #[trigger] targets[i].rules@[j],
        ).contains(x) by {
        lemma_in_flat(targets[i].rules@, group_of_rule(), x);
    }
    assert forall|i: int, j: int|
        0 <= i < targets.len() && 0 <= j < targets[i].rules@.len() implies group_of_rule()(
        #[trigger] targets[i].rules@[j],
    ).contains(x) == (targets[i].rules@[j].subnet_group is Some
        && targets[i].rules@[j].subnet_group->0@ == x) by {
        let r = targets[i].rules@[j];
        if r.subnet_group is Some {
            assert(seq![r.subnet_group->0@][0] == r.subnet_group->0@);
        }
    }
    if named_groups(targets).contains(x) {
        let i = choose|i: int|
            0 <= i < targets.len() && groups_of_target()(#[trigger] targets[i]).contains(x);
        let j = choose|j: int|
            0 <= j < targets[i].rules@.len() && group_of_rule()(
                #[trigger] targets[i].rules@[j],
            ).contains(x);
        assert(targets[i].rules@[j].subnet_group is Some);
    }
    if exists|i: int, j: int|
        0 <= i < targets.len() && 0 <= j < targets[i].rules@.len() && (
        #[trigger] targets[i].rules@[j]).subnet_group is Some
            && targets[i].rules@[j].subnet_group->0@ == x {
        let (i, j) = choose|i: int, j: int|
            0 <= i < targets.len() && 0 <= j < targets[i].rules@.len() && (
            #[trigger] targets[i].rules@[j]).subnet_group is Some
                && targets[i].rules@[j].subnet_group->0@ == x;
        assert(group_of_rule()(targets[i].rules@[j]).contains(x));
        assert(groups_of_target()(targets[i]).contains(x));
    }
    if named_services(targets).contains(x) {
        let i = choose|i: int|
            0 <= i < targets.len() && services_of_target()(#[trigger] targets[i]).contains(x);
        let names = services_of_target()(targets[i]);
        let j = choose|j: int| 0 <= j < names.len() && names[j] == x;
        assert(targets[i].rules@[j].service_name@ == x);
    }
    if exists|i: int, j: int|
        0 <= i < targets.len() && 0 <= j < targets[i].rules@.len() && (
        #[trigger] targets[i].rules@[j]).service_name@ == x {
        let (i, j) = choose|i: int, j: int|
            0 <= i < targets.len() && 0 <= j < targets[i].rules@.len() && (
            #[trigger] targets[i].rules@[j]).service_name@ == x;
        assert(services_of_target()(targets[i])[j] == x);
        assert(services_of_target()(targets[i]).contains(x));
    }
}

} // verus!
