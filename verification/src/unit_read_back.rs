//! Reading back the unit files that are written.

use crate::chars::ascii_lower;
use crate::db::NetworkModel;
use crate::generators::quadlet::{
    PARENT_PLACEHOLDER, has_ipv6, has_network, is_vlan, network_dependency, network_line,
    network_lines, network_param, network_text, parent_interface, pod_lines, pod_text,
    pod_unit_lines,
};
use crate::lines::{
    flat, joined, lemma_join_of_split, lemma_split_on_chars, lemma_split_on_len, lines_of,
    opt_entry, opt_line, prefixed, split_on, text_or_empty,
};
use crate::models::quadlet::{PodNetworkEntry, PodNetworkModel, QuadletNetwork, QuadletPod};
use crate::read_back::{
    is_line, lemma_find_at, lemma_find_nowhere, lemma_split_single, lemma_split_sum,
    lemma_trimmed_is_part, lemma_trimmed_kept, lemma_written_lines,
};
use crate::res_file::or_text;
use crate::scan::{
    AddressState, address_scan, address_step, enables_ipv6, family_value, last_match,
    network_of_line, scanned_network, scanned_param, unit_value,
};
use crate::text::{contains_char, is_space, present, trimmed, views, without_suffixes};
use vstd::prelude::*;
use vstd::string::*;

verus! {

// ---------------------------------------------------------------------------
// Lines of unit files
// ---------------------------------------------------------------------------

/// A value as a unit file can hold it: one line, not empty, without white space around it.
pub open spec fn is_value(s: Seq<char>) -> bool {
    s.len() > 0 && is_line(s) && !is_space(s[0]) && !is_space(s.last())
}

/// A value, or nothing.
pub open spec fn is_opt_value(s: Seq<char>) -> bool {
    s.len() == 0 || is_value(s)
}

/// A line that sets a key to a value gives the value.
pub proof fn lemma_unit_value(key: Seq<char>, v: Seq<char>)
    requires
        key.len() > 0,
        !is_space(key[0]),
        is_value(v),
    ensures
        unit_value(key)(key + v) == Some(v),
{
    lemma_trimmed_kept(key + v);
    assert((key + v).subrange(0, key.len() as int) =~= key);
    assert((key + v).skip(key.len() as int) =~= v);
    lemma_trimmed_kept(v);
}

/// A line that starts otherwise than a key does not set it.
pub proof fn lemma_other_unit_line(key: Seq<char>, line: Seq<char>, k: int)
    requires
        0 <= k < key.len(),
        line.len() == 0 || !is_space(line[0]),
        k >= line.len() || line[k] != key[k],
    ensures
        unit_value(key)(line) is None,
{
    let r = lemma_trimmed_is_part(line);
    let t = trimmed(line);
    if key.is_prefix_of(t) {
        assert(t.subrange(0, key.len() as int)[k] == t[k]);
        assert(r.0 == 0) by {
            if r.0 > 0 {
                assert(is_space(line[0]));
            }
        }
        assert(t[k] == line[k]);
    }
}

spec fn or_else<T>(x: Option<T>, y: Option<T>) -> Option<T> {
    if x is Some {
        x
    } else {
        y
    }
}

proof fn lemma_last_match_sum<T>(
    a: Seq<Seq<char>>,
    b: Seq<Seq<char>>,
    f: spec_fn(Seq<char>) -> Option<T>,
)
    ensures
        last_match(a + b, f) == or_else(last_match(b, f), last_match(a, f)),
    decreases b.len(),
{
    if b.len() == 0 {
        assert(a + b =~= a);
    } else {
        assert((a + b).drop_last() =~= a + b.drop_last());
        assert((a + b).last() == b.last());
        lemma_last_match_sum(a, b.drop_last(), f);
    }
}

proof fn lemma_last_match_one<T>(line: Seq<char>, f: spec_fn(Seq<char>) -> Option<T>)
    ensures
        last_match(seq![line], f) == f(line),
{
    assert(seq![line].last() == line);
    assert(seq![line].drop_last() =~= Seq::<Seq<char>>::empty());
    reveal_with_fuel(last_match, 2);
}

proof fn lemma_no_match<T>(v: Seq<Seq<char>>, f: spec_fn(Seq<char>) -> Option<T>)
    requires
        forall|i: int| 0 <= i < v.len() ==> f(#[trigger] v[i]) is None,
    ensures
        last_match(v, f) is None,
    decreases v.len(),
{
    if v.len() > 0 {
        assert(f(v[v.len() - 1]) is None);
        assert forall|i: int| 0 <= i < v.drop_last().len() implies f(
            #[trigger] v.drop_last()[i],
        ) is None by {
            assert(v.drop_last()[i] == v[i]);
        }
        lemma_no_match(v.drop_last(), f);
    }
}

/// Lines that all start with a character other than that of a key do not set it.
proof fn lemma_foreign_lines(v: Seq<Seq<char>>, key: Seq<char>)
    requires
        key.len() > 0,
        forall|i: int|
            0 <= i < v.len() ==> (#[trigger] v[i]).len() == 0 || (!is_space(v[i][0]) && v[i][0]
                != key[0]),
    ensures
        last_match(v, unit_value(key)) is None,
        last_match(v, family_value(key, true)) is None,
        last_match(v, family_value(key, false)) is None,
{
    assert forall|i: int| 0 <= i < v.len() implies unit_value(key)(#[trigger] v[i]) is None by {
        lemma_other_unit_line(key, v[i], 0);
    }
    lemma_no_match(v, unit_value(key));
    lemma_no_match(v, family_value(key, true));
    lemma_no_match(v, family_value(key, false));
}

/// An optional line that sets a key.
proof fn lemma_opt_line(key: Seq<char>, s: Seq<char>)
    requires
        key.len() > 0,
        !is_space(key[0]),
        is_opt_value(s),
    ensures
        or_text(last_match(opt_line(key, s), unit_value(key)), Seq::empty()) == s,
        last_match(opt_line(key, s), unit_value(key)) is Some == (s.len() > 0),
        last_match(opt_line(key, s), family_value(key, true)) == (if s.len() > 0 && contains_char(
            s,
            ':',
        ) {
            Some(s)
        } else {
            None
        }),
        last_match(opt_line(key, s), family_value(key, false)) == (if s.len() > 0
            && !contains_char(s, ':') {
            Some(s)
        } else {
            None
        }),
{
    if s.len() > 0 {
        lemma_unit_value(key, s);
        lemma_last_match_one(key + s, unit_value(key));
        lemma_last_match_one(key + s, family_value(key, true));
        lemma_last_match_one(key + s, family_value(key, false));
    } else {
        assert(s =~= Seq::<char>::empty());
    }
}

// ---------------------------------------------------------------------------
// Networks
// ---------------------------------------------------------------------------

/// Whether the values of a network are such as a unit file can hold, its subnets and gateways
/// are of their address families, and no option sets the parent or the mode again.
pub open spec fn is_writable_network(n: QuadletNetwork) -> bool {
    &&& is_value(n.driver@)
    &&& is_opt_value(n.interface@)
    &&& is_opt_value(n.subnet@) && !contains_char(n.subnet@, ':')
    &&& is_opt_value(n.gateway@) && !contains_char(n.gateway@, ':')
    &&& is_opt_value(n.subnet6@) && (n.subnet6@.len() > 0 ==> contains_char(n.subnet6@, ':'))
    &&& is_opt_value(n.gateway6@) && (n.gateway6@.len() > 0 ==> contains_char(n.gateway6@, ':'))
    &&& is_opt_value(n.ipvlan_mode@)
    &&& forall|i: int|
        0 <= i < n.options@.len() ==> is_line((#[trigger] n.options@[i])@)
            && !"parent="@.is_prefix_of(n.options@[i]@) && !"mode="@.is_prefix_of(n.options@[i]@)
}

/// The parts of the lines of a network.
spec fn network_part(n: QuadletNetwork, k: int) -> Seq<Seq<char>> {
    if k == 0 {
        seq!["[Network]"@, "Driver="@ + n.driver@]
    } else if k == 1 {
        opt_line("Subnet="@, n.subnet@)
    } else if k == 2 {
        opt_line("Gateway="@, n.gateway@)
    } else if k == 3 {
        opt_line("Subnet="@, n.subnet6@)
    } else if k == 4 {
        opt_line("Gateway="@, n.gateway6@)
    } else if k == 5 {
        if is_vlan(n.driver@) {
            seq![
                if has_ipv6(n) {
                    "IPv6=true"@
                } else {
                    "IPv6=no"@
                },
            ]
        } else {
            Seq::empty()
        }
    } else if k == 6 {
        seq!["Options=parent="@ + parent_interface(n)]
    } else if k == 7 {
        if is_vlan(n.driver@) {
            opt_line("Options=mode="@, n.ipvlan_mode@)
        } else {
            Seq::empty()
        }
    } else if k == 8 {
        prefixed(views(n.options@), "Options="@)
    } else {
        if n.internal {
            seq!["Internal=true"@]
        } else {
            Seq::empty()
        }
    }
}

/// The first `k` parts.
spec fn network_parts(n: QuadletNetwork, k: int) -> Seq<Seq<char>>
    decreases k,
{
    if k <= 1 {
        network_part(n, 0)
    } else {
        network_parts(n, k - 1) + network_part(n, k - 1)
    }
}

proof fn lemma_network_parts(n: QuadletNetwork)
    ensures
        network_lines(n) == network_parts(n, 10),
{
    reveal_with_fuel(network_parts, 11);
}

/// The last value of a key among the first `k` parts, where one part sets it.
proof fn lemma_match_in_part<T>(
    n: QuadletNetwork,
    f: spec_fn(Seq<char>) -> Option<T>,
    at: int,
    k: int,
)
    requires
        0 <= at < k,
        forall|j: int|
            0 <= j < k && j != at ==> last_match(#[trigger] network_part(n, j), f) is None,
    ensures
        last_match(network_parts(n, k), f) == last_match(network_part(n, at), f),
    decreases k,
{
    if k > 1 {
        lemma_last_match_sum(network_parts(n, k - 1), network_part(n, k - 1), f);
        if at == k - 1 {
            lemma_no_match_in_parts(n, f, k - 1);
        } else {
            assert(last_match(network_part(n, k - 1), f) is None);
            lemma_match_in_part(n, f, at, k - 1);
        }
    }
}

proof fn lemma_no_match_in_parts<T>(
    n: QuadletNetwork,
    f: spec_fn(Seq<char>) -> Option<T>,
    k: int,
)
    requires
        1 <= k,
        forall|j: int| 0 <= j < k ==> last_match(#[trigger] network_part(n, j), f) is None,
    ensures
        last_match(network_parts(n, k), f) is None,
    decreases k,
{
    assert(last_match(network_part(n, k - 1), f) is None);
    if k > 1 {
        lemma_last_match_sum(network_parts(n, k - 1), network_part(n, k - 1), f);
        lemma_no_match_in_parts(n, f, k - 1);
    }
}

/// The characters that the lines of a part start with.
spec fn starts_of(k: int) -> char {
    if k == 1 || k == 3 {
        'S'
    } else if k == 2 || k == 4 {
        'G'
    } else if k == 5 || k == 9 {
        'I'
    } else {
        'O'
    }
}

proof fn lemma_part_starts(n: QuadletNetwork, k: int)
    requires
        0 < k < 10,
    ensures
        forall|i: int|
            0 <= i < network_part(n, k).len() ==> (#[trigger] network_part(n, k)[i]).len() > 0
                && network_part(n, k)[i][0] == starts_of(k),
{
    reveal_strlit("Subnet=");
    reveal_strlit("Gateway=");
    reveal_strlit("IPv6=true");
    reveal_strlit("IPv6=no");
    reveal_strlit("Options=parent=");
    reveal_strlit("Options=mode=");
    reveal_strlit("Options=");
    reveal_strlit("Internal=true");
}

proof fn lemma_foreign_part(n: QuadletNetwork, k: int, key: Seq<char>)
    requires
        0 < k < 10,
        key.len() > 0,
        key[0] != starts_of(k),
    ensures
        last_match(network_part(n, k), unit_value(key)) is None,
        last_match(network_part(n, k), family_value(key, true)) is None,
        last_match(network_part(n, k), family_value(key, false)) is None,
{
    lemma_part_starts(n, k);
    lemma_foreign_lines(network_part(n, k), key);
}

proof fn lemma_foreign_first_part(n: QuadletNetwork, key: Seq<char>)
    requires
        key.len() > 0,
        key[0] != '[',
        key[0] != 'D',
    ensures
        last_match(network_part(n, 0), unit_value(key)) is None,
        last_match(network_part(n, 0), family_value(key, true)) is None,
        last_match(network_part(n, 0), family_value(key, false)) is None,
{
    reveal_strlit("[Network]");
    reveal_strlit("Driver=");
    lemma_foreign_lines(network_part(n, 0), key);
}

proof fn lemma_driver(n: QuadletNetwork)
    requires
        is_value(n.driver@),
    ensures
        last_match(network_lines(n), unit_value("Driver="@)) == Some(n.driver@),
{
    reveal_strlit("[Network]");
    reveal_strlit("Driver=");
    let f = unit_value("Driver="@);
    lemma_network_parts(n);
    assert forall|j: int| 0 <= j < 10 && j != 0 implies last_match(
        #[trigger] network_part(n, j),
        f,
    ) is None by {
        lemma_foreign_part(n, j, "Driver="@);
    }
    lemma_match_in_part(n, f, 0, 10);
    lemma_unit_value("Driver="@, n.driver@);
    assert(network_part(n, 0).last() == "Driver="@ + n.driver@);
}

/// The value of a key that two parts set, one for each address family.
proof fn lemma_family(n: QuadletNetwork, key: Seq<char>, at: int, s4: Seq<char>, s6: Seq<char>)
    requires
        at == 1 || at == 2,
        key.len() > 0,
        key[0] == starts_of(at),
        network_part(n, at) == opt_line(key, s4),
        network_part(n, at + 2) == opt_line(key, s6),
        is_opt_value(s4),
        is_opt_value(s6),
        !contains_char(s4, ':'),
        s6.len() > 0 ==> contains_char(s6, ':'),
    ensures
        or_text(last_match(network_lines(n), family_value(key, false)), ""@) == s4,
        or_text(last_match(network_lines(n), family_value(key, true)), ""@) == s6,
{
    reveal_strlit("");
    assert(""@ =~= Seq::<char>::empty());
    lemma_network_parts(n);
    lemma_opt_line(key, s4);
    lemma_opt_line(key, s6);
    lemma_foreign_first_part(n, key);
    assert forall|j: int| 0 <= j < 10 && j != at implies last_match(
        #[trigger] network_part(n, j),
        family_value(key, false),
    ) is None by {
        if j != 0 && j != at + 2 {
            lemma_foreign_part(n, j, key);
        }
    }
    lemma_match_in_part(n, family_value(key, false), at, 10);
    assert forall|j: int| 0 <= j < 10 && j != at + 2 implies last_match(
        #[trigger] network_part(n, j),
        family_value(key, true),
    ) is None by {
        if j != 0 && j != at {
            lemma_foreign_part(n, j, key);
        }
    }
    lemma_match_in_part(n, family_value(key, true), at + 2, 10);
    assert(s4.len() == 0 ==> s4 =~= Seq::<char>::empty());
    assert(s6.len() == 0 ==> s6 =~= Seq::<char>::empty());
}

/// No option sets a key that the options do not start with.
proof fn lemma_options_do_not_set(n: QuadletNetwork, key: Seq<char>, word: Seq<char>)
    requires
        key == "Options="@ + word,
        forall|i: int|
            0 <= i < n.options@.len() ==> !word.is_prefix_of((#[trigger] n.options@[i])@),
    ensures
        last_match(network_part(n, 8), unit_value(key)) is None,
{
    reveal_strlit("Options=");
    let v = network_part(n, 8);
    assert forall|i: int| 0 <= i < v.len() implies unit_value(key)(#[trigger] v[i]) is None by {
        let o = n.options@[i]@;
        let line = "Options="@ + o;
        assert(v[i] == line);
        assert(!word.is_prefix_of(n.options@[i]@));
        let k = lemma_not_prefix(word, o);
        if k < o.len() {
            assert(line[8 + k] == o[k]);
        }
        assert(key[8 + k] == word[k]);
        lemma_other_unit_line(key, line, 8 + k);
    }
    lemma_no_match(v, unit_value(key));
}

/// Where a text is no prefix of another, some character of it is missing there.
proof fn lemma_not_prefix(p: Seq<char>, s: Seq<char>) -> (k: int)
    requires
        !p.is_prefix_of(s),
    ensures
        0 <= k < p.len(),
        k >= s.len() || s[k] != p[k],
{
    if p.len() > s.len() {
        s.len() as int
    } else {
        if forall|k: int| 0 <= k < p.len() ==> s[k] == p[k] {
            assert(s.subrange(0, p.len() as int) =~= p);
        }
        choose|k: int| 0 <= k < p.len() && s[k] != p[k]
    }
}

proof fn lemma_parent_and_mode(n: QuadletNetwork)
    requires
        is_writable_network(n),
    ensures
        last_match(network_lines(n), unit_value("Options=parent="@)) == Some(parent_interface(n)),
        last_match(network_lines(n), unit_value("Options=mode="@)) == (if is_vlan(n.driver@)
            && n.ipvlan_mode@.len() > 0 {
            Some(n.ipvlan_mode@)
        } else {
            None
        }),
{
    reveal_strlit("Options=");
    reveal_strlit("Options=parent=");
    reveal_strlit("Options=mode=");
    reveal_strlit("parent=");
    reveal_strlit("mode=");
    reveal_strlit("__PARENT_IFACE__");
    let parent = "Options=parent="@;
    let mode = "Options=mode="@;
    assert(parent =~= "Options="@ + "parent="@);
    assert(mode =~= "Options="@ + "mode="@);
    lemma_network_parts(n);
    lemma_foreign_first_part(n, parent);
    lemma_foreign_first_part(n, mode);
    lemma_options_do_not_set(n, parent, "parent="@);
    lemma_options_do_not_set(n, mode, "mode="@);
    assert(is_value(PARENT_PLACEHOLDER@));
    let parent_line = parent + parent_interface(n);
    lemma_unit_value(parent, parent_interface(n));
    lemma_last_match_one(parent_line, unit_value(parent));
    assert(parent_line[8] == 'p');
    lemma_other_unit_line(mode, parent_line, 8);
    lemma_last_match_one(parent_line, unit_value(mode));
    let mode_line = mode + n.ipvlan_mode@;
    assert(mode_line[8] == 'm');
    lemma_other_unit_line(parent, mode_line, 8);
    lemma_last_match_one(mode_line, unit_value(parent));
    lemma_opt_line(mode, n.ipvlan_mode@);
    assert forall|j: int| 0 <= j < 10 && j != 6 implies last_match(
        #[trigger] network_part(n, j),
        unit_value(parent),
    ) is None by {
        if j != 0 && j != 7 && j != 8 {
            lemma_foreign_part(n, j, parent);
        }
    }
    lemma_match_in_part(n, unit_value(parent), 6, 10);
    assert forall|j: int| 0 <= j < 10 && j != 7 implies last_match(
        #[trigger] network_part(n, j),
        unit_value(mode),
    ) is None by {
        if j != 0 && j != 6 && j != 8 {
            lemma_foreign_part(n, j, mode);
        }
    }
    lemma_match_in_part(n, unit_value(mode), 7, 10);
}

/// Whether some line switches IPv6 on.
spec fn some_enables(lines: Seq<Seq<char>>) -> bool {
    exists|i: int| 0 <= i < lines.len() && enables_ipv6(#[trigger] lines[i])
}

proof fn lemma_enables_sum(a: Seq<Seq<char>>, b: Seq<Seq<char>>)
    ensures
        some_enables(a + b) == (some_enables(a) || some_enables(b)),
{
    if some_enables(a) {
        let i = choose|i: int| 0 <= i < a.len() && enables_ipv6(#[trigger] a[i]);
        assert((a + b)[i] == a[i]);
    }
    if some_enables(b) {
        let i = choose|i: int| 0 <= i < b.len() && enables_ipv6(#[trigger] b[i]);
        assert((a + b)[a.len() + i] == b[i]);
    }
    if some_enables(a + b) {
        let i = choose|i: int| 0 <= i < (a + b).len() && enables_ipv6(#[trigger] (a + b)[i]);
        if i < a.len() {
            assert(a[i] == (a + b)[i]);
        } else {
            assert(b[i - a.len()] == (a + b)[i]);
        }
    }
}

/// A line that starts with another letter does not switch IPv6 on.
proof fn lemma_does_not_enable(line: Seq<char>)
    requires
        line.len() > 0,
        !is_space(line[0]),
        line[0] != 'I',
        line[0] != 'i',
    ensures
        !enables_ipv6(line),
{
    reveal_strlit("IPv6=true");
    reveal_strlit("IPv6=yes");
    let r = lemma_trimmed_is_part(line);
    let t = trimmed(line);
    assert(r.0 == 0) by {
        if r.0 > 0 {
            assert(is_space(line[0]));
        }
    }
    if t.len() > 0 {
        assert(t[0] == line[0]);
        assert(ascii_lower('I') == 'i');
        assert(ascii_lower(t[0]) != 'i') by {
            if 'A' <= t[0] && t[0] <= 'Z' {
                assert(ascii_lower(t[0]) as u32 == t[0] as u32 + 32);
            }
        }
        assert("IPv6=true"@[0] == 'I' && "IPv6=yes"@[0] == 'I');
    }
}

proof fn lemma_ipv6_in_parts(n: QuadletNetwork, k: int)
    requires
        1 <= k <= 10,
    ensures
        some_enables(network_parts(n, k)) == (k > 5 && is_vlan(n.driver@) && has_ipv6(n)),
    decreases k,
{
    reveal_strlit("[Network]");
    reveal_strlit("Driver=");
    if k == 1 {
        lemma_does_not_enable("[Network]"@);
        lemma_does_not_enable("Driver="@ + n.driver@);
    } else {
        let part = network_part(n, k - 1);
        lemma_ipv6_in_parts(n, k - 1);
        lemma_enables_sum(network_parts(n, k - 1), part);
        if k - 1 == 5 {
            reveal_strlit("IPv6=true");
            reveal_strlit("IPv6=no");
            reveal_strlit("IPv6=yes");
            lemma_trimmed_kept("IPv6=true"@);
            lemma_trimmed_kept("IPv6=no"@);
            if is_vlan(n.driver@) && has_ipv6(n) {
                assert(enables_ipv6(part[0]));
            }
        } else if k - 1 == 9 {
            reveal_strlit("Internal=true");
            reveal_strlit("IPv6=true");
            reveal_strlit("IPv6=yes");
            lemma_trimmed_kept("Internal=true"@);
        } else {
            lemma_part_starts(n, k - 1);
            assert forall|i: int| 0 <= i < part.len() implies !enables_ipv6(#[trigger] part[i]) by {
                lemma_does_not_enable(part[i]);
            }
        }
    }
}

proof fn lemma_pair_is_line(key: Seq<char>, s: Seq<char>)
    requires
        is_line(key),
        is_line(s),
    ensures
        is_line(key + s),
{
}

proof fn lemma_network_lines_are_lines(n: QuadletNetwork, k: int)
    requires
        is_writable_network(n),
        1 <= k <= 10,
    ensures
        forall|i: int|
            0 <= i < network_parts(n, k).len() ==> is_line(#[trigger] network_parts(n, k)[i]),
    decreases k,
{
    reveal_strlit("[Network]");
    reveal_strlit("Driver=");
    reveal_strlit("Subnet=");
    reveal_strlit("Gateway=");
    reveal_strlit("IPv6=true");
    reveal_strlit("IPv6=no");
    reveal_strlit("Options=parent=");
    reveal_strlit("Options=mode=");
    reveal_strlit("Options=");
    reveal_strlit("Internal=true");
    reveal_strlit("__PARENT_IFACE__");
    let part = network_part(n, k - 1);
    lemma_pair_is_line("Driver="@, n.driver@);
    lemma_pair_is_line("Subnet="@, n.subnet@);
    lemma_pair_is_line("Subnet="@, n.subnet6@);
    lemma_pair_is_line("Gateway="@, n.gateway@);
    lemma_pair_is_line("Gateway="@, n.gateway6@);
    lemma_pair_is_line("Options=parent="@, parent_interface(n));
    lemma_pair_is_line("Options=mode="@, n.ipvlan_mode@);
    assert forall|i: int| 0 <= i < part.len() implies is_line(#[trigger] part[i]) by {
        if k - 1 == 8 {
            assert(is_line(n.options@[i]@));
            lemma_pair_is_line("Options="@, n.options@[i]@);
        }
    }
    if k > 1 {
        lemma_network_lines_are_lines(n, k - 1);
        let front = network_parts(n, k - 1);
        let all = network_parts(n, k);
        assert forall|i: int| 0 <= i < all.len() implies is_line(#[trigger] all[i]) by {
            if i < front.len() {
                assert(all[i] == front[i]);
            } else {
                assert(all[i] == part[i - front.len()]);
            }
        }
    }
}

/// Reading a `.network` file gives back what was written: the driver, the parent interface or
/// what stands for it, the subnets and gateways of both address families, whether there is
/// IPv6, and the mode.
pub proof fn law_network_files_are_read_back(n: QuadletNetwork)
    requires
        is_writable_network(n),
    ensures
        scanned_network(n.name@, lines_of(network_text(n))) == Some(
            NetworkModel {
                id: 0,
                name: n.name@,
                driver: n.driver@,
                interface: parent_interface(n),
                subnet: n.subnet@,
                gateway: n.gateway@,
                subnet6: n.subnet6@,
                gateway6: n.gateway6@,
                ipv6: n.subnet6@.len() > 0 || (is_vlan(n.driver@) && n.ipv6),
                ipvlan_mode: if is_vlan(n.driver@) && n.ipvlan_mode@.len() > 0 {
                    n.ipvlan_mode@
                } else {
                    "l2"@
                },
                source: "scanned"@,
                created_at: ""@,
            },
        ),
{
    lemma_network_parts(n);
    lemma_network_lines_are_lines(n, 10);
    lemma_written_lines(network_lines(n));
    lemma_driver(n);
    reveal_strlit("Subnet=");
    reveal_strlit("Gateway=");
    lemma_family(n, "Subnet="@, 1, n.subnet@, n.subnet6@);
    lemma_family(n, "Gateway="@, 2, n.gateway@, n.gateway6@);
    lemma_parent_and_mode(n);
    lemma_ipv6_in_parts(n, 10);
    assert(some_enables(network_lines(n)) == exists|i: int|
        0 <= i < network_lines(n).len() && enables_ipv6(#[trigger] network_lines(n)[i]));
}

// ---------------------------------------------------------------------------
// Networks of pods
// ---------------------------------------------------------------------------

/// Reading pieces from some state on.
spec fn address_run(s: AddressState, pieces: Seq<Seq<char>>) -> AddressState
    decreases pieces.len(),
{
    if pieces.len() == 0 {
        s
    } else {
        address_step(address_run(s, pieces.drop_last()), pieces.last())
    }
}

proof fn lemma_address_run_start(pieces: Seq<Seq<char>>)
    ensures
        address_run(AddressState { ip: None, ip6: None, in_ip6: false }, pieces) == address_scan(
            pieces,
        ),
    decreases pieces.len(),
{
    if pieces.len() > 0 {
        lemma_address_run_start(pieces.drop_last());
    }
}

proof fn lemma_address_run_sum(s: AddressState, a: Seq<Seq<char>>, b: Seq<Seq<char>>)
    ensures
        address_run(s, a + b) == address_run(address_run(s, a), b),
    decreases b.len(),
{
    if b.len() == 0 {
        assert(a + b =~= a);
    } else {
        assert((a + b).drop_last() =~= a + b.drop_last());
        assert((a + b).last() == b.last());
        lemma_address_run_sum(s, a, b.drop_last());
    }
}

proof fn lemma_address_run_one(s: AddressState, piece: Seq<char>)
    ensures
        address_run(s, seq![piece]) == address_step(s, piece),
{
    assert(seq![piece].drop_last() =~= Seq::<Seq<char>>::empty());
    assert(seq![piece].last() == piece);
    reveal_with_fuel(address_run, 2);
}

/// What stands before the first separator goes to the first piece.
proof fn lemma_split_prepend(a: Seq<char>, b: Seq<char>, c: char)
    requires
        forall|i: int| 0 <= i < a.len() ==> #[trigger] a[i] != c,
    ensures
        split_on(a + b, c) == seq![a + split_on(b, c)[0]] + split_on(b, c).skip(1),
    decreases b.len(),
{
    lemma_split_on_len(b, c);
    if b.len() == 0 {
        lemma_split_single(a, c);
        assert(a + b =~= a);
        assert(a + split_on(b, c)[0] =~= a);
        assert(split_on(a + b, c) =~= seq![a + split_on(b, c)[0]] + split_on(b, c).skip(1));
    } else {
        assert((a + b).drop_last() =~= a + b.drop_last());
        assert((a + b).last() == b.last());
        lemma_split_on_len(b.drop_last(), c);
        lemma_split_prepend(a, b.drop_last(), c);
        let front = split_on(b.drop_last(), c);
        let got = split_on((a + b).drop_last(), c);
        assert(got.len() == front.len());
        if b.last() != c && front.len() == 1 {
            assert((a + front[0]).push(b.last()) =~= a + front[0].push(b.last()));
        }
        assert(split_on(a + b, c) =~= seq![a + split_on(b, c)[0]] + split_on(b, c).skip(1));
    }
}

/// Pieces without `=` behind the start of an IPv6 address complete it.
proof fn lemma_ip6_pieces(s: AddressState, first: Seq<char>, rest: Seq<Seq<char>>)
    requires
        s.in_ip6,
        s.ip6 == Some(first),
        forall|i: int| 0 <= i < rest.len() ==> !contains_char(#[trigger] rest[i], '='),
    ensures
        address_run(s, rest) == (AddressState {
            ip6: Some(joined(seq![first] + rest, seq![':'])),
            ..s
        }),
    decreases rest.len(),
{
    reveal_strlit(":");
    reveal_strlit("ip=");
    reveal_strlit("ip6=");
    if rest.len() == 0 {
        assert(seq![first] + rest =~= seq![first]);
    } else {
        let front = rest.drop_last();
        assert forall|i: int| 0 <= i < front.len() implies !contains_char(
            #[trigger] front[i],
            '=',
        ) by {
            assert(front[i] == rest[i]);
        }
        lemma_ip6_pieces(s, first, front);
        let last = rest.last();
        assert(!contains_char(rest[rest.len() - 1], '='));
        assert(!"ip="@.is_prefix_of(last)) by {
            if "ip="@.is_prefix_of(last) {
                assert(last.subrange(0, 3)[2] == last[2]);
            }
        }
        assert(!"ip6="@.is_prefix_of(last)) by {
            if "ip6="@.is_prefix_of(last) {
                assert(last.subrange(0, 4)[3] == last[3]);
            }
        }
        assert((seq![first] + rest).drop_last() =~= seq![first] + front);
        assert((seq![first] + rest).last() == last);
        assert(":"@ =~= seq![':']);
    }
}

/// Pieces without `=` outside an IPv6 address change nothing.
proof fn lemma_idle_pieces(s: AddressState, rest: Seq<Seq<char>>)
    requires
        !s.in_ip6,
        forall|i: int| 0 <= i < rest.len() ==> !contains_char(#[trigger] rest[i], '='),
    ensures
        address_run(s, rest) == s,
    decreases rest.len(),
{
    reveal_strlit("ip=");
    reveal_strlit("ip6=");
    if rest.len() > 0 {
        let front = rest.drop_last();
        assert forall|i: int| 0 <= i < front.len() implies !contains_char(
            #[trigger] front[i],
            '=',
        ) by {
            assert(front[i] == rest[i]);
        }
        lemma_idle_pieces(s, front);
        let last = rest.last();
        assert(!contains_char(rest[rest.len() - 1], '='));
        assert(!"ip="@.is_prefix_of(last)) by {
            if "ip="@.is_prefix_of(last) {
                assert(last.subrange(0, 3)[2] == last[2]);
            }
        }
        assert(!"ip6="@.is_prefix_of(last)) by {
            if "ip6="@.is_prefix_of(last) {
                assert(last.subrange(0, 4)[3] == last[3]);
            }
        }
    }
}

/// The pieces of a text hold no character that the text does not hold.
proof fn lemma_pieces_hold_no(s: Seq<char>, c: char, x: char)
    requires
        !contains_char(s, x),
    ensures
        forall|i: int|
            0 <= i < split_on(s, c).len() ==> !contains_char(#[trigger] split_on(s, c)[i], x),
{
    lemma_split_on_chars(s, c);
    assert forall|i: int| 0 <= i < split_on(s, c).len() implies !contains_char(
        #[trigger] split_on(s, c)[i],
        x,
    ) by {
        let p = split_on(s, c)[i];
        if contains_char(p, x) {
            let j = choose|j: int| 0 <= j < p.len() && p[j] == x;
            assert(s.contains(split_on(s, c)[i][j]));
            let k = choose|k: int| 0 <= k < s.len() && s[k] == x;
            assert(s[k] == x);
        }
    }
}

proof fn lemma_ip_part(s: AddressState, ip: Seq<char>)
    requires
        !contains_char(ip, ':'),
    ensures
        address_run(s, split_on("ip="@ + ip, ':')) == (AddressState {
            ip: Some(ip),
            in_ip6: false,
            ..s
        }),
{
    reveal_strlit("ip=");
    let p = "ip="@ + ip;
    assert forall|i: int| 0 <= i < p.len() implies #[trigger] p[i] != ':' by {
        if i >= 3 {
            assert(p[i] == ip[i - 3]);
        }
    }
    lemma_split_single(p, ':');
    lemma_address_run_one(s, p);
    assert(p.subrange(0, 3) =~= "ip="@);
    assert(p.skip(3) =~= ip);
}

proof fn lemma_ip6_part(s: AddressState, ip6: Seq<char>)
    requires
        !contains_char(ip6, '='),
    ensures
        address_run(s, split_on("ip6="@ + ip6, ':')) == (AddressState {
            ip6: Some(ip6),
            in_ip6: true,
            ..s
        }),
{
    reveal_strlit("ip=");
    reveal_strlit("ip6=");
    let pieces = split_on(ip6, ':');
    lemma_split_on_len(ip6, ':');
    lemma_split_prepend("ip6="@, ip6, ':');
    lemma_pieces_hold_no(ip6, ':', '=');
    let head = "ip6="@ + pieces[0];
    let rest = pieces.skip(1);
    lemma_address_run_sum(s, seq![head], rest);
    lemma_address_run_one(s, head);
    assert(!"ip="@.is_prefix_of(head)) by {
        if "ip="@.is_prefix_of(head) {
            assert(head.subrange(0, 3)[2] == head[2]);
        }
    }
    assert(head.subrange(0, 4) =~= "ip6="@);
    assert(head.skip(4) =~= pieces[0]);
    let s1 = AddressState { ip6: Some(pieces[0]), in_ip6: true, ..s };
    assert(address_step(s, head) == s1);
    assert forall|i: int| 0 <= i < rest.len() implies !contains_char(#[trigger] rest[i], '=') by {
        assert(rest[i] == pieces[i + 1]);
    }
    lemma_ip6_pieces(s1, pieces[0], rest);
    assert(seq![pieces[0]] + rest =~= pieces);
    lemma_join_of_split(ip6, ':');
}

/// A gateway is passed over.
proof fn lemma_gateway_part(s: AddressState, key: Seq<char>, value: Seq<char>)
    requires
        key == "gateway="@ || key == "gateway6="@,
        !contains_char(value, '='),
    ensures
        address_run(s, split_on(key + value, ':')) == (AddressState { in_ip6: false, ..s }),
{
    reveal_strlit("ip=");
    reveal_strlit("ip6=");
    reveal_strlit("gateway=");
    reveal_strlit("gateway6=");
    let pieces = split_on(value, ':');
    lemma_split_on_len(value, ':');
    lemma_split_prepend(key, value, ':');
    lemma_pieces_hold_no(value, ':', '=');
    let head = key + pieces[0];
    let rest = pieces.skip(1);
    lemma_address_run_sum(s, seq![head], rest);
    lemma_address_run_one(s, head);
    assert(head[0] == 'g');
    assert(!"ip="@.is_prefix_of(head)) by {
        if "ip="@.is_prefix_of(head) {
            assert(head.subrange(0, 3)[0] == head[0]);
        }
    }
    assert(!"ip6="@.is_prefix_of(head)) by {
        if "ip6="@.is_prefix_of(head) {
            assert(head.subrange(0, 4)[0] == head[0]);
        }
    }
    assert(contains_char(head, '=')) by {
        assert(head[key.len() - 1] == '=');
    }
    let s1 = AddressState { in_ip6: false, ..s };
    assert(address_step(s, head) == s1);
    assert forall|i: int| 0 <= i < rest.len() implies !contains_char(#[trigger] rest[i], '=') by {
        assert(rest[i] == pieces[i + 1]);
    }
    lemma_idle_pieces(s1, rest);
}

/// A part of a parameter with the colon before it.
spec fn behind_a_colon() -> spec_fn(Seq<char>) -> Seq<char> {
    |p: Seq<char>| seq![':'] + p
}

/// The pieces of a part of a parameter.
spec fn pieces_of() -> spec_fn(Seq<char>) -> Seq<Seq<char>> {
    |p: Seq<char>| split_on(p, ':')
}

/// The parts of a parameter behind the name of the network.
spec fn param_parts(n: PodNetworkEntry) -> Seq<Seq<char>> {
    opt_line("ip="@, text_or_empty(n.ip)) + opt_line("ip6="@, text_or_empty(n.ip6)) + opt_line(
        "gateway="@,
        text_or_empty(n.gateway),
    ) + opt_line("gateway6="@, text_or_empty(n.gateway6))
}

pub proof fn lemma_flat_sum<T, U>(a: Seq<T>, b: Seq<T>, f: spec_fn(T) -> Seq<U>)
    ensures
        flat(a + b, f) == flat(a, f) + flat(b, f),
    decreases b.len(),
{
    if b.len() == 0 {
        assert(a + b =~= a);
        assert(flat(a, f) + Seq::<U>::empty() =~= flat(a, f));
    } else {
        assert((a + b).drop_last() =~= a + b.drop_last());
        assert((a + b).last() == b.last());
        lemma_flat_sum(a, b.drop_last(), f);
        assert(flat(a, f) + flat(b.drop_last(), f) + f(b.last()) =~= flat(a, f) + (flat(
            b.drop_last(),
            f,
        ) + f(b.last())));
    }
}

proof fn lemma_flat_one<T, U>(x: T, f: spec_fn(T) -> Seq<U>)
    ensures
        flat(seq![x], f) == f(x),
{
    assert(seq![x].drop_last() =~= Seq::<T>::empty());
    assert(seq![x].last() == x);
    assert(flat(seq![x].drop_last(), f) =~= Seq::<U>::empty());
    assert(Seq::<U>::empty() + f(x) =~= f(x));
}

proof fn lemma_opt_part(o: Option<String>, before: Seq<char>, key: Seq<char>)
    requires
        before == seq![':'] + key,
    ensures
        opt_entry(o, before, ""@) == flat(opt_line(key, text_or_empty(o)), behind_a_colon()),
{
    reveal_strlit("");
    let v = text_or_empty(o);
    if v.len() > 0 {
        lemma_flat_one(key + v, behind_a_colon());
        assert(before + v + ""@ =~= seq![':'] + (key + v));
    }
}

proof fn lemma_param_text(n: PodNetworkEntry)
    ensures
        network_param(n) == n.network@ + ".network"@ + flat(param_parts(n), behind_a_colon()),
{
    reveal_strlit(":ip=");
    reveal_strlit(":ip6=");
    reveal_strlit(":gateway=");
    reveal_strlit(":gateway6=");
    reveal_strlit("ip=");
    reveal_strlit("ip6=");
    reveal_strlit("gateway=");
    reveal_strlit("gateway6=");
    assert(":ip="@ =~= seq![':'] + "ip="@);
    assert(":ip6="@ =~= seq![':'] + "ip6="@);
    assert(":gateway="@ =~= seq![':'] + "gateway="@);
    assert(":gateway6="@ =~= seq![':'] + "gateway6="@);
    lemma_opt_part(n.ip, ":ip="@, "ip="@);
    lemma_opt_part(n.ip6, ":ip6="@, "ip6="@);
    lemma_opt_part(n.gateway, ":gateway="@, "gateway="@);
    lemma_opt_part(n.gateway6, ":gateway6="@, "gateway6="@);
    let f = behind_a_colon();
    let a = opt_line("ip="@, text_or_empty(n.ip));
    let b = opt_line("ip6="@, text_or_empty(n.ip6));
    let c = opt_line("gateway="@, text_or_empty(n.gateway));
    let d = opt_line("gateway6="@, text_or_empty(n.gateway6));
    lemma_flat_sum(a, b, f);
    lemma_flat_sum(a + b, c, f);
    lemma_flat_sum(a + b + c, d, f);
    assert(network_param(n) =~= n.network@ + ".network"@ + flat(param_parts(n), f));
}

/// Parts with colons before them are a colon and the parts joined by colons.
proof fn lemma_colons(parts: Seq<Seq<char>>)
    requires
        parts.len() > 0,
    ensures
        flat(parts, behind_a_colon()) == seq![':'] + joined(parts, seq![':']),
    decreases parts.len(),
{
    if parts.len() == 1 {
        assert(parts =~= seq![parts[0]]);
        lemma_flat_one(parts[0], behind_a_colon());
    } else {
        lemma_colons(parts.drop_last());
        let j = joined(parts.drop_last(), seq![':']);
        assert(seq![':'] + j + (seq![':'] + parts.last()) =~= seq![':'] + (j + seq![':']
            + parts.last()));
    }
}

proof fn lemma_split_joined(parts: Seq<Seq<char>>)
    requires
        parts.len() > 0,
    ensures
        split_on(joined(parts, seq![':']), ':') == flat(parts, pieces_of()),
    decreases parts.len(),
{
    if parts.len() == 1 {
        assert(parts =~= seq![parts[0]]);
        lemma_flat_one(parts[0], pieces_of());
    } else {
        lemma_split_joined(parts.drop_last());
        lemma_split_sum(joined(parts.drop_last(), seq![':']), parts.last(), ':');
    }
}

/// Whether the names and addresses of a network of a pod are such as a parameter can hold.
pub open spec fn is_writable_param(n: PodNetworkEntry) -> bool {
    &&& !contains_char(n.network@, ':')
    &&& !".network"@.is_suffix_of(n.network@)
    &&& !contains_char(text_or_empty(n.ip), ':')
    &&& !contains_char(text_or_empty(n.ip6), '=')
    &&& !contains_char(text_or_empty(n.gateway), '=')
    &&& !contains_char(text_or_empty(n.gateway6), '=')
}

/// An optional text where it is not empty.
pub open spec fn unless_empty_text(o: Option<String>) -> Option<Seq<char>> {
    if present(o) {
        Some(o->0@)
    } else {
        None
    }
}

/// What reading gives for a network of a pod that was written.
pub open spec fn read_param(n: PodNetworkEntry) -> PodNetworkModel {
    PodNetworkModel {
        network: n.network@,
        ip: unless_empty_text(n.ip),
        ip6: unless_empty_text(n.ip6),
        gateway: None,
        gateway6: None,
    }
}

proof fn lemma_param_addresses(n: PodNetworkEntry)
    requires
        is_writable_param(n),
    ensures
        ({
            let found = address_scan(flat(param_parts(n), pieces_of()));
            found.ip == unless_empty_text(n.ip) && found.ip6 == unless_empty_text(n.ip6)
        }),
{
    let f = pieces_of();
    let a = opt_line("ip="@, text_or_empty(n.ip));
    let b = opt_line("ip6="@, text_or_empty(n.ip6));
    let c = opt_line("gateway="@, text_or_empty(n.gateway));
    let d = opt_line("gateway6="@, text_or_empty(n.gateway6));
    lemma_flat_sum(a, b, f);
    lemma_flat_sum(a + b, c, f);
    lemma_flat_sum(a + b + c, d, f);
    let s0 = AddressState { ip: None, ip6: None, in_ip6: false };
    lemma_address_run_start(flat(param_parts(n), f));
    lemma_address_run_sum(s0, flat(a + b + c, f), flat(d, f));
    lemma_address_run_sum(s0, flat(a + b, f), flat(c, f));
    lemma_address_run_sum(s0, flat(a, f), flat(b, f));
    let s1 = address_run(s0, flat(a, f));
    if text_or_empty(n.ip).len() > 0 {
        lemma_flat_one("ip="@ + text_or_empty(n.ip), f);
        lemma_ip_part(s0, text_or_empty(n.ip));
    }
    let s2 = address_run(s1, flat(b, f));
    if text_or_empty(n.ip6).len() > 0 {
        lemma_flat_one("ip6="@ + text_or_empty(n.ip6), f);
        lemma_ip6_part(s1, text_or_empty(n.ip6));
    }
    let s3 = address_run(s2, flat(c, f));
    if text_or_empty(n.gateway).len() > 0 {
        lemma_flat_one("gateway="@ + text_or_empty(n.gateway), f);
        lemma_gateway_part(s2, "gateway="@, text_or_empty(n.gateway));
    }
    if text_or_empty(n.gateway6).len() > 0 {
        lemma_flat_one("gateway6="@ + text_or_empty(n.gateway6), f);
        lemma_gateway_part(s3, "gateway6="@, text_or_empty(n.gateway6));
    }
}

/// Reading a parameter gives back what was written: the name of the network and the addresses
/// of the pod in it, whole, though an IPv6 address holds colons itself.
pub proof fn law_network_params_are_read_back(n: PodNetworkEntry)
    requires
        is_writable_param(n),
    ensures
        scanned_param(network_param(n)) == read_param(n),
{
    reveal_strlit(":");
    reveal_strlit(".network");
    assert(":"@ =~= seq![':']);
    lemma_param_text(n);
    let parts = param_parts(n);
    let name = n.network@ + ".network"@;
    let s = network_param(n);
    assert forall|j: int| 0 <= j < name.len() implies #[trigger] name[j] != ':' by {
        if j < n.network@.len() {
            assert(name[j] == n.network@[j]);
        }
    }
    if parts.len() == 0 {
        assert(flat(parts, behind_a_colon()) =~= Seq::<char>::empty());
        assert(s =~= name);
        lemma_find_nowhere(s, ":"@);
        assert(flat(parts, pieces_of()) =~= Seq::<Seq<char>>::empty());
        let none: Seq<char> = Seq::empty();
        assert(split_on(none, ':') =~= seq![none]);
        lemma_address_run_start(seq![none]);
        lemma_address_run_start(Seq::empty());
        lemma_address_run_one(AddressState { ip: None, ip6: None, in_ip6: false }, none);
        reveal_strlit("ip=");
        reveal_strlit("ip6=");
    } else {
        lemma_colons(parts);
        lemma_split_joined(parts);
        let k = name.len() as int;
        assert(s.subrange(k, k + 1) =~= ":"@);
        assert forall|j: int| 0 <= j < k implies #[trigger] s[j] != ":"@[0] by {
            assert(s[j] == name[j]);
        }
        lemma_find_at(s, ":"@, k);
        assert(s.take(k) =~= name);
        assert(s.skip(k + 1) =~= joined(parts, seq![':']));
    }
    lemma_param_addresses(n);
    assert(".network"@.is_suffix_of(name)) by {
        assert(name.subrange(name.len() - 8, name.len() as int) =~= ".network"@);
    }
    assert(name.take(name.len() - 8) =~= n.network@);
    reveal_with_fuel(without_suffixes, 2);
}

// ---------------------------------------------------------------------------
// Pods
// ---------------------------------------------------------------------------

/// Whether the values of a pod are such as a unit file can hold.
pub open spec fn is_writable_pod(p: QuadletPod) -> bool {
    &&& is_value(p.name@)
    &&& is_line(text_or_empty(p.description))
    &&& is_line(text_or_empty(p.hostname))
    &&& is_line(text_or_empty(p.shm_size))
    &&& forall|i: int| 0 <= i < p.labels@.len() ==> is_line((#[trigger] p.labels@[i])@)
    &&& forall|i: int|
        0 <= i < p.networks@.len() && (#[trigger] p.networks@[i]).network@.len() > 0
            ==> is_writable_param(p.networks@[i]) && is_value(network_param(p.networks@[i]))
            && is_line(p.networks@[i].network@)
}

/// What reading gives for the networks of a pod.
pub open spec fn read_network() -> spec_fn(PodNetworkEntry) -> Seq<PodNetworkModel> {
    |n: PodNetworkEntry|
        if n.network@.len() > 0 {
            seq![read_param(n)]
        } else {
            Seq::empty()
        }
}

/// Lines that all start with another character than a line that attaches a network.
proof fn lemma_no_networks(v: Seq<Seq<char>>)
    requires
        forall|i: int|
            0 <= i < v.len() ==> (#[trigger] v[i]).len() == 0 || (!is_space(v[i][0]) && v[i][0]
                != 'N'),
    ensures
        flat(v, network_of_line()) == Seq::<PodNetworkModel>::empty(),
    decreases v.len(),
{
    reveal_strlit("Network=");
    if v.len() > 0 {
        let front = v.drop_last();
        assert forall|i: int| 0 <= i < front.len() implies (#[trigger] front[i]).len() == 0 || (
        !is_space(front[i][0]) && front[i][0] != 'N') by {
            assert(front[i] == v[i]);
        }
        lemma_no_networks(front);
        let last = v[v.len() - 1];
        lemma_other_unit_line("Network="@, last, 0);
        assert(flat(v, network_of_line()) =~= Seq::<PodNetworkModel>::empty());
    }
}

proof fn lemma_networks_of_lines(networks: Seq<PodNetworkEntry>)
    requires
        forall|i: int|
            0 <= i < networks.len() && (#[trigger] networks[i]).network@.len() > 0
                ==> is_writable_param(networks[i]) && is_value(network_param(networks[i])),
    ensures
        flat(flat(networks, network_line()), network_of_line()) == flat(networks, read_network()),
        forall|i: int|
            0 <= i < flat(networks, network_line()).len() ==> is_line(
                #[trigger] flat(networks, network_line())[i],
            ) && flat(networks, network_line())[i].len() > 0 && flat(
                networks,
                network_line(),
            )[i][0] == 'N',
    decreases networks.len(),
{
    reveal_strlit("Network=");
    if networks.len() > 0 {
        let front = networks.drop_last();
        let n = networks.last();
        assert forall|i: int|
            0 <= i < front.len() && (#[trigger] front[i]).network@.len() > 0 implies is_writable_param(
            front[i],
        ) && is_value(network_param(front[i])) by {
            assert(front[i] == networks[i]);
        }
        lemma_networks_of_lines(front);
        let a = flat(front, network_line());
        lemma_flat_sum(a, network_line()(n), network_of_line());
        assert(n == networks[networks.len() - 1]);
        if n.network@.len() > 0 {
            let line = "Network="@ + network_param(n);
            lemma_flat_one(line, network_of_line());
            lemma_unit_value("Network="@, network_param(n));
            law_network_params_are_read_back(n);
            lemma_pair_is_line("Network="@, network_param(n));
        }
    }
}

proof fn lemma_dependencies(networks: Seq<PodNetworkEntry>)
    requires
        forall|i: int|
            0 <= i < networks.len() && (#[trigger] networks[i]).network@.len() > 0 ==> is_line(
                networks[i].network@,
            ),
    ensures
        forall|i: int|
            0 <= i < flat(networks, network_dependency()).len() ==> is_line(
                #[trigger] flat(networks, network_dependency())[i],
            ) && flat(networks, network_dependency())[i].len() > 0 && (flat(
                networks,
                network_dependency(),
            )[i][0] == 'A' || flat(networks, network_dependency())[i][0] == 'R'),
    decreases networks.len(),
{
    reveal_strlit("After=");
    reveal_strlit("Requires=");
    reveal_strlit(".network");
    if networks.len() > 0 {
        let front = networks.drop_last();
        assert forall|i: int|
            0 <= i < front.len() && (#[trigger] front[i]).network@.len() > 0 implies is_line(
            front[i].network@,
        ) by {
            assert(front[i] == networks[i]);
        }
        lemma_dependencies(front);
        let n = networks[networks.len() - 1];
        if n.network@.len() > 0 {
            assert(is_line("After="@ + n.network@ + ".network"@));
            assert(is_line("Requires="@ + n.network@ + ".network"@));
        }
        let a = flat(front, network_dependency());
        let b = network_dependency()(n);
        let all = flat(networks, network_dependency());
        assert(all == a + b);
        assert forall|i: int| 0 <= i < all.len() implies is_line(#[trigger] all[i])
            && all[i].len() > 0 && (all[i][0] == 'A' || all[i][0] == 'R') by {
            if i < a.len() {
                assert(all[i] == a[i]);
            } else {
                assert(all[i] == b[i - a.len()]);
            }
        }
    }
}

proof fn lemma_pod_unit_lines(p: QuadletPod)
    requires
        is_writable_pod(p),
    ensures
        forall|i: int|
            0 <= i < pod_unit_lines(p).len() ==> is_line(#[trigger] pod_unit_lines(p)[i]) && (
            pod_unit_lines(p)[i].len() == 0 || (!is_space(pod_unit_lines(p)[i][0])
                && pod_unit_lines(p)[i][0] != 'N' && pod_unit_lines(p)[i][0] != 'P')),
{
    reveal_strlit("[Unit]");
    reveal_strlit("Description=");
    reveal_strlit("");
    if present(p.description) || has_network(p.networks@) {
        assert forall|i: int|
            0 <= i < p.networks@.len() && (
            #[trigger] p.networks@[i]).network@.len() > 0 implies is_line(
            p.networks@[i].network@,
        ) by {}
        lemma_dependencies(p.networks@);
        lemma_pair_is_line("Description="@, text_or_empty(p.description));
        let a = seq!["[Unit]"@] + opt_line("Description="@, text_or_empty(p.description));
        let b = flat(p.networks@, network_dependency());
        let all = pod_unit_lines(p);
        assert(all =~= a + b + seq![""@]);
        assert forall|i: int| 0 <= i < all.len() implies is_line(#[trigger] all[i]) && (
        all[i].len() == 0 || (!is_space(all[i][0]) && all[i][0] != 'N' && all[i][0] != 'P')) by {
            if i < a.len() {
                assert(all[i] == a[i]);
            } else if i < a.len() + b.len() {
                assert(all[i] == b[i - a.len()]);
            } else {
                assert(all[i] == ""@);
            }
        }
    }
}

/// Reading a `.pod` file gives back the name of the pod and, in their order, the networks
/// that it is attached to with its addresses in them.
pub proof fn law_pod_files_are_read_back(p: QuadletPod, stem: Seq<char>)
    requires
        is_writable_pod(p),
    ensures
        or_text(last_match(lines_of(pod_text(p)), unit_value("PodName="@)), stem) == p.name@,
        flat(lines_of(pod_text(p)), network_of_line()) == flat(p.networks@, read_network()),
{
    reveal_strlit("[Pod]");
    reveal_strlit("PodName=");
    reveal_strlit("HostName=");
    reveal_strlit("ShmSize=");
    reveal_strlit("Label=");
    let key = "PodName="@;
    let unit = pod_unit_lines(p);
    let named = seq!["[Pod]"@, key + p.name@];
    let mid = opt_line("HostName="@, text_or_empty(p.hostname)) + opt_line(
        "ShmSize="@,
        text_or_empty(p.shm_size),
    );
    let attached = flat(p.networks@, network_line());
    let labels = prefixed(views(p.labels@), "Label="@);
    let lines = pod_lines(p);
    assert(lines =~= unit + named + mid + attached + labels);
    lemma_pod_unit_lines(p);
    lemma_networks_of_lines(p.networks@);
    lemma_pair_is_line(key, p.name@);
    lemma_pair_is_line("HostName="@, text_or_empty(p.hostname));
    lemma_pair_is_line("ShmSize="@, text_or_empty(p.shm_size));
    assert forall|i: int| 0 <= i < labels.len() implies is_line(#[trigger] labels[i])
        && labels[i][0] == 'L' && labels[i].len() > 0 by {
        assert(is_line(p.labels@[i]@));
        lemma_pair_is_line("Label="@, p.labels@[i]@);
    }
    assert forall|i: int| 0 <= i < lines.len() implies is_line(#[trigger] lines[i]) by {
        let all = unit + named + mid + attached + labels;
        assert(lines[i] == all[i]);
        if i < unit.len() {
            assert(all[i] == unit[i]);
        } else if i < unit.len() + 2 {
            assert(all[i] == named[i - unit.len()]);
        } else if i < unit.len() + 2 + mid.len() {
            assert(all[i] == mid[i - unit.len() - 2]);
        } else if i < unit.len() + 2 + mid.len() + attached.len() {
            assert(all[i] == attached[i - unit.len() - 2 - mid.len()]);
        } else {
            assert(all[i] == labels[i - unit.len() - 2 - mid.len() - attached.len()]);
        }
    }
    lemma_written_lines(lines);
    // The name.
    let f = unit_value(key);
    lemma_last_match_sum(unit + named + mid + attached, labels, f);
    lemma_last_match_sum(unit + named + mid, attached, f);
    lemma_last_match_sum(unit + named, mid, f);
    lemma_last_match_sum(unit, named, f);
    lemma_foreign_lines(labels, key);
    lemma_foreign_lines(attached, key);
    lemma_foreign_lines(mid, key);
    lemma_unit_value(key, p.name@);
    assert(named.last() == key + p.name@);
    // The networks.
    let g = network_of_line();
    lemma_flat_sum(unit + named + mid + attached, labels, g);
    lemma_flat_sum(unit + named + mid, attached, g);
    lemma_flat_sum(unit + named, mid, g);
    lemma_flat_sum(unit, named, g);
    lemma_no_networks(unit);
    lemma_no_networks(named);
    lemma_no_networks(mid);
    lemma_no_networks(labels);
    let none = Seq::<PodNetworkModel>::empty();
    assert(none + none + none + flat(attached, g) + none =~= flat(attached, g));
}

} // verus!
