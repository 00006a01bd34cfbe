//! IP addresses as text, and subnets.

use crate::lines::{lemma_split_on_len, split, split_on};
use crate::number::{
    all_digits, decimal, digits_value, is_digit, law_decimal_round_trip, lemma_decimal,
    parse_number, parsed_number,
};
use crate::read_back::{lemma_find_at, lemma_split_single, lemma_split_sum};
use crate::text::{chars_of, find, find_text, views};
use vstd::prelude::*;
use vstd::string::*;

verus! {

// ---------------------------------------------------------------------------
// IPv4
// ---------------------------------------------------------------------------

/// The value of an octet: one to three digits, at most 255, without a leading zero.
pub open spec fn octet(s: Seq<char>) -> Option<nat> {
    if 1 <= s.len() <= 3 && all_digits(s) && (s.len() > 1 ==> s[0] != '0') && digits_value(s)
        <= 255 {
        Some(digits_value(s))
    } else {
        None
    }
}

/// The value of an IPv4 address: four octets between dots.
pub open spec fn ipv4_value(s: Seq<char>) -> Option<nat> {
    let p = split_on(s, '.');
    if p.len() == 4 && octet(p[0]) is Some && octet(p[1]) is Some && octet(p[2]) is Some && octet(
        p[3],
    ) is Some {
        Some(
            ((octet(p[0])->0 * 256 + octet(p[1])->0) * 256 + octet(p[2])->0) * 256 + octet(p[3])->0,
        )
    } else {
        None
    }
}

fn parse_octet(s: &str) -> (r: Option<u32>)
    ensures
        match r {
            Some(n) => octet(s@) == Some(n as nat) && n <= 255,
            None => octet(s@) is None,
        },
{
    let n = s.unicode_len();
    if n == 0 || n > 3 {
        return None;
    }
    let first = s.get_char(0);
    if (n > 1 && first == '0') || first == '+' {
        proof {
            if first == '+' {
                assert(!is_digit(s@[0]));
            }
        }
        return None;
    }
    parse_number(s, 255)
}

/// The value of an IPv4 address.
pub fn parse_ipv4(s: &str) -> (r: Option<u32>)
    ensures
        match r {
            Some(n) => ipv4_value(s@) == Some(n as nat),
            None => ipv4_value(s@) is None,
        },
{
    let p = split(s, '.');
    if p.len() != 4 {
        assert(views(p@).len() != 4);
        return None;
    }
    proof {
        assert(views(p@)[0] == p@[0]@);
        assert(views(p@)[1] == p@[1]@);
        assert(views(p@)[2] == p@[2]@);
        assert(views(p@)[3] == p@[3]@);
    }
    let a = parse_octet(p[0]);
    let b = parse_octet(p[1]);
    let c = parse_octet(p[2]);
    let d = parse_octet(p[3]);
    match (a, b, c, d) {
        (Some(a), Some(b), Some(c), Some(d)) => Some(((a * 256 + b) * 256 + c) * 256 + d),
        _ => None,
    }
}

// ---------------------------------------------------------------------------
// IPv6
// ---------------------------------------------------------------------------

/// The value of a hexadecimal digit.
pub open spec fn hex_digit(c: char) -> Option<nat> {
    if '0' <= c && c <= '9' {
        Some((c as nat - 48) as nat)
    } else if 'a' <= c && c <= 'f' {
        Some((c as nat - 87) as nat)
    } else if 'A' <= c && c <= 'F' {
        Some((c as nat - 55) as nat)
    } else {
        None
    }
}

/// The number that hexadecimal digits denote.
pub open spec fn hex_value(s: Seq<char>) -> Option<nat>
    decreases s.len(),
{
    if s.len() == 0 {
        Some(0)
    } else {
        match (hex_value(s.drop_last()), hex_digit(s.last())) {
            (Some(n), Some(d)) => Some(n * 16 + d),
            _ => None,
        }
    }
}

/// The value of a group: one to four hexadecimal digits.
pub open spec fn hex_group(s: Seq<char>) -> Option<nat> {
    if 1 <= s.len() <= 4 {
        hex_value(s)
    } else {
        None
    }
}

/// The groups that pieces of an address denote, in order. Where `v4` holds, the last
/// piece may be an IPv4 address, which stands for two groups.
pub open spec fn groups_of(pieces: Seq<Seq<char>>, v4: bool) -> Option<Seq<nat>>
    decreases pieces.len(),
{
    if pieces.len() == 0 {
        Some(Seq::empty())
    } else {
        match groups_of(pieces.drop_last(), false) {
            Some(front) => match hex_group(pieces.last()) {
                Some(g) => Some(front.push(g)),
                None => match ipv4_value(pieces.last()) {
                    Some(n) => if v4 {
                        Some(front.push(n / 65536).push(n % 65536))
                    } else {
                        None
                    },
                    None => None,
                },
            },
            None => None,
        }
    }
}

/// The groups of one side of an address; an empty side has none.
pub open spec fn side_groups(s: Seq<char>, v4: bool) -> Option<Seq<nat>> {
    if s.len() == 0 {
        Some(Seq::empty())
    } else {
        groups_of(split_on(s, ':'), v4)
    }
}

/// `n` groups of zeros.
pub open spec fn zero_groups(n: nat) -> Seq<nat> {
    Seq::new(n, |i: int| 0nat)
}

/// The eight groups of an IPv6 address: all of them between colons, or some before and
/// some behind a double colon, which stands for at least one group of zeros.
pub open spec fn ipv6_groups(s: Seq<char>) -> Option<Seq<nat>> {
    match find_text(s, "::"@) {
        Some(i) => match (side_groups(s.take(i), false), side_groups(s.skip(i + 2), true)) {
            (Some(head), Some(tail)) => if head.len() + tail.len() <= 7 {
                Some(head + zero_groups((8 - head.len() - tail.len()) as nat) + tail)
            } else {
                None
            },
            _ => None,
        },
        None => match groups_of(split_on(s, ':'), true) {
            Some(all) => if all.len() == 8 {
                Some(all)
            } else {
                None
            },
            None => None,
        },
    }
}

/// The number whose groups of sixteen bits are given, the highest first.
pub open spec fn group_value(groups: Seq<nat>) -> nat
    decreases groups.len(),
{
    if groups.len() == 0 {
        0
    } else {
        group_value(groups.drop_last()) * 65536 + groups.last()
    }
}

/// The value of an IPv6 address.
pub open spec fn ipv6_value(s: Seq<char>) -> Option<nat> {
    match ipv6_groups(s) {
        Some(groups) => Some(group_value(groups)),
        None => None,
    }
}

fn parse_hex_digit(c: char) -> (r: Option<u32>)
    ensures
        match r {
            Some(n) => hex_digit(c) == Some(n as nat) && n < 16,
            None => hex_digit(c) is None,
        },
{
    if '0' <= c && c <= '9' {
        Some(c as u32 - 48)
    } else if 'a' <= c && c <= 'f' {
        Some(c as u32 - 87)
    } else if 'A' <= c && c <= 'F' {
        Some(c as u32 - 55)
    } else {
        None
    }
}

proof fn lemma_hex_value_prefix(s: Seq<char>, k: int)
    requires
        0 <= k <= s.len(),
        hex_value(s.take(k)) is None,
    ensures
        hex_value(s) is None,
    decreases s.len(),
{
    if k < s.len() {
        assert(s.drop_last().take(k) =~= s.take(k));
        lemma_hex_value_prefix(s.drop_last(), k);
    } else {
        assert(s.take(k) =~= s);
    }
}

fn parse_hex_group(s: &str) -> (r: Option<u16>)
    ensures
        match r {
            Some(n) => hex_group(s@) == Some(n as nat),
            None => hex_group(s@) is None,
        },
{
    let v = chars_of(s);
    if v.len() == 0 || v.len() > 4 {
        return None;
    }
    let mut value: u32 = 0;
    let mut bound: u32 = 1;
    let mut i: usize = 0;
    assert(s@.take(0) =~= Seq::<char>::empty());
    while i < v.len()
        invariant
            v@ == s@,
            i <= v.len() <= 4,
            value < bound,
            bound == (if i == 0 {
                1u32
            } else if i == 1 {
                16u32
            } else if i == 2 {
                256u32
            } else if i == 3 {
                4096u32
            } else {
                65536u32
            }),
            hex_value(s@.take(i as int)) == Some(value as nat),
        decreases v.len() - i,
    {
        proof {
            assert(s@.take(i as int + 1).drop_last() =~= s@.take(i as int));
            assert(s@.take(i as int + 1).last() == v@[i as int]);
        }
        match parse_hex_digit(v[i]) {
            Some(d) => {
                value = value * 16 + d;
                bound = bound * 16;
            },
            None => {
                proof {
                    lemma_hex_value_prefix(s@, i as int + 1);
                }
                return None;
            },
        }
        i += 1;
    }
    assert(s@.take(i as int) =~= s@);
    Some(value as u16)
}

/// The values of groups.
pub open spec fn group_values(v: Seq<u16>) -> Seq<nat> {
    Seq::new(v.len(), |i: int| v[i] as nat)
}

proof fn lemma_groups_prefix(pieces: Seq<Seq<char>>, k: int, v4: bool)
    requires
        0 <= k < pieces.len(),
        groups_of(pieces.take(k), false) is None,
    ensures
        groups_of(pieces, v4) is None,
    decreases pieces.len(),
{
    if k == pieces.len() - 1 {
        assert(pieces.drop_last() =~= pieces.take(k));
    } else {
        assert(pieces.drop_last().take(k) =~= pieces.take(k));
        lemma_groups_prefix(pieces.drop_last(), k, false);
    }
}

fn parse_groups(pieces: &Vec<&str>, v4: bool) -> (r: Option<Vec<u16>>)
    requires
        pieces.len() > 0,
    ensures
        match r {
            Some(v) => groups_of(views(pieces@), v4) == Some(group_values(v@)),
            None => groups_of(views(pieces@), v4) is None,
        },
{
    let ghost all = views(pieces@);
    let mut out: Vec<u16> = Vec::new();
    let mut i: usize = 0;
    assert(group_values(out@) =~= Seq::<nat>::empty());
    while i < pieces.len() - 1
        invariant
            all == views(pieces@),
            pieces.len() > 0,
            i <= pieces.len() - 1,
            groups_of(all.take(i as int), false) == Some(group_values(out@)),
        decreases pieces.len() - i,
    {
        proof {
            assert(all.take(i as int + 1).drop_last() =~= all.take(i as int));
            assert(all.take(i as int + 1).last() == pieces@[i as int]@);
        }
        match parse_hex_group(pieces[i]) {
            Some(g) => {
                let ghost before = group_values(out@);
                out.push(g);
                assert(group_values(out@) =~= before.push(g as nat));
            },
            None => {
                proof {
                    assert(groups_of(all.take(i as int + 1), false) is None);
                    lemma_groups_prefix(all, i as int + 1, v4);
                }
                return None;
            },
        }
        i += 1;
    }
    let last: &str = pieces[pieces.len() - 1];
    let ghost before = group_values(out@);
    proof {
        assert(all.drop_last() =~= all.take(i as int));
        assert(all.last() == last@);
    }
    match parse_hex_group(last) {
        Some(g) => {
            out.push(g);
            assert(group_values(out@) =~= before.push(g as nat));
            Some(out)
        },
        None => {
            if !v4 {
                return None;
            }
            match parse_ipv4(last) {
                Some(n) => {
                    out.push((n / 65536) as u16);
                    out.push((n % 65536) as u16);
                    assert(group_values(out@) =~= before.push(n as nat / 65536).push(
                        n as nat % 65536,
                    ));
                    Some(out)
                },
                None => None,
            }
        },
    }
}

fn parse_side(s: &str, v4: bool) -> (r: Option<Vec<u16>>)
    ensures
        match r {
            Some(v) => side_groups(s@, v4) == Some(group_values(v@)),
            None => side_groups(s@, v4) is None,
        },
{
    if s.unicode_len() == 0 {
        let out: Vec<u16> = Vec::new();
        assert(group_values(out@) =~= Seq::<nat>::empty());
        Some(out)
    } else {
        let pieces = split(s, ':');
        proof {
            lemma_split_on_len(s@, ':');
        }
        parse_groups(&pieces, v4)
    }
}

fn parse_ipv6_groups(s: &str) -> (r: Option<Vec<u16>>)
    ensures
        match r {
            Some(v) => ipv6_groups(s@) == Some(group_values(v@)) && v.len() == 8,
            None => ipv6_groups(s@) is None,
        },
{
    proof {
        reveal_strlit("::");
    }
    match find(s, "::") {
        Some(i) => {
            let n = s.unicode_len();
            let before = s.substring_char(0, i);
            let behind = s.substring_char(i + 2, n);
            proof {
                assert(before@ =~= s@.take(i as int));
                assert(behind@ =~= s@.skip(i + 2));
            }
            match (parse_side(before, false), parse_side(behind, true)) {
                (Some(head), Some(tail)) => {
                    if head.len() > 7 || tail.len() > 7 || head.len() + tail.len() > 7 {
                        return None;
                    }
                    let mut all: Vec<u16> = head;
                    let zeros: usize = 8 - all.len() - tail.len();
                    let ghost first = group_values(all@);
                    let mut k: usize = 0;
                    assert(group_values(all@) =~= first + zero_groups(0));
                    while k < zeros
                        invariant
                            k <= zeros,
                            group_values(all@) == first + zero_groups(k as nat),
                        decreases zeros - k,
                    {
                        let ghost before_push = group_values(all@);
                        all.push(0);
                        k += 1;
                        assert(group_values(all@) =~= before_push.push(0));
                        assert(group_values(all@) =~= first + zero_groups(k as nat));
                    }
                    let ghost middle = group_values(all@);
                    let ghost last = group_values(tail@);
                    k = 0;
                    assert(middle =~= middle + last.take(0));
                    while k < tail.len()
                        invariant
                            k <= tail.len(),
                            last == group_values(tail@),
                            group_values(all@) == middle + last.take(k as int),
                        decreases tail.len() - k,
                    {
                        let ghost before_push = group_values(all@);
                        all.push(tail[k]);
                        assert(group_values(all@) =~= before_push.push(last[k as int]));
                        k += 1;
                        assert(group_values(all@) =~= middle + last.take(k as int));
                    }
                    assert(last.take(k as int) =~= last);
                    assert(group_values(all@).len() == 8);
                    Some(all)
                },
                _ => None,
            }
        },
        None => {
            let pieces = split(s, ':');
            proof {
                lemma_split_on_len(s@, ':');
            }
            match parse_groups(&pieces, true) {
                Some(all) => if all.len() == 8 {
                    Some(all)
                } else {
                    assert(group_values(all@).len() != 8);
                    None
                },
                None => None,
            }
        },
    }
}

/// The value of an IPv6 address.
pub fn parse_ipv6(s: &str) -> (r: Option<u128>)
    ensures
        match r {
            Some(n) => ipv6_value(s@) == Some(n as nat),
            None => ipv6_value(s@) is None,
        },
{
    match parse_ipv6_groups(s) {
        Some(v) => {
            let mut value: u128 = 0;
            let ghost all = group_values(v@);
            let mut i: usize = 0;
            let mut bound: u128 = 0;
            while i < 8
                invariant
                    v.len() == 8,
                    all == group_values(v@),
                    i <= 8,
                    value == group_value(all.take(i as int)),
                    value <= bound,
                    bound == (if i == 0 {
                        0u128
                    } else if i == 1 {
                        0xffffu128
                    } else if i == 2 {
                        0xffff_ffffu128
                    } else if i == 3 {
                        0xffff_ffff_ffffu128
                    } else if i == 4 {
                        0xffff_ffff_ffff_ffffu128
                    } else if i == 5 {
                        0xffff_ffff_ffff_ffff_ffffu128
                    } else if i == 6 {
                        0xffff_ffff_ffff_ffff_ffff_ffffu128
                    } else if i == 7 {
                        0xffff_ffff_ffff_ffff_ffff_ffff_ffffu128
                    } else {
                        0xffff_ffff_ffff_ffff_ffff_ffff_ffff_ffffu128
                    }),
                decreases 8 - i,
            {
                proof {
                    assert(all.take(i as int + 1).drop_last() =~= all.take(i as int));
                    assert(all.take(i as int + 1).last() == v@[i as int] as nat);
                }
                value = value * 65536 + v[i] as u128;
                bound = bound * 65536 + 65535;
                i += 1;
            }
            assert(all.take(8) =~= all);
            Some(value)
        },
        None => None,
    }
}

// ---------------------------------------------------------------------------
// Subnets
// ---------------------------------------------------------------------------

/// Whether two addresses of 32 bits agree under the mask of a prefix: in their first `prefix`
/// bits. The mask of a prefix that is longer than an address is empty, as is that of length
/// zero, and all addresses agree under it.
pub open spec fn same_prefix32(a: u32, b: u32, prefix: nat) -> bool {
    prefix == 0 || prefix > 32 || (a >> ((32 - prefix) as u32)) == (b >> ((32 - prefix) as u32))
}

/// Whether two addresses of 128 bits agree under the mask of a prefix: in their first
/// `prefix` bits. The mask of a prefix that is longer than an address is empty, as is that of
/// length zero, and all addresses agree under it.
pub open spec fn same_prefix128(a: u128, b: u128, prefix: nat) -> bool {
    prefix == 0 || prefix > 128 || (a >> ((128 - prefix) as u128)) == (b >> ((128
        - prefix) as u128))
}

/// What stands before the first `/` of a subnet, and the number behind it.
pub open spec fn subnet_parts(subnet: Seq<char>) -> Option<(Seq<char>, nat)> {
    match find_text(subnet, "/"@) {
        Some(i) => match parsed_number(subnet.skip(i + 1), u32::MAX as nat) {
            Some(prefix) => Some((subnet.take(i), prefix)),
            None => None,
        },
        None => None,
    }
}

/// Whether an IPv4 address lies in a subnet of the form `address/prefix`.
pub open spec fn in_subnet4(ip: Seq<char>, subnet: Seq<char>) -> bool {
    match subnet_parts(subnet) {
        Some((net, prefix)) => match (ipv4_value(net), ipv4_value(ip)) {
            (Some(a), Some(b)) => same_prefix32(a as u32, b as u32, prefix),
            _ => false,
        },
        None => false,
    }
}

/// Whether an IPv6 address lies in a subnet of the form `address/prefix`.
pub open spec fn in_subnet6(ip: Seq<char>, subnet: Seq<char>) -> bool {
    match subnet_parts(subnet) {
        Some((net, prefix)) => match (ipv6_value(net), ipv6_value(ip)) {
            (Some(a), Some(b)) => same_prefix128(a as u128, b as u128, prefix),
            _ => false,
        },
        None => false,
    }
}

fn split_subnet<'a>(subnet: &'a str) -> (r: Option<(&'a str, u32)>)
    ensures
        match r {
            Some((net, prefix)) => subnet_parts(subnet@) == Some((net@, prefix as nat)),
            None => subnet_parts(subnet@) is None,
        },
{
    proof {
        reveal_strlit("/");
    }
    match find(subnet, "/") {
        Some(i) => {
            let n = subnet.unicode_len();
            let net = subnet.substring_char(0, i);
            let tail = subnet.substring_char(i + 1, n);
            proof {
                assert(net@ =~= subnet@.take(i as int));
                assert(tail@ =~= subnet@.skip(i + 1));
            }
            match parse_number(tail, u32::MAX) {
                Some(prefix) => Some((net, prefix)),
                None => None,
            }
        },
        None => None,
    }
}

/// Whether an IPv4 address lies in a subnet of the form `address/prefix`. A prefix
/// that is longer than an address masks nothing: every address lies in such a subnet.
pub fn ip4_in_subnet(ip: &str, subnet: &str) -> (r: bool)
    ensures
        r == in_subnet4(ip@, subnet@),
{
    match split_subnet(subnet) {
        Some((net, prefix)) => match (parse_ipv4(net), parse_ipv4(ip)) {
            (Some(a), Some(b)) => {
                if prefix == 0 || prefix > 32 {
                    true
                } else {
                    let shift: u32 = 32 - prefix;
                    (a >> shift) == (b >> shift)
                }
            },
            _ => false,
        },
        None => false,
    }
}

/// Whether an IPv6 address lies in a subnet of the form `address/prefix`. A prefix
/// that is longer than an address masks nothing: every address lies in such a subnet.
pub fn ip6_in_subnet(ip: &str, subnet: &str) -> (r: bool)
    ensures
        r == in_subnet6(ip@, subnet@),
{
    match split_subnet(subnet) {
        Some((net, prefix)) => match (parse_ipv6(net), parse_ipv6(ip)) {
            (Some(a), Some(b)) => {
                if prefix == 0 || prefix > 128 {
                    true
                } else {
                    let shift: u128 = 128 - prefix as u128;
                    (a >> shift) == (b >> shift)
                }
            },
            _ => false,
        },
        None => false,
    }
}

// ---------------------------------------------------------------------------
// What holds of addresses
// ---------------------------------------------------------------------------

/// Four numbers with dots between them.
pub open spec fn dotted(a: nat, b: nat, c: nat, d: nat) -> Seq<char> {
    decimal(a) + "."@ + decimal(b) + "."@ + decimal(c) + "."@ + decimal(d)
}

proof fn lemma_octet(n: nat)
    requires
        n < 256,
    ensures
        octet(decimal(n)) == Some(n),
        split_on(decimal(n), '.') == seq![decimal(n)],
        forall|i: int| 0 <= i < decimal(n).len() ==> #[trigger] decimal(n)[i] != '/',
{
    lemma_decimal(n);
    reveal_with_fuel(decimal, 4);
    let s = decimal(n);
    assert forall|i: int| 0 <= i < s.len() implies #[trigger] s[i] != '.' && s[i] != '/' by {
        assert(is_digit(s[i]));
    }
    lemma_split_single(s, '.');
}

/// An IPv4 address is read as it is written: its four numbers are its bytes.
pub proof fn law_dotted_addresses_are_read(a: nat, b: nat, c: nat, d: nat)
    requires
        a < 256,
        b < 256,
        c < 256,
        d < 256,
    ensures
        ipv4_value(dotted(a, b, c, d)) == Some(a * 16777216 + b * 65536 + c * 256 + d),
{
    lemma_octet(a);
    lemma_octet(b);
    lemma_octet(c);
    lemma_octet(d);
    reveal_strlit(".");
    let dot = seq!['.'];
    assert("."@ =~= dot);
    let two = decimal(a) + dot + decimal(b);
    let three = two + dot + decimal(c);
    lemma_split_sum(decimal(a), decimal(b), '.');
    lemma_split_sum(two, decimal(c), '.');
    lemma_split_sum(three, decimal(d), '.');
    assert(dotted(a, b, c, d) == three + dot + decimal(d));
    let p = split_on(dotted(a, b, c, d), '.');
    assert(p =~= seq![decimal(a), decimal(b), decimal(c), decimal(d)]);
    assert(p[0] == decimal(a) && p[1] == decimal(b) && p[2] == decimal(c) && p[3] == decimal(d));
}

/// A subnet is a block of addresses: an address lies in it where both have the same number
/// once the bits behind the prefix are cut off. A prefix of zero, or one that is longer than
/// an address, takes in every address.
pub proof fn law_subnets_are_blocks(
    ip: (nat, nat, nat, nat),
    net: (nat, nat, nat, nat),
    prefix: nat,
)
    requires
        ip.0 < 256 && ip.1 < 256 && ip.2 < 256 && ip.3 < 256,
        net.0 < 256 && net.1 < 256 && net.2 < 256 && net.3 < 256,
        prefix <= u32::MAX,
    ensures
        in_subnet4(
            dotted(ip.0, ip.1, ip.2, ip.3),
            dotted(net.0, net.1, net.2, net.3) + "/"@ + decimal(prefix),
        ) <==> prefix == 0 || prefix > 32 || (ip.0 * 16777216 + ip.1 * 65536 + ip.2 * 256 + ip.3)
            / vstd::arithmetic::power2::pow2((32 - prefix) as nat) == (net.0 * 16777216 + net.1 * 65536
            + net.2 * 256 + net.3) / vstd::arithmetic::power2::pow2((32 - prefix) as nat),
{
    law_dotted_addresses_are_read(ip.0, ip.1, ip.2, ip.3);
    law_dotted_addresses_are_read(net.0, net.1, net.2, net.3);
    let a = dotted(net.0, net.1, net.2, net.3);
    let subnet = a + "/"@ + decimal(prefix);
    lemma_octet(net.0);
    lemma_octet(net.1);
    lemma_octet(net.2);
    lemma_octet(net.3);
    reveal_strlit(".");
    reveal_strlit("/");
    assert forall|i: int| 0 <= i < a.len() implies #[trigger] a[i] != '/' by {
        lemma_dotted_chars(net.0, net.1, net.2, net.3, i);
    }
    lemma_slash_found(a, decimal(prefix));
    law_decimal_round_trip(prefix, u32::MAX as nat);
    assert(subnet.take(a.len() as int) =~= a);
    assert(subnet.skip(a.len() as int + 1) =~= decimal(prefix));
    let x = (ip.0 * 16777216 + ip.1 * 65536 + ip.2 * 256 + ip.3) as u32;
    let y = (net.0 * 16777216 + net.1 * 65536 + net.2 * 256 + net.3) as u32;
    if 0 < prefix <= 32 {
        vstd::bits::lemma_u32_shr_is_div(x, (32 - prefix) as u32);
        vstd::bits::lemma_u32_shr_is_div(y, (32 - prefix) as u32);
    }
}

proof fn lemma_dotted_chars(a: nat, b: nat, c: nat, d: nat, i: int)
    requires
        a < 256,
        b < 256,
        c < 256,
        d < 256,
        0 <= i < dotted(a, b, c, d).len(),
    ensures
        dotted(a, b, c, d)[i] != '/',
{
    lemma_octet(a);
    lemma_octet(b);
    lemma_octet(c);
    lemma_octet(d);
    reveal_strlit(".");
    let x = decimal(a) + "."@;
    let y = x + decimal(b) + "."@;
    let z = y + decimal(c) + "."@;
    if i < x.len() {
        assert(dotted(a, b, c, d)[i] == x[i]);
    } else if i < y.len() {
        assert(dotted(a, b, c, d)[i] == y[i]);
    } else if i < z.len() {
        assert(dotted(a, b, c, d)[i] == z[i]);
    } else {
        assert(dotted(a, b, c, d)[i] == decimal(d)[i - z.len()]);
    }
}

/// The first slash stands behind a text that has none.
proof fn lemma_slash_found(a: Seq<char>, b: Seq<char>)
    requires
        forall|i: int| 0 <= i < a.len() ==> #[trigger] a[i] != '/',
    ensures
        find_text(a + "/"@ + b, "/"@) == Some(a.len() as int),
{
    reveal_strlit("/");
    let s = a + "/"@ + b;
    assert(s.subrange(a.len() as int, a.len() as int + 1) =~= "/"@);
    assert forall|j: int| 0 <= j < a.len() implies #[trigger] s[j] != "/"@[0] by {
        assert(s[j] == a[j]);
    }
    lemma_find_at(s, "/"@, a.len() as int);
}

} // verus!
