//! The interfaces of nodes from what `ip -j addr show` prints.

use crate::db::{DbNodeInterface, InterfaceModel};
use crate::json::{
    Json, JsonModel, ListError, array_of, as_items, as_number, as_text, at, items_of, member,
    model_of, number_of, parsed_json, read_json, text_at_or,
};
use crate::lines::{flat, lemma_flat_take, lemma_views_push};
use crate::res_file::or_text;
use crate::text::{same, starts_with, views};
use vstd::prelude::*;
use vstd::string::*;

verus! {

/// Whether an interface is a loopback, bridge, tunnel or other virtual one.
pub open spec fn is_virtual(name: Seq<char>) -> bool {
    "lo"@.is_prefix_of(name) || "virbr"@.is_prefix_of(name) || "docker"@.is_prefix_of(name)
        || "br-"@.is_prefix_of(name) || "veth"@.is_prefix_of(name) || "dummy"@.is_prefix_of(name)
        || "tunl"@.is_prefix_of(name) || "sit"@.is_prefix_of(name)
}

/// Whether an address is recorded: one of a known family that is not link-local.
pub open spec fn is_recorded(family: Seq<char>, ip: Seq<char>) -> bool {
    (family == "inet"@ || family == "inet6"@) && ip.len() > 0 && !(family == "inet6"@
        && "fe80"@.is_prefix_of(ip))
}

/// The record of an address of an interface.
pub open spec fn address_record(hostname: Seq<char>, interface: Seq<char>) -> spec_fn(
    JsonModel,
) -> Seq<InterfaceModel> {
    |addr: JsonModel|
        {
            let family = or_text(as_text(member(addr, "family"@)), ""@);
            let ip = or_text(as_text(member(addr, "local"@)), ""@);
            if is_recorded(family, ip) {
                seq![
                    InterfaceModel {
                        id: 0,
                        hostname,
                        interface,
                        ip,
                        prefix_len: match as_number(member(addr, "prefixlen"@)) {
                            Some(n) => n % 256,
                            None => 0,
                        },
                        family,
                        created_at: ""@,
                    },
                ]
            } else {
                Seq::empty()
            }
        }
}

/// The records of the addresses of an interface; none of a virtual one.
pub open spec fn interface_records(hostname: Seq<char>) -> spec_fn(JsonModel) -> Seq<
    InterfaceModel,
> {
    |iface: JsonModel|
        {
            let name = or_text(as_text(member(iface, "ifname"@)), ""@);
            if name.len() == 0 || is_virtual(name) {
                Seq::empty()
            } else {
                flat(items_of(member(iface, "addr_info"@)), address_record(hostname, name))
            }
        }
}

/// Whether an interface is a loopback, bridge, tunnel or other virtual one.
pub fn is_virtual_iface(name: &str) -> (r: bool)
    ensures
        r == is_virtual(name@),
{
    starts_with(name, "lo") || starts_with(name, "virbr") || starts_with(name, "docker")
        || starts_with(name, "br-") || starts_with(name, "veth") || starts_with(name, "dummy")
        || starts_with(name, "tunl") || starts_with(name, "sit")
}

fn read_address(hostname: &str, interface: &str, addr: &Json) -> (r: Option<DbNodeInterface>)
    ensures
        match r {
            Some(d) => address_record(hostname@, interface@)(addr@) == seq![d@],
            None => address_record(hostname@, interface@)(addr@) == Seq::<InterfaceModel>::empty(),
        },
{
    let this = Some(addr);
    let family = text_at_or(this, "family", "");
    let ip = text_at_or(this, "local", "");
    let prefix_len: u8 = match number_of(at(this, "prefixlen")) {
        Some(n) => (n % 256) as u8,
        None => 0,
    };
    let inet6 = same(family, "inet6");
    if (same(family, "inet") || inet6) && ip.unicode_len() > 0 && !(inet6 && starts_with(
        ip,
        "fe80",
    )) {
        Some(
            DbNodeInterface {
                id: 0,
                hostname: hostname.to_owned(),
                interface: interface.to_owned(),
                ip: ip.to_owned(),
                prefix_len,
                family: family.to_owned(),
                created_at: "".to_owned(),
            },
        )
    } else {
        None
    }
}

fn read_addresses(hostname: &str, interface: &str, o: Option<&Json>) -> (r: Vec<DbNodeInterface>)
    ensures
        views(r@) == flat(items_of(model_of(o)), address_record(hostname@, interface@)),
{
    let mut out: Vec<DbNodeInterface> = Vec::new();
    assert(views(out@) =~= Seq::<InterfaceModel>::empty());
    if let Some(list) = array_of(o) {
        let ghost all = views(list@);
        let mut i: usize = 0;
        while i < list.len()
            invariant
                all == views(list@),
                i <= list.len(),
                views(out@) == flat(all.take(i as int), address_record(hostname@, interface@)),
            decreases list.len() - i,
        {
            let ghost seen = views(out@);
            proof {
                lemma_flat_take(all, address_record(hostname@, interface@), i as int);
                assert(all[i as int] == list@[i as int]@);
                assert(seen + Seq::<InterfaceModel>::empty() =~= seen);
            }
            if let Some(record) = read_address(hostname, interface, &list[i]) {
                proof {
                    lemma_views_push(out@, record);
                }
                out.push(record);
                assert(views(out@) =~= seen + seq![record@]);
            }
            i += 1;
        }
        assert(all.take(i as int) =~= all);
    }
    out
}

/// The records of the interfaces of a host.
pub fn read_interfaces(hostname: &str, list: &Vec<Json>) -> (r: Vec<DbNodeInterface>)
    ensures
        views(r@) == flat(views(list@), interface_records(hostname@)),
{
    let ghost all = views(list@);
    let mut out: Vec<DbNodeInterface> = Vec::new();
    let mut i: usize = 0;
    assert(views(out@) =~= Seq::<InterfaceModel>::empty());
    while i < list.len()
        invariant
            all == views(list@),
            i <= list.len(),
            views(out@) == flat(all.take(i as int), interface_records(hostname@)),
        decreases list.len() - i,
    {
        let ghost seen = views(out@);
        proof {
            lemma_flat_take(all, interface_records(hostname@), i as int);
            assert(all[i as int] == list@[i as int]@);
            assert(seen + Seq::<InterfaceModel>::empty() =~= seen);
        }
        let iface = Some(&list[i]);
        let name = text_at_or(iface, "ifname", "");
        if name.unicode_len() > 0 && !is_virtual_iface(name) {
            let mut more = read_addresses(hostname, name, at(iface, "addr_info"));
            let ghost kept = out@;
            let ghost added = more@;
            out.append(&mut more);
            assert(out@ == kept + added);
            assert(views(out@) =~= seen + views(added));
        }
        i += 1;
    }
    assert(all.take(i as int) =~= all);
    out
}

/// The records of the interfaces of a host, from what `ip -j addr show` prints there.
pub fn parse_ip_addr_json(hostname: &str, json: &str) -> (r: Result<
    Vec<DbNodeInterface>,
    ListError,
>)
    ensures
        match parsed_json(json@) {
            None => r matches Err(ListError::Syntax(_)),
            Some(data) => match as_items(data) {
                None => r matches Err(ListError::NotArray),
                Some(items) => r matches Ok(v) && views(v@) == flat(
                    items,
                    interface_records(hostname@),
                ),
            },
        },
{
    match read_json(json) {
        Ok(data) => match array_of(Some(&data)) {
            Some(list) => Ok(read_interfaces(hostname, list)),
            None => Err(ListError::NotArray),
        },
        Err(e) => Err(ListError::Syntax(e)),
    }
}

// ---------------------------------------------------------------------------
// What holds of the records
// ---------------------------------------------------------------------------

/// The text of a member, empty where it has none.
pub open spec fn text_of_member(j: JsonModel, key: Seq<char>) -> Seq<char> {
    match member(j, key) {
        JsonModel::Text(s) => s,
        _ => Seq::empty(),
    }
}

/// Whether an interface belongs to the machine itself.
pub open spec fn is_own_interface(name: Seq<char>) -> bool {
    &&& name.len() > 0
    &&& !"lo"@.is_prefix_of(name)
    &&& !"virbr"@.is_prefix_of(name)
    &&& !"docker"@.is_prefix_of(name)
    &&& !"br-"@.is_prefix_of(name)
    &&& !"veth"@.is_prefix_of(name)
    &&& !"dummy"@.is_prefix_of(name)
    &&& !"tunl"@.is_prefix_of(name)
    &&& !"sit"@.is_prefix_of(name)
}

/// Whether an address can be reached from other machines: an IPv4 address, or an IPv6 address
/// that is not bound to the link.
pub open spec fn is_reachable(addr: JsonModel) -> bool {
    let family = text_of_member(addr, "family"@);
    let ip = text_of_member(addr, "local"@);
    ip.len() > 0 && (family == "inet"@ || family == "inet6"@ && !"fe80"@.is_prefix_of(ip))
}

/// The record of an address.
pub open spec fn record_of_address(
    hostname: Seq<char>,
    interface: Seq<char>,
) -> spec_fn(JsonModel) -> InterfaceModel {
    |addr: JsonModel|
        InterfaceModel {
            id: 0,
            hostname,
            interface,
            ip: text_of_member(addr, "local"@),
            prefix_len: match as_number(member(addr, "prefixlen"@)) {
                Some(n) => n % 256,
                None => 0,
            },
            family: text_of_member(addr, "family"@),
            created_at: ""@,
        }
}

proof fn lemma_reachable(hostname: Seq<char>, interface: Seq<char>, addr: JsonModel)
    ensures
        address_record(hostname, interface)(addr) == if is_reachable(addr) {
            seq![record_of_address(hostname, interface)(addr)]
        } else {
            Seq::empty()
        },
{
    reveal_strlit("");
    reveal_strlit("inet");
    reveal_strlit("inet6");
    assert(text_of_member(addr, "family"@) =~= or_text(as_text(member(addr, "family"@)), ""@));
    assert(text_of_member(addr, "local"@) =~= or_text(as_text(member(addr, "local"@)), ""@));
}

pub open spec fn reachable() -> spec_fn(JsonModel) -> bool {
    |addr: JsonModel| is_reachable(addr)
}

proof fn lemma_address_records(hostname: Seq<char>, interface: Seq<char>, addrs: Seq<JsonModel>)
    ensures
        flat(addrs, address_record(hostname, interface)) == addrs.filter(reachable()).map_values(
            record_of_address(hostname, interface),
        ),
    decreases addrs.len(),
{
    reveal(Seq::filter);
    let f = record_of_address(hostname, interface);
    if addrs.len() > 0 {
        let front = addrs.drop_last();
        lemma_address_records(hostname, interface, front);
        lemma_reachable(hostname, interface, addrs.last());
        if is_reachable(addrs.last()) {
            assert(front.filter(reachable()).push(addrs.last()).map_values(f) =~= front.filter(
                reachable(),
            ).map_values(f) + seq![f(addrs.last())]);
        } else {
            assert(flat(front, address_record(hostname, interface)) + Seq::<InterfaceModel>::empty()
                =~= flat(front, address_record(hostname, interface)));
        }
    } else {
        assert(addrs.filter(reachable()).map_values(f) =~= Seq::<InterfaceModel>::empty());
    }
}

/// Every reachable address of an interface of the machine is recorded with its host, its
/// interface, its prefix and its family, in the order of the listing; other addresses and the
/// addresses of other interfaces are not.
pub proof fn law_reachable_addresses_are_recorded(hostname: Seq<char>, iface: JsonModel)
    ensures
        interface_records(hostname)(iface) == if is_own_interface(text_of_member(iface, "ifname"@)) {
            items_of(member(iface, "addr_info"@)).filter(reachable()).map_values(
                record_of_address(hostname, text_of_member(iface, "ifname"@)),
            )
        } else {
            Seq::empty()
        },
{
    reveal_strlit("");
    assert(text_of_member(iface, "ifname"@) =~= or_text(as_text(member(iface, "ifname"@)), ""@));
    lemma_address_records(
        hostname,
        text_of_member(iface, "ifname"@),
        items_of(member(iface, "addr_info"@)),
    );
}

} // verus!
