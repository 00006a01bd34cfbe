//! Putting rows of joined tables together.

use crate::lines::{add_line, copy_lines, flat, lemma_views_push};
use crate::models::nft::{NftServiceDef, NftSubnetGroup, ServiceModel, SubnetGroupModel};
use crate::text::{has_text, holds_text, same, views};
use vstd::prelude::*;
use vstd::string::*;

verus! {

/// A row that joins a named record with one of its items: a group with a subnet, or a
/// service with a port.
#[derive(Debug, Clone)]
pub struct JoinedRow {
    pub id: i64,
    pub name: String,
    pub description: String,
    /// The subnet or the port; nothing where the record has none.
    pub item: Option<String>,
    /// The address family of the subnet, or the protocol of the port.
    pub kind: Option<String>,
}

/// A record with its items of two kinds.
pub struct RecordModel {
    pub id: int,
    pub name: Seq<char>,
    pub description: Seq<char>,
    pub first: Seq<Seq<char>>,
    pub second: Seq<Seq<char>>,
}

/// The position of the record of an identifier, from `i` on.
pub open spec fn record_of_id(v: Seq<RecordModel>, id: int, i: int) -> Option<int>
    decreases v.len() - i,
{
    if i < 0 || i >= v.len() {
        None
    } else if v[i].id == id {
        Some(i)
    } else {
        record_of_id(v, id, i + 1)
    }
}

/// A record with the item of a row: among the first where the row has that kind, among the
/// second otherwise.
pub open spec fn with_item(r: RecordModel, row: JoinedRow, first_kind: Seq<char>) -> RecordModel {
    match (row.item, row.kind) {
        (Some(item), Some(kind)) => if kind@ == first_kind {
            RecordModel { first: r.first.push(item@), ..r }
        } else {
            RecordModel { second: r.second.push(item@), ..r }
        },
        _ => r,
    }
}

/// The records that rows join, in the order in which they first occur.
pub open spec fn joined_records(rows: Seq<JoinedRow>, first_kind: Seq<char>) -> Seq<RecordModel>
    decreases rows.len(),
{
    if rows.len() == 0 {
        Seq::empty()
    } else {
        let front = joined_records(rows.drop_last(), first_kind);
        let row = rows.last();
        match record_of_id(front, row.id as int, 0) {
            Some(k) => front.update(k, with_item(front[k], row, first_kind)),
            None => front.push(
                with_item(
                    RecordModel {
                        id: row.id as int,
                        name: row.name@,
                        description: row.description@,
                        first: Seq::empty(),
                        second: Seq::empty(),
                    },
                    row,
                    first_kind,
                ),
            ),
        }
    }
}

struct Record {
    id: i64,
    name: String,
    description: String,
    first: Vec<String>,
    second: Vec<String>,
}

impl View for Record {
    type V = RecordModel;

    closed spec fn view(&self) -> RecordModel {
        RecordModel {
            id: self.id as int,
            name: self.name@,
            description: self.description@,
            first: views(self.first@),
            second: views(self.second@),
        }
    }
}

fn find_id(v: &Vec<Record>, id: i64) -> (r: Option<usize>)
    ensures
        match r {
            Some(k) => k < v.len() && record_of_id(views(v@), id as int, 0) == Some(k as int),
            None => record_of_id(views(v@), id as int, 0) is None,
        },
{
    let ghost all = views(v@);
    let mut i: usize = 0;
    while i < v.len()
        invariant
            all == views(v@),
            i <= v.len(),
            record_of_id(all, id as int, 0) == record_of_id(all, id as int, i as int),
        decreases v.len() - i,
    {
        assert(all[i as int] == v@[i as int]@);
        if v[i].id == id {
            return Some(i);
        }
        i += 1;
    }
    None
}

fn add_item(r: &mut Record, row: &JoinedRow, first_kind: &str)
    ensures
        final(r)@ == with_item(old(r)@, *row, first_kind@),
{
    if let Some(item) = &row.item {
        if let Some(kind) = &row.kind {
            if same(kind.as_str(), first_kind) {
                add_line(&mut r.first, item.as_str());
            } else {
                add_line(&mut r.second, item.as_str());
            }
        }
    }
}

fn join_rows(rows: &Vec<JoinedRow>, first_kind: &str) -> (r: Vec<Record>)
    ensures
        views(r@) == joined_records(rows@, first_kind@),
{
    let mut out: Vec<Record> = Vec::new();
    let mut i: usize = 0;
    assert(views(out@) =~= Seq::<RecordModel>::empty());
    while i < rows.len()
        invariant
            i <= rows.len(),
            views(out@) == joined_records(rows@.take(i as int), first_kind@),
        decreases rows.len() - i,
    {
        proof {
            assert(rows@.take(i as int + 1).drop_last() =~= rows@.take(i as int));
            assert(rows@.take(i as int + 1).last() == rows@[i as int]);
        }
        let row = &rows[i];
        let ghost all = views(out@);
        match find_id(&out, row.id) {
            Some(k) => {
                let mut record = Record {
                    id: out[k].id,
                    name: out[k].name.clone(),
                    description: out[k].description.clone(),
                    first: copy_lines(&out[k].first),
                    second: copy_lines(&out[k].second),
                };
                assert(all[k as int] == out@[k as int]@);
                add_item(&mut record, row, first_kind);
                let ghost item = record@;
                out.set(k, record);
                assert(views(out@) =~= all.update(k as int, item));
            },
            None => {
                let mut record = Record {
                    id: row.id,
                    name: row.name.clone(),
                    description: row.description.clone(),
                    first: Vec::new(),
                    second: Vec::new(),
                };
                assert(record@.first =~= Seq::<Seq<char>>::empty());
                assert(record@.second =~= Seq::<Seq<char>>::empty());
                add_item(&mut record, row, first_kind);
                proof {
                    lemma_views_push(out@, record);
                }
                out.push(record);
            },
        }
        i += 1;
    }
    assert(rows@.take(i as int) =~= rows@);
    out
}

/// A group of subnets of a record.
pub open spec fn group_of_record(r: RecordModel) -> SubnetGroupModel {
    SubnetGroupModel {
        id: r.id,
        name: r.name,
        description: r.description,
        cidrs_v4: r.first,
        cidrs_v6: r.second,
    }
}

/// A service of a record.
pub open spec fn service_of_record(r: RecordModel) -> ServiceModel {
    ServiceModel {
        id: r.id,
        name: r.name,
        description: r.description,
        tcp_ports: r.first,
        udp_ports: r.second,
    }
}

/// The groups of subnets that rows join: a subnet of the family `v4` is an IPv4 one.
pub fn list_nft_subnet_groups(rows: &Vec<JoinedRow>) -> (r: Vec<NftSubnetGroup>)
    ensures
        views(r@) == joined_records(rows@, "v4"@).map_values(|x: RecordModel| group_of_record(x)),
{
    let records = join_rows(rows, "v4");
    let ghost all = joined_records(rows@, "v4"@).map_values(|x: RecordModel| group_of_record(x));
    let mut out: Vec<NftSubnetGroup> = Vec::new();
    let mut i: usize = 0;
    while i < records.len()
        invariant
            i <= records.len(),
            views(records@) == joined_records(rows@, "v4"@),
            all == joined_records(rows@, "v4"@).map_values(|x: RecordModel| group_of_record(x)),
            views(out@) =~= all.take(i as int),
        decreases records.len() - i,
    {
        let record = &records[i];
        let group = NftSubnetGroup {
            id: record.id,
            name: record.name.clone(),
            description: record.description.clone(),
            cidrs_v4: copy_lines(&record.first),
            cidrs_v6: copy_lines(&record.second),
        };
        proof {
            lemma_views_push(out@, group);
            assert(views(records@)[i as int] == record@);
            assert(all[i as int] == group@);
        }
        out.push(group);
        i += 1;
    }
    assert(views(out@) =~= all);
    out
}

/// The services that rows join: a port of the protocol `tcp` is a TCP one.
pub fn list_nft_services(rows: &Vec<JoinedRow>) -> (r: Vec<NftServiceDef>)
    ensures
        views(r@) == joined_records(rows@, "tcp"@).map_values(
            |x: RecordModel| service_of_record(x),
        ),
{
    let records = join_rows(rows, "tcp");
    let ghost all = joined_records(rows@, "tcp"@).map_values(
        |x: RecordModel| service_of_record(x),
    );
    let mut out: Vec<NftServiceDef> = Vec::new();
    let mut i: usize = 0;
    while i < records.len()
        invariant
            i <= records.len(),
            views(records@) == joined_records(rows@, "tcp"@),
            all == joined_records(rows@, "tcp"@).map_values(|x: RecordModel| service_of_record(x)),
            views(out@) =~= all.take(i as int),
        decreases records.len() - i,
    {
        let record = &records[i];
        let service = NftServiceDef {
            id: record.id,
            name: record.name.clone(),
            description: record.description.clone(),
            tcp_ports: copy_lines(&record.first),
            udp_ports: copy_lines(&record.second),
        };
        proof {
            lemma_views_push(out@, service);
            assert(views(records@)[i as int] == record@);
            assert(all[i as int] == service@);
        }
        out.push(service);
        i += 1;
    }
    assert(views(out@) =~= all);
    out
}

/// The groups whose names are listed, in the order of the groups.
pub open spec fn groups_by_names(all: Seq<NftSubnetGroup>, names: Seq<String>) -> Seq<
    NftSubnetGroup,
>
    decreases all.len(),
{
    if all.len() == 0 {
        Seq::empty()
    } else if has_text(names, all.last().name@) {
        groups_by_names(all.drop_last(), names).push(all.last())
    } else {
        groups_by_names(all.drop_last(), names)
    }
}

/// The services whose names are listed, in the order of the services.
pub open spec fn services_by_names(all: Seq<NftServiceDef>, names: Seq<String>) -> Seq<
    NftServiceDef,
>
    decreases all.len(),
{
    if all.len() == 0 {
        Seq::empty()
    } else if has_text(names, all.last().name@) {
        services_by_names(all.drop_last(), names).push(all.last())
    } else {
        services_by_names(all.drop_last(), names)
    }
}

/// The groups whose names are listed.
pub fn get_nft_subnet_groups_by_names(groups: Vec<NftSubnetGroup>, names: &Vec<String>) -> (r: Vec<
    NftSubnetGroup,
>)
    ensures
        r@ == groups_by_names(groups@, names@),
{
    let ghost all = groups@;
    let mut rest = groups;
    let mut out: Vec<NftSubnetGroup> = Vec::new();
    let total = rest.len();
    let mut i: usize = 0;
    assert(rest@ =~= all.skip(0));
    while i < total
        invariant
            i <= total,
            total == all.len(),
            rest@ == all.skip(i as int),
            out@ == groups_by_names(all.take(i as int), names@),
        decreases total - i,
    {
        proof {
            assert(all.take(i as int + 1).drop_last() =~= all.take(i as int));
            assert(all.take(i as int + 1).last() == all[i as int]);
        }
        let ghost before = rest@;
        let group = rest.remove(0);
        assert(rest@ =~= before.skip(1));
        assert(before.skip(1) =~= all.skip(i as int + 1));
        if holds_text(names, group.name.as_str()) {
            out.push(group);
        }
        i += 1;
    }
    assert(all.take(i as int) =~= all);
    out
}

/// The services whose names are listed.
pub fn get_nft_services_by_names(services: Vec<NftServiceDef>, names: &Vec<String>) -> (r: Vec<
    NftServiceDef,
>)
    ensures
        r@ == services_by_names(services@, names@),
{
    let ghost all = services@;
    let mut rest = services;
    let mut out: Vec<NftServiceDef> = Vec::new();
    let total = rest.len();
    let mut i: usize = 0;
    assert(rest@ =~= all.skip(0));
    while i < total
        invariant
            i <= total,
            total == all.len(),
            rest@ == all.skip(i as int),
            out@ == services_by_names(all.take(i as int), names@),
        decreases total - i,
    {
        proof {
            assert(all.take(i as int + 1).drop_last() =~= all.take(i as int));
            assert(all.take(i as int + 1).last() == all[i as int]);
        }
        let ghost before = rest@;
        let service = rest.remove(0);
        assert(rest@ =~= before.skip(1));
        assert(before.skip(1) =~= all.skip(i as int + 1));
        if holds_text(names, service.name.as_str()) {
            out.push(service);
        }
        i += 1;
    }
    assert(all.take(i as int) =~= all);
    out
}

// ---------------------------------------------------------------------------
// What holds of the records
// ---------------------------------------------------------------------------

/// Whether one of the names is that of the group.
pub open spec fn names_group(names: Seq<String>) -> spec_fn(NftSubnetGroup) -> bool {
    |g: NftSubnetGroup| exists|k: int| 0 <= k < names.len() && (#[trigger] names[k])@ == g.name@
}

/// Whether one of the names is that of the service.
pub open spec fn names_service(names: Seq<String>) -> spec_fn(NftServiceDef) -> bool {
    |s: NftServiceDef| exists|k: int| 0 <= k < names.len() && (#[trigger] names[k])@ == s.name@
}

/// The groups of some names are those that have one of them, all of them and in their order.
pub proof fn law_groups_are_found_by_name(all: Seq<NftSubnetGroup>, names: Seq<String>)
    ensures
        groups_by_names(all, names) == all.filter(names_group(names)),
    decreases all.len(),
{
    reveal(Seq::filter);
    if all.len() > 0 {
        law_groups_are_found_by_name(all.drop_last(), names);
        assert(has_text(names, all.last().name@) == names_group(names)(all.last()));
    } else {
        assert(all.filter(names_group(names)) =~= Seq::<NftSubnetGroup>::empty());
    }
}

/// The services of some names are those that have one of them, all of them and in their order.
pub proof fn law_services_are_found_by_name(all: Seq<NftServiceDef>, names: Seq<String>)
    ensures
        services_by_names(all, names) == all.filter(names_service(names)),
    decreases all.len(),
{
    reveal(Seq::filter);
    if all.len() > 0 {
        law_services_are_found_by_name(all.drop_last(), names);
        assert(has_text(names, all.last().name@) == names_service(names)(all.last()));
    } else {
        assert(all.filter(names_service(names)) =~= Seq::<NftServiceDef>::empty());
    }
}

/// The items of one record among the rows: those of its identifier, of the one kind or of the
/// others.
pub open spec fn items_of_record(
    id: int,
    first_kind: Seq<char>,
    first: bool,
) -> spec_fn(JoinedRow) -> Seq<Seq<char>> {
    |row: JoinedRow|
        if row.id == id && row.item is Some && row.kind is Some && (row.kind->0@ == first_kind)
            == first {
            seq![row.item->0@]
        } else {
            Seq::empty()
        }
}

proof fn lemma_record_of_id(v: Seq<RecordModel>, id: int, i: int)
    requires
        0 <= i <= v.len(),
        forall|k: int| 0 <= k < i ==> (#[trigger] v[k]).id != id,
    ensures
        match record_of_id(v, id, i) {
            Some(k) => 0 <= k < v.len() && v[k].id == id,
            None => forall|k: int| 0 <= k < v.len() ==> (#[trigger] v[k]).id != id,
        },
    decreases v.len() - i,
{
    if i < v.len() && v[i].id != id {
        lemma_record_of_id(v, id, i + 1);
    }
}

/// No item gets lost where no row has the identifier.
proof fn lemma_no_items(rows: Seq<JoinedRow>, id: int, first_kind: Seq<char>, first: bool)
    requires
        forall|i: int| 0 <= i < rows.len() ==> (#[trigger] rows[i]).id != id,
    ensures
        flat(rows, items_of_record(id, first_kind, first)) == Seq::<Seq<char>>::empty(),
    decreases rows.len(),
{
    if rows.len() > 0 {
        let front = rows.drop_last();
        assert forall|i: int| 0 <= i < front.len() implies (#[trigger] front[i]).id != id by {
            assert(front[i] == rows[i]);
        }
        lemma_no_items(front, id, first_kind, first);
        assert(rows[rows.len() - 1].id != id);
        assert(flat(rows, items_of_record(id, first_kind, first)) =~= Seq::<Seq<char>>::empty());
    }
}

/// Rows that were joined come apart again: there is one record for each identifier of a row,
/// with the items of all rows of that identifier, in their order and each with its kind.
#[verifier::rlimit(60)]
pub proof fn law_joined_rows_come_apart(rows: Seq<JoinedRow>, first_kind: Seq<char>)
    ensures
        forall|k: int|
            0 <= k < joined_records(rows, first_kind).len() ==> {
                let r = #[trigger] joined_records(rows, first_kind)[k];
                &&& r.first == flat(rows, items_of_record(r.id, first_kind, true))
                &&& r.second == flat(rows, items_of_record(r.id, first_kind, false))
                &&& exists|i: int|
                    0 <= i < rows.len() && (#[trigger] rows[i]).id == r.id && rows[i].name@ == r.name
                        && rows[i].description@ == r.description
            },
        forall|i: int|
            0 <= i < rows.len() ==> exists|k: int|
                0 <= k < joined_records(rows, first_kind).len() && (
                #[trigger] joined_records(rows, first_kind)[k]).id == (#[trigger] rows[i]).id,
        forall|j: int, k: int|
            0 <= j < k < joined_records(rows, first_kind).len() ==> (
            #[trigger] joined_records(rows, first_kind)[j]).id != (
            #[trigger] joined_records(rows, first_kind)[k]).id,
    decreases rows.len(),
{
    if rows.len() > 0 {
        let before = rows.drop_last();
        let front = joined_records(before, first_kind);
        let all = joined_records(rows, first_kind);
        let row = rows.last();
        law_joined_rows_come_apart(before, first_kind);
        lemma_record_of_id(front, row.id as int, 0);
        assert forall|k: int| 0 <= k < all.len() implies {
            let r = #[trigger] all[k];
            &&& r.first == flat(rows, items_of_record(r.id, first_kind, true))
            &&& r.second == flat(rows, items_of_record(r.id, first_kind, false))
            &&& exists|i: int|
                0 <= i < rows.len() && (#[trigger] rows[i]).id == r.id && rows[i].name@ == r.name
                    && rows[i].description@ == r.description
        } by {
            let r = all[k];
            if k < front.len() {
                let old = front[k];
                assert(old.id == r.id && old.name == r.name && old.description == r.description);
                let i = choose|i: int|
                    0 <= i < before.len() && (#[trigger] before[i]).id == old.id && before[i].name@
                        == old.name && before[i].description@ == old.description;
                assert(rows[i] == before[i]);
                assert(r.first =~= flat(rows, items_of_record(r.id, first_kind, true)));
                assert(r.second =~= flat(rows, items_of_record(r.id, first_kind, false)));
            } else {
                assert forall|i: int| 0 <= i < before.len() implies (#[trigger] before[i]).id
                    != row.id by {
                    let m = choose|m: int|
                        0 <= m < front.len() && (#[trigger] front[m]).id == before[i].id;
                    assert(front[m].id != row.id);
                }
                lemma_no_items(before, row.id as int, first_kind, true);
                lemma_no_items(before, row.id as int, first_kind, false);
                assert(rows[rows.len() - 1].id == r.id);
                assert(r.first =~= flat(rows, items_of_record(r.id, first_kind, true)));
                assert(r.second =~= flat(rows, items_of_record(r.id, first_kind, false)));
            }
        }
        assert forall|i: int| 0 <= i < rows.len() implies exists|k: int|
            0 <= k < all.len() && (#[trigger] all[k]).id == (#[trigger] rows[i]).id by {
            if i < before.len() {
                assert(rows[i] == before[i]);
                let m = choose|m: int|
                    0 <= m < front.len() && (#[trigger] front[m]).id == before[i].id;
                assert(all[m].id == front[m].id);
            } else {
                match record_of_id(front, row.id as int, 0) {
                    Some(m) => assert(all[m].id == row.id),
                    None => assert(all[front.len() as int].id == row.id),
                }
            }
        }
    }
}

} // verus!
