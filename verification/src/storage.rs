//! The DRBD resources that volumes can be put on, and what manages them.

use crate::db::DbDrbdResource;
use crate::json::{
    Json, JsonModel, array_of, as_flag, as_text, at, flag_of, items_of, listed_items, member,
    parsed_json, read_items, read_json, text_at, text_at_or,
};
use crate::lines::{add_line, copy_lines, flat, lemma_flat_take, lemma_views_push};
use crate::number::{parse_number, parsed_number};
use crate::res_file::or_text;
use crate::text::{has_text, holds_text, opt_view, rfind, rfind_text, same, views};
use vstd::prelude::*;
use vstd::string::*;

verus! {

/// A resource that a volume can be put on.
#[derive(Debug, Clone)]
pub struct VolumeSource {
    pub name: String,
    pub minor: Option<u32>,
    /// The volume group, where a resource file names one.
    pub lvm_vg: String,
    /// The storage pool, where LINSTOR manages the resource.
    pub storage_pool: String,
    pub nodes: Vec<String>,
    /// `linstor` or `file`.
    pub source: String,
}

/// What a [`VolumeSource`] holds.
pub struct SourceModel {
    pub name: Seq<char>,
    pub minor: Option<nat>,
    pub lvm_vg: Seq<char>,
    pub storage_pool: Seq<char>,
    pub nodes: Seq<Seq<char>>,
    pub source: Seq<char>,
}

/// An optional number.
pub open spec fn opt_number(o: Option<u32>) -> Option<nat> {
    match o {
        Some(n) => Some(n as nat),
        None => None,
    }
}

impl View for VolumeSource {
    type V = SourceModel;

    open spec fn view(&self) -> SourceModel {
        SourceModel {
            name: self.name@,
            minor: opt_number(self.minor),
            lvm_vg: self.lvm_vg@,
            storage_pool: self.storage_pool@,
            nodes: views(self.nodes@),
            source: self.source@,
        }
    }
}

// ---------------------------------------------------------------------------
// Resources of LINSTOR
// ---------------------------------------------------------------------------

/// The minor number that ends a device path.
pub open spec fn minor_of_path(path: Seq<char>) -> Option<nat> {
    match rfind_text(path, "/dev/drbd"@) {
        Some(i) => parsed_number(path.skip(i + 9), u32::MAX as nat),
        None => None,
    }
}

/// The minor number of the device of a volume.
pub open spec fn volume_minor(v: JsonModel) -> Option<nat> {
    match as_text(member(v, "device_path"@)) {
        Some(path) => minor_of_path(path),
        None => None,
    }
}

/// `s` with what a volume adds: its minor number and its storage pool, where they are not
/// known yet. A volume without a disk has no storage pool.
pub open spec fn with_volume(s: SourceModel, v: JsonModel) -> SourceModel {
    SourceModel {
        minor: if s.minor is None {
            volume_minor(v)
        } else {
            s.minor
        },
        storage_pool: if s.storage_pool.len() == 0 && as_text(member(v, "provider_kind"@)) != Some(
            "DISKLESS"@,
        ) {
            or_text(as_text(member(v, "storage_pool_name"@)), s.storage_pool)
        } else {
            s.storage_pool
        },
        ..s
    }
}

pub open spec fn with_volumes(s: SourceModel, volumes: Seq<JsonModel>) -> SourceModel
    decreases volumes.len(),
{
    if volumes.len() == 0 {
        s
    } else {
        with_volume(with_volumes(s, volumes.drop_last()), volumes.last())
    }
}

/// `s` with a node more, unless it is listed or has no name.
pub open spec fn with_listed_node(s: SourceModel, node: Seq<char>) -> SourceModel {
    if node.len() == 0 || s.nodes.contains(node) {
        s
    } else {
        SourceModel { nodes: s.nodes.push(node), ..s }
    }
}

/// `s` with what the placement of a resource on one node adds.
pub open spec fn with_placement(s: SourceModel, row: JsonModel) -> SourceModel {
    with_volumes(
        with_listed_node(s, or_text(as_text(member(row, "node_name"@)), ""@)),
        items_of(member(row, "volumes"@)),
    )
}

/// A resource of which nothing but the name is known.
pub open spec fn new_source(name: Seq<char>) -> SourceModel {
    SourceModel {
        name,
        minor: None,
        lvm_vg: ""@,
        storage_pool: ""@,
        nodes: Seq::empty(),
        source: "linstor"@,
    }
}

/// The position of a resource, from `i` on.
pub open spec fn source_from(m: Seq<SourceModel>, name: Seq<char>, i: int) -> Option<int>
    decreases m.len() - i,
{
    if i < 0 || i >= m.len() {
        None
    } else if m[i].name == name {
        Some(i)
    } else {
        source_from(m, name, i + 1)
    }
}

/// `m` with one more row: the placement of a resource on one node. A row without a name
/// is left out.
pub open spec fn with_row(m: Seq<SourceModel>, row: JsonModel) -> Seq<SourceModel> {
    match as_text(member(row, "name"@)) {
        Some(name) => match source_from(m, name, 0) {
            Some(i) => m.update(i, with_placement(m[i], row)),
            None => m.push(with_placement(new_source(name), row)),
        },
        None => m,
    }
}

/// The resources that rows list, in the order in which they first occur.
pub open spec fn grouped_rows(rows: Seq<JsonModel>) -> Seq<SourceModel>
    decreases rows.len(),
{
    if rows.len() == 0 {
        Seq::empty()
    } else {
        with_row(grouped_rows(rows.drop_last()), rows.last())
    }
}

fn read_minor_of_path(path: &str) -> (r: Option<u32>)
    ensures
        opt_number(r) == minor_of_path(path@),
{
    proof {
        reveal_strlit("/dev/drbd");
    }
    match rfind(path, "/dev/drbd") {
        Some(i) => {
            let n = path.unicode_len();
            let tail = path.substring_char(i + 9, n);
            assert(tail@ =~= path@.skip(i + 9));
            parse_number(tail, u32::MAX)
        },
        None => None,
    }
}

fn add_volume(s: &mut VolumeSource, v: &Json)
    ensures
        final(s)@ == with_volume(old(s)@, v@),
{
    let this = Some(v);
    if s.minor.is_none() {
        if let Some(path) = text_at(this, "device_path") {
            s.minor = read_minor_of_path(path);
        }
    }
    let diskless = match text_at(this, "provider_kind") {
        Some(kind) => same(kind, "DISKLESS"),
        None => false,
    };
    if s.storage_pool.as_str().unicode_len() == 0 && !diskless {
        if let Some(pool) = text_at(this, "storage_pool_name") {
            s.storage_pool = pool.to_owned();
        }
    }
}

proof fn lemma_contains_text(v: Seq<String>, s: Seq<char>)
    ensures
        views(v).contains(s) == has_text(v, s),
{
    if has_text(v, s) {
        let i = choose|i: int| 0 <= i < v.len() && #[trigger] v[i]@ == s;
        assert(views(v)[i] == s);
    }
    if views(v).contains(s) {
        let i = choose|i: int| 0 <= i < views(v).len() && views(v)[i] == s;
        assert(v[i]@ == s);
    }
}

fn add_placement(s: &mut VolumeSource, row: &Json)
    ensures
        final(s)@ == with_placement(old(s)@, row@),
{
    let this = Some(row);
    let node = text_at_or(this, "node_name", "");
    proof {
        lemma_contains_text(s.nodes@, node@);
    }
    if node.unicode_len() > 0 && !holds_text(&s.nodes, node) {
        add_line(&mut s.nodes, node);
    }
    let ghost start = s@;
    assert(start == with_listed_node(old(s)@, node@));
    if let Some(list) = array_of(at(this, "volumes")) {
        let ghost all = views(list@);
        let mut i: usize = 0;
        while i < list.len()
            invariant
                all == views(list@),
                i <= list.len(),
                s@ == with_volumes(start, all.take(i as int)),
            decreases list.len() - i,
        {
            proof {
                assert(all.take(i as int + 1).drop_last() =~= all.take(i as int));
                assert(all.take(i as int + 1).last() == list@[i as int]@);
            }
            add_volume(s, &list[i]);
            i += 1;
        }
        assert(all.take(i as int) =~= all);
    }
}

fn find_source(m: &Vec<VolumeSource>, name: &str) -> (r: Option<usize>)
    ensures
        match r {
            Some(i) => i < m.len() && source_from(views(m@), name@, 0) == Some(i as int),
            None => source_from(views(m@), name@, 0) is None,
        },
{
    let ghost all = views(m@);
    let mut i: usize = 0;
    while i < m.len()
        invariant
            all == views(m@),
            i <= m.len(),
            source_from(all, name@, 0) == source_from(all, name@, i as int),
        decreases m.len() - i,
    {
        assert(all[i as int] == m@[i as int]@);
        if same(m[i].name.as_str(), name) {
            return Some(i);
        }
        i += 1;
    }
    None
}

fn copy_source(s: &VolumeSource) -> (r: VolumeSource)
    ensures
        r@ == s@,
{
    VolumeSource {
        name: s.name.clone(),
        minor: s.minor,
        lvm_vg: s.lvm_vg.clone(),
        storage_pool: s.storage_pool.clone(),
        nodes: copy_lines(&s.nodes),
        source: s.source.clone(),
    }
}

fn add_row(m: &mut Vec<VolumeSource>, row: &Json)
    ensures
        views(final(m)@) == with_row(views(old(m)@), row@),
{
    let ghost all = views(m@);
    let name = match text_at(Some(row), "name") {
        Some(name) => name,
        None => {
            return ;
        },
    };
    match find_source(m, name) {
        Some(i) => {
            let mut s = copy_source(&m[i]);
            assert(all[i as int] == m@[i as int]@);
            add_placement(&mut s, row);
            let ghost item = s@;
            m.set(i, s);
            assert(views(m@) =~= all.update(i as int, item));
        },
        None => {
            let mut s = VolumeSource {
                name: name.to_owned(),
                minor: None,
                lvm_vg: "".to_owned(),
                storage_pool: "".to_owned(),
                nodes: Vec::new(),
                source: "linstor".to_owned(),
            };
            assert(s@.nodes =~= Seq::<Seq<char>>::empty());
            add_placement(&mut s, row);
            proof {
                lemma_views_push(m@, s);
            }
            m.push(s);
        },
    }
}

/// The resources that LINSTOR lists: its rows, one for each resource and node, grouped by
/// resource.
pub fn aggregate_linstor_rows(rows: &Vec<Json>) -> (r: Vec<VolumeSource>)
    ensures
        views(r@) == grouped_rows(views(rows@)),
{
    let ghost all = views(rows@);
    let mut out: Vec<VolumeSource> = Vec::new();
    let mut i: usize = 0;
    assert(views(out@) =~= Seq::<SourceModel>::empty());
    while i < rows.len()
        invariant
            all == views(rows@),
            i <= rows.len(),
            views(out@) == grouped_rows(all.take(i as int)),
        decreases rows.len() - i,
    {
        proof {
            assert(all.take(i as int + 1).drop_last() =~= all.take(i as int));
            assert(all.take(i as int + 1).last() == rows@[i as int]@);
        }
        add_row(&mut out, &rows[i]);
        i += 1;
    }
    assert(all.take(i as int) =~= all);
    out
}

/// No two resources have the same name.
pub open spec fn distinct_sources(m: Seq<SourceModel>) -> bool {
    forall|i: int, j: int|
        0 <= i < j < m.len() ==> (#[trigger] m[i]).name != (#[trigger] m[j]).name
}

proof fn lemma_volumes_keep_name(s: SourceModel, volumes: Seq<JsonModel>)
    ensures
        with_volumes(s, volumes).name == s.name,
    decreases volumes.len(),
{
    if volumes.len() > 0 {
        lemma_volumes_keep_name(s, volumes.drop_last());
    }
}

proof fn lemma_source_from(m: Seq<SourceModel>, name: Seq<char>, i: int)
    requires
        0 <= i,
    ensures
        match source_from(m, name, i) {
            Some(k) => i <= k < m.len() && m[k].name == name,
            None => forall|k: int| i <= k < m.len() ==> (#[trigger] m[k]).name != name,
        },
    decreases m.len() - i,
{
    if i < m.len() && m[i].name != name {
        lemma_source_from(m, name, i + 1);
    }
}

/// However many rows name a resource, it is listed once.
pub proof fn law_rows_are_grouped(rows: Seq<JsonModel>)
    ensures
        distinct_sources(grouped_rows(rows)),
    decreases rows.len(),
{
    if rows.len() > 0 {
        let m = grouped_rows(rows.drop_last());
        let row = rows.last();
        law_rows_are_grouped(rows.drop_last());
        if let Some(name) = as_text(member(row, "name"@)) {
            lemma_source_from(m, name, 0);
            match source_from(m, name, 0) {
                Some(i) => {
                    let s = with_listed_node(m[i], or_text(as_text(member(row, "node_name"@)), ""@));
                    lemma_volumes_keep_name(s, items_of(member(row, "volumes"@)));
                    assert(with_placement(m[i], row).name == m[i].name);
                },
                None => {
                    let s = with_listed_node(
                        new_source(name),
                        or_text(as_text(member(row, "node_name"@)), ""@),
                    );
                    lemma_volumes_keep_name(s, items_of(member(row, "volumes"@)));
                },
            }
        }
    }
}

/// A placement without a disk never supplies the storage pool.
pub proof fn law_diskless_supplies_no_pool(s: SourceModel, v: JsonModel)
    requires
        as_text(member(v, "provider_kind"@)) == Some("DISKLESS"@),
    ensures
        with_volume(s, v).storage_pool == s.storage_pool,
{
}

// ---------------------------------------------------------------------------
// Resources of files
// ---------------------------------------------------------------------------

/// The volume group of the first node on LVM, from position `i` on.
pub open spec fn first_vg(nodes: Seq<JsonModel>, i: int) -> Seq<char>
    decreases nodes.len() - i,
{
    if i < 0 || i >= nodes.len() {
        ""@
    } else if as_text(member(nodes[i], "disk_type"@)) == Some("lvm"@) {
        or_text(as_text(member(nodes[i], "lvm_vg"@)), ""@)
    } else {
        first_vg(nodes, i + 1)
    }
}

/// The name of a node, where it has one.
pub open spec fn node_hostname() -> spec_fn(JsonModel) -> Seq<Seq<char>> {
    |n: JsonModel|
        match as_text(member(n, "hostname"@)) {
            Some(s) => seq![s],
            None => Seq::empty(),
        }
}

/// A resource on record, with the nodes that its JSON lists.
pub open spec fn file_source(name: Seq<char>, minor: nat, nodes: Seq<JsonModel>) -> SourceModel {
    SourceModel {
        name,
        minor: Some(minor),
        lvm_vg: first_vg(nodes, 0),
        storage_pool: ""@,
        nodes: flat(nodes, node_hostname()),
        source: "file"@,
    }
}

fn find_vg(nodes: &Vec<Json>) -> (r: String)
    ensures
        r@ == first_vg(views(nodes@), 0),
{
    let ghost all = views(nodes@);
    let mut i: usize = 0;
    while i < nodes.len()
        invariant
            all == views(nodes@),
            i <= nodes.len(),
            first_vg(all, 0) == first_vg(all, i as int),
        decreases nodes.len() - i,
    {
        assert(all[i as int] == nodes@[i as int]@);
        let this = Some(&nodes[i]);
        let lvm = match text_at(this, "disk_type") {
            Some(t) => same(t, "lvm"),
            None => false,
        };
        if lvm {
            return text_at_or(this, "lvm_vg", "").to_owned();
        }
        i += 1;
    }
    "".to_owned()
}

/// The resource of a record and the nodes that are listed with it.
pub fn build_file_source(name: &str, minor: u32, nodes: &Vec<Json>) -> (r: VolumeSource)
    ensures
        r@ == file_source(name@, minor as nat, views(nodes@)),
{
    let ghost all = views(nodes@);
    let mut names: Vec<String> = Vec::new();
    let mut i: usize = 0;
    assert(views(names@) =~= Seq::<Seq<char>>::empty());
    while i < nodes.len()
        invariant
            all == views(nodes@),
            i <= nodes.len(),
            views(names@) == flat(all.take(i as int), node_hostname()),
        decreases nodes.len() - i,
    {
        let ghost seen = views(names@);
        proof {
            lemma_flat_take(all, node_hostname(), i as int);
            assert(all[i as int] == nodes@[i as int]@);
            assert(seen + Seq::<Seq<char>>::empty() =~= seen);
        }
        if let Some(s) = text_at(Some(&nodes[i]), "hostname") {
            add_line(&mut names, s);
            assert(views(names@) =~= seen + seq![s@]);
        }
        i += 1;
    }
    assert(all.take(i as int) =~= all);
    VolumeSource {
        name: name.to_owned(),
        minor: Some(minor),
        lvm_vg: find_vg(nodes),
        storage_pool: "".to_owned(),
        nodes: names,
        source: "file".to_owned(),
    }
}

pub open spec fn record_source() -> spec_fn(DbDrbdResource) -> Seq<SourceModel> {
    |r: DbDrbdResource|
        seq![file_source(r.resource_name@, r.minor as nat, listed_items(r.nodes_json@))]
}

/// The resources on record.
pub fn db_drbd_resources(records: &Vec<DbDrbdResource>) -> (r: Vec<VolumeSource>)
    ensures
        views(r@) == flat(records@, record_source()),
{
    let mut out: Vec<VolumeSource> = Vec::new();
    let mut i: usize = 0;
    assert(views(out@) =~= Seq::<SourceModel>::empty());
    while i < records.len()
        invariant
            i <= records.len(),
            views(out@) == flat(records@.take(i as int), record_source()),
        decreases records.len() - i,
    {
        let ghost seen = views(out@);
        proof {
            lemma_flat_take(records@, record_source(), i as int);
        }
        let record = &records[i];
        let nodes = read_items(record.nodes_json.as_str());
        let source = build_file_source(record.resource_name.as_str(), record.minor, &nodes);
        proof {
            lemma_views_push(out@, source);
        }
        out.push(source);
        assert(views(out@) =~= seen + seq![source@]);
        i += 1;
    }
    assert(records@.take(i as int) =~= records@);
    out
}

// ---------------------------------------------------------------------------
// The backend
// ---------------------------------------------------------------------------

/// What a node reports: whether it has the units of the LINSTOR controller and satellite.
pub open spec fn detected_units(report: JsonModel) -> (bool, bool) {
    (
        as_flag(member(report, "controller"@)) == Some(true),
        as_flag(member(report, "satellite"@)) == Some(true),
    )
}

/// Whether some node has a unit of LINSTOR.
pub open spec fn some_unit(per_node: Seq<(String, bool, bool)>) -> bool {
    exists|i: int| 0 <= i < per_node.len() && ((#[trigger] per_node[i]).1 || per_node[i].2)
}

/// What a node reports.
pub fn read_detected_units(report: &Json) -> (r: (bool, bool))
    ensures
        r == detected_units(report@),
{
    let this = Some(report);
    let controller = match flag_of(at(this, "controller")) {
        Some(b) => b,
        None => false,
    };
    let satellite = match flag_of(at(this, "satellite")) {
        Some(b) => b,
        None => false,
    };
    (controller, satellite)
}

/// What a node reports, from the text of its report; nothing where that is not JSON.
pub fn parse_detected_units(report: &str) -> (r: (bool, bool))
    ensures
        r == match parsed_json(report@) {
            Some(j) => detected_units(j),
            None => (false, false),
        },
{
    match read_json(report) {
        Ok(j) => read_detected_units(&j),
        Err(_) => (false, false),
    }
}

/// What manages the DRBD volumes: LINSTOR where some node has a unit of it, or else the
/// kernel module alone.
pub fn detected_backend(per_node: &Vec<(String, bool, bool)>) -> (r: String)
    ensures
        r@ == if some_unit(per_node@) {
            "linstor"@
        } else {
            "kernel-module"@
        },
{
    let mut i: usize = 0;
    while i < per_node.len()
        invariant
            i <= per_node.len(),
            forall|j: int| 0 <= j < i ==> !(#[trigger] per_node@[j]).1 && !per_node@[j].2,
        decreases per_node.len() - i,
    {
        if per_node[i].1 || per_node[i].2 {
            assert(per_node@[i as int].1 || per_node@[i as int].2);
            return "linstor".to_owned();
        }
        i += 1;
    }
    "kernel-module".to_owned()
}

/// What each node that has reported has: its name, and the units of LINSTOR.
pub open spec fn reported_units(hostnames: Seq<String>, reports: Seq<Option<String>>) -> Seq<
    (Seq<char>, bool, bool),
>
    decreases hostnames.len(),
{
    if hostnames.len() == 0 || reports.len() != hostnames.len() {
        Seq::empty()
    } else {
        let front = reported_units(hostnames.drop_last(), reports.drop_last());
        match reports.last() {
            Some(text) => {
                let units = match parsed_json(text@) {
                    Some(j) => detected_units(j),
                    None => (false, false),
                };
                front.push((hostnames.last()@, units.0, units.1))
            },
            None => front,
        }
    }
}

/// The names and units of nodes.
pub open spec fn unit_triples(v: Seq<(String, bool, bool)>) -> Seq<(Seq<char>, bool, bool)> {
    Seq::new(v.len(), |i: int| (v[i].0@, v[i].1, v[i].2))
}

/// What each node that has reported has. `reports` holds the report of each node, where
/// there is one.
pub fn read_reports(hostnames: &Vec<String>, reports: &Vec<Option<String>>) -> (r: Vec<
    (String, bool, bool),
>)
    requires
        hostnames.len() == reports.len(),
    ensures
        unit_triples(r@) == reported_units(hostnames@, reports@),
{
    let mut out: Vec<(String, bool, bool)> = Vec::new();
    let mut i: usize = 0;
    assert(unit_triples(out@) =~= Seq::<(Seq<char>, bool, bool)>::empty());
    while i < hostnames.len()
        invariant
            i <= hostnames.len(),
            hostnames.len() == reports.len(),
            unit_triples(out@) == reported_units(
                hostnames@.take(i as int),
                reports@.take(i as int),
            ),
        decreases hostnames.len() - i,
    {
        let ghost seen = unit_triples(out@);
        proof {
            assert(hostnames@.take(i as int + 1).drop_last() =~= hostnames@.take(i as int));
            assert(reports@.take(i as int + 1).drop_last() =~= reports@.take(i as int));
            assert(hostnames@.take(i as int + 1).last() == hostnames@[i as int]);
            assert(reports@.take(i as int + 1).last() == reports@[i as int]);
        }
        if let Some(text) = &reports[i] {
            let (controller, satellite) = parse_detected_units(text.as_str());
            out.push((hostnames[i].clone(), controller, satellite));
            assert(unit_triples(out@) =~= seen.push((hostnames@[i as int]@, controller, satellite)));
        }
        i += 1;
    }
    assert(hostnames@.take(i as int) =~= hostnames@);
    assert(reports@.take(i as int) =~= reports@);
    out
}

// ---------------------------------------------------------------------------
// The list of resources
// ---------------------------------------------------------------------------

/// The resources that volumes can be put on.
#[derive(Debug, Clone)]
pub struct ResourceListing {
    pub backend: String,
    pub resources: Vec<VolumeSource>,
    /// Why the list may be incomplete.
    pub warning: Option<String>,
}

/// Whether LINSTOR is asked for its resources.
pub fn asks_linstor(backend: &str) -> (r: bool)
    ensures
        r == (backend@ == "linstor"@),
{
    same(backend, "linstor")
}

/// The warning that LINSTOR could not be asked.
pub open spec fn unreachable_warning(url: Seq<char>, error: Seq<char>) -> Seq<char> {
    "LINSTOR 컨트롤러("@ + url + ")에 연결하지 못했습니다: "@ + error + LISTING_NOTE@
}

pub const LISTING_NOTE: &'static str = ".                      아래 목록은 /etc/drbd.d 스캔 결과이며 LINSTOR가 관리하는                      리소스가 빠져 있을 수 있습니다.";

/// The list of resources where LINSTOR is not asked: those on record.
pub fn recorded_listing(backend: String, recorded: Vec<VolumeSource>) -> (r: ResourceListing)
    ensures
        r.backend == backend,
        r.resources == recorded,
        r.warning is None,
{
    ResourceListing { backend, resources: recorded, warning: None }
}

/// The list of resources where LINSTOR was asked: what it has answered or, with a warning,
/// those on record where it has not.
pub fn linstor_listing(
    url: &str,
    answer: Result<Vec<VolumeSource>, String>,
    recorded: Vec<VolumeSource>,
) -> (r: ResourceListing)
    ensures
        r.backend@ == "linstor"@,
        match answer {
            Ok(v) => r.resources == v && r.warning is None,
            Err(error) => r.resources == recorded && opt_view(r.warning) == Some(
                unreachable_warning(url@, error@),
            ),
        },
{
    match answer {
        Ok(v) => ResourceListing { backend: "linstor".to_owned(), resources: v, warning: None },
        Err(error) => {
            let mut warning = "LINSTOR 컨트롤러(".to_owned();
            warning.push_str(url);
            warning.push_str(")에 연결하지 못했습니다: ");
            warning.push_str(error.as_str());
            warning.push_str(LISTING_NOTE);
            ResourceListing {
                backend: "linstor".to_owned(),
                resources: recorded,
                warning: Some(warning),
            }
        },
    }
}

} // verus!
