//! DRBD resources: the form, the files that are made from it, and the scan of what exists.

use crate::db::DbDrbdResource;
use crate::generators::drbd::{
    drbd_playbook_text, generate_ansible_playbook, generate_drbd_init_commands, generate_res_file,
    init_commands, res_text,
};
use crate::json::{Json, JsonModel, as_number, at, listed_items, member, number_of, read_items};
use crate::lines::{flat, lemma_flat_take, lemma_views_push};
use crate::models::drbd::{
    AnsibleInventory, AnsibleNode, DrbdDiskOptions, DrbdNetOptions, DrbdNode, DrbdResource,
    DrbdStartupOptions, ScannedDrbdNode, ScannedDrbdResource, ScannedNodeModel,
};
use crate::res_file::or_text;
use crate::text::{opt_view, same, views};
use vstd::prelude::*;
use vstd::string::*;

verus! {

// ---------------------------------------------------------------------------
// Free numbers
// ---------------------------------------------------------------------------

/// The number that is left when the numbers in use are gone through in order: each that
/// equals the candidate raises it by one.
pub open spec fn next_free(used: Seq<u32>, base: int) -> int
    decreases used.len(),
{
    if used.len() == 0 {
        base
    } else {
        let c = next_free(used.drop_last(), base);
        if used.last() == c {
            c + 1
        } else {
            c
        }
    }
}

/// Whether each number is less than the next one.
pub open spec fn strictly_ascending(v: Seq<u32>) -> bool {
    forall|i: int, j: int| 0 <= i < j < v.len() ==> #[trigger] v[i] < #[trigger] v[j]
}

/// Whether a number is in use.
pub open spec fn in_use(used: Seq<u32>, x: int) -> bool {
    exists|i: int| 0 <= i < used.len() && #[trigger] used[i] == x
}

/// Whether `c` is the least number from `base` on that is not in use.
pub open spec fn least_free(used: Seq<u32>, base: int, c: int) -> bool {
    &&& base <= c
    &&& !in_use(used, c)
    &&& forall|x: int| base <= x < c ==> #[trigger] in_use(used, x)
}

/// Going through ascending numbers gives the least number that is not among them.
pub proof fn law_next_free_is_least(used: Seq<u32>, base: int)
    requires
        strictly_ascending(used),
    ensures
        least_free(used, base, next_free(used, base)),
    decreases used.len(),
{
    if used.len() > 0 {
        let front = used.drop_last();
        let v = used.last();
        law_next_free_is_least(front, base);
        let c = next_free(front, base);
        let d = next_free(used, base);
        assert forall|i: int| 0 <= i < used.len() implies #[trigger] used[i] != d by {
            if i < front.len() {
                assert(front[i] == used[i]);
                assert(used[i] < used[used.len() - 1]);
            }
        }
        assert forall|x: int| base <= x < d implies #[trigger] in_use(used, x) by {
            if x < c {
                assert(in_use(front, x));
                let i = choose|i: int| 0 <= i < front.len() && #[trigger] front[i] == x;
                assert(used[i] == x);
            } else {
                assert(used[used.len() - 1] == x);
            }
        }
    }
}

/// The number from `base` to `max` that is left when the numbers in use are gone through;
/// nothing where it would exceed `max`.
fn next_available(used: &Vec<u32>, base: u32, max: u32) -> (r: Option<u32>)
    requires
        base <= max,
    ensures
        match r {
            Some(c) => next_free(used@, base as int) == c && c <= max,
            None => next_free(used@, base as int) > max,
        },
{
    let mut candidate: u64 = base as u64;
    let mut i: usize = 0;
    while i < used.len()
        invariant
            i <= used.len(),
            candidate == next_free(used@.take(i as int), base as int),
            candidate <= 0x1_0000_0000,
        decreases used.len() - i,
    {
        proof {
            assert(used@.take(i as int + 1).drop_last() =~= used@.take(i as int));
            assert(used@.take(i as int + 1).last() == used@[i as int]);
        }
        if used[i] as u64 == candidate {
            candidate = candidate + 1;
        }
        i += 1;
    }
    assert(used@.take(i as int) =~= used@);
    if candidate <= max as u64 {
        Some(candidate as u32)
    } else {
        None
    }
}

/// The first number from `base` on that is not in use, the numbers in use being ascending.
pub fn next_available_u32(used: &Vec<u32>, base: u32) -> (r: Option<u32>)
    ensures
        match r {
            Some(c) => next_free(used@, base as int) == c,
            None => next_free(used@, base as int) > u32::MAX,
        },
{
    next_available(used, base, u32::MAX)
}

/// The first port from `base` on that is not in use, the ports in use being ascending.
pub fn next_available_u16(used: &Vec<u32>, base: u16) -> (r: Option<u16>)
    ensures
        match r {
            Some(c) => next_free(used@, base as int) == c,
            None => next_free(used@, base as int) > u16::MAX,
        },
{
    match next_available(used, base as u32, 65535) {
        Some(c) => Some(c as u16),
        None => None,
    }
}

/// The numbers of a list in ascending order, each once.
pub fn sort_distinct(v: &Vec<u32>) -> (r: Vec<u32>)
    ensures
        strictly_ascending(r@),
        forall|x: u32| #[trigger] r@.contains(x) <==> v@.contains(x),
{
    let mut out: Vec<u32> = Vec::new();
    let mut i: usize = 0;
    while i < v.len()
        invariant
            i <= v.len(),
            strictly_ascending(out@),
            forall|x: u32| #[trigger] out@.contains(x) <==> v@.take(i as int).contains(x),
        decreases v.len() - i,
    {
        let x: u32 = v[i];
        let mut k: usize = 0;
        while k < out.len() && out[k] < x
            invariant
                k <= out.len(),
                strictly_ascending(out@),
                forall|j: int| 0 <= j < k ==> out@[j] < x,
            decreases out.len() - k,
        {
            k += 1;
        }
        let ghost before = out@;
        if k == out.len() || out[k] != x {
            out.insert(k, x);
            proof {
                assert(out@ =~= before.insert(k as int, x));
                assert forall|a: int, b: int| 0 <= a < b < out@.len() implies #[trigger] out@[a]
                    < #[trigger] out@[b] by {
                    if b < k {
                        assert(before[a] < before[b]);
                    } else if b == k {
                    } else if a < k {
                        assert(out@[b] == before[b - 1]);
                        assert(before[a] < before[b - 1]);
                    } else if a == k {
                        assert(out@[b] == before[b - 1]);
                        if b - 1 > k {
                            assert(before[k as int] < before[b - 1]);
                        }
                    } else {
                        assert(before[a - 1] < before[b - 1]);
                    }
                }
                assert forall|y: u32| out@.contains(y) <==> (before.contains(y) || y == x) by {
                    if before.contains(y) {
                        let j = choose|j: int| 0 <= j < before.len() && before[j] == y;
                        if j < k {
                            assert(out@[j] == y);
                        } else {
                            assert(out@[j + 1] == y);
                        }
                    }
                    assert(out@[k as int] == x);
                    if out@.contains(y) {
                        let j = choose|j: int| 0 <= j < out@.len() && out@[j] == y;
                        if j < k {
                            assert(before[j] == y);
                        } else if j > k {
                            assert(before[j - 1] == y);
                        }
                    }
                }
            }
        } else {
            assert(before.contains(x)) by {
                assert(before[k as int] == x);
            }
        }
        proof {
            let t = v@.take(i as int);
            let u = v@.take(i as int + 1);
            assert(u =~= t.push(x));
            assert forall|y: u32| out@.contains(y) <==> u.contains(y) by {
                lemma_contains_push(t, x, y);
                assert(before.contains(y) <==> t.contains(y));
            }
        }
        i += 1;
    }
    assert(v@.take(i as int) =~= v@);
    out
}

// ---------------------------------------------------------------------------
// The scan
// ---------------------------------------------------------------------------

/// Where the nodes of an entry come from.
#[derive(Debug, Clone)]
pub enum ScanNodes {
    /// A file lists them.
    Scanned(Vec<ScannedDrbdNode>),
    /// A record holds them as JSON.
    Recorded(String),
}

/// What a [`ScanNodes`] holds.
pub enum ScanNodesModel {
    Scanned(Seq<ScannedNodeModel>),
    Recorded(Seq<char>),
}

impl View for ScanNodes {
    type V = ScanNodesModel;

    open spec fn view(&self) -> ScanNodesModel {
        match self {
            ScanNodes::Scanned(v) => ScanNodesModel::Scanned(views(v@)),
            ScanNodes::Recorded(s) => ScanNodesModel::Recorded(s@),
        }
    }
}

/// A resource that a file or a record describes.
#[derive(Debug, Clone)]
pub struct ScanEntry {
    /// `file` or `db`.
    pub source: String,
    pub resource_name: String,
    pub protocol: String,
    pub minor: u32,
    pub nodes: ScanNodes,
    pub source_file: String,
    pub updated_at: String,
    pub in_db: bool,
    pub net_options_json: String,
    pub disk_options_json: String,
    pub startup_options_json: String,
}

/// What a [`ScanEntry`] holds.
pub struct ScanEntryModel {
    pub source: Seq<char>,
    pub resource_name: Seq<char>,
    pub protocol: Seq<char>,
    pub minor: nat,
    pub nodes: ScanNodesModel,
    pub source_file: Seq<char>,
    pub updated_at: Seq<char>,
    pub in_db: bool,
    pub net_options_json: Seq<char>,
    pub disk_options_json: Seq<char>,
    pub startup_options_json: Seq<char>,
}

impl View for ScanEntry {
    type V = ScanEntryModel;

    open spec fn view(&self) -> ScanEntryModel {
        ScanEntryModel {
            source: self.source@,
            resource_name: self.resource_name@,
            protocol: self.protocol@,
            minor: self.minor as nat,
            nodes: self.nodes@,
            source_file: self.source_file@,
            updated_at: self.updated_at@,
            in_db: self.in_db,
            net_options_json: self.net_options_json@,
            disk_options_json: self.disk_options_json@,
            startup_options_json: self.startup_options_json@,
        }
    }
}

/// What exists, and the first numbers that are free.
#[derive(Debug, Clone)]
pub struct ScanResponse {
    pub resources: Vec<ScanEntry>,
    pub next_minor: u32,
    pub next_port: u16,
}

/// The first record of a resource, from position `i` on.
pub open spec fn record_from(db: Seq<DbDrbdResource>, name: Seq<char>, i: int) -> Option<int>
    decreases db.len() - i,
{
    if i < 0 || i >= db.len() {
        None
    } else if db[i].resource_name@ == name {
        Some(i)
    } else {
        record_from(db, name, i + 1)
    }
}

/// Whether a file describes the resource.
pub open spec fn in_files(files: Seq<ScannedDrbdResource>, name: Seq<char>) -> bool {
    exists|i: int| 0 <= i < files.len() && (#[trigger] files[i]).resource_name@ == name
}

/// An entry that is on record, with what the record adds where the entry lacks it.
pub open spec fn completed(e: ScanEntryModel, db: Seq<DbDrbdResource>) -> ScanEntryModel {
    match record_from(db, e.resource_name, 0) {
        Some(k) => if e.in_db && e.updated_at.len() == 0 {
            ScanEntryModel {
                updated_at: db[k].updated_at@,
                net_options_json: db[k].net_options_json@,
                disk_options_json: db[k].disk_options_json@,
                startup_options_json: db[k].startup_options_json@,
                ..e
            }
        } else {
            e
        },
        None => e,
    }
}

/// The entry of a file.
pub open spec fn file_entry(db: Seq<DbDrbdResource>) -> spec_fn(ScannedDrbdResource) -> Seq<
    ScanEntryModel,
> {
    |r: ScannedDrbdResource|
        seq![
            completed(
                ScanEntryModel {
                    source: "file"@,
                    resource_name: r.resource_name@,
                    protocol: r.protocol@,
                    minor: r.minor as nat,
                    nodes: ScanNodesModel::Scanned(views(r.nodes@)),
                    source_file: r.source_file@,
                    updated_at: ""@,
                    in_db: record_from(db, r.resource_name@, 0) is Some,
                    net_options_json: ""@,
                    disk_options_json: ""@,
                    startup_options_json: ""@,
                },
                db,
            ),
        ]
}

/// The entry of a record, unless a file describes the resource.
pub open spec fn record_entry(
    files: Seq<ScannedDrbdResource>,
    db: Seq<DbDrbdResource>,
) -> spec_fn(DbDrbdResource) -> Seq<ScanEntryModel> {
    |r: DbDrbdResource|
        if in_files(files, r.resource_name@) {
            Seq::empty()
        } else {
            seq![
                completed(
                    ScanEntryModel {
                        source: "db"@,
                        resource_name: r.resource_name@,
                        protocol: r.protocol@,
                        minor: r.minor as nat,
                        nodes: ScanNodesModel::Recorded(r.nodes_json@),
                        source_file: ""@,
                        updated_at: r.updated_at@,
                        in_db: true,
                        net_options_json: r.net_options_json@,
                        disk_options_json: r.disk_options_json@,
                        startup_options_json: r.startup_options_json@,
                    },
                    db,
                ),
            ]
        }
}

/// `v` with `e` put behind the entries whose minor number is not greater.
pub open spec fn insert_entry(v: Seq<ScanEntryModel>, e: ScanEntryModel) -> Seq<ScanEntryModel>
    decreases v.len(),
{
    if v.len() == 0 {
        seq![e]
    } else if v.last().minor <= e.minor {
        v.push(e)
    } else {
        insert_entry(v.drop_last(), e).push(v.last())
    }
}

/// The entries by minor number; entries with the same number keep their order.
pub open spec fn by_minor(v: Seq<ScanEntryModel>) -> Seq<ScanEntryModel>
    decreases v.len(),
{
    if v.len() == 0 {
        Seq::empty()
    } else {
        insert_entry(by_minor(v.drop_last()), v.last())
    }
}

/// The minor numbers in use.
pub open spec fn used_minors(files: Seq<ScannedDrbdResource>, db: Seq<DbDrbdResource>) -> Seq<u32> {
    Seq::new(files.len(), |i: int| files[i].minor) + Seq::new(db.len(), |i: int| db[i].minor)
}

/// The ports of the nodes of a file.
pub open spec fn file_ports() -> spec_fn(ScannedDrbdResource) -> Seq<u32> {
    |r: ScannedDrbdResource| Seq::new(r.nodes@.len(), |i: int| r.nodes@[i].port as u32)
}

/// The port of a recorded node, as a number of sixteen bits.
pub open spec fn item_port() -> spec_fn(JsonModel) -> Seq<u32> {
    |n: JsonModel|
        match as_number(member(n, "port"@)) {
            Some(p) => seq![(p % 65536) as u32],
            None => Seq::empty(),
        }
}

/// The ports of the nodes of a record.
pub open spec fn record_ports() -> spec_fn(DbDrbdResource) -> Seq<u32> {
    |r: DbDrbdResource| flat(listed_items(r.nodes_json@), item_port())
}

/// The ports in use.
pub open spec fn used_ports(files: Seq<ScannedDrbdResource>, db: Seq<DbDrbdResource>) -> Seq<u32> {
    flat(files, file_ports()) + flat(db, record_ports())
}

fn find_record(db: &Vec<DbDrbdResource>, name: &str) -> (r: Option<usize>)
    ensures
        match r {
            Some(k) => k < db.len() && record_from(db@, name@, 0) == Some(k as int),
            None => record_from(db@, name@, 0) is None,
        },
{
    let mut i: usize = 0;
    while i < db.len()
        invariant
            i <= db.len(),
            record_from(db@, name@, 0) == record_from(db@, name@, i as int),
        decreases db.len() - i,
    {
        if same(db[i].resource_name.as_str(), name) {
            return Some(i);
        }
        i += 1;
    }
    None
}

fn is_in_files(files: &Vec<ScannedDrbdResource>, name: &str) -> (r: bool)
    ensures
        r == in_files(files@, name@),
{
    let mut i: usize = 0;
    while i < files.len()
        invariant
            i <= files.len(),
            forall|j: int| 0 <= j < i ==> (#[trigger] files@[j]).resource_name@ != name@,
        decreases files.len() - i,
    {
        if same(files[i].resource_name.as_str(), name) {
            return true;
        }
        i += 1;
    }
    false
}

fn complete(e: ScanEntry, db: &Vec<DbDrbdResource>) -> (r: ScanEntry)
    ensures
        r@ == completed(e@, db@),
{
    if e.in_db && e.updated_at.as_str().unicode_len() == 0 {
        if let Some(k) = find_record(db, e.resource_name.as_str()) {
            return ScanEntry {
                updated_at: db[k].updated_at.clone(),
                net_options_json: db[k].net_options_json.clone(),
                disk_options_json: db[k].disk_options_json.clone(),
                startup_options_json: db[k].startup_options_json.clone(),
                ..e
            };
        }
    }
    e
}

fn copy_scanned_nodes(v: &Vec<ScannedDrbdNode>) -> (r: Vec<ScannedDrbdNode>)
    ensures
        views(r@) == views(v@),
{
    let mut out: Vec<ScannedDrbdNode> = Vec::new();
    let mut i: usize = 0;
    while i < v.len()
        invariant
            i <= v.len(),
            views(out@) =~= views(v@).take(i as int),
        decreases v.len() - i,
    {
        let n = &v[i];
        let node = ScannedDrbdNode {
            hostname: n.hostname.clone(),
            ip: n.ip.clone(),
            port: n.port,
            disk: n.disk.clone(),
            meta: n.meta.clone(),
            disk_type: n.disk_type.clone(),
            lvm_vg: n.lvm_vg.clone(),
            lvm_size: n.lvm_size.clone(),
        };
        proof {
            lemma_views_push(out@, node);
            assert(views(v@)[i as int] == node@);
        }
        out.push(node);
        i += 1;
    }
    out
}

fn insert_by_minor(v: &mut Vec<ScanEntry>, e: ScanEntry)
    ensures
        views(final(v)@) == insert_entry(views(old(v)@), e@),
{
    let ghost all = views(v@);
    let ghost item = e@;
    let minor: u32 = e.minor;
    let mut k: usize = v.len();
    assert(all.take(k as int) =~= all);
    assert(insert_entry(all, item) =~= insert_entry(all.take(k as int), item) + all.skip(
        k as int,
    ));
    while k > 0 && v[k - 1].minor > minor
        invariant
            k <= v.len(),
            v@ == old(v)@,
            all == views(v@),
            item.minor == minor,
            insert_entry(all, item) == insert_entry(all.take(k as int), item) + all.skip(k as int),
        decreases k,
    {
        proof {
            let t = all.take(k as int);
            assert(t.last() == v@[k - 1]@);
            assert(t.drop_last() =~= all.take(k - 1));
            assert(insert_entry(t, item) == insert_entry(all.take(k - 1), item).push(all[k - 1]));
            assert(insert_entry(all, item) =~= insert_entry(all.take(k - 1), item) + all.skip(
                k - 1,
            ));
        }
        k -= 1;
    }
    proof {
        let t = all.take(k as int);
        if k > 0 {
            assert(t.last() == v@[k - 1]@);
        }
        assert(insert_entry(t, item) =~= t.push(item));
    }
    v.insert(k, e);
    assert(views(v@) =~= all.take(k as int).push(item) + all.skip(k as int));
}

fn sort_entries(v: Vec<ScanEntry>) -> (r: Vec<ScanEntry>)
    ensures
        views(r@) == by_minor(views(v@)),
{
    let ghost all = views(v@);
    let mut rest = v;
    let mut out: Vec<ScanEntry> = Vec::new();
    assert(views(out@) =~= by_minor(all.take(0)));
    let total = rest.len();
    let mut i: usize = 0;
    assert(views(rest@) =~= all.skip(0));
    while i < total
        invariant
            i <= total,
            total == all.len(),
            views(rest@) == all.skip(i as int),
            views(out@) == by_minor(all.take(i as int)),
        decreases total - i,
    {
        proof {
            assert(views(rest@).len() == total - i);
            assert(all.take(i as int + 1).drop_last() =~= all.take(i as int));
            assert(all.take(i as int + 1).last() == all[i as int]);
            assert(views(rest@)[0] == all[i as int]);
        }
        let ghost before = views(rest@);
        let e = rest.remove(0);
        assert(views(rest@) =~= before.skip(1));
        assert(before.skip(1) =~= all.skip(i as int + 1));
        insert_by_minor(&mut out, e);
        i += 1;
    }
    assert(all.take(i as int) =~= all);
    out
}

fn collect_entries(files: &Vec<ScannedDrbdResource>, db: &Vec<DbDrbdResource>) -> (r: Vec<ScanEntry>)
    ensures
        views(r@) == flat(files@, file_entry(db@)) + flat(db@, record_entry(files@, db@)),
{
    let mut out: Vec<ScanEntry> = Vec::new();
    let mut i: usize = 0;
    assert(views(out@) =~= Seq::<ScanEntryModel>::empty());
    while i < files.len()
        invariant
            i <= files.len(),
            views(out@) == flat(files@.take(i as int), file_entry(db@)),
        decreases files.len() - i,
    {
        let ghost seen = views(out@);
        let f = &files[i];
        proof {
            lemma_flat_take(files@, file_entry(db@), i as int);
        }
        let e = complete(
            ScanEntry {
                source: "file".to_owned(),
                resource_name: f.resource_name.clone(),
                protocol: f.protocol.clone(),
                minor: f.minor,
                nodes: ScanNodes::Scanned(copy_scanned_nodes(&f.nodes)),
                source_file: f.source_file.clone(),
                updated_at: "".to_owned(),
                in_db: find_record(db, f.resource_name.as_str()).is_some(),
                net_options_json: "".to_owned(),
                disk_options_json: "".to_owned(),
                startup_options_json: "".to_owned(),
            },
            db,
        );
        proof {
            lemma_views_push(out@, e);
        }
        out.push(e);
        assert(views(out@) =~= seen + seq![e@]);
        i += 1;
    }
    assert(files@.take(i as int) =~= files@);
    let ghost s1 = views(out@);
    assert(s1 + flat(db@.take(0), record_entry(files@, db@)) =~= s1);
    i = 0;
    while i < db.len()
        invariant
            i <= db.len(),
            views(out@) == s1 + flat(db@.take(i as int), record_entry(files@, db@)),
        decreases db.len() - i,
    {
        let ghost seen = views(out@);
        let d = &db[i];
        proof {
            lemma_flat_take(db@, record_entry(files@, db@), i as int);
        }
        if !is_in_files(files, d.resource_name.as_str()) {
            let e = complete(
                ScanEntry {
                    source: "db".to_owned(),
                    resource_name: d.resource_name.clone(),
                    protocol: d.protocol.clone(),
                    minor: d.minor,
                    nodes: ScanNodes::Recorded(d.nodes_json.clone()),
                    source_file: "".to_owned(),
                    updated_at: d.updated_at.clone(),
                    in_db: true,
                    net_options_json: d.net_options_json.clone(),
                    disk_options_json: d.disk_options_json.clone(),
                    startup_options_json: d.startup_options_json.clone(),
                },
                db,
            );
            proof {
                lemma_views_push(out@, e);
            }
            out.push(e);
            assert(views(out@) =~= seen + seq![e@]);
        }
        i += 1;
        assert(views(out@) =~= s1 + flat(db@.take(i as int), record_entry(files@, db@)));
    }
    assert(db@.take(i as int) =~= db@);
    out
}

fn collect_minors(files: &Vec<ScannedDrbdResource>, db: &Vec<DbDrbdResource>) -> (r: Vec<u32>)
    ensures
        r@ == used_minors(files@, db@),
{
    let mut out: Vec<u32> = Vec::new();
    let mut i: usize = 0;
    while i < files.len()
        invariant
            i <= files.len(),
            out@ =~= used_minors(files@, db@).take(i as int),
        decreases files.len() - i,
    {
        out.push(files[i].minor);
        i += 1;
    }
    let mut j: usize = 0;
    while j < db.len()
        invariant
            j <= db.len(),
            out@ =~= used_minors(files@, db@).take(files.len() + j),
        decreases db.len() - j,
    {
        out.push(db[j].minor);
        j += 1;
    }
    assert(out@ =~= used_minors(files@, db@));
    out
}

fn add_file_ports(out: &mut Vec<u32>, files: &Vec<ScannedDrbdResource>)
    ensures
        final(out)@ == old(out)@ + flat(files@, file_ports()),
{
    let mut i: usize = 0;
    assert(out@ + flat(files@.take(0), file_ports()) =~= out@);
    while i < files.len()
        invariant
            i <= files.len(),
            out@ == old(out)@ + flat(files@.take(i as int), file_ports()),
        decreases files.len() - i,
    {
        let nodes = &files[i].nodes;
        let ghost before = out@;
        let ghost more = file_ports()(files@[i as int]);
        let mut j: usize = 0;
        while j < nodes.len()
            invariant
                j <= nodes.len(),
                more.len() == nodes.len(),
                forall|k: int| 0 <= k < nodes.len() ==> #[trigger] more[k] == nodes@[k].port,
                out@ =~= before + more.take(j as int),
            decreases nodes.len() - j,
        {
            out.push(nodes[j].port as u32);
            j += 1;
        }
        proof {
            assert(more.take(j as int) =~= more);
            lemma_flat_take(files@, file_ports(), i as int);
        }
        i += 1;
        assert(out@ =~= old(out)@ + flat(files@.take(i as int), file_ports()));
    }
    assert(files@.take(i as int) =~= files@);
}

fn read_item_ports(nodes: &Vec<Json>) -> (r: Vec<u32>)
    ensures
        r@ == flat(views(nodes@), item_port()),
{
    let ghost all = views(nodes@);
    let mut out: Vec<u32> = Vec::new();
    let mut j: usize = 0;
    while j < nodes.len()
        invariant
            all == views(nodes@),
            j <= nodes.len(),
            out@ == flat(all.take(j as int), item_port()),
        decreases nodes.len() - j,
    {
        let ghost seen = out@;
        proof {
            lemma_flat_take(all, item_port(), j as int);
            assert(all[j as int] == nodes@[j as int]@);
            assert(seen + Seq::<u32>::empty() =~= seen);
        }
        if let Some(p) = number_of(at(Some(&nodes[j]), "port")) {
            let port: u32 = (p % 65536) as u32;
            out.push(port);
            assert(out@ =~= seen + seq![port]);
        }
        j += 1;
    }
    assert(all.take(j as int) =~= all);
    out
}

fn add_record_ports(out: &mut Vec<u32>, db: &Vec<DbDrbdResource>)
    ensures
        final(out)@ == old(out)@ + flat(db@, record_ports()),
{
    let mut i: usize = 0;
    assert(out@ + flat(db@.take(0), record_ports()) =~= out@);
    while i < db.len()
        invariant
            i <= db.len(),
            out@ == old(out)@ + flat(db@.take(i as int), record_ports()),
        decreases db.len() - i,
    {
        let nodes = read_items(db[i].nodes_json.as_str());
        let mut more = read_item_ports(&nodes);
        proof {
            lemma_flat_take(db@, record_ports(), i as int);
        }
        out.append(&mut more);
        i += 1;
        assert(out@ =~= old(out)@ + flat(db@.take(i as int), record_ports()));
    }
    assert(db@.take(i as int) =~= db@);
}

proof fn lemma_contains_push(v: Seq<u32>, y: u32, x: u32)
    ensures
        v.push(y).contains(x) <==> (v.contains(x) || x == y),
{
    if v.contains(x) {
        let j = choose|j: int| 0 <= j < v.len() && v[j] == x;
        assert(v.push(y)[j] == x);
    }
    assert(v.push(y)[v.len() as int] == y);
    if v.push(y).contains(x) {
        let j = choose|j: int| 0 <= j < v.push(y).len() && v.push(y)[j] == x;
        if j < v.len() {
            assert(v[j] == x);
        }
    }
}

proof fn lemma_same_use(a: Seq<u32>, b: Seq<u32>, x: int)
    requires
        forall|y: u32| #[trigger] a.contains(y) <==> b.contains(y),
    ensures
        in_use(a, x) == in_use(b, x),
{
    if in_use(a, x) {
        let i = choose|i: int| 0 <= i < a.len() && #[trigger] a[i] == x;
        assert(a.contains(a[i]));
        let j = choose|j: int| 0 <= j < b.len() && b[j] == a[i];
        assert(b[j] == x);
    }
    if in_use(b, x) {
        let i = choose|i: int| 0 <= i < b.len() && #[trigger] b[i] == x;
        assert(b.contains(b[i]));
        assert(a.contains(b[i]));
        let j = choose|j: int| 0 <= j < a.len() && a[j] == b[i];
        assert(a[j] == x);
    }
}

proof fn lemma_least(sorted: Seq<u32>, used: Seq<u32>, base: int)
    requires
        strictly_ascending(sorted),
        forall|x: u32| #[trigger] sorted.contains(x) <==> used.contains(x),
    ensures
        least_free(used, base, next_free(sorted, base)),
{
    law_next_free_is_least(sorted, base);
    let c = next_free(sorted, base);
    lemma_same_use(sorted, used, c);
    assert forall|x: int| base <= x < c implies #[trigger] in_use(used, x) by {
        lemma_same_use(sorted, used, x);
        assert(in_use(sorted, x));
    }
}

/// What files and records describe, by minor number, and the least minor number and the
/// least port from 7789 on that none of them uses. Nothing where all of them are used.
pub fn scan_response(files: &Vec<ScannedDrbdResource>, db: &Vec<DbDrbdResource>) -> (r: Option<
    ScanResponse,
>)
    ensures
        match r {
            Some(s) => {
                &&& views(s.resources@) == by_minor(
                    flat(files@, file_entry(db@)) + flat(db@, record_entry(files@, db@)),
                )
                &&& least_free(used_minors(files@, db@), 0, s.next_minor as int)
                &&& least_free(used_ports(files@, db@), 7789, s.next_port as int)
            },
            None => (forall|x: int|
                0 <= x <= u32::MAX ==> #[trigger] in_use(used_minors(files@, db@), x)) || (forall|
                x: int,
            |
                7789 <= x <= u16::MAX ==> #[trigger] in_use(used_ports(files@, db@), x)),
        },
{
    let minors = sort_distinct(&collect_minors(files, db));
    let mut taken: Vec<u32> = Vec::new();
    add_file_ports(&mut taken, files);
    add_record_ports(&mut taken, db);
    assert(taken@ =~= used_ports(files@, db@));
    let ports = sort_distinct(&taken);
    proof {
        lemma_least(minors@, used_minors(files@, db@), 0);
        lemma_least(ports@, used_ports(files@, db@), 7789);
    }
    match (next_available_u32(&minors, 0), next_available_u16(&ports, 7789)) {
        (Some(next_minor), Some(next_port)) => {
            let resources = sort_entries(collect_entries(files, db));
            Some(ScanResponse { resources, next_minor, next_port })
        },
        _ => None,
    }
}

// ---------------------------------------------------------------------------
// The form
// ---------------------------------------------------------------------------

/// A form that describes a resource.
#[derive(Debug, Clone)]
pub struct DrbdFormData {
    pub resource_name: String,
    pub protocol: String,
    pub minor: u32,
    pub nodes_json: String,
    pub allow_two_primaries: Option<String>,
    pub after_sb_0pri: String,
    pub after_sb_1pri: String,
    pub after_sb_2pri: String,
    pub on_io_error: String,
    pub fencing: String,
    pub wfc_timeout: u32,
    pub degr_wfc_timeout: u32,
    pub become_primary_on: Option<String>,
    pub ansible_user: String,
    pub ansible_ssh_key: String,
    pub ansible_become: Option<String>,
}

/// A node of a form.
#[derive(Debug, Clone)]
pub struct NodeInput {
    pub hostname: String,
    pub ip: String,
    pub disk_type: String,
    pub disk: String,
    pub lvm_vg: String,
    pub lvm_size: String,
    pub meta: String,
    pub port: u16,
}

/// The kind of disk of a node that names none.
pub fn default_disk_type() -> (r: String)
    ensures
        r@ == "block"@,
{
    "block".to_owned()
}

/// Where the metadata of a node lies that says nothing of it.
pub fn default_meta() -> (r: String)
    ensures
        r@ == "internal"@,
{
    "internal".to_owned()
}

/// The port of a node that names none.
pub fn default_port() -> (r: u16)
    ensures
        r == 7789,
{
    7789
}

/// Whether a switch of a form is on.
pub open spec fn is_on(o: Option<String>) -> bool {
    opt_view(o) == Some("on"@)
}

/// Whether a switch of a form is on.
pub fn switched_on(o: &Option<String>) -> (r: bool)
    ensures
        r == is_on(*o),
{
    match o {
        Some(s) => same(s.as_str(), "on"),
        None => false,
    }
}

/// Whether a node of a form can be used: it has a name, an address and a disk.
pub open spec fn is_usable(n: NodeInput) -> bool {
    n.hostname@.len() > 0 && n.ip@.len() > 0 && if n.disk_type@ == "lvm"@ {
        n.lvm_vg@.len() > 0
    } else {
        n.disk@.len() > 0
    }
}

/// Whether a node is what a form says of it, with defaults for what is left out.
pub open spec fn is_node_of(d: DrbdNode, n: NodeInput) -> bool {
    &&& d.hostname@ == n.hostname@
    &&& d.ip@ == n.ip@
    &&& d.disk_device@ == n.disk@
    &&& d.meta_disk@ == if n.meta@.len() == 0 {
        "internal"@
    } else {
        n.meta@
    }
    &&& d.port == if n.port == 0 {
        7789
    } else {
        n.port
    }
    &&& d.disk_type@ == n.disk_type@
    &&& d.lvm_vg@ == n.lvm_vg@
    &&& d.lvm_size@ == n.lvm_size@
}

/// The nodes of a form that can be used.
pub open spec fn usable(inputs: Seq<NodeInput>) -> Seq<NodeInput>
    decreases inputs.len(),
{
    if inputs.len() == 0 {
        Seq::empty()
    } else if is_usable(inputs.last()) {
        usable(inputs.drop_last()).push(inputs.last())
    } else {
        usable(inputs.drop_last())
    }
}

/// The nodes of a form that can be used, with defaults for what is left out.
pub fn parse_nodes(inputs: &Vec<NodeInput>) -> (r: Vec<DrbdNode>)
    ensures
        r@.len() == usable(inputs@).len(),
        forall|i: int| 0 <= i < r@.len() ==> is_node_of(#[trigger] r@[i], usable(inputs@)[i]),
{
    let mut out: Vec<DrbdNode> = Vec::new();
    let mut i: usize = 0;
    while i < inputs.len()
        invariant
            i <= inputs.len(),
            out@.len() == usable(inputs@.take(i as int)).len(),
            forall|k: int|
                0 <= k < out@.len() ==> is_node_of(
                    #[trigger] out@[k],
                    usable(inputs@.take(i as int))[k],
                ),
        decreases inputs.len() - i,
    {
        proof {
            assert(inputs@.take(i as int + 1).drop_last() =~= inputs@.take(i as int));
            assert(inputs@.take(i as int + 1).last() == inputs@[i as int]);
        }
        let n = &inputs[i];
        let has_disk = if same(n.disk_type.as_str(), "lvm") {
            n.lvm_vg.as_str().unicode_len() > 0
        } else {
            n.disk.as_str().unicode_len() > 0
        };
        if n.hostname.as_str().unicode_len() > 0 && n.ip.as_str().unicode_len() > 0 && has_disk {
            out.push(
                DrbdNode {
                    hostname: n.hostname.clone(),
                    ip: n.ip.clone(),
                    disk_device: n.disk.clone(),
                    meta_disk: if n.meta.as_str().unicode_len() == 0 {
                        default_meta()
                    } else {
                        n.meta.clone()
                    },
                    port: if n.port == 0 {
                        default_port()
                    } else {
                        n.port
                    },
                    disk_type: n.disk_type.clone(),
                    lvm_vg: n.lvm_vg.clone(),
                    lvm_size: n.lvm_size.clone(),
                },
            );
        }
        i += 1;
    }
    assert(inputs@.take(i as int) =~= inputs@);
    out
}

/// An optional text, empty where there is none.
pub open spec fn or_empty(o: Option<String>) -> Seq<char> {
    or_text(opt_view(o), ""@)
}

fn text_or_empty(o: &Option<String>) -> (r: String)
    ensures
        r@ == or_empty(*o),
{
    match o {
        Some(s) => s.clone(),
        None => "".to_owned(),
    }
}

/// The resource that a form describes.
pub fn build_resource(form: &DrbdFormData, nodes: Vec<DrbdNode>) -> (r: DrbdResource)
    ensures
        r.resource_name@ == form.resource_name@,
        r.protocol@ == form.protocol@,
        r.minor == form.minor,
        r.nodes == nodes,
        r.net_options.allow_two_primaries == is_on(form.allow_two_primaries),
        r.net_options.after_sb_0pri@ == form.after_sb_0pri@,
        r.net_options.after_sb_1pri@ == form.after_sb_1pri@,
        r.net_options.after_sb_2pri@ == form.after_sb_2pri@,
        r.disk_options.on_io_error@ == form.on_io_error@,
        r.disk_options.fencing@ == form.fencing@,
        r.startup_options.wfc_timeout == form.wfc_timeout,
        r.startup_options.degr_wfc_timeout == form.degr_wfc_timeout,
        r.startup_options.become_primary_on@ == or_empty(form.become_primary_on),
{
    DrbdResource {
        resource_name: form.resource_name.clone(),
        protocol: form.protocol.clone(),
        minor: form.minor,
        nodes,
        net_options: DrbdNetOptions {
            allow_two_primaries: switched_on(&form.allow_two_primaries),
            after_sb_0pri: form.after_sb_0pri.clone(),
            after_sb_1pri: form.after_sb_1pri.clone(),
            after_sb_2pri: form.after_sb_2pri.clone(),
        },
        disk_options: DrbdDiskOptions {
            on_io_error: form.on_io_error.clone(),
            fencing: form.fencing.clone(),
        },
        startup_options: DrbdStartupOptions {
            wfc_timeout: form.wfc_timeout,
            degr_wfc_timeout: form.degr_wfc_timeout,
            become_primary_on: text_or_empty(&form.become_primary_on),
        },
    }
}

/// The inventory of the nodes of a form.
pub fn build_inventory(form: &DrbdFormData, nodes: &Vec<DrbdNode>) -> (r: AnsibleInventory)
    ensures
        r.nodes@.len() == nodes@.len(),
        forall|i: int|
            0 <= i < r.nodes@.len() ==> (#[trigger] r.nodes@[i]).hostname@ == nodes@[i].hostname@
                && r.nodes@[i].ip@ == nodes@[i].ip@,
        r.ansible_user@ == form.ansible_user@,
        r.ansible_ssh_private_key_file@ == form.ansible_ssh_key@,
        r.use_become == is_on(form.ansible_become),
{
    let mut list: Vec<AnsibleNode> = Vec::new();
    let mut i: usize = 0;
    while i < nodes.len()
        invariant
            i <= nodes.len(),
            list@.len() == i,
            forall|k: int|
                0 <= k < list@.len() ==> (#[trigger] list@[k]).hostname@ == nodes@[k].hostname@
                    && list@[k].ip@ == nodes@[k].ip@,
        decreases nodes.len() - i,
    {
        list.push(
            AnsibleNode { hostname: nodes[i].hostname.clone(), ip: nodes[i].ip.clone() },
        );
        i += 1;
    }
    AnsibleInventory {
        nodes: list,
        ansible_user: form.ansible_user.clone(),
        ansible_ssh_private_key_file: form.ansible_ssh_key.clone(),
        use_become: switched_on(&form.ansible_become),
    }
}

/// What is kept of a form, to be saved later.
#[derive(Debug, Clone)]
pub struct SaveForm {
    pub resource_name: String,
    pub protocol: String,
    pub minor: u32,
    pub nodes_json: String,
    pub allow_two_primaries: bool,
    pub after_sb_0pri: String,
    pub after_sb_1pri: String,
    pub after_sb_2pri: String,
    pub on_io_error: String,
    pub fencing: String,
    pub wfc_timeout: u32,
    pub degr_wfc_timeout: u32,
    pub become_primary_on: String,
    pub ansible_user: String,
    pub ansible_ssh_key: String,
    pub ansible_become: bool,
}

/// Everything that is made from a form.
#[derive(Debug, Clone)]
pub struct DrbdResult {
    pub res_file: String,
    pub inventory_yaml: String,
    pub ansible_playbook: String,
    pub init_commands: Vec<String>,
    pub res_filename: String,
    pub has_lvm: bool,
    pub save_form: SaveForm,
}

/// Whether what is kept of a form is what the form says.
pub open spec fn is_kept(s: SaveForm, form: DrbdFormData) -> bool {
    &&& s.resource_name@ == form.resource_name@
    &&& s.protocol@ == form.protocol@
    &&& s.minor == form.minor
    &&& s.nodes_json@ == form.nodes_json@
    &&& s.allow_two_primaries == is_on(form.allow_two_primaries)
    &&& s.after_sb_0pri@ == form.after_sb_0pri@
    &&& s.after_sb_1pri@ == form.after_sb_1pri@
    &&& s.after_sb_2pri@ == form.after_sb_2pri@
    &&& s.on_io_error@ == form.on_io_error@
    &&& s.fencing@ == form.fencing@
    &&& s.wfc_timeout == form.wfc_timeout
    &&& s.degr_wfc_timeout == form.degr_wfc_timeout
    &&& s.become_primary_on@ == or_empty(form.become_primary_on)
    &&& s.ansible_user@ == form.ansible_user@
    &&& s.ansible_ssh_key@ == form.ansible_ssh_key@
    &&& s.ansible_become == is_on(form.ansible_become)
}

/// What is kept of a form.
pub fn keep_form(form: &DrbdFormData) -> (r: SaveForm)
    ensures
        is_kept(r, *form),
{
    SaveForm {
        resource_name: form.resource_name.clone(),
        protocol: form.protocol.clone(),
        minor: form.minor,
        nodes_json: form.nodes_json.clone(),
        allow_two_primaries: switched_on(&form.allow_two_primaries),
        after_sb_0pri: form.after_sb_0pri.clone(),
        after_sb_1pri: form.after_sb_1pri.clone(),
        after_sb_2pri: form.after_sb_2pri.clone(),
        on_io_error: form.on_io_error.clone(),
        fencing: form.fencing.clone(),
        wfc_timeout: form.wfc_timeout,
        degr_wfc_timeout: form.degr_wfc_timeout,
        become_primary_on: text_or_empty(&form.become_primary_on),
        ansible_user: form.ansible_user.clone(),
        ansible_ssh_key: form.ansible_ssh_key.clone(),
        ansible_become: switched_on(&form.ansible_become),
    }
}

/// Whether some node is on LVM.
pub open spec fn some_lvm(nodes: Seq<DrbdNode>) -> bool {
    exists|i: int| 0 <= i < nodes.len() && (#[trigger] nodes[i]).disk_type@ == "lvm"@
}

fn any_lvm(nodes: &Vec<DrbdNode>) -> (r: bool)
    ensures
        r == some_lvm(nodes@),
{
    let mut i: usize = 0;
    while i < nodes.len()
        invariant
            i <= nodes.len(),
            forall|j: int| 0 <= j < i ==> (#[trigger] nodes@[j]).disk_type@ != "lvm"@,
        decreases nodes.len() - i,
    {
        if same(nodes[i].disk_type.as_str(), "lvm") {
            return true;
        }
        i += 1;
    }
    false
}

/// Everything that is made from a form, its nodes and the text of its inventory; nothing
/// where fewer than two nodes can be used.
pub fn drbd_result(
    form: &DrbdFormData,
    resource: &DrbdResource,
    inventory: &AnsibleInventory,
    inventory_yaml: String,
) -> (r: Option<DrbdResult>)
    ensures
        r is Some <==> resource.nodes@.len() >= 2,
        r matches Some(d) ==> {
            &&& d.res_file@ == res_text(*resource)
            &&& d.inventory_yaml == inventory_yaml
            &&& d.ansible_playbook@ == drbd_playbook_text(*resource, *inventory)
            &&& views(d.init_commands@) == init_commands(*resource)
            &&& d.res_filename@ == resource.resource_name@ + ".res"@
            &&& d.has_lvm == some_lvm(resource.nodes@)
            &&& is_kept(d.save_form, *form)
        },
{
    if resource.nodes.len() < 2 {
        return None;
    }
    let mut res_filename = resource.resource_name.clone();
    res_filename.push_str(".res");
    Some(
        DrbdResult {
            res_file: generate_res_file(resource),
            inventory_yaml,
            ansible_playbook: generate_ansible_playbook(resource, inventory),
            init_commands: generate_drbd_init_commands(resource),
            res_filename,
            has_lvm: any_lvm(&resource.nodes),
            save_form: keep_form(form),
        },
    )
}

// ---------------------------------------------------------------------------
// Saving
// ---------------------------------------------------------------------------

/// A form whose resource is to be saved.
#[derive(Debug, Clone)]
pub struct SaveFormData {
    pub resource_name: String,
    pub protocol: String,
    pub minor: u32,
    pub nodes_json: String,
    pub allow_two_primaries: Option<String>,
    pub after_sb_0pri: Option<String>,
    pub after_sb_1pri: Option<String>,
    pub after_sb_2pri: Option<String>,
    pub on_io_error: Option<String>,
    pub fencing: Option<String>,
    pub wfc_timeout: Option<u32>,
    pub degr_wfc_timeout: Option<u32>,
    pub become_primary_on: Option<String>,
    pub source: Option<String>,
}

/// An optional text, `default` where there is none.
pub fn given_or(o: &Option<String>, default: &str) -> (r: String)
    ensures
        r@ == or_text(opt_view(*o), default@),
{
    match o {
        Some(s) => s.clone(),
        None => default.to_owned(),
    }
}

/// The options that are saved, with defaults for what a form leaves out.
pub fn saved_options(form: &SaveFormData) -> (r: (
    DrbdNetOptions,
    DrbdDiskOptions,
    DrbdStartupOptions,
))
    ensures
        r.0.allow_two_primaries == is_on(form.allow_two_primaries),
        r.0.after_sb_0pri@ == or_text(opt_view(form.after_sb_0pri), "discard-younger-primary"@),
        r.0.after_sb_1pri@ == or_text(opt_view(form.after_sb_1pri), "discard-secondary"@),
        r.0.after_sb_2pri@ == or_text(opt_view(form.after_sb_2pri), "disconnect"@),
        r.1.on_io_error@ == or_text(opt_view(form.on_io_error), "passthrough"@),
        r.1.fencing@ == or_text(opt_view(form.fencing), "resource-only"@),
        r.2.wfc_timeout == (match form.wfc_timeout {
            Some(n) => n,
            None => 15,
        }),
        r.2.degr_wfc_timeout == (match form.degr_wfc_timeout {
            Some(n) => n,
            None => 60,
        }),
        r.2.become_primary_on@ == or_empty(form.become_primary_on),
{
    (
        DrbdNetOptions {
            allow_two_primaries: switched_on(&form.allow_two_primaries),
            after_sb_0pri: given_or(&form.after_sb_0pri, "discard-younger-primary"),
            after_sb_1pri: given_or(&form.after_sb_1pri, "discard-secondary"),
            after_sb_2pri: given_or(&form.after_sb_2pri, "disconnect"),
        },
        DrbdDiskOptions {
            on_io_error: given_or(&form.on_io_error, "passthrough"),
            fencing: given_or(&form.fencing, "resource-only"),
        },
        DrbdStartupOptions {
            wfc_timeout: match form.wfc_timeout {
                Some(n) => n,
                None => 15,
            },
            degr_wfc_timeout: match form.degr_wfc_timeout {
                Some(n) => n,
                None => 60,
            },
            become_primary_on: text_or_empty(&form.become_primary_on),
        },
    )
}

/// The record of a saved resource, from the form and the JSON of its options.
pub fn saved_record(
    form: &SaveFormData,
    net_options_json: String,
    disk_options_json: String,
    startup_options_json: String,
) -> (r: DbDrbdResource)
    ensures
        r.id == 0,
        r.resource_name@ == form.resource_name@,
        r.protocol@ == form.protocol@,
        r.minor == form.minor,
        r.nodes_json@ == form.nodes_json@,
        r.net_options_json == net_options_json,
        r.disk_options_json == disk_options_json,
        r.startup_options_json == startup_options_json,
        r.source@ == or_text(opt_view(form.source), "manual"@),
        r.created_at@ == ""@,
        r.updated_at@ == ""@,
{
    DbDrbdResource {
        id: 0,
        resource_name: form.resource_name.clone(),
        protocol: form.protocol.clone(),
        minor: form.minor,
        nodes_json: form.nodes_json.clone(),
        net_options_json,
        disk_options_json,
        startup_options_json,
        source: given_or(&form.source, "manual"),
        created_at: "".to_owned(),
        updated_at: "".to_owned(),
    }
}

} // verus!
