//! The constraints that a cluster needs by default: file systems follow the promotion of
//! their DRBD clone, and services follow their file systems.

use crate::lines::{add_line, flat, lemma_flat_take, lemma_views_push};
use crate::models::pacemaker::{
    ColocationConstraint, ColocationModel, DrbdPacemakerResource, FsResource, OrderConstraint,
    OrderModel, PacemakerConfig, ResourceGroup, SystemdResource,
};
use crate::text::{same, views};
use crate::unit_read_back::lemma_flat_sum;
use vstd::prelude::*;
use vstd::string::*;

verus! {

/// One step of the chain: `then_rsc` starts after `first`, on the same node.
pub struct LinkModel {
    pub first: Seq<char>,
    /// Whether `first` has to be promoted, rather than started.
    pub promoted: bool,
    pub then_rsc: Seq<char>,
}

/// The order constraint of a link.
pub open spec fn order_of(l: LinkModel) -> OrderModel {
    OrderModel {
        id: "ord-"@ + l.then_rsc + "-after-"@ + l.first,
        first: l.first,
        first_action: if l.promoted {
            "promote"@
        } else {
            "start"@
        },
        then_rsc: l.then_rsc,
        then_action: "start"@,
        kind: "Mandatory"@,
    }
}

/// The colocation constraint of a link.
pub open spec fn colocation_of(l: LinkModel) -> ColocationModel {
    ColocationModel {
        id: "col-"@ + l.then_rsc + "-with-"@ + l.first,
        rsc: l.then_rsc,
        rsc_role: None,
        with_rsc: l.first,
        with_rsc_role: if l.promoted {
            Some("Promoted"@)
        } else {
            None
        },
        score: "INFINITY"@,
    }
}

/// Whether a file system lies on a DRBD clone.
pub open spec fn lies_on(fs: FsResource, clone_name: Seq<char>) -> bool {
    fs.drbd_clone_name@.len() == 0 || fs.drbd_clone_name@ == clone_name
}

/// Whether a group follows a file system.
pub open spec fn follows(grp: ResourceGroup, fs: Seq<char>) -> bool {
    match grp.after_fs {
        Some(name) => name@ == fs,
        None => true,
    }
}

/// The groups that follow a file system.
pub open spec fn groups_after(fs: Seq<char>) -> spec_fn(ResourceGroup) -> Seq<Seq<char>> {
    |g: ResourceGroup|
        if follows(g, fs) {
            seq![g.group_name@]
        } else {
            Seq::empty()
        }
}

/// The names of all groups.
pub open spec fn group_names(groups: Seq<ResourceGroup>) -> Seq<Seq<char>> {
    Seq::new(groups.len(), |i: int| groups[i].group_name@)
}

/// The names of all services.
pub open spec fn service_names(services: Seq<SystemdResource>) -> Seq<Seq<char>> {
    Seq::new(services.len(), |i: int| services[i].resource_name@)
}

/// What follows a file system: the groups that do, or else every service.
pub open spec fn followers(c: PacemakerConfig, fs: Seq<char>) -> Seq<Seq<char>> {
    let groups = flat(c.resource_groups@, groups_after(fs));
    if groups.len() > 0 {
        groups
    } else {
        service_names(c.systemd_resources@)
    }
}

/// What follows a DRBD clone without file systems: the groups, or else every service.
pub open spec fn direct_followers(c: PacemakerConfig) -> Seq<Seq<char>> {
    if c.resource_groups@.len() > 0 {
        group_names(c.resource_groups@)
    } else {
        service_names(c.systemd_resources@)
    }
}

/// One link to each of the given resources.
pub open spec fn links_to(first: Seq<char>, promoted: bool, names: Seq<Seq<char>>) -> Seq<
    LinkModel,
> {
    Seq::new(names.len(), |i: int| LinkModel { first, promoted, then_rsc: names[i] })
}

/// The links of a file system of a clone: from the clone to it, and from it to what
/// follows it.
pub open spec fn fs_links(c: PacemakerConfig, clone_name: Seq<char>) -> spec_fn(FsResource) -> Seq<
    LinkModel,
> {
    |fs: FsResource|
        if lies_on(fs, clone_name) {
            seq![
                LinkModel { first: clone_name, promoted: true, then_rsc: fs.resource_name@ },
            ] + links_to(fs.resource_name@, false, followers(c, fs.resource_name@))
        } else {
            Seq::empty()
        }
}

/// The links of a DRBD clone.
pub open spec fn drbd_links(c: PacemakerConfig) -> spec_fn(DrbdPacemakerResource) -> Seq<
    LinkModel,
> {
    |d: DrbdPacemakerResource|
        if c.fs_resources@.len() > 0 {
            flat(c.fs_resources@, fs_links(c, d.clone_name@))
        } else {
            links_to(d.clone_name@, true, direct_followers(c))
        }
}

/// All links that a configuration needs.
pub open spec fn default_links(c: PacemakerConfig) -> Seq<LinkModel> {
    flat(c.drbd_resources@, drbd_links(c))
}

pub open spec fn orders_of(links: Seq<LinkModel>) -> Seq<OrderModel> {
    links.map_values(|l: LinkModel| order_of(l))
}

pub open spec fn colocations_of(links: Seq<LinkModel>) -> Seq<ColocationModel> {
    links.map_values(|l: LinkModel| colocation_of(l))
}

struct Link {
    first: String,
    promoted: bool,
    then_rsc: String,
}

impl View for Link {
    type V = LinkModel;

    closed spec fn view(&self) -> LinkModel {
        LinkModel { first: self.first@, promoted: self.promoted, then_rsc: self.then_rsc@ }
    }
}

fn add_link(links: &mut Vec<Link>, first: &str, promoted: bool, then_rsc: &str)
    ensures
        views(final(links)@) == views(old(links)@).push(
            (LinkModel { first: first@, promoted, then_rsc: then_rsc@ }),
        ),
{
    let link = Link { first: first.to_owned(), promoted, then_rsc: then_rsc.to_owned() };
    proof {
        lemma_views_push(old(links)@, link);
    }
    links.push(link);
}

fn add_links(links: &mut Vec<Link>, first: &str, promoted: bool, names: &Vec<String>)
    ensures
        views(final(links)@) == views(old(links)@) + links_to(first@, promoted, views(names@)),
{
    let ghost all = links_to(first@, promoted, views(names@));
    let mut i: usize = 0;
    assert(views(links@) =~= views(links@) + all.take(0));
    while i < names.len()
        invariant
            i <= names.len(),
            all == links_to(first@, promoted, views(names@)),
            views(links@) == views(old(links)@) + all.take(i as int),
        decreases names.len() - i,
    {
        add_link(links, first, promoted, names[i].as_str());
        i += 1;
        assert(views(links@) =~= views(old(links)@) + all.take(i as int));
    }
    assert(all.take(i as int) =~= all);
}

fn collect_service_names(services: &Vec<SystemdResource>) -> (r: Vec<String>)
    ensures
        views(r@) == service_names(services@),
{
    let mut out: Vec<String> = Vec::new();
    let mut i: usize = 0;
    while i < services.len()
        invariant
            i <= services.len(),
            views(out@) =~= service_names(services@).take(i as int),
        decreases services.len() - i,
    {
        add_line(&mut out, services[i].resource_name.as_str());
        i += 1;
    }
    out
}

fn collect_group_names(groups: &Vec<ResourceGroup>) -> (r: Vec<String>)
    ensures
        views(r@) == group_names(groups@),
{
    let mut out: Vec<String> = Vec::new();
    let mut i: usize = 0;
    while i < groups.len()
        invariant
            i <= groups.len(),
            views(out@) =~= group_names(groups@).take(i as int),
        decreases groups.len() - i,
    {
        add_line(&mut out, groups[i].group_name.as_str());
        i += 1;
    }
    out
}

fn collect_followers(c: &PacemakerConfig, fs: &str) -> (r: Vec<String>)
    ensures
        views(r@) == followers(*c, fs@),
{
    let groups = &c.resource_groups;
    let mut out: Vec<String> = Vec::new();
    let mut i: usize = 0;
    assert(views(out@) =~= Seq::<Seq<char>>::empty());
    while i < groups.len()
        invariant
            groups@ == c.resource_groups@,
            i <= groups.len(),
            views(out@) == flat(groups@.take(i as int), groups_after(fs@)),
        decreases groups.len() - i,
    {
        let ghost before = views(out@);
        proof {
            lemma_flat_take(groups@, groups_after(fs@), i as int);
        }
        let group = &groups[i];
        let hit = match &group.after_fs {
            Some(name) => same(name.as_str(), fs),
            None => true,
        };
        if hit {
            add_line(&mut out, group.group_name.as_str());
            assert(views(out@) =~= before + seq![group.group_name@]);
        } else {
            assert(views(out@) =~= before + Seq::<Seq<char>>::empty());
        }
        i += 1;
    }
    assert(groups@.take(i as int) =~= groups@);
    if out.len() > 0 {
        out
    } else {
        collect_service_names(&c.systemd_resources)
    }
}

fn collect_fs_links(c: &PacemakerConfig, clone_name: &str) -> (r: Vec<Link>)
    ensures
        views(r@) == flat(c.fs_resources@, fs_links(*c, clone_name@)),
{
    let all = &c.fs_resources;
    let mut links: Vec<Link> = Vec::new();
    let mut i: usize = 0;
    assert(views(links@) =~= Seq::<LinkModel>::empty());
    while i < all.len()
        invariant
            all@ == c.fs_resources@,
            i <= all.len(),
            views(links@) == flat(all@.take(i as int), fs_links(*c, clone_name@)),
        decreases all.len() - i,
    {
        let ghost before = views(links@);
        proof {
            lemma_flat_take(all@, fs_links(*c, clone_name@), i as int);
        }
        let fs = &all[i];
        let name = fs.resource_name.as_str();
        if fs.drbd_clone_name.as_str().unicode_len() == 0 || same(
            fs.drbd_clone_name.as_str(),
            clone_name,
        ) {
            add_link(&mut links, clone_name, true, name);
            add_links(&mut links, name, false, &collect_followers(c, name));
            assert(views(links@) =~= before + fs_links(*c, clone_name@)(*fs));
        } else {
            assert(views(links@) =~= before + Seq::<LinkModel>::empty());
        }
        i += 1;
    }
    assert(all@.take(i as int) =~= all@);
    links
}

fn collect_links(c: &PacemakerConfig) -> (r: Vec<Link>)
    ensures
        views(r@) == default_links(*c),
{
    let mut links: Vec<Link> = Vec::new();
    let mut i: usize = 0;
    assert(views(links@) =~= Seq::<LinkModel>::empty());
    while i < c.drbd_resources.len()
        invariant
            i <= c.drbd_resources.len(),
            views(links@) == flat(c.drbd_resources@.take(i as int), drbd_links(*c)),
        decreases c.drbd_resources.len() - i,
    {
        let ghost before = views(links@);
        proof {
            lemma_flat_take(c.drbd_resources@, drbd_links(*c), i as int);
        }
        let clone_name = c.drbd_resources[i].clone_name.as_str();
        if c.fs_resources.len() > 0 {
            let mut more = collect_fs_links(c, clone_name);
            let ghost added = more@;
            let ghost kept = links@;
            links.append(&mut more);
            assert(links@ == kept + added);
            assert(views(links@) =~= before + views(added));
        } else if c.resource_groups.len() > 0 {
            add_links(&mut links, clone_name, true, &collect_group_names(&c.resource_groups));
        } else {
            add_links(&mut links, clone_name, true, &collect_service_names(&c.systemd_resources));
        }
        i += 1;
    }
    assert(c.drbd_resources@.take(i as int) =~= c.drbd_resources@);
    links
}

fn build_order(l: &Link) -> (r: OrderConstraint)
    ensures
        r@ == order_of(l@),
{
    let mut id = "ord-".to_owned();
    id.push_str(l.then_rsc.as_str());
    id.push_str("-after-");
    id.push_str(l.first.as_str());
    OrderConstraint {
        id,
        first: l.first.clone(),
        first_action: if l.promoted {
            "promote".to_owned()
        } else {
            "start".to_owned()
        },
        then_rsc: l.then_rsc.clone(),
        then_action: "start".to_owned(),
        kind: "Mandatory".to_owned(),
    }
}

fn build_colocation(l: &Link) -> (r: ColocationConstraint)
    ensures
        r@ == colocation_of(l@),
{
    let mut id = "col-".to_owned();
    id.push_str(l.then_rsc.as_str());
    id.push_str("-with-");
    id.push_str(l.first.as_str());
    ColocationConstraint {
        id,
        rsc: l.then_rsc.clone(),
        rsc_role: None,
        with_rsc: l.first.clone(),
        with_rsc_role: if l.promoted {
            Some("Promoted".to_owned())
        } else {
            None
        },
        score: "INFINITY".to_owned(),
    }
}

/// Adds the constraints that a configuration needs: for each link of the chain from the
/// DRBD clones over the file systems to the groups or services, an order and a
/// colocation.
pub fn generate_default_constraints(config: &mut PacemakerConfig)
    ensures
        views(final(config).order_constraints@) == views(old(config).order_constraints@)
            + orders_of(default_links(*old(config))),
        views(final(config).colocation_constraints@) == views(old(config).colocation_constraints@)
            + colocations_of(default_links(*old(config))),
        final(config).cluster == old(config).cluster,
        final(config).drbd_resources == old(config).drbd_resources,
        final(config).fs_resources == old(config).fs_resources,
        final(config).systemd_resources == old(config).systemd_resources,
        final(config).resource_groups == old(config).resource_groups,
        final(config).location_constraints == old(config).location_constraints,
        final(config).stonith_devices == old(config).stonith_devices,
{
    let links = collect_links(config);
    let ghost all = default_links(*old(config));
    let mut i: usize = 0;
    proof {
        assert(views(config.order_constraints@) =~= views(config.order_constraints@) + orders_of(
            all,
        ).take(0));
        assert(views(config.colocation_constraints@) =~= views(config.colocation_constraints@)
            + colocations_of(all).take(0));
    }
    while i < links.len()
        invariant
            i <= links.len(),
            all == views(links@),
            views(config.order_constraints@) == views(old(config).order_constraints@) + orders_of(
                all,
            ).take(i as int),
            views(config.colocation_constraints@) == views(old(config).colocation_constraints@)
                + colocations_of(all).take(i as int),
            config.cluster == old(config).cluster,
            config.drbd_resources == old(config).drbd_resources,
            config.fs_resources == old(config).fs_resources,
            config.systemd_resources == old(config).systemd_resources,
            config.resource_groups == old(config).resource_groups,
            config.location_constraints == old(config).location_constraints,
            config.stonith_devices == old(config).stonith_devices,
        decreases links.len() - i,
    {
        let order = build_order(&links[i]);
        let colocation = build_colocation(&links[i]);
        proof {
            assert(all[i as int] == links@[i as int]@);
            lemma_views_push(config.order_constraints@, order);
            lemma_views_push(config.colocation_constraints@, colocation);
        }
        config.order_constraints.push(order);
        config.colocation_constraints.push(colocation);
        i += 1;
        proof {
            assert(views(config.order_constraints@) =~= views(old(config).order_constraints@)
                + orders_of(all).take(i as int));
            assert(views(config.colocation_constraints@) =~= views(
                old(config).colocation_constraints@,
            ) + colocations_of(all).take(i as int));
        }
    }
    proof {
        assert(orders_of(all).take(i as int) =~= orders_of(all));
        assert(colocations_of(all).take(i as int) =~= colocations_of(all));
    }
}

// ---------------------------------------------------------------------------
// Laws
// ---------------------------------------------------------------------------

/// What links a configuration needs depends on its resources and groups alone.
pub proof fn lemma_same_links(a: PacemakerConfig, b: PacemakerConfig)
    requires
        a.drbd_resources == b.drbd_resources,
        a.fs_resources == b.fs_resources,
        a.systemd_resources == b.systemd_resources,
        a.resource_groups == b.resource_groups,
    ensures
        default_links(a) == default_links(b),
{
    lemma_same_drbd_links(a, b, a.drbd_resources@);
}

proof fn lemma_same_drbd_links(
    a: PacemakerConfig,
    b: PacemakerConfig,
    v: Seq<DrbdPacemakerResource>,
)
    requires
        a.fs_resources == b.fs_resources,
        a.systemd_resources == b.systemd_resources,
        a.resource_groups == b.resource_groups,
    ensures
        flat(v, drbd_links(a)) == flat(v, drbd_links(b)),
    decreases v.len(),
{
    if v.len() > 0 {
        lemma_same_drbd_links(a, b, v.drop_last());
        lemma_same_fs_links(a, b, v.last().clone_name@, a.fs_resources@);
    }
}

proof fn lemma_same_fs_links(
    a: PacemakerConfig,
    b: PacemakerConfig,
    clone_name: Seq<char>,
    v: Seq<FsResource>,
)
    requires
        a.fs_resources == b.fs_resources,
        a.systemd_resources == b.systemd_resources,
        a.resource_groups == b.resource_groups,
    ensures
        flat(v, fs_links(a, clone_name)) == flat(v, fs_links(b, clone_name)),
    decreases v.len(),
{
    if v.len() > 0 {
        lemma_same_fs_links(a, b, clone_name, v.drop_last());
    }
}

/// Each order constraint has a colocation constraint for the same two resources.
pub proof fn law_orders_and_colocations_pair_up(c: PacemakerConfig)
    ensures
        orders_of(default_links(c)).len() == colocations_of(default_links(c)).len(),
        forall|i: int|
            0 <= i < default_links(c).len() ==> {
                let o = #[trigger] orders_of(default_links(c))[i];
                let k = colocations_of(default_links(c))[i];
                &&& o.first == k.with_rsc
                &&& o.then_rsc == k.rsc
                &&& (o.first_action == "promote"@ <==> k.with_rsc_role == Some("Promoted"@))
            },
{
    reveal_strlit("promote");
    reveal_strlit("start");
    assert("promote"@.len() != "start"@.len());
}

/// Whether the resource that a link leads to is a file system that lies on the clone the
/// link comes from, or follows what the link comes from.
pub open spec fn well_linked(c: PacemakerConfig, l: LinkModel) -> bool {
    if l.promoted {
        (exists|k: int|
            0 <= k < c.fs_resources@.len() && (#[trigger] c.fs_resources@[k]).resource_name@
                == l.then_rsc && lies_on(c.fs_resources@[k], l.first)) || (c.fs_resources@.len()
            == 0 && direct_followers(c).contains(l.then_rsc))
    } else {
        followers(c, l.first).contains(l.then_rsc)
    }
}

proof fn lemma_links_to_well(c: PacemakerConfig, first: Seq<char>, promoted: bool, names: Seq<
    Seq<char>,
>)
    requires
        !promoted ==> names == followers(c, first),
        promoted ==> c.fs_resources@.len() == 0 && names == direct_followers(c),
    ensures
        forall|i: int|
            0 <= i < links_to(first, promoted, names).len() ==> well_linked(
                c,
                #[trigger] links_to(first, promoted, names)[i],
            ),
{
    assert forall|i: int| 0 <= i < links_to(first, promoted, names).len() implies well_linked(
        c,
        #[trigger] links_to(first, promoted, names)[i],
    ) by {
        assert(names.contains(names[i]));
    }
}

proof fn lemma_fs_links_well(c: PacemakerConfig, clone_name: Seq<char>, n: int)
    requires
        0 <= n <= c.fs_resources@.len(),
    ensures
        forall|i: int|
            0 <= i < flat(c.fs_resources@.take(n), fs_links(c, clone_name)).len() ==> well_linked(
                c,
                #[trigger] flat(c.fs_resources@.take(n), fs_links(c, clone_name))[i],
            ),
    decreases n,
{
    if n > 0 {
        lemma_fs_links_well(c, clone_name, n - 1);
        lemma_flat_take(c.fs_resources@, fs_links(c, clone_name), n - 1);
        let fs = c.fs_resources@[n - 1];
        let more = fs_links(c, clone_name)(fs);
        let before = flat(c.fs_resources@.take(n - 1), fs_links(c, clone_name));
        lemma_links_to_well(c, fs.resource_name@, false, followers(c, fs.resource_name@));
        assert forall|i: int| 0 <= i < more.len() implies well_linked(c, #[trigger] more[i]) by {
            if i == 0 {
                assert(c.fs_resources@[n - 1].resource_name@ == more[0].then_rsc);
            } else {
                let tail = links_to(fs.resource_name@, false, followers(c, fs.resource_name@));
                assert(more[i] == tail[i - 1]);
            }
        }
        assert forall|i: int| 0 <= i < (before + more).len() implies well_linked(
            c,
            #[trigger] (before + more)[i],
        ) by {
            if i < before.len() {
                assert((before + more)[i] == before[i]);
            } else {
                assert((before + more)[i] == more[i - before.len()]);
            }
        }
    }
}

proof fn lemma_drbd_links_well(c: PacemakerConfig, n: int)
    requires
        0 <= n <= c.drbd_resources@.len(),
    ensures
        forall|i: int|
            0 <= i < flat(c.drbd_resources@.take(n), drbd_links(c)).len() ==> well_linked(
                c,
                #[trigger] flat(c.drbd_resources@.take(n), drbd_links(c))[i],
            ),
    decreases n,
{
    if n > 0 {
        lemma_drbd_links_well(c, n - 1);
        lemma_flat_take(c.drbd_resources@, drbd_links(c), n - 1);
        let d = c.drbd_resources@[n - 1];
        let more = drbd_links(c)(d);
        let before = flat(c.drbd_resources@.take(n - 1), drbd_links(c));
        if c.fs_resources@.len() > 0 {
            lemma_fs_links_well(c, d.clone_name@, c.fs_resources@.len() as int);
            assert(c.fs_resources@.take(c.fs_resources@.len() as int) =~= c.fs_resources@);
        } else {
            lemma_links_to_well(c, d.clone_name@, true, direct_followers(c));
        }
        assert forall|i: int| 0 <= i < (before + more).len() implies well_linked(
            c,
            #[trigger] (before + more)[i],
        ) by {
            if i < before.len() {
                assert((before + more)[i] == before[i]);
            } else {
                assert((before + more)[i] == more[i - before.len()]);
            }
        }
    }
}

/// The chain is linked step by step: a promotion leads to a file system that lies on the
/// clone (or, without file systems, to the groups or services), and a file system leads
/// to the groups that follow it, and to single services only where no group does.
pub proof fn law_links_are_well_linked(c: PacemakerConfig)
    ensures
        forall|i: int|
            0 <= i < default_links(c).len() ==> well_linked(c, #[trigger] default_links(c)[i]),
{
    lemma_drbd_links_well(c, c.drbd_resources@.len() as int);
    assert(c.drbd_resources@.take(c.drbd_resources@.len() as int) =~= c.drbd_resources@);
}

/// Where a group that is not tied to a file system exists, what follows a file system are
/// groups only: no service is constrained on its own.
pub proof fn law_free_groups_are_constrained_as_groups(c: PacemakerConfig, g: int, fs: Seq<char>)
    requires
        0 <= g < c.resource_groups@.len(),
        c.resource_groups@[g].after_fs is None,
    ensures
        followers(c, fs) == flat(c.resource_groups@, groups_after(fs)),
        followers(c, fs).contains(c.resource_groups@[g].group_name@),
        forall|i: int|
            0 <= i < followers(c, fs).len() ==> group_names(c.resource_groups@).contains(
                #[trigger] followers(c, fs)[i],
            ),
{
    lemma_groups_after(c.resource_groups@, fs, c.resource_groups@.len() as int);
    let n = c.resource_groups@.len() as int;
    assert(c.resource_groups@.take(n) =~= c.resource_groups@);
    let all = flat(c.resource_groups@, groups_after(fs));
    assert(all.contains(c.resource_groups@[g].group_name@));
    assert(all.len() > 0);
}

proof fn lemma_groups_after(groups: Seq<ResourceGroup>, fs: Seq<char>, n: int)
    requires
        0 <= n <= groups.len(),
    ensures
        forall|k: int|
            0 <= k < n && follows(groups[k], fs) ==> flat(
                groups.take(n),
                groups_after(fs),
            ).contains((#[trigger] groups[k]).group_name@),
        forall|i: int|
            0 <= i < flat(groups.take(n), groups_after(fs)).len() ==> group_names(groups).contains(
                #[trigger] flat(groups.take(n), groups_after(fs))[i],
            ),
    decreases n,
{
    if n > 0 {
        lemma_groups_after(groups, fs, n - 1);
        lemma_flat_take(groups, groups_after(fs), n - 1);
        let before = flat(groups.take(n - 1), groups_after(fs));
        let more = groups_after(fs)(groups[n - 1]);
        let all = before + more;
        assert forall|k: int| 0 <= k < n && follows(groups[k], fs) implies all.contains(
            (#[trigger] groups[k]).group_name@,
        ) by {
            if k < n - 1 {
                assert(before.contains(groups[k].group_name@));
                let j = choose|j: int| 0 <= j < before.len() && before[j] == groups[k].group_name@;
                assert(all[j] == groups[k].group_name@);
            } else {
                assert(all[before.len() as int] == groups[k].group_name@);
            }
        }
        assert forall|i: int| 0 <= i < all.len() implies group_names(groups).contains(
            #[trigger] all[i],
        ) by {
            if i < before.len() {
                assert(all[i] == before[i]);
            } else {
                assert(group_names(groups)[n - 1] == all[i]);
            }
        }
    }
}

// ---------------------------------------------------------------------------
// Which resources are tied to which
// ---------------------------------------------------------------------------

/// Whether some order constraint and the colocation constraint beside it tie a resource to
/// another one: it starts after the other was started, or promoted, and runs where that one
/// runs, or is promoted.
pub open spec fn is_tied(
    c: PacemakerConfig,
    first: Seq<char>,
    promoted: bool,
    then_rsc: Seq<char>,
) -> bool {
    exists|i: int|
        0 <= i < orders_of(default_links(c)).len() && ties(
            #[trigger] orders_of(default_links(c))[i],
            colocations_of(default_links(c))[i],
            first,
            promoted,
            then_rsc,
        )
}

/// Whether two constraints tie a resource to another one.
pub open spec fn ties(
    o: OrderModel,
    k: ColocationModel,
    first: Seq<char>,
    promoted: bool,
    then_rsc: Seq<char>,
) -> bool {
    &&& o.id == "ord-"@ + then_rsc + "-after-"@ + first
    &&& o.first == first
    &&& o.first_action == if promoted {
        "promote"@
    } else {
        "start"@
    }
    &&& o.then_rsc == then_rsc
    &&& o.then_action == "start"@
    &&& o.kind == "Mandatory"@
    &&& k.id == "col-"@ + then_rsc + "-with-"@ + first
    &&& k.rsc == then_rsc
    &&& k.rsc_role is None
    &&& k.with_rsc == first
    &&& k.with_rsc_role == if promoted {
        Some("Promoted"@)
    } else {
        None
    }
    &&& k.score == "INFINITY"@
}

proof fn lemma_in_flat<T, U>(v: Seq<T>, f: spec_fn(T) -> Seq<U>, i: int, j: int)
    requires
        0 <= i < v.len(),
        0 <= j < f(v[i]).len(),
    ensures
        flat(v, f).contains(f(v[i])[j]),
    decreases v.len(),
{
    let front = flat(v.drop_last(), f);
    let all = flat(v, f);
    if i == v.len() - 1 {
        assert(all[front.len() + j] == f(v[i])[j]);
    } else {
        lemma_in_flat(v.drop_last(), f, i, j);
        let k = choose|k: int| 0 <= k < front.len() && front[k] == f(v.drop_last()[i])[j];
        assert(all[k] == f(v[i])[j]);
    }
}

proof fn lemma_from_flat<T, U>(v: Seq<T>, f: spec_fn(T) -> Seq<U>, x: U) -> (r: (int, int))
    requires
        flat(v, f).contains(x),
    ensures
        0 <= r.0 < v.len(),
        0 <= r.1 < f(v[r.0]).len(),
        f(v[r.0])[r.1] == x,
    decreases v.len(),
{
    let all = flat(v, f);
    let k = choose|k: int| 0 <= k < all.len() && all[k] == x;
    let front = flat(v.drop_last(), f);
    if k < front.len() {
        assert(front[k] == x);
        lemma_from_flat(v.drop_last(), f, x)
    } else {
        assert(f(v[v.len() - 1])[k - front.len()] == x);
        (v.len() - 1, k - front.len())
    }
}

proof fn lemma_link_ties(c: PacemakerConfig, l: LinkModel)
    requires
        default_links(c).contains(l),
    ensures
        is_tied(c, l.first, l.promoted, l.then_rsc),
{
    let links = default_links(c);
    let i = choose|i: int| 0 <= i < links.len() && links[i] == l;
    assert(orders_of(links)[i] == order_of(l));
    assert(colocations_of(links)[i] == colocation_of(l));
}

proof fn lemma_clone_link(c: PacemakerConfig, d: int, j: int)
    requires
        0 <= d < c.drbd_resources@.len(),
        0 <= j < drbd_links(c)(c.drbd_resources@[d]).len(),
    ensures
        ({
            let l = drbd_links(c)(c.drbd_resources@[d])[j];
            is_tied(c, l.first, l.promoted, l.then_rsc)
        }),
{
    lemma_in_flat(c.drbd_resources@, drbd_links(c), d, j);
    lemma_link_ties(c, drbd_links(c)(c.drbd_resources@[d])[j]);
}

proof fn lemma_fs_link(c: PacemakerConfig, d: int, k: int, j: int)
    requires
        0 <= d < c.drbd_resources@.len(),
        0 <= k < c.fs_resources@.len(),
        0 <= j < fs_links(c, c.drbd_resources@[d].clone_name@)(c.fs_resources@[k]).len(),
    ensures
        ({
            let l = fs_links(c, c.drbd_resources@[d].clone_name@)(c.fs_resources@[k])[j];
            is_tied(c, l.first, l.promoted, l.then_rsc)
        }),
{
    let f = fs_links(c, c.drbd_resources@[d].clone_name@);
    let l = f(c.fs_resources@[k])[j];
    lemma_in_flat(c.fs_resources@, f, k, j);
    let all = drbd_links(c)(c.drbd_resources@[d]);
    let i = choose|i: int| 0 <= i < all.len() && all[i] == l;
    lemma_clone_link(c, d, i);
}

/// A file system that names a clone, or none, is mounted after the clone is promoted, and
/// where it is.
pub proof fn law_file_systems_follow_their_clones(c: PacemakerConfig, d: int, k: int)
    requires
        0 <= d < c.drbd_resources@.len(),
        0 <= k < c.fs_resources@.len(),
        c.fs_resources@[k].drbd_clone_name@.len() == 0 || c.fs_resources@[k].drbd_clone_name@
            == c.drbd_resources@[d].clone_name@,
    ensures
        is_tied(
            c,
            c.drbd_resources@[d].clone_name@,
            true,
            c.fs_resources@[k].resource_name@,
        ),
{
    lemma_fs_link(c, d, k, 0);
}

/// A group that names a file system on a clone, or none, starts after the file system, and
/// where it is mounted.
pub proof fn law_groups_follow_their_file_systems(c: PacemakerConfig, d: int, k: int, g: int)
    requires
        0 <= d < c.drbd_resources@.len(),
        0 <= k < c.fs_resources@.len(),
        c.fs_resources@[k].drbd_clone_name@.len() == 0 || c.fs_resources@[k].drbd_clone_name@
            == c.drbd_resources@[d].clone_name@,
        0 <= g < c.resource_groups@.len(),
        c.resource_groups@[g].after_fs is None || c.resource_groups@[g].after_fs->0@
            == c.fs_resources@[k].resource_name@,
    ensures
        is_tied(
            c,
            c.fs_resources@[k].resource_name@,
            false,
            c.resource_groups@[g].group_name@,
        ),
{
    let fs = c.fs_resources@[k].resource_name@;
    let names = flat(c.resource_groups@, groups_after(fs));
    lemma_in_flat(c.resource_groups@, groups_after(fs), g, 0);
    let j = choose|j: int|
        0 <= j < names.len() && names[j] == c.resource_groups@[g].group_name@;
    assert(followers(c, fs)[j] == c.resource_groups@[g].group_name@);
    lemma_fs_link(c, d, k, j + 1);
}

/// Where no group follows a file system on a clone, every service starts after it, and where
/// it is mounted.
pub proof fn law_services_follow_file_systems(c: PacemakerConfig, d: int, k: int, s: int)
    requires
        0 <= d < c.drbd_resources@.len(),
        0 <= k < c.fs_resources@.len(),
        c.fs_resources@[k].drbd_clone_name@.len() == 0 || c.fs_resources@[k].drbd_clone_name@
            == c.drbd_resources@[d].clone_name@,
        forall|g: int|
            0 <= g < c.resource_groups@.len() ==> (#[trigger] c.resource_groups@[g]).after_fs is Some
                && c.resource_groups@[g].after_fs->0@ != c.fs_resources@[k].resource_name@,
        0 <= s < c.systemd_resources@.len(),
    ensures
        is_tied(
            c,
            c.fs_resources@[k].resource_name@,
            false,
            c.systemd_resources@[s].resource_name@,
        ),
{
    let fs = c.fs_resources@[k].resource_name@;
    let names = flat(c.resource_groups@, groups_after(fs));
    assert(names.len() == 0) by {
        if names.len() > 0 {
            assert(names.contains(names[0]));
            let r = lemma_from_flat(c.resource_groups@, groups_after(fs), names[0]);
            assert(c.resource_groups@[r.0].after_fs is Some);
        }
    }
    assert(followers(c, fs)[s] == c.systemd_resources@[s].resource_name@);
    lemma_fs_link(c, d, k, s + 1);
}

/// Without file systems, every group starts after each clone is promoted, and where it is.
pub proof fn law_groups_follow_the_clones(c: PacemakerConfig, d: int, g: int)
    requires
        0 <= d < c.drbd_resources@.len(),
        c.fs_resources@.len() == 0,
        0 <= g < c.resource_groups@.len(),
    ensures
        is_tied(c, c.drbd_resources@[d].clone_name@, true, c.resource_groups@[g].group_name@),
{
    lemma_clone_link(c, d, g);
}

/// Without file systems and groups, every service starts after each clone is promoted, and
/// where it is.
pub proof fn law_services_follow_the_clones(c: PacemakerConfig, d: int, s: int)
    requires
        0 <= d < c.drbd_resources@.len(),
        c.fs_resources@.len() == 0,
        c.resource_groups@.len() == 0,
        0 <= s < c.systemd_resources@.len(),
    ensures
        is_tied(c, c.drbd_resources@[d].clone_name@, true, c.systemd_resources@[s].resource_name@),
{
    lemma_clone_link(c, d, s);
}

/// The groups that name a file system, or none.
pub open spec fn free_or_behind(fs: Seq<char>) -> spec_fn(ResourceGroup) -> bool {
    |g: ResourceGroup| g.after_fs is None || g.after_fs->0@ == fs
}

/// How many constraints of each kind a configuration of one clone gets, and in which order:
/// none for a file system on another clone; for one on the clone, first the file system
/// itself, then the groups that follow it, or all services where none does.
pub proof fn law_one_clone_and_file_system(c: PacemakerConfig)
    requires
        c.drbd_resources@.len() == 1,
        c.fs_resources@.len() == 1,
    ensures
        ({
            let orders = orders_of(default_links(c));
            let places = colocations_of(default_links(c));
            let clone_name = c.drbd_resources@[0].clone_name@;
            let fs = c.fs_resources@[0];
            let groups = c.resource_groups@.filter(free_or_behind(fs.resource_name@));
            &&& places.len() == orders.len()
            &&& fs.drbd_clone_name@.len() > 0 && fs.drbd_clone_name@ != clone_name ==> orders.len()
                == 0
            &&& fs.drbd_clone_name@.len() == 0 || fs.drbd_clone_name@ == clone_name ==> {
                &&& orders.len() == 1 + if groups.len() > 0 {
                    groups.len()
                } else {
                    c.systemd_resources@.len()
                }
                &&& ties(orders[0], places[0], clone_name, true, fs.resource_name@)
                &&& forall|i: int|
                    1 <= i < orders.len() ==> ties(
                        #[trigger] orders[i],
                        places[i],
                        fs.resource_name@,
                        false,
                        if groups.len() > 0 {
                            groups[i - 1].group_name@
                        } else {
                            c.systemd_resources@[i - 1].resource_name@
                        },
                    )
            }
        }),
{
    let clone_name = c.drbd_resources@[0].clone_name@;
    let fs = c.fs_resources@[0];
    let name = fs.resource_name@;
    let groups = c.resource_groups@.filter(free_or_behind(name));
    lemma_flat_single(c.drbd_resources@, drbd_links(c));
    lemma_flat_single(c.fs_resources@, fs_links(c, clone_name));
    lemma_followers_are_filtered(c.resource_groups@, name);
    let links = default_links(c);
    let orders = orders_of(links);
    let places = colocations_of(links);
    assert(links == fs_links(c, clone_name)(fs));
    if fs.drbd_clone_name@.len() == 0 || fs.drbd_clone_name@ == clone_name {
        assert(orders[0] == order_of(links[0]) && places[0] == colocation_of(links[0]));
        assert forall|i: int| 1 <= i < orders.len() implies ties(
            #[trigger] orders[i],
            places[i],
            name,
            false,
            if groups.len() > 0 {
                groups[i - 1].group_name@
            } else {
                c.systemd_resources@[i - 1].resource_name@
            },
        ) by {
            assert(orders[i] == order_of(links[i]) && places[i] == colocation_of(links[i]));
            assert(links[i] == links_to(name, false, followers(c, name))[i - 1]);
        }
    }
}

/// How many constraints of each kind a configuration of one clone without file systems gets,
/// and in which order.
pub proof fn law_one_clone_without_file_system(c: PacemakerConfig)
    requires
        c.drbd_resources@.len() == 1,
        c.fs_resources@.len() == 0,
    ensures
        ({
            let orders = orders_of(default_links(c));
            let places = colocations_of(default_links(c));
            let groups = c.resource_groups@;
            &&& places.len() == orders.len()
            &&& orders.len() == if groups.len() > 0 {
                groups.len()
            } else {
                c.systemd_resources@.len()
            }
            &&& forall|i: int|
                0 <= i < orders.len() ==> ties(
                    #[trigger] orders[i],
                    places[i],
                    c.drbd_resources@[0].clone_name@,
                    true,
                    if groups.len() > 0 {
                        groups[i].group_name@
                    } else {
                        c.systemd_resources@[i].resource_name@
                    },
                )
        }),
{
    lemma_flat_single(c.drbd_resources@, drbd_links(c));
    let links = default_links(c);
    let orders = orders_of(links);
    let places = colocations_of(links);
    assert forall|i: int| 0 <= i < orders.len() implies ties(
        #[trigger] orders[i],
        places[i],
        c.drbd_resources@[0].clone_name@,
        true,
        if c.resource_groups@.len() > 0 {
            c.resource_groups@[i].group_name@
        } else {
            c.systemd_resources@[i].resource_name@
        },
    ) by {
        assert(orders[i] == order_of(links[i]) && places[i] == colocation_of(links[i]));
    }
}

/// A configuration without clones gets no constraints.
pub proof fn law_no_clone_no_constraints(c: PacemakerConfig)
    requires
        c.drbd_resources@.len() == 0,
    ensures
        orders_of(default_links(c)).len() == 0,
        colocations_of(default_links(c)).len() == 0,
{
}

/// The constraints for the clones of two configurations together are those of the one and
/// then those of the other.
pub proof fn law_clones_are_constrained_one_by_one(
    whole: PacemakerConfig,
    a: PacemakerConfig,
    b: PacemakerConfig,
)
    requires
        whole.drbd_resources@ == a.drbd_resources@ + b.drbd_resources@,
        whole.fs_resources == a.fs_resources && whole.fs_resources == b.fs_resources,
        whole.systemd_resources == a.systemd_resources && whole.systemd_resources
            == b.systemd_resources,
        whole.resource_groups == a.resource_groups && whole.resource_groups == b.resource_groups,
    ensures
        orders_of(default_links(whole)) == orders_of(default_links(a)) + orders_of(
            default_links(b),
        ),
        colocations_of(default_links(whole)) == colocations_of(default_links(a)) + colocations_of(
            default_links(b),
        ),
{
    lemma_flat_sum(a.drbd_resources@, b.drbd_resources@, drbd_links(whole));
    lemma_same_drbd_links(whole, a, a.drbd_resources@);
    lemma_same_drbd_links(whole, b, b.drbd_resources@);
    assert(orders_of(default_links(whole)) =~= orders_of(default_links(a)) + orders_of(
        default_links(b),
    ));
    assert(colocations_of(default_links(whole)) =~= colocations_of(default_links(a))
        + colocations_of(default_links(b)));
}

/// The constraints of one clone for the file systems of two configurations together are
/// those of the one and then those of the other.
pub proof fn law_file_systems_are_constrained_one_by_one(
    whole: PacemakerConfig,
    a: PacemakerConfig,
    b: PacemakerConfig,
)
    requires
        whole.drbd_resources@.len() == 1,
        whole.drbd_resources == a.drbd_resources && whole.drbd_resources == b.drbd_resources,
        whole.fs_resources@ == a.fs_resources@ + b.fs_resources@,
        a.fs_resources@.len() > 0,
        b.fs_resources@.len() > 0,
        whole.systemd_resources == a.systemd_resources && whole.systemd_resources
            == b.systemd_resources,
        whole.resource_groups == a.resource_groups && whole.resource_groups == b.resource_groups,
    ensures
        orders_of(default_links(whole)) == orders_of(default_links(a)) + orders_of(
            default_links(b),
        ),
        colocations_of(default_links(whole)) == colocations_of(default_links(a)) + colocations_of(
            default_links(b),
        ),
{
    let d = whole.drbd_resources@[0];
    lemma_flat_single(whole.drbd_resources@, drbd_links(whole));
    lemma_flat_single(whole.drbd_resources@, drbd_links(a));
    lemma_flat_single(whole.drbd_resources@, drbd_links(b));
    let f = fs_links(whole, d.clone_name@);
    lemma_flat_sum(a.fs_resources@, b.fs_resources@, f);
    lemma_same_followers(whole, a, d.clone_name@, a.fs_resources@);
    lemma_same_followers(whole, b, d.clone_name@, b.fs_resources@);
    assert(orders_of(default_links(whole)) =~= orders_of(default_links(a)) + orders_of(
        default_links(b),
    ));
    assert(colocations_of(default_links(whole)) =~= colocations_of(default_links(a))
        + colocations_of(default_links(b)));
}

proof fn lemma_same_followers(
    a: PacemakerConfig,
    b: PacemakerConfig,
    clone_name: Seq<char>,
    v: Seq<FsResource>,
)
    requires
        a.systemd_resources == b.systemd_resources,
        a.resource_groups == b.resource_groups,
    ensures
        flat(v, fs_links(a, clone_name)) == flat(v, fs_links(b, clone_name)),
    decreases v.len(),
{
    if v.len() > 0 {
        lemma_same_followers(a, b, clone_name, v.drop_last());
    }
}

proof fn lemma_flat_single<T, U>(v: Seq<T>, f: spec_fn(T) -> Seq<U>)
    requires
        v.len() == 1,
    ensures
        flat(v, f) == f(v[0]),
{
    assert(v.drop_last() =~= Seq::<T>::empty());
    assert(flat(v.drop_last(), f) =~= Seq::<U>::empty());
    assert(Seq::<U>::empty() + f(v[0]) =~= f(v[0]));
}

/// The names of the groups that follow a file system are those of the groups that name it, or
/// none.
proof fn lemma_followers_are_filtered(groups: Seq<ResourceGroup>, fs: Seq<char>)
    ensures
        ({
            let kept = groups.filter(free_or_behind(fs));
            let names = flat(groups, groups_after(fs));
            &&& names.len() == kept.len()
            &&& forall|i: int| 0 <= i < kept.len() ==> #[trigger] names[i] == kept[i].group_name@
        }),
    decreases groups.len(),
{
    reveal(Seq::filter);
    if groups.len() > 0 {
        lemma_followers_are_filtered(groups.drop_last(), fs);
        assert(free_or_behind(fs)(groups.last()) == follows(groups.last(), fs));
    }
}

/// Whether the resources of a configuration call for a resource to be tied to another one.
pub open spec fn is_due(
    c: PacemakerConfig,
    first: Seq<char>,
    promoted: bool,
    then_rsc: Seq<char>,
) -> bool {
    if promoted {
        &&& exists|d: int|
            0 <= d < c.drbd_resources@.len() && (#[trigger] c.drbd_resources@[d]).clone_name@
                == first
        &&& if c.fs_resources@.len() > 0 {
            exists|k: int|
                0 <= k < c.fs_resources@.len() && (#[trigger] c.fs_resources@[k]).resource_name@
                    == then_rsc && (c.fs_resources@[k].drbd_clone_name@.len() == 0
                    || c.fs_resources@[k].drbd_clone_name@ == first)
        } else if c.resource_groups@.len() > 0 {
            exists|g: int|
                0 <= g < c.resource_groups@.len() && (#[trigger] c.resource_groups@[g]).group_name@
                    == then_rsc
        } else {
            exists|s: int|
                0 <= s < c.systemd_resources@.len()
                    && (#[trigger] c.systemd_resources@[s]).resource_name@ == then_rsc
        }
    } else {
        &&& exists|k: int|
            0 <= k < c.fs_resources@.len() && (#[trigger] c.fs_resources@[k]).resource_name@
                == first
        &&& (exists|g: int|
            0 <= g < c.resource_groups@.len() && (#[trigger] c.resource_groups@[g]).group_name@
                == then_rsc && (c.resource_groups@[g].after_fs is None
                || c.resource_groups@[g].after_fs->0@ == first)) || ((forall|g: int|
            0 <= g < c.resource_groups@.len() ==> (#[trigger] c.resource_groups@[g]).after_fs is Some
                && c.resource_groups@[g].after_fs->0@ != first) && exists|s: int|
            0 <= s < c.systemd_resources@.len()
                && (#[trigger] c.systemd_resources@[s]).resource_name@ == then_rsc)
    }
}

/// No constraint is made that the resources do not call for.
pub proof fn law_every_constraint_is_due(c: PacemakerConfig, i: int)
    requires
        0 <= i < orders_of(default_links(c)).len(),
    ensures
        ({
            let o = orders_of(default_links(c))[i];
            let k = colocations_of(default_links(c))[i];
            let promoted = o.first_action == "promote"@;
            is_due(c, o.first, promoted, o.then_rsc) && ties(o, k, o.first, promoted, o.then_rsc)
        }),
{
    reveal_strlit("promote");
    reveal_strlit("start");
    assert("promote"@.len() != "start"@.len());
    let links = default_links(c);
    let l = links[i];
    assert(orders_of(links)[i] == order_of(l));
    assert(colocations_of(links)[i] == colocation_of(l));
    assert(links.contains(l));
    let r = lemma_from_flat(c.drbd_resources@, drbd_links(c), l);
    let d = c.drbd_resources@[r.0];
    if c.fs_resources@.len() > 0 {
        let f = fs_links(c, d.clone_name@);
        assert(flat(c.fs_resources@, f).contains(l));
        let q = lemma_from_flat(c.fs_resources@, f, l);
        let fs = c.fs_resources@[q.0];
        if q.1 == 0 {
            assert(c.fs_resources@[q.0].resource_name@ == l.then_rsc);
        } else {
            let names = followers(c, fs.resource_name@);
            assert(l == links_to(fs.resource_name@, false, names)[q.1 - 1]);
            assert(names[q.1 - 1] == l.then_rsc);
            let groups = flat(c.resource_groups@, groups_after(fs.resource_name@));
            if groups.len() > 0 {
                assert(groups.contains(l.then_rsc));
                let z = lemma_from_flat(
                    c.resource_groups@,
                    groups_after(fs.resource_name@),
                    l.then_rsc,
                );
                assert(c.resource_groups@[z.0].group_name@ == l.then_rsc);
            } else {
                assert(c.systemd_resources@[q.1 - 1].resource_name@ == l.then_rsc);
                assert forall|g: int| 0 <= g < c.resource_groups@.len() implies (
                #[trigger] c.resource_groups@[g]).after_fs is Some
                    && c.resource_groups@[g].after_fs->0@ != fs.resource_name@ by {
                    if follows(c.resource_groups@[g], fs.resource_name@) {
                        lemma_in_flat(
                            c.resource_groups@,
                            groups_after(fs.resource_name@),
                            g,
                            0,
                        );
                    }
                }
            }
        }
    } else if c.resource_groups@.len() > 0 {
        assert(c.resource_groups@[r.1].group_name@ == l.then_rsc);
    } else {
        assert(c.systemd_resources@[r.1].resource_name@ == l.then_rsc);
    }
}

} // verus!
