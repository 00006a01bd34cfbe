//! What the inventory and the playbook of LINSTOR hold.

use crate::generators::linstor::{
    CLUSTER_GROUP, CONTROLLERS_HEAD, LINSTOR_HEAD, PROVISION_HEAD, SATELLITES_HEAD, ansible_host,
    group_task, host_lines, init_play, known_ip, linstor_inventory, linstor_playbook, pool_yaml,
    prerequisites_play, rpm_play, spawn_task,
};
use crate::generators::pacemaker_playbook::{lemma_task_is_kept, one_line_feed};
use crate::lines::flat;
use crate::models::linstor::LinstorConfig;
use crate::number::{decimal, is_digit, lemma_decimal};
use crate::occurs::{
    lemma_before_in_part, lemma_before_in_sum, lemma_contains_middle, lemma_contains_sum,
    lemma_contains_trans, lemma_flat_contains, stands_before,
};
use crate::text::{contains_text, given, trimmed};
use vstd::prelude::*;
use vstd::string::*;

verus! {

// ---------------------------------------------------------------------------
// The playbook
// ---------------------------------------------------------------------------

/// The task that creates a resource group. Where Pacemaker manages the resources, the kernel
/// must not promote them itself.
pub open spec fn group_creation(c: LinstorConfig, i: int) -> Seq<char> {
    let g = c.resource_groups@[i];
    "      linbit.linstor.resource_group:\n        name: "@ + g.name@ + "\n        storage_pool: "@
        + g.storage_pool@ + "\n        place_count: "@ + decimal(g.place_count as nat) + (
    if c.pacemaker_managed {
        "\n        drbd_options:\n          resource:\n            auto-promote: \"no\"\n"@
    } else {
        "\n"@
    })
}

/// The task that spawns a resource from its group.
pub open spec fn resource_creation(c: LinstorConfig, i: int) -> Seq<char> {
    let r = c.resources@[i];
    "      linbit.linstor.resource:\n        name: "@ + r.name@
        + "\n        mode: spawn\n        resource_group: "@ + r.resource_group@
        + "\n        size: "@ + r.size@ + "\n"@
}

/// What stands before the plays that provision.
spec fn plays_before(c: LinstorConfig, user: Seq<char>, key: Seq<char>) -> Seq<char> {
    LINSTOR_HEAD@ + given(c.pacemaker_managed, prerequisites_play(user, key)) + rpm_play(
        c,
        user,
        key,
    ) + init_play(c, user, key)
}

/// A text with a line feed at its end, in front of which another stands.
proof fn lemma_feed_split(a: Seq<char>, b: Seq<char>, k: int)
    requires
        0 <= k < b.len(),
        b[k] != '\n',
    ensures
        one_line_feed(a + b) == a + one_line_feed(b),
    decreases b.len(),
{
    if b.last() == '\n' {
        assert((a + b).last() == '\n');
        assert((a + b).drop_last() =~= a + b.drop_last());
        lemma_feed_split(a, b.drop_last(), k);
    } else {
        assert((a + b).last() == b.last());
        assert(a + b + "\n"@ =~= a + (b + "\n"@));
    }
}

proof fn lemma_group_task(c: LinstorConfig, i: int)
    requires
        0 <= i < c.resource_groups@.len(),
    ensures
        ({
            let task = linstor_group_task(c, i);
            &&& task.len() >= 3
            &&& task[task.len() - 1] == '\n'
            &&& task[task.len() - 2] == '\n'
            &&& task[task.len() - 3] != '\n'
            &&& contains_text(task.drop_last(), group_creation(c, i))
        }),
{
    let g = c.resource_groups@[i];
    let task = linstor_group_task(c, i);
    let n = "\n"@;
    let d = decimal(g.place_count as nat);
    lemma_decimal(g.place_count as nat);
    let title = "    - name: 리소스 그룹 생성 ("@ + g.name@ + ")\n"@;
    let b = "      linbit.linstor.resource_group:\n        name: "@;
    assert(")\n      linbit.linstor.resource_group:\n        name: "@ =~= ")\n"@ + b) by {
        reveal_strlit(")\n      linbit.linstor.resource_group:\n        name: ");
        reveal_strlit(")\n");
        reveal_strlit("      linbit.linstor.resource_group:\n        name: ");
    }
    let s = "\n        storage_pool: "@;
    let p = "\n        place_count: "@;
    let core = b + g.name@ + s + g.storage_pool@ + p + d;
    let options = "        drbd_options:\n          resource:\n            auto-promote: \"no\"\n"@;
    let kept = "\n        drbd_options:\n          resource:\n            auto-promote: \"no\"\n"@;
    let tail = given(c.pacemaker_managed, options);
    assert(kept =~= n + options) by {
        reveal_strlit(
            "\n        drbd_options:\n          resource:\n            auto-promote: \"no\"\n",
        );
        reveal_strlit(
            "        drbd_options:\n          resource:\n            auto-promote: \"no\"\n",
        );
        reveal_strlit("\n");
    }
    reveal_strlit("\n");
    assert(task =~= title + core + n + tail + n);
    assert(is_digit(d.last()));
    if c.pacemaker_managed {
        reveal_strlit(
            "        drbd_options:\n          resource:\n            auto-promote: \"no\"\n",
        );
        assert(group_creation(c, i) =~= core + (n + options));
        lemma_contains_middle(title, group_creation(c, i), Seq::empty());
        assert(task.drop_last() =~= title + group_creation(c, i) + Seq::<char>::empty());
    } else {
        assert(group_creation(c, i) =~= core + n);
        lemma_contains_middle(title, group_creation(c, i), Seq::empty());
        assert(task.drop_last() =~= title + group_creation(c, i) + Seq::<char>::empty());
        assert(task[task.len() - 3] == d.last());
    }
}

spec fn linstor_group_task(c: LinstorConfig, i: int) -> Seq<char> {
    group_task(c.pacemaker_managed)(c.resource_groups@[i])
}

/// The playbook of the tasks, behind all others.
proof fn lemma_provision(c: LinstorConfig, user: Seq<char>, key: Seq<char>)
    requires
        c.resource_groups@.len() > 0 || c.resources@.len() > 0,
    ensures
        linstor_playbook(c, user, key) == one_line_feed(
            plays_before(c, user, key) + PROVISION_HEAD@ + flat(
                c.resource_groups@,
                group_task(c.pacemaker_managed),
            ) + flat(c.resources@, spawn_task()),
        ),
{
    let a = plays_before(c, user, key);
    let g = flat(c.resource_groups@, group_task(c.pacemaker_managed));
    let r = flat(c.resources@, spawn_task());
    assert(a + (PROVISION_HEAD@ + g + r) =~= a + PROVISION_HEAD@ + g + r);
}

/// The playbook creates each resource group with its pool and its number of copies, in such a
/// way that the kernel promotes nothing where Pacemaker does.
pub proof fn law_groups_are_created(c: LinstorConfig, user: Seq<char>, key: Seq<char>, i: int)
    requires
        0 <= i < c.resource_groups@.len(),
    ensures
        contains_text(linstor_playbook(c, user, key), group_creation(c, i)),
{
    let front = plays_before(c, user, key) + PROVISION_HEAD@;
    let g = flat(c.resource_groups@, group_task(c.pacemaker_managed));
    let r = flat(c.resources@, spawn_task());
    let task = linstor_group_task(c, i);
    lemma_provision(c, user, key);
    lemma_group_task(c, i);
    lemma_flat_contains(c.resource_groups@, group_task(c.pacemaker_managed), i);
    lemma_contains_sum(front, g, task);
    lemma_contains_sum(front + g, r, task);
    lemma_task_is_kept(front + g + r, task);
    lemma_contains_trans(
        linstor_playbook(c, user, key),
        task.drop_last(),
        group_creation(c, i),
    );
}

proof fn lemma_spawn_task(c: LinstorConfig, j: int)
    requires
        0 <= j < c.resources@.len(),
    ensures
        ({
            let task = spawn_task()(c.resources@[j]);
            &&& task.len() >= 3
            &&& task[task.len() - 1] == '\n'
            &&& task[task.len() - 2] == '\n'
            &&& c.resources@[j].size@.len() > 0 && c.resources@[j].size@.last() != '\n'
                ==> task[task.len() - 3] != '\n'
            &&& contains_text(task.drop_last(), resource_creation(c, j))
            &&& task[0] == ' '
        }),
{
    let r = c.resources@[j];
    let task = spawn_task()(r);
    let title = "    - name: 리소스 스폰 ("@ + r.name@ + ")\n"@;
    let b = "      linbit.linstor.resource:\n        name: "@;
    assert(")\n      linbit.linstor.resource:\n        name: "@ =~= ")\n"@ + b) by {
        reveal_strlit(")\n      linbit.linstor.resource:\n        name: ");
        reveal_strlit(")\n");
        reveal_strlit("      linbit.linstor.resource:\n        name: ");
    }
    let m = "\n        mode: spawn\n        resource_group: "@;
    let s = "\n        size: "@;
    let core = b + r.name@ + m + r.resource_group@ + s + r.size@;
    reveal_strlit("\n");
    reveal_strlit("\n\n");
    reveal_strlit("    - name: 리소스 스폰 (");
    assert("\n\n"@ =~= "\n"@ + "\n"@);
    assert(task =~= title + core + "\n\n"@);
    assert(task.drop_last() =~= title + (core + "\n"@) + Seq::<char>::empty());
    lemma_contains_middle(title, core + "\n"@, Seq::empty());
    if r.size@.len() > 0 {
        assert(task[task.len() - 3] == r.size@.last());
    }
}

/// The playbook spawns each resource from its group with its size, behind all groups.
pub proof fn law_resources_are_spawned(
    c: LinstorConfig,
    user: Seq<char>,
    key: Seq<char>,
    j: int,
)
    requires
        0 <= j < c.resources@.len(),
        c.resources@[j].size@.len() > 0,
        c.resources@[j].size@.last() != '\n',
    ensures
        contains_text(linstor_playbook(c, user, key), resource_creation(c, j)),
        forall|i: int|
            0 <= i < c.resource_groups@.len() ==> stands_before(
                linstor_playbook(c, user, key),
                #[trigger] group_creation(c, i),
                resource_creation(c, j),
            ),
{
    let front = plays_before(c, user, key) + PROVISION_HEAD@;
    let g = flat(c.resource_groups@, group_task(c.pacemaker_managed));
    let r = flat(c.resources@, spawn_task());
    let task = spawn_task()(c.resources@[j]);
    let line = resource_creation(c, j);
    lemma_provision(c, user, key);
    lemma_spawn_task(c, j);
    lemma_spawn_task(c, 0);
    lemma_flat_contains(c.resources@, spawn_task(), j);
    lemma_task_is_kept(r, task);
    lemma_contains_trans(one_line_feed(r), task.drop_last(), line);
    lemma_first_part(c.resources@, spawn_task());
    assert(r[0] == ' ');
    lemma_feed_split(front + g, r, 0);
    lemma_contains_sum(front + g, one_line_feed(r), line);
    assert forall|i: int| 0 <= i < c.resource_groups@.len() implies stands_before(
        linstor_playbook(c, user, key),
        #[trigger] group_creation(c, i),
        line,
    ) by {
        let creation = group_creation(c, i);
        let whole = linstor_group_task(c, i);
        lemma_group_task(c, i);
        lemma_flat_contains(c.resource_groups@, group_task(c.pacemaker_managed), i);
        assert(whole =~= whole.drop_last() + seq![whole.last()]);
        lemma_contains_sum(whole.drop_last(), seq![whole.last()], creation);
        lemma_contains_trans(g, whole, creation);
        lemma_contains_sum(front, g, creation);
        lemma_before_in_sum(front + g, one_line_feed(r), creation, line);
    }
}

/// A list of texts begins with the first of them.
proof fn lemma_first_part<T>(v: Seq<T>, f: spec_fn(T) -> Seq<char>)
    requires
        v.len() > 0,
        f(v[0]).len() > 0,
    ensures
        flat(v, f).len() > 0,
        flat(v, f)[0] == f(v[0])[0],
    decreases v.len(),
{
    if v.len() > 1 {
        lemma_first_part(v.drop_last(), f);
        assert(v.drop_last()[0] == v[0]);
    } else {
        assert(v.drop_last() =~= Seq::<T>::empty());
        reveal_with_fuel(flat, 2);
        assert(flat(v, f) =~= f(v[0]));
    }
}

// ---------------------------------------------------------------------------
// The inventory
// ---------------------------------------------------------------------------

/// Whether the address of a node is the one at the given place: the last one of that name.
pub open spec fn is_address_of(ips: Seq<(String, String)>, node: Seq<char>, k: int) -> bool {
    0 <= k < ips.len() && ips[k].0@ == node && forall|m: int|
        k < m < ips.len() ==> (#[trigger] ips[m]).0@ != node
}

/// Whether a node is reached at the given host: at its address, without spaces round it, or
/// under its name where the address is blank or not known.
pub open spec fn is_reached_at(ips: Seq<(String, String)>, node: Seq<char>, host: Seq<char>) -> bool {
    &&& forall|k: int| #[trigger]
        is_address_of(ips, node, k) ==> host == if trimmed(ips[k].1@).len() > 0 {
            trimmed(ips[k].1@)
        } else {
            node
        }
    &&& (forall|k: int| 0 <= k < ips.len() ==> (#[trigger] ips[k]).0@ != node) ==> host == node
}

proof fn lemma_known_ip(ips: Seq<(String, String)>, node: Seq<char>, n: int)
    requires
        0 <= n <= ips.len(),
        forall|m: int| n <= m < ips.len() ==> (#[trigger] ips[m]).0@ != node,
    ensures
        match known_ip(ips.take(n), node) {
            Some(ip) => exists|k: int| #[trigger] is_address_of(ips, node, k) && ips[k].1@ == ip,
            None => forall|k: int| 0 <= k < ips.len() ==> (#[trigger] ips[k]).0@ != node,
        },
    decreases n,
{
    if n > 0 {
        let front = ips.take(n);
        assert(front.last() == ips[n - 1]);
        assert(front.drop_last() =~= ips.take(n - 1));
        if ips[n - 1].0@ == node {
            assert(is_address_of(ips, node, n - 1));
        } else {
            lemma_known_ip(ips, node, n - 1);
        }
    }
}

proof fn lemma_reached(ips: Seq<(String, String)>, node: Seq<char>)
    ensures
        is_reached_at(ips, node, ansible_host(ips, node)),
{
    assert(ips.take(ips.len() as int) =~= ips);
    lemma_known_ip(ips, node, ips.len() as int);
    let host = ansible_host(ips, node);
    match known_ip(ips, node) {
        Some(ip) => {
            let c = choose|k: int| #[trigger] is_address_of(ips, node, k) && ips[k].1@ == ip;
            assert forall|k: int| #[trigger] is_address_of(ips, node, k) implies k == c by {
                if k < c {
                    assert(ips[c].0@ != node);
                } else if c < k {
                    assert(ips[k].0@ != node);
                }
            }
            assert(ips[c].0@ == node);
        },
        None => {
            assert forall|k: int| #[trigger] is_address_of(ips, node, k) implies false by {
                assert(ips[k].0@ != node);
            }
        },
    }
}

/// The inventory has each controller and each satellite with the host at which it is reached,
/// the controllers first.
pub proof fn law_inventory_has_the_nodes(
    c: LinstorConfig,
    ips: Seq<(String, String)>,
    user: Seq<char>,
    key: Seq<char>,
    i: int,
    j: int,
) -> (hosts: (Seq<char>, Seq<char>))
    requires
        0 <= i < c.controller_nodes@.len(),
        0 <= j < c.satellite_nodes@.len(),
    ensures
        is_reached_at(ips, c.controller_nodes@[i]@, hosts.0),
        is_reached_at(ips, c.satellite_nodes@[j]@, hosts.1),
        stands_before(
            linstor_inventory(c, ips, user, key),
            "        "@ + c.controller_nodes@[i]@ + ":\n          ansible_host: "@ + hosts.0 + "\n"@,
            "        "@ + c.satellite_nodes@[j]@ + ":\n          ansible_host: "@ + hosts.1 + "\n"@,
        ),
{
    let one = c.controller_nodes@[i];
    let two = c.satellite_nodes@[j];
    let hosts = (ansible_host(ips, one@), ansible_host(ips, two@));
    lemma_reached(ips, one@);
    lemma_reached(ips, two@);
    let x = host_lines(ips)(one);
    let y = host_lines(ips)(two);
    let a = CONTROLLERS_HEAD@ + flat(c.controller_nodes@, host_lines(ips));
    let b = SATELLITES_HEAD@ + flat(c.satellite_nodes@, host_lines(ips));
    lemma_flat_contains(c.controller_nodes@, host_lines(ips), i);
    lemma_flat_contains(c.satellite_nodes@, host_lines(ips), j);
    lemma_contains_sum(CONTROLLERS_HEAD@, flat(c.controller_nodes@, host_lines(ips)), x);
    lemma_contains_sum(SATELLITES_HEAD@, flat(c.satellite_nodes@, host_lines(ips)), y);
    lemma_before_in_sum(a, b, x, y);
    let none = Seq::<char>::empty();
    let u = CLUSTER_GROUP@;
    let k = "\n    ansible_ssh_private_key_file: "@;
    let h = "\n    ansible_host_key_checking: false\n"@;
    let p = given(
        c.deploy_storage && c.storage_pools@.len() > 0,
        "    linstor_storage_pools:\n"@ + flat(c.storage_pools@, pool_yaml()),
    );
    let rest = u + user + k + key + h + p;
    lemma_before_in_part(none, a + b, rest, x, y);
    assert(none + (a + b) + rest =~= linstor_inventory(c, ips, user, key));
    hosts
}

} // verus!
