//! The Ansible inventory of a DRBD deployment.

use crate::models::drbd::{AnsibleInventory, AnsibleNode};
use crate::yaml::{
    YamlItem, YamlModel, insert, key_from, mapping_entries, new_mapping, put, write_mapping,
    yaml_text,
};
use vstd::prelude::*;
use vstd::string::*;

verus! {

/// The variables of a host: how it is reached.
pub open spec fn host_vars(ip: Seq<char>) -> Seq<(Seq<char>, YamlModel)> {
    put(Seq::empty(), "ansible_host"@, YamlModel::Text(ip))
}

/// The hosts of an inventory. Of several nodes of one name, the last counts, in the place
/// of the first.
pub open spec fn inventory_hosts(nodes: Seq<AnsibleNode>) -> Seq<(Seq<char>, YamlModel)>
    decreases nodes.len(),
{
    if nodes.len() == 0 {
        Seq::empty()
    } else {
        put(
            inventory_hosts(nodes.drop_last()),
            nodes.last().hostname@,
            YamlModel::Mapping(host_vars(nodes.last().ip@)),
        )
    }
}

/// The login of an inventory.
pub open spec fn inventory_vars(inventory: AnsibleInventory) -> Seq<(Seq<char>, YamlModel)> {
    put(
        put(
            put(
                Seq::empty(),
                "ansible_user"@,
                YamlModel::Text(inventory.ansible_user@),
            ),
            "ansible_ssh_private_key_file"@,
            YamlModel::Text(inventory.ansible_ssh_private_key_file@),
        ),
        "ansible_become"@,
        YamlModel::Flag(inventory.use_become),
    )
}

/// The inventory: one group of all hosts, with the login.
pub open spec fn inventory_tree(inventory: AnsibleInventory) -> Seq<(Seq<char>, YamlModel)> {
    put(
        Seq::empty(),
        "all"@,
        YamlModel::Mapping(
            put(
                put(
                    Seq::empty(),
                    "hosts"@,
                    YamlModel::Mapping(inventory_hosts(inventory.nodes@)),
                ),
                "vars"@,
                YamlModel::Mapping(inventory_vars(inventory)),
            ),
        ),
    )
}

fn build_hosts(nodes: &Vec<AnsibleNode>) -> (r: serde_yaml::Mapping)
    ensures
        mapping_entries(r) == inventory_hosts(nodes@),
{
    let mut hosts = new_mapping();
    let mut i: usize = 0;
    while i < nodes.len()
        invariant
            i <= nodes.len(),
            mapping_entries(hosts) == inventory_hosts(nodes@.take(i as int)),
        decreases nodes.len() - i,
    {
        proof {
            assert(nodes@.take(i as int + 1).drop_last() =~= nodes@.take(i as int));
            assert(nodes@.take(i as int + 1).last() == nodes@[i as int]);
        }
        let mut vars = new_mapping();
        insert(&mut vars, "ansible_host", YamlItem::Text(nodes[i].ip.clone()));
        insert(&mut hosts, nodes[i].hostname.as_str(), YamlItem::Mapping(vars));
        i += 1;
    }
    assert(nodes@.take(i as int) =~= nodes@);
    hosts
}

fn build_vars(inventory: &AnsibleInventory) -> (r: serde_yaml::Mapping)
    ensures
        mapping_entries(r) == inventory_vars(*inventory),
{
    let mut vars = new_mapping();
    insert(&mut vars, "ansible_user", YamlItem::Text(inventory.ansible_user.clone()));
    insert(
        &mut vars,
        "ansible_ssh_private_key_file",
        YamlItem::Text(inventory.ansible_ssh_private_key_file.clone()),
    );
    insert(&mut vars, "ansible_become", YamlItem::Flag(inventory.use_become));
    vars
}

/// The inventory as YAML.
pub fn generate_ansible_inventory(inventory: &AnsibleInventory) -> (r: Result<
    String,
    serde_yaml::Error,
>)
    ensures
        match yaml_text(inventory_tree(*inventory)) {
            Some(text) => r matches Ok(s) && s@ == text,
            None => r is Err,
        },
{
    let mut all = new_mapping();
    insert(&mut all, "hosts", YamlItem::Mapping(build_hosts(&inventory.nodes)));
    insert(&mut all, "vars", YamlItem::Mapping(build_vars(inventory)));
    let mut map = new_mapping();
    insert(&mut map, "all", YamlItem::Mapping(all));
    write_mapping(map)
}

proof fn lemma_key_from(entries: Seq<(Seq<char>, YamlModel)>, key: Seq<char>, i: int)
    requires
        0 <= i,
    ensures
        match key_from(entries, key, i) {
            Some(k) => i <= k < entries.len() && entries[k].0 == key,
            None => forall|k: int| i <= k < entries.len() ==> (#[trigger] entries[k]).0 != key,
        },
    decreases entries.len() - i,
{
    if i < entries.len() && entries[i].0 != key {
        lemma_key_from(entries, key, i + 1);
    }
}

/// Each node is a host of the inventory, once, however often it is named; the last address
/// given for it counts.
pub proof fn law_inventory_lists_each_node_once(nodes: Seq<AnsibleNode>)
    ensures
        forall|i: int, j: int|
            0 <= i < j < inventory_hosts(nodes).len() ==> (#[trigger] inventory_hosts(nodes)[i]).0
                != (#[trigger] inventory_hosts(nodes)[j]).0,
        forall|n: int|
            0 <= n < nodes.len() ==> exists|k: int|
                0 <= k < inventory_hosts(nodes).len() && (#[trigger] inventory_hosts(nodes)[k]).0
                    == (#[trigger] nodes[n]).hostname@,
        nodes.len() > 0 ==> exists|k: int|
            0 <= k < inventory_hosts(nodes).len() && #[trigger] inventory_hosts(nodes)[k] == (
                nodes.last().hostname@,
                YamlModel::Mapping(host_vars(nodes.last().ip@)),
            ),
    decreases nodes.len(),
{
    if nodes.len() > 0 {
        let front = inventory_hosts(nodes.drop_last());
        let key = nodes.last().hostname@;
        let item = (key, YamlModel::Mapping(host_vars(nodes.last().ip@)));
        let all = inventory_hosts(nodes);
        law_inventory_lists_each_node_once(nodes.drop_last());
        lemma_key_from(front, key, 0);
        let at = match key_from(front, key, 0) {
            Some(k) => k,
            None => front.len() as int,
        };
        assert(all[at] == item);
        assert forall|n: int| 0 <= n < nodes.len() implies exists|k: int|
            0 <= k < all.len() && (#[trigger] all[k]).0 == (#[trigger] nodes[n]).hostname@ by {
            if n < nodes.len() - 1 {
                assert(nodes.drop_last()[n] == nodes[n]);
                let k = choose|k: int|
                    0 <= k < front.len() && (#[trigger] front[k]).0 == nodes[n].hostname@;
                assert(all[k].0 == front[k].0);
            } else {
                assert(all[at].0 == nodes[n].hostname@);
            }
        }
    }
}

} // verus!
