//! Container units from what `podman inspect` prints.

use crate::json::{
    Json, JsonModel, ListError, array_of, as_items, as_text, at, entries_of, entry_from, items_of,
    member, model_of, object_of, parsed_json, read_json, text_at, text_at_or, text_of,
};
use crate::lines::{add_line, flat, lemma_flat_is_filtered, lemma_flat_take, lemma_views_push};
use crate::models::quadlet::QuadletContainer;
use crate::res_file::or_text;
use crate::text::{
    contains_char, find, find_text, lemma_find_from, occurs_at, opt_view, trim_start_char, views,
    without_leading,
};
use vstd::prelude::*;
use vstd::string::*;

verus! {

/// The name of a container, without the slashes that Podman puts before it.
pub open spec fn inspected_name(item: JsonModel) -> Seq<char> {
    without_leading(or_text(as_text(member(item, "Name"@)), "unknown"@), '/')
}

/// The image of a container.
pub open spec fn inspected_image(item: JsonModel) -> Seq<char> {
    match as_text(member(item, "ImageName"@)) {
        Some(s) => s,
        None => or_text(as_text(member(member(item, "Config"@), "Image"@)), ""@),
    }
}

/// The key and the value of an environment setting.
pub open spec fn env_entry() -> spec_fn(JsonModel) -> Seq<(Seq<char>, Seq<char>)> {
    |e: JsonModel|
        match as_text(e) {
            Some(s) => match find_text(s, "="@) {
                Some(i) => seq![(s.take(i), s.skip(i + 1))],
                None => seq![(s, ""@)],
            },
            None => Seq::empty(),
        }
}

/// A mount, where it has a source and a destination.
pub open spec fn mount_entry() -> spec_fn(JsonModel) -> Seq<Seq<char>> {
    |m: JsonModel|
        match (as_text(member(m, "Source"@)), as_text(member(m, "Destination"@))) {
            (Some(src), Some(dst)) => seq![
                src + ":"@ + dst + ":"@ + or_text(as_text(member(m, "Mode"@)), "rw"@),
            ],
            _ => Seq::empty(),
        }
}

/// A published port: the first host port that is bound to it.
pub open spec fn port_entry() -> spec_fn((Seq<char>, JsonModel)) -> Seq<Seq<char>> {
    |p: (Seq<char>, JsonModel)|
        if items_of(p.1).len() > 0 {
            match as_text(member(items_of(p.1)[0], "HostPort"@)) {
                Some(host) => seq![host + ":"@ + p.0],
                None => Seq::empty(),
            }
        } else {
            Seq::empty()
        }
}

/// The networks of a container.
pub open spec fn inspected_networks(item: JsonModel) -> Seq<(Seq<char>, JsonModel)> {
    entries_of(member(member(item, "NetworkSettings"@), "Networks"@))
}

/// The address of a container in its first network, unless it is empty.
pub open spec fn inspected_ip(item: JsonModel) -> Option<Seq<char>> {
    let nets = inspected_networks(item);
    if nets.len() == 0 {
        None
    } else {
        match as_text(member(nets[0].1, "IPAddress"@)) {
            Some(ip) => if ip.len() > 0 {
                Some(ip)
            } else {
                None
            },
            None => None,
        }
    }
}

/// Whether a container holds what Podman prints of one, and nothing else.
pub open spec fn is_inspected(c: QuadletContainer, item: JsonModel) -> bool {
    let settings = member(item, "NetworkSettings"@);
    &&& c.name@ == inspected_name(item)
    &&& c.image@ == inspected_image(item)
    &&& views(c.environment@) == flat(
        items_of(member(member(item, "Config"@), "Env"@)),
        env_entry(),
    )
    &&& views(c.volumes@) == flat(items_of(member(item, "Mounts"@)), mount_entry())
    &&& views(c.publish_ports@) == flat(entries_of(member(settings, "Ports"@)), port_entry())
    &&& opt_view(c.network) == if inspected_networks(item).len() > 0 {
        Some(inspected_networks(item)[0].0)
    } else {
        None
    }
    &&& opt_view(c.ip) == inspected_ip(item)
    &&& c.description is None
    &&& c.pod is None
    &&& c.tmpfs@.len() == 0
    &&& c.exec_command is None
    &&& c.entrypoint is None
    &&& c.user is None
    &&& c.auto_update is None
    &&& c.labels@.len() == 0
    &&& c.extra_args@.len() == 0
    &&& c.depends_on@.len() == 0
    &&& c.drbd_resource is None
    &&& c.service_type is None
    &&& c.remain_after_exit is None
    &&& c.timeout_stop_sec is None
    &&& c.wanted_by is None
    &&& c.add_capabilities@.len() == 0
}

fn read_environment(o: Option<&Json>) -> (r: Vec<(String, String)>)
    ensures
        views(r@) == flat(items_of(model_of(o)), env_entry()),
{
    proof {
        reveal_strlit("=");
    }
    let mut out: Vec<(String, String)> = Vec::new();
    assert(views(out@) =~= Seq::<(Seq<char>, Seq<char>)>::empty());
    if let Some(list) = array_of(o) {
        let ghost all = views(list@);
        let mut i: usize = 0;
        while i < list.len()
            invariant
                all == views(list@),
                i <= list.len(),
                "="@.len() == 1,
                views(out@) == flat(all.take(i as int), env_entry()),
            decreases list.len() - i,
        {
            let ghost seen = views(out@);
            proof {
                lemma_flat_take(all, env_entry(), i as int);
                assert(all[i as int] == list@[i as int]@);
                assert(seen + Seq::<(Seq<char>, Seq<char>)>::empty() =~= seen);
            }
            if let Some(s) = text_of(Some(&list[i])) {
                let n = s.unicode_len();
                let (k, v) = match find(s, "=") {
                    Some(j) => (s.substring_char(0, j), s.substring_char(j + 1, n)),
                    None => (s, ""),
                };
                let pair = (k.to_owned(), v.to_owned());
                proof {
                    lemma_views_push(out@, pair);
                    if let Some(j) = find_text(s@, "="@) {
                        assert(s@.subrange(0, j) =~= s@.take(j));
                        assert(s@.subrange(j + 1, n as int) =~= s@.skip(j + 1));
                    }
                }
                out.push(pair);
                assert(views(out@) =~= seen + seq![pair@]);
            }
            i += 1;
        }
        assert(all.take(i as int) =~= all);
    }
    out
}

fn read_mounts(o: Option<&Json>) -> (r: Vec<String>)
    ensures
        views(r@) == flat(items_of(model_of(o)), mount_entry()),
{
    let mut out: Vec<String> = Vec::new();
    assert(views(out@) =~= Seq::<Seq<char>>::empty());
    if let Some(list) = array_of(o) {
        let ghost all = views(list@);
        let mut i: usize = 0;
        while i < list.len()
            invariant
                all == views(list@),
                i <= list.len(),
                views(out@) == flat(all.take(i as int), mount_entry()),
            decreases list.len() - i,
        {
            let ghost seen = views(out@);
            proof {
                lemma_flat_take(all, mount_entry(), i as int);
                assert(all[i as int] == list@[i as int]@);
                assert(seen + Seq::<Seq<char>>::empty() =~= seen);
            }
            let m = Some(&list[i]);
            if let Some(src) = text_at(m, "Source") {
                if let Some(dst) = text_at(m, "Destination") {
                    let mut line = src.to_owned();
                    line.push_str(":");
                    line.push_str(dst);
                    line.push_str(":");
                    line.push_str(text_at_or(m, "Mode", "rw"));
                    add_line(&mut out, line.as_str());
                    assert(views(out@) =~= seen + seq![line@]);
                }
            }
            i += 1;
        }
        assert(all.take(i as int) =~= all);
    }
    out
}

fn read_ports(o: Option<&Json>) -> (r: Vec<String>)
    ensures
        views(r@) == flat(entries_of(model_of(o)), port_entry()),
{
    let mut out: Vec<String> = Vec::new();
    assert(views(out@) =~= Seq::<Seq<char>>::empty());
    if let Some(list) = object_of(o) {
        let ghost all = views(list@);
        let mut i: usize = 0;
        while i < list.len()
            invariant
                all == views(list@),
                i <= list.len(),
                views(out@) == flat(all.take(i as int), port_entry()),
            decreases list.len() - i,
        {
            let ghost seen = views(out@);
            proof {
                lemma_flat_take(all, port_entry(), i as int);
                assert(all[i as int] == list@[i as int]@);
                assert(seen + Seq::<Seq<char>>::empty() =~= seen);
            }
            if let Some(bindings) = array_of(Some(&list[i].1)) {
                if bindings.len() > 0 {
                    assert(views(bindings@)[0] == bindings@[0]@);
                    if let Some(host) = text_at(Some(&bindings[0]), "HostPort") {
                        let mut line = host.to_owned();
                        line.push_str(":");
                        line.push_str(list[i].0.as_str());
                        add_line(&mut out, line.as_str());
                        assert(views(out@) =~= seen + seq![line@]);
                    }
                }
            }
            i += 1;
        }
        assert(all.take(i as int) =~= all);
    }
    out
}

/// The container that Podman prints.
pub fn inspect_container(item: &Json) -> (r: QuadletContainer)
    ensures
        is_inspected(r, item@),
{
    let this = Some(item);
    let config = at(this, "Config");
    let settings = at(this, "NetworkSettings");
    let name = trim_start_char(text_at_or(this, "Name", "unknown"), '/').to_owned();
    let image = match text_at(this, "ImageName") {
        Some(s) => s.to_owned(),
        None => text_at_or(config, "Image", "").to_owned(),
    };
    let mut network: Option<String> = None;
    let mut ip: Option<String> = None;
    if let Some(nets) = object_of(at(settings, "Networks")) {
        if nets.len() > 0 {
            assert(views(nets@)[0] == nets@[0]@);
            network = Some(nets[0].0.clone());
            if let Some(s) = text_at(Some(&nets[0].1), "IPAddress") {
                if s.unicode_len() > 0 {
                    ip = Some(s.to_owned());
                }
            }
        }
    }
    QuadletContainer {
        name,
        image,
        environment: read_environment(at(config, "Env")),
        volumes: read_mounts(at(this, "Mounts")),
        publish_ports: read_ports(at(settings, "Ports")),
        network,
        ip,
        ..QuadletContainer::default()
    }
}

/// The containers that a value of `podman inspect` lists.
pub fn inspect_containers(data: &Json) -> (r: Option<Vec<QuadletContainer>>)
    ensures
        r is Some <==> as_items(data@) is Some,
        r matches Some(v) ==> {
            &&& v@.len() == items_of(data@).len()
            &&& forall|i: int|
                0 <= i < v@.len() ==> is_inspected(#[trigger] v@[i], items_of(data@)[i])
        },
{
    let list = match array_of(Some(data)) {
        Some(list) => list,
        None => {
            return None;
        },
    };
    let mut out: Vec<QuadletContainer> = Vec::new();
    let mut i: usize = 0;
    while i < list.len()
        invariant
            i <= list.len(),
            views(list@) == items_of(data@),
            out@.len() == i,
            forall|k: int|
                0 <= k < out@.len() ==> is_inspected(#[trigger] out@[k], items_of(data@)[k]),
        decreases list.len() - i,
    {
        assert(views(list@)[i as int] == list@[i as int]@);
        out.push(inspect_container(&list[i]));
        i += 1;
    }
    Some(out)
}

/// The containers that the output of `podman inspect` lists.
pub fn podman_inspect_to_quadlet(inspect_json: &str) -> (r: Result<
    Vec<QuadletContainer>,
    ListError,
>)
    ensures
        match parsed_json(inspect_json@) {
            None => r matches Err(ListError::Syntax(_)),
            Some(data) => match as_items(data) {
                None => r matches Err(ListError::NotArray),
                Some(items) => r matches Ok(v) && v@.len() == items.len() && forall|i: int|
                    0 <= i < v@.len() ==> is_inspected(#[trigger] v@[i], items[i]),
            },
        },
{
    match read_json(inspect_json) {
        Ok(data) => match inspect_containers(&data) {
            Some(v) => Ok(v),
            None => Err(ListError::NotArray),
        },
        Err(e) => Err(ListError::Syntax(e)),
    }
}

// ---------------------------------------------------------------------------
// What a container is made of
// ---------------------------------------------------------------------------

/// Whether the entry at a position is the first one of a key.
pub open spec fn is_first_entry(
    entries: Seq<(Seq<char>, JsonModel)>,
    key: Seq<char>,
    i: int,
) -> bool {
    &&& 0 <= i < entries.len()
    &&& entries[i].0 == key
    &&& forall|k: int| 0 <= k < i ==> (#[trigger] entries[k]).0 != key
}

/// The value that an object has for a key; null where it has none.
pub open spec fn value_at(j: JsonModel, key: Seq<char>) -> JsonModel {
    if j is Object && exists|i: int| is_first_entry(j->Object_0, key, i) {
        j->Object_0[choose|i: int| is_first_entry(j->Object_0, key, i)].1
    } else {
        JsonModel::Null
    }
}

proof fn lemma_entry_from(entries: Seq<(Seq<char>, JsonModel)>, key: Seq<char>, i: int)
    requires
        0 <= i,
    ensures
        match entry_from(entries, key, i) {
            Some(v) => exists|k: int|
                i <= k < entries.len() && (#[trigger] entries[k]) == (key, v) && forall|m: int|
                    i <= m < k ==> (#[trigger] entries[m]).0 != key,
            None => forall|k: int| i <= k < entries.len() ==> (#[trigger] entries[k]).0 != key,
        },
    decreases entries.len() - i,
{
    if i < entries.len() {
        if entries[i].0 == key {
            assert(entries[i] == (key, entries[i].1));
        } else {
            lemma_entry_from(entries, key, i + 1);
            if let Some(v) = entry_from(entries, key, i + 1) {
                let k = choose|k: int|
                    i + 1 <= k < entries.len() && (#[trigger] entries[k]) == (key, v) && forall|
                        m: int,
                    |
                        i + 1 <= m < k ==> (#[trigger] entries[m]).0 != key;
                assert(entries[k] == (key, v));
            }
        }
    }
}

proof fn lemma_value_at(j: JsonModel, key: Seq<char>)
    ensures
        member(j, key) == value_at(j, key),
{
    if j is Object {
        let e = j->Object_0;
        lemma_entry_from(e, key, 0);
        match entry_from(e, key, 0) {
            Some(v) => {
                let k = choose|k: int|
                    0 <= k < e.len() && (#[trigger] e[k]) == (key, v) && forall|m: int|
                        0 <= m < k ==> (#[trigger] e[m]).0 != key;
                assert(is_first_entry(e, key, k));
                let i = choose|i: int| is_first_entry(e, key, i);
                assert(is_first_entry(e, key, i));
                if i < k {
                    assert(e[i].0 != key);
                } else if k < i {
                    assert(e[k].0 != key);
                }
            },
            None => {
                if exists|i: int| is_first_entry(e, key, i) {
                    let i = choose|i: int| is_first_entry(e, key, i);
                    assert(e[i].0 == key);
                }
            },
        }
    }
}

/// Whether a mount has a source and a destination.
pub open spec fn is_whole_mount() -> spec_fn(JsonModel) -> bool {
    |m: JsonModel| value_at(m, "Source"@) is Text && value_at(m, "Destination"@) is Text
}

/// Every mount that has a source and a destination gives a volume, in their order, whatever
/// else is said of it: the source, the destination and the mode, which is `rw` where none is
/// given.
pub proof fn law_every_mount_gives_a_volume(c: QuadletContainer, item: JsonModel)
    requires
        is_inspected(c, item),
    ensures
        ({
            let mounts = match value_at(item, "Mounts"@) {
                JsonModel::Array(v) => v.filter(is_whole_mount()),
                _ => Seq::empty(),
            };
            &&& c.volumes@.len() == mounts.len()
            &&& forall|k: int|
                0 <= k < mounts.len() ==> (#[trigger] c.volumes@[k])@ == value_at(
                    mounts[k],
                    "Source"@,
                )->Text_0 + ":"@ + value_at(mounts[k], "Destination"@)->Text_0 + ":"@ + (
                match value_at(mounts[k], "Mode"@) {
                    JsonModel::Text(mode) => mode,
                    _ => "rw"@,
                })
        }),
{
    lemma_value_at(item, "Mounts"@);
    let list = items_of(member(item, "Mounts"@));
    assert(views(c.volumes@).len() == c.volumes@.len());
    assert forall|m: JsonModel| (#[trigger] mount_entry()(m)).len() == if is_whole_mount()(m) {
        1nat
    } else {
        0nat
    } by {
        lemma_value_at(m, "Source"@);
        lemma_value_at(m, "Destination"@);
    }
    lemma_flat_is_filtered(list, mount_entry(), is_whole_mount());
    let mounts = list.filter(is_whole_mount());
    assert(list.len() == 0 ==> mounts.len() == 0) by {
        reveal(Seq::filter);
    }
    assert forall|k: int| 0 <= k < mounts.len() implies (#[trigger] c.volumes@[k])@ == value_at(
        mounts[k],
        "Source"@,
    )->Text_0 + ":"@ + value_at(mounts[k], "Destination"@)->Text_0 + ":"@ + (match value_at(
        mounts[k],
        "Mode"@,
    ) {
        JsonModel::Text(mode) => mode,
        _ => "rw"@,
    }) by {
        assert(views(c.volumes@)[k] == c.volumes@[k]@);
        assert(is_whole_mount()(mounts[k]));
        lemma_value_at(mounts[k], "Source"@);
        lemma_value_at(mounts[k], "Destination"@);
        lemma_value_at(mounts[k], "Mode"@);
    }
}

/// Whether a value is a text.
pub open spec fn is_json_text() -> spec_fn(JsonModel) -> bool {
    |e: JsonModel| e is Text
}

/// Every environment setting is kept, in their order: what stands before its first equals
/// sign is the name and what stands behind it the value, which is empty where there is none.
pub proof fn law_every_setting_is_kept(c: QuadletContainer, item: JsonModel)
    requires
        is_inspected(c, item),
    ensures
        ({
            let settings = match value_at(value_at(item, "Config"@), "Env"@) {
                JsonModel::Array(v) => v.filter(is_json_text()),
                _ => Seq::empty(),
            };
            &&& c.environment@.len() == settings.len()
            &&& forall|k: int|
                0 <= k < settings.len() ==> {
                    let s = settings[k]->Text_0;
                    let name = (#[trigger] c.environment@[k]).0@;
                    let value = c.environment@[k].1@;
                    if contains_char(s, '=') {
                        name + seq!['='] + value == s && !contains_char(name, '=')
                    } else {
                        name == s && value.len() == 0
                    }
                }
        }),
{
    reveal_strlit("=");
    reveal_strlit("");
    lemma_value_at(item, "Config"@);
    lemma_value_at(member(item, "Config"@), "Env"@);
    let list = items_of(member(member(item, "Config"@), "Env"@));
    assert(views(c.environment@).len() == c.environment@.len());
    lemma_flat_is_filtered(list, env_entry(), is_json_text());
    let settings = list.filter(is_json_text());
    assert(list.len() == 0 ==> settings.len() == 0) by {
        reveal(Seq::filter);
    }
    assert forall|k: int| 0 <= k < settings.len() implies ({
        let s = settings[k]->Text_0;
        let name = (#[trigger] c.environment@[k]).0@;
        let value = c.environment@[k].1@;
        if contains_char(s, '=') {
            name + seq!['='] + value == s && !contains_char(name, '=')
        } else {
            name == s && value.len() == 0
        }
    }) by {
        let s = settings[k]->Text_0;
        assert(views(c.environment@)[k] == c.environment@[k]@);
        assert(is_json_text()(settings[k]));
        lemma_find_from(s, "="@, 0);
        assert("="@ =~= seq!['=']);
        match find_text(s, "="@) {
            Some(i) => {
                assert(s.subrange(i, i + 1)[0] == s[i]);
                assert(s[i] == '=');
                assert(contains_char(s, '='));
                assert(s.take(i) + seq!['='] + s.skip(i + 1) =~= s);
                assert forall|j: int| 0 <= j < i implies #[trigger] s.take(i)[j] != '=' by {
                    if s[j] == '=' {
                        assert(s.subrange(j, j + 1) =~= "="@);
                        assert(occurs_at(s, "="@, j));
                    }
                }
            },
            None => {
                assert forall|j: int| 0 <= j < s.len() implies #[trigger] s[j] != '=' by {
                    if s[j] == '=' {
                        assert(s.subrange(j, j + 1) =~= "="@);
                        assert(occurs_at(s, "="@, j));
                    }
                }
            },
        }
    }
}

/// Whether a port of a container is bound to a port of the host.
pub open spec fn is_bound_port() -> spec_fn((Seq<char>, JsonModel)) -> bool {
    |p: (Seq<char>, JsonModel)|
        p.1 is Array && p.1->Array_0.len() > 0 && value_at(p.1->Array_0[0], "HostPort"@) is Text
}

/// Every port that is bound to a port of the host is published, in their order.
pub proof fn law_every_bound_port_is_published(c: QuadletContainer, item: JsonModel)
    requires
        is_inspected(c, item),
    ensures
        ({
            let ports = match value_at(value_at(item, "NetworkSettings"@), "Ports"@) {
                JsonModel::Object(v) => v.filter(is_bound_port()),
                _ => Seq::empty(),
            };
            &&& c.publish_ports@.len() == ports.len()
            &&& forall|k: int|
                0 <= k < ports.len() ==> (#[trigger] c.publish_ports@[k])@ == value_at(
                    ports[k].1->Array_0[0],
                    "HostPort"@,
                )->Text_0 + ":"@ + ports[k].0
        }),
{
    lemma_value_at(item, "NetworkSettings"@);
    lemma_value_at(member(item, "NetworkSettings"@), "Ports"@);
    let list = entries_of(member(member(item, "NetworkSettings"@), "Ports"@));
    assert(views(c.publish_ports@).len() == c.publish_ports@.len());
    assert forall|p: (Seq<char>, JsonModel)| (#[trigger] port_entry()(p)).len()
        == if is_bound_port()(p) {
        1nat
    } else {
        0nat
    } by {
        if items_of(p.1).len() > 0 {
            lemma_value_at(items_of(p.1)[0], "HostPort"@);
        }
    }
    lemma_flat_is_filtered(list, port_entry(), is_bound_port());
    let ports = list.filter(is_bound_port());
    assert(list.len() == 0 ==> ports.len() == 0) by {
        reveal(Seq::filter);
    }
    assert forall|k: int| 0 <= k < ports.len() implies (#[trigger] c.publish_ports@[k])@
        == value_at(ports[k].1->Array_0[0], "HostPort"@)->Text_0 + ":"@ + ports[k].0 by {
        assert(views(c.publish_ports@)[k] == c.publish_ports@[k]@);
        assert(is_bound_port()(ports[k]));
        lemma_value_at(ports[k].1->Array_0[0], "HostPort"@);
    }
}

/// Whether a text is what stands behind all characters `c` at the start of another.
pub open spec fn is_rest_behind(rest: Seq<char>, c: char, s: Seq<char>) -> bool {
    exists|n: int|
        0 <= n <= s.len() && rest == #[trigger] s.skip(n) && (forall|k: int|
            0 <= k < n ==> #[trigger] s[k] == c) && (n < s.len() ==> s[n] != c)
}

/// A container has the name that Podman prints, without the slashes before it, the image by
/// its name or else that of its configuration, and its first network, with its address there
/// unless it is empty.
pub proof fn law_name_image_and_network_are_kept(c: QuadletContainer, item: JsonModel)
    requires
        is_inspected(c, item),
    ensures
        is_rest_behind(
            c.name@,
            '/',
            match value_at(item, "Name"@) {
                JsonModel::Text(s) => s,
                _ => "unknown"@,
            },
        ),
        c.image@ == match value_at(item, "ImageName"@) {
            JsonModel::Text(s) => s,
            _ => match value_at(value_at(item, "Config"@), "Image"@) {
                JsonModel::Text(s) => s,
                _ => ""@,
            },
        },
        match value_at(value_at(item, "NetworkSettings"@), "Networks"@) {
            JsonModel::Object(nets) => if nets.len() > 0 {
                &&& c.network is Some && c.network->0@ == nets[0].0
                &&& match value_at(nets[0].1, "IPAddress"@) {
                    JsonModel::Text(ip) => if ip.len() > 0 {
                        c.ip is Some && c.ip->0@ == ip
                    } else {
                        c.ip is None
                    },
                    _ => c.ip is None,
                }
            } else {
                c.network is None && c.ip is None
            },
            _ => c.network is None && c.ip is None,
        },
{
    lemma_value_at(item, "Name"@);
    lemma_value_at(item, "ImageName"@);
    lemma_value_at(item, "Config"@);
    lemma_value_at(member(item, "Config"@), "Image"@);
    lemma_value_at(item, "NetworkSettings"@);
    lemma_value_at(member(item, "NetworkSettings"@), "Networks"@);
    let printed = or_text(as_text(member(item, "Name"@)), "unknown"@);
    let n = lemma_without_leading(printed, '/');
    assert(c.name@ == printed.skip(n));
    assert(is_rest_behind(c.name@, '/', printed));
    let nets = inspected_networks(item);
    if nets.len() > 0 {
        lemma_value_at(nets[0].1, "IPAddress"@);
    }
}

proof fn lemma_without_leading(s: Seq<char>, c: char) -> (n: int)
    ensures
        0 <= n <= s.len(),
        without_leading(s, c) == s.skip(n),
        forall|k: int| 0 <= k < n ==> #[trigger] s[k] == c,
        n < s.len() ==> s[n] != c,
    decreases s.len(),
{
    if s.len() > 0 && s[0] == c {
        let rest = s.skip(1);
        let n = lemma_without_leading(rest, c);
        assert(rest.skip(n) =~= s.skip(n + 1));
        assert forall|k: int| 0 <= k < n + 1 implies #[trigger] s[k] == c by {
            if k > 0 {
                assert(rest[k - 1] == s[k]);
            }
        }
        assert(n + 1 < s.len() ==> rest[n] == s[n + 1]);
        n + 1
    } else {
        assert(s.skip(0) =~= s);
        0
    }
}

} // verus!
