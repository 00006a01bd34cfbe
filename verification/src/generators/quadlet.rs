//! The Quadlet unit files.

use crate::chars::lowercase;
use crate::lines::{
    add_line, add_line_when, add_opt_line, add_pair, add_prefixed, entry, flat, keep_when,
    lemma_flat_take, lemma_views_push, opt_entry, opt_line, opt_text, prefixed, text_or_empty,
    wrap, wrap_all, wrap_entry, wrap_opt, wrapped,
};
use crate::models::quadlet::{
    PodNetworkEntry, QuadletConfig, QuadletContainer, QuadletNetwork, QuadletPod, QuadletVolume,
};
use crate::number::{flag, flag_text};
use crate::text::{given, opt_view, present, same, starts_with, strip_prefix, views};
use vstd::prelude::*;
use vstd::string::*;

verus! {

// ---------------------------------------------------------------------------
// Volumes
// ---------------------------------------------------------------------------

/// Whether some option names the type of the volume.
pub open spec fn has_type_option(options: Seq<String>) -> bool {
    exists|i: int|
        0 <= i < options.len() && "type="@.is_prefix_of(lowercase((#[trigger] options[i])@))
}

/// An option of a volume: its type and its device have keys of their own.
pub open spec fn volume_option() -> spec_fn(String) -> Seq<char> {
    |o: String|
        if "type="@.is_prefix_of(o@) {
            "Type="@ + o@.skip(5) + "\n"@
        } else if "device="@.is_prefix_of(o@) {
            "Device="@ + o@.skip(7) + "\n"@
        } else {
            "Options="@ + o@ + "\n"@
        }
}

/// The content of a `.volume` file.
pub open spec fn volume_text(v: QuadletVolume) -> Seq<char> {
    given(has_type_option(v.options@), "[Unit]\nDescription=Volume "@ + v.name@ + "\n\n"@)
        + "[Volume]\nVolumeName="@ + v.name@ + "\n"@ + entry(v.driver@, "Driver="@, "\n"@) + flat(
        v.options@,
        volume_option(),
    ) + wrapped(views(v.labels@), "Label="@, "\n"@)
        + "\n[Install]\nWantedBy=multi-user.target\n"@
}

fn names_type(options: &Vec<String>) -> (r: bool)
    ensures
        r == has_type_option(options@),
{
    let mut i: usize = 0;
    while i < options.len()
        invariant
            i <= options.len(),
            forall|j: int|
                0 <= j < i ==> !"type="@.is_prefix_of(lowercase((#[trigger] options@[j])@)),
        decreases options.len() - i,
    {
        if starts_with(options[i].as_str().to_lowercase().as_str(), "type=") {
            return true;
        }
        i += 1;
    }
    false
}

fn write_volume_option(o: &String) -> (r: String)
    ensures
        r@ == volume_option()(*o),
{
    proof {
        reveal_strlit("type=");
        reveal_strlit("device=");
    }
    if let Some(value) = strip_prefix(o.as_str(), "type=") {
        wrap("Type=", value, "\n")
    } else if let Some(value) = strip_prefix(o.as_str(), "device=") {
        wrap("Device=", value, "\n")
    } else {
        wrap("Options=", o.as_str(), "\n")
    }
}

/// The content of a `.volume` file.
pub fn generate_volume_unit(vol: &QuadletVolume) -> (r: String)
    ensures
        r@ == volume_text(*vol),
{
    let name = vol.name.as_str();
    let mut options = String::new();
    let mut i: usize = 0;
    while i < vol.options.len()
        invariant
            i <= vol.options.len(),
            options@ == flat(vol.options@.take(i as int), volume_option()),
        decreases vol.options.len() - i,
    {
        proof {
            lemma_flat_take(vol.options@, volume_option(), i as int);
        }
        options.push_str(write_volume_option(&vol.options[i]).as_str());
        i += 1;
    }
    assert(vol.options@.take(i as int) =~= vol.options@);
    let mut out = keep_when(
        names_type(&vol.options),
        wrap("[Unit]\nDescription=Volume ", name, "\n\n"),
    );
    out.push_str("[Volume]\nVolumeName=");
    out.push_str(name);
    out.push_str("\n");
    out.push_str(wrap_entry(vol.driver.as_str(), "Driver=", "\n").as_str());
    out.push_str(options.as_str());
    out.push_str(wrap_all(&vol.labels, "Label=", "\n").as_str());
    out.push_str("\n[Install]\nWantedBy=multi-user.target\n");
    out
}

/// The content of the `.volume` file of a directory of the host.
pub open spec fn bind_volume_text(
    name: Seq<char>,
    host_path: Seq<char>,
    description: Seq<char>,
) -> Seq<char> {
    "[Unit]\nDescription="@ + (if description.len() > 0 {
        description
    } else {
        "Volume "@ + name
    }) + "\n\n[Volume]\nVolumeName="@ + name + "\nType=none\nDevice="@ + host_path
        + "\nOptions=bind\n\n[Install]\nWantedBy=multi-user.target\n"@
}

/// The content of the `.volume` file of a directory of the host.
pub fn generate_bind_volume_unit(name: &str, host_path: &str, description: &str) -> (r: String)
    ensures
        r@ == bind_volume_text(name@, host_path@, description@),
{
    let mut out = "[Unit]\nDescription=".to_owned();
    if description.unicode_len() > 0 {
        out.push_str(description);
    } else {
        let mut title = "Volume ".to_owned();
        title.push_str(name);
        out.push_str(title.as_str());
    }
    out.push_str("\n\n[Volume]\nVolumeName=");
    out.push_str(name);
    out.push_str("\nType=none\nDevice=");
    out.push_str(host_path);
    out.push_str("\nOptions=bind\n\n[Install]\nWantedBy=multi-user.target\n");
    out
}

// ---------------------------------------------------------------------------
// Networks
// ---------------------------------------------------------------------------

/// What stands for the parent interface until the deployment finds it.
pub const PARENT_PLACEHOLDER: &'static str = "__PARENT_IFACE__";

/// Whether the driver is one that sits on an interface of the host.
pub open spec fn is_vlan(driver: Seq<char>) -> bool {
    driver == "ipvlan"@ || driver == "macvlan"@
}

/// Whether the network has IPv6.
pub open spec fn has_ipv6(n: QuadletNetwork) -> bool {
    n.subnet6@.len() > 0 || n.ipv6
}

/// The parent interface, or what stands for it.
pub open spec fn parent_interface(n: QuadletNetwork) -> Seq<char> {
    if n.interface@.len() > 0 {
        n.interface@
    } else {
        PARENT_PLACEHOLDER@
    }
}

/// The lines of a `.network` file.
pub open spec fn network_lines(n: QuadletNetwork) -> Seq<Seq<char>> {
    seq!["[Network]"@, "Driver="@ + n.driver@] + opt_line("Subnet="@, n.subnet@) + opt_line(
        "Gateway="@,
        n.gateway@,
    ) + opt_line("Subnet="@, n.subnet6@) + opt_line("Gateway="@, n.gateway6@) + (if is_vlan(
        n.driver@,
    ) {
        seq![
            if has_ipv6(n) {
                "IPv6=true"@
            } else {
                "IPv6=no"@
            },
        ]
    } else {
        Seq::empty()
    }) + seq!["Options=parent="@ + parent_interface(n)] + (if is_vlan(n.driver@) {
        opt_line("Options=mode="@, n.ipvlan_mode@)
    } else {
        Seq::empty()
    }) + prefixed(views(n.options@), "Options="@) + (if n.internal {
        seq!["Internal=true"@]
    } else {
        Seq::empty()
    })
}

/// The content of a `.network` file.
pub open spec fn network_text(n: QuadletNetwork) -> Seq<char> {
    wrapped(network_lines(n), ""@, "\n"@)
}

/// The content of a `.network` file. A placeholder stands for a parent interface that is
/// not known yet.
pub fn generate_network_unit(net: &QuadletNetwork) -> (r: String)
    ensures
        r@ == network_text(*net),
{
    let driver = net.driver.as_str();
    let vlan = same(driver, "ipvlan") || same(driver, "macvlan");
    let ipv6 = net.subnet6.as_str().unicode_len() > 0 || net.ipv6;
    let parent = if net.interface.as_str().unicode_len() > 0 {
        net.interface.as_str()
    } else {
        PARENT_PLACEHOLDER
    };
    let mut lines: Vec<String> = Vec::new();
    assert(views(lines@) =~= Seq::<Seq<char>>::empty());
    add_line(&mut lines, "[Network]");
    add_pair(&mut lines, "Driver=", driver);
    assert(views(lines@) =~= seq!["[Network]"@, "Driver="@ + net.driver@]);
    add_opt_line(&mut lines, "Subnet=", net.subnet.as_str());
    add_opt_line(&mut lines, "Gateway=", net.gateway.as_str());
    add_opt_line(&mut lines, "Subnet=", net.subnet6.as_str());
    add_opt_line(&mut lines, "Gateway=", net.gateway6.as_str());
    add_line_when(
        &mut lines,
        vlan,
        if ipv6 {
            "IPv6=true"
        } else {
            "IPv6=no"
        },
    );
    let ghost before = views(lines@);
    add_pair(&mut lines, "Options=parent=", parent);
    assert(views(lines@) =~= before + seq!["Options=parent="@ + parent_interface(*net)]);
    let ghost before = views(lines@);
    if vlan {
        add_opt_line(&mut lines, "Options=mode=", net.ipvlan_mode.as_str());
    } else {
        assert(before + Seq::<Seq<char>>::empty() =~= before);
    }
    add_prefixed(&mut lines, "Options=", &net.options);
    add_line_when(&mut lines, net.internal, "Internal=true");
    wrap_all(&lines, "", "\n")
}

// ---------------------------------------------------------------------------
// Pods
// ---------------------------------------------------------------------------

/// The units that a pod needs for a network.
pub open spec fn network_dependency() -> spec_fn(PodNetworkEntry) -> Seq<Seq<char>> {
    |n: PodNetworkEntry|
        if n.network@.len() > 0 {
            seq!["After="@ + n.network@ + ".network"@, "Requires="@ + n.network@ + ".network"@]
        } else {
            Seq::empty()
        }
}

/// A network of a pod, with the addresses of the pod in it.
pub open spec fn network_param(n: PodNetworkEntry) -> Seq<char> {
    n.network@ + ".network"@ + opt_entry(n.ip, ":ip="@, ""@) + opt_entry(n.ip6, ":ip6="@, ""@)
        + opt_entry(n.gateway, ":gateway="@, ""@) + opt_entry(n.gateway6, ":gateway6="@, ""@)
}

/// The line that attaches a pod to a network.
pub open spec fn network_line() -> spec_fn(PodNetworkEntry) -> Seq<Seq<char>> {
    |n: PodNetworkEntry|
        if n.network@.len() > 0 {
            seq!["Network="@ + network_param(n)]
        } else {
            Seq::empty()
        }
}

/// Whether the pod is attached to some network.
pub open spec fn has_network(networks: Seq<PodNetworkEntry>) -> bool {
    exists|i: int| 0 <= i < networks.len() && (#[trigger] networks[i]).network@.len() > 0
}

/// The lines of the section of a pod on what it needs, and the empty line behind them.
pub open spec fn pod_unit_lines(p: QuadletPod) -> Seq<Seq<char>> {
    if present(p.description) || has_network(p.networks@) {
        seq!["[Unit]"@] + opt_line("Description="@, text_or_empty(p.description)) + flat(
            p.networks@,
            network_dependency(),
        ) + seq![""@]
    } else {
        Seq::empty()
    }
}

/// The lines of a `.pod` file.
pub open spec fn pod_lines(p: QuadletPod) -> Seq<Seq<char>> {
    pod_unit_lines(p) + seq!["[Pod]"@, "PodName="@ + p.name@] + opt_line(
        "HostName="@,
        text_or_empty(p.hostname),
    ) + opt_line("ShmSize="@, text_or_empty(p.shm_size)) + flat(p.networks@, network_line())
        + prefixed(views(p.labels@), "Label="@)
}

/// The content of a `.pod` file.
pub open spec fn pod_text(p: QuadletPod) -> Seq<char> {
    wrapped(pod_lines(p), ""@, "\n"@)
}

fn is_present(o: &Option<String>) -> (r: bool)
    ensures
        r == present(*o),
{
    match o {
        Some(s) => s.as_str().unicode_len() > 0,
        None => false,
    }
}

/// A network of a pod, with the addresses of the pod in it.
pub fn write_network_param(n: &PodNetworkEntry) -> (r: String)
    ensures
        r@ == network_param(*n),
{
    let mut out = n.network.clone();
    out.push_str(".network");
    out.push_str(wrap_opt(&n.ip, ":ip=", "").as_str());
    out.push_str(wrap_opt(&n.ip6, ":ip6=", "").as_str());
    out.push_str(wrap_opt(&n.gateway, ":gateway=", "").as_str());
    out.push_str(wrap_opt(&n.gateway6, ":gateway6=", "").as_str());
    out
}

fn add_dependencies(lines: &mut Vec<String>, networks: &Vec<PodNetworkEntry>)
    ensures
        views(final(lines)@) == views(old(lines)@) + flat(networks@, network_dependency()),
{
    let ghost before = views(lines@);
    let mut i: usize = 0;
    assert(before =~= before + flat(networks@.take(0), network_dependency()));
    while i < networks.len()
        invariant
            i <= networks.len(),
            views(lines@) == before + flat(networks@.take(i as int), network_dependency()),
        decreases networks.len() - i,
    {
        let ghost seen = flat(networks@.take(i as int), network_dependency());
        proof {
            lemma_flat_take(networks@, network_dependency(), i as int);
        }
        let name = networks[i].network.as_str();
        if name.unicode_len() > 0 {
            add_line(lines, wrap("After=", name, ".network").as_str());
            add_line(lines, wrap("Requires=", name, ".network").as_str());
        }
        assert(views(lines@) =~= before + (seen + network_dependency()(networks@[i as int])));
        i += 1;
    }
    assert(networks@.take(i as int) =~= networks@);
}

fn add_attachments(lines: &mut Vec<String>, networks: &Vec<PodNetworkEntry>)
    ensures
        views(final(lines)@) == views(old(lines)@) + flat(networks@, network_line()),
{
    let ghost before = views(lines@);
    let mut i: usize = 0;
    assert(before =~= before + flat(networks@.take(0), network_line()));
    while i < networks.len()
        invariant
            i <= networks.len(),
            views(lines@) == before + flat(networks@.take(i as int), network_line()),
        decreases networks.len() - i,
    {
        let ghost seen = flat(networks@.take(i as int), network_line());
        proof {
            lemma_flat_take(networks@, network_line(), i as int);
        }
        if networks[i].network.as_str().unicode_len() > 0 {
            add_pair(lines, "Network=", write_network_param(&networks[i]).as_str());
        }
        assert(views(lines@) =~= before + (seen + network_line()(networks@[i as int])));
        i += 1;
    }
    assert(networks@.take(i as int) =~= networks@);
}

fn is_attached(networks: &Vec<PodNetworkEntry>) -> (r: bool)
    ensures
        r == has_network(networks@),
{
    let mut i: usize = 0;
    while i < networks.len()
        invariant
            i <= networks.len(),
            forall|k: int| 0 <= k < i ==> (#[trigger] networks@[k]).network@.len() == 0,
        decreases networks.len() - i,
    {
        if networks[i].network.as_str().unicode_len() > 0 {
            return true;
        }
        i += 1;
    }
    false
}

/// The content of a `.pod` file.
pub fn generate_pod_unit(pod: &QuadletPod) -> (r: String)
    ensures
        r@ == pod_text(*pod),
{
    let mut lines: Vec<String> = Vec::new();
    assert(views(lines@) =~= Seq::<Seq<char>>::empty());
    if is_present(&pod.description) || is_attached(&pod.networks) {
        add_line(&mut lines, "[Unit]");
        assert(views(lines@) =~= seq!["[Unit]"@]);
        add_opt_line(&mut lines, "Description=", opt_text(&pod.description));
        add_dependencies(&mut lines, &pod.networks);
        let ghost before = views(lines@);
        add_line(&mut lines, "");
        assert(views(lines@) =~= before + seq![""@]);
    }
    let ghost unit = views(lines@);
    add_line(&mut lines, "[Pod]");
    add_pair(&mut lines, "PodName=", pod.name.as_str());
    assert(views(lines@) =~= unit + seq!["[Pod]"@, "PodName="@ + pod.name@]);
    add_opt_line(&mut lines, "HostName=", opt_text(&pod.hostname));
    add_opt_line(&mut lines, "ShmSize=", opt_text(&pod.shm_size));
    add_attachments(&mut lines, &pod.networks);
    add_prefixed(&mut lines, "Label=", &pod.labels);
    wrap_all(&lines, "", "\n")
}

// ---------------------------------------------------------------------------
// Containers
// ---------------------------------------------------------------------------

/// The units that a container needs for something that it depends on: its own pod, or
/// else a service.
pub open spec fn container_dependency(pod: Option<String>) -> spec_fn(String) -> Seq<char> {
    |dep: String|
        {
            let unit = dep@ + (if opt_view(pod) == Some(dep@) {
                ".pod"@
            } else {
                ".service"@
            });
            "After="@ + unit + "\nRequires="@ + unit + "\n"@
        }
}

pub open spec fn environment_line() -> spec_fn((String, String)) -> Seq<char> {
    |e: (String, String)| "Environment="@ + e.0@ + "="@ + e.1@ + "\n"@
}

/// Where a container is attached: to its pod, or else to a network of its own.
pub open spec fn attachment(c: QuadletContainer) -> Seq<char> {
    match c.pod {
        Some(pod) => entry(pod@, "Pod="@, ".pod\n"@),
        None => opt_entry(c.network, "Network="@, ".network\n"@) + opt_entry(c.ip, "IP="@, "\n"@)
            + wrapped(views(c.publish_ports@), "PublishPort="@, "\n"@),
    }
}

/// Whether the unit stays active once its process has ended.
pub open spec fn remain_line(o: Option<bool>) -> Seq<char> {
    match o {
        Some(b) => "RemainAfterExit="@ + flag(b) + "\n"@,
        None => Seq::empty(),
    }
}

/// The content of a `.container` file.
pub open spec fn container_text(c: QuadletContainer) -> Seq<char> {
    given(
        present(c.description) || c.depends_on@.len() > 0,
        "[Unit]\n"@ + opt_entry(c.description, "Description="@, "\n"@) + flat(
            c.depends_on@,
            container_dependency(c.pod),
        ) + "\n"@,
    ) + "[Container]\nContainerName="@ + c.name@ + "\nImage="@ + c.image@ + "\n"@ + attachment(c)
        + flat(c.environment@, environment_line()) + wrapped(views(c.volumes@), "Volume="@, "\n"@)
        + wrapped(views(c.tmpfs@), "Tmpfs="@, "\n"@) + opt_entry(
        c.entrypoint,
        "Entrypoint="@,
        "\n"@,
    ) + opt_entry(c.exec_command, "Exec="@, "\n"@) + opt_entry(c.user, "User="@, "\n"@)
        + opt_entry(c.auto_update, "AutoUpdate="@, "\n"@) + wrapped(
        views(c.labels@),
        "Label="@,
        "\n"@,
    ) + wrapped(views(c.add_capabilities@), "AddCapability="@, "\n"@) + wrapped(
        views(c.extra_args@),
        "PodmanArgs="@,
        "\n"@,
    ) + "\n[Service]\nRestart=no\nTimeoutStartSec=0\n"@ + opt_entry(c.service_type, "Type="@, "\n"@)
        + remain_line(c.remain_after_exit) + opt_entry(
        c.timeout_stop_sec,
        "TimeoutStopSec="@,
        "\n"@,
    ) + opt_entry(c.wanted_by, "\n[Install]\nWantedBy="@, "\n"@)
}

fn write_container_dependency(pod: &Option<String>, dep: &String) -> (r: String)
    ensures
        r@ == container_dependency(*pod)(*dep),
{
    let own = match pod {
        Some(p) => same(p.as_str(), dep.as_str()),
        None => false,
    };
    let mut unit = dep.clone();
    if own {
        unit.push_str(".pod");
    } else {
        unit.push_str(".service");
    }
    let mut out = "After=".to_owned();
    out.push_str(unit.as_str());
    out.push_str("\nRequires=");
    out.push_str(unit.as_str());
    out.push_str("\n");
    out
}

fn write_container_dependencies(c: &QuadletContainer) -> (r: String)
    ensures
        r@ == flat(c.depends_on@, container_dependency(c.pod)),
{
    let mut out = String::new();
    let mut i: usize = 0;
    while i < c.depends_on.len()
        invariant
            i <= c.depends_on.len(),
            out@ == flat(c.depends_on@.take(i as int), container_dependency(c.pod)),
        decreases c.depends_on.len() - i,
    {
        proof {
            lemma_flat_take(c.depends_on@, container_dependency(c.pod), i as int);
        }
        out.push_str(write_container_dependency(&c.pod, &c.depends_on[i]).as_str());
        i += 1;
    }
    assert(c.depends_on@.take(i as int) =~= c.depends_on@);
    out
}

fn write_environment(environment: &Vec<(String, String)>) -> (r: String)
    ensures
        r@ == flat(environment@, environment_line()),
{
    let mut out = String::new();
    let mut i: usize = 0;
    while i < environment.len()
        invariant
            i <= environment.len(),
            out@ == flat(environment@.take(i as int), environment_line()),
        decreases environment.len() - i,
    {
        proof {
            lemma_flat_take(environment@, environment_line(), i as int);
        }
        let mut line = "Environment=".to_owned();
        line.push_str(environment[i].0.as_str());
        line.push_str("=");
        line.push_str(environment[i].1.as_str());
        line.push_str("\n");
        out.push_str(line.as_str());
        i += 1;
    }
    assert(environment@.take(i as int) =~= environment@);
    out
}

fn write_attachment(c: &QuadletContainer) -> (r: String)
    ensures
        r@ == attachment(*c),
{
    match &c.pod {
        Some(pod) => wrap_entry(pod.as_str(), "Pod=", ".pod\n"),
        None => {
            let mut out = wrap_opt(&c.network, "Network=", ".network\n");
            out.push_str(wrap_opt(&c.ip, "IP=", "\n").as_str());
            out.push_str(wrap_all(&c.publish_ports, "PublishPort=", "\n").as_str());
            out
        },
    }
}

/// The content of a `.container` file.
pub fn generate_container_unit(c: &QuadletContainer) -> (r: String)
    ensures
        r@ == container_text(*c),
{
    let mut unit = "[Unit]\n".to_owned();
    unit.push_str(wrap_opt(&c.description, "Description=", "\n").as_str());
    unit.push_str(write_container_dependencies(c).as_str());
    unit.push_str("\n");
    let mut out = keep_when(is_present(&c.description) || c.depends_on.len() > 0, unit);
    out.push_str("[Container]\nContainerName=");
    out.push_str(c.name.as_str());
    out.push_str("\nImage=");
    out.push_str(c.image.as_str());
    out.push_str("\n");
    out.push_str(write_attachment(c).as_str());
    out.push_str(write_environment(&c.environment).as_str());
    out.push_str(wrap_all(&c.volumes, "Volume=", "\n").as_str());
    out.push_str(wrap_all(&c.tmpfs, "Tmpfs=", "\n").as_str());
    out.push_str(wrap_opt(&c.entrypoint, "Entrypoint=", "\n").as_str());
    out.push_str(wrap_opt(&c.exec_command, "Exec=", "\n").as_str());
    out.push_str(wrap_opt(&c.user, "User=", "\n").as_str());
    out.push_str(wrap_opt(&c.auto_update, "AutoUpdate=", "\n").as_str());
    out.push_str(wrap_all(&c.labels, "Label=", "\n").as_str());
    out.push_str(wrap_all(&c.add_capabilities, "AddCapability=", "\n").as_str());
    out.push_str(wrap_all(&c.extra_args, "PodmanArgs=", "\n").as_str());
    out.push_str("\n[Service]\nRestart=no\nTimeoutStartSec=0\n");
    out.push_str(wrap_opt(&c.service_type, "Type=", "\n").as_str());
    let remain = match c.remain_after_exit {
        Some(b) => wrap("RemainAfterExit=", flag_text(b), "\n"),
        None => String::new(),
    };
    out.push_str(remain.as_str());
    out.push_str(wrap_opt(&c.timeout_stop_sec, "TimeoutStopSec=", "\n").as_str());
    out.push_str(wrap_opt(&c.wanted_by, "\n[Install]\nWantedBy=", "\n").as_str());
    out
}

// ---------------------------------------------------------------------------
// All units
// ---------------------------------------------------------------------------

pub open spec fn volume_file() -> spec_fn(QuadletVolume) -> Seq<(Seq<char>, Seq<char>)> {
    |v: QuadletVolume| seq![(v.name@ + ".volume"@, volume_text(v))]
}

pub open spec fn network_file() -> spec_fn(QuadletNetwork) -> Seq<(Seq<char>, Seq<char>)> {
    |n: QuadletNetwork| seq![(n.name@ + ".network"@, network_text(n))]
}

pub open spec fn pod_file() -> spec_fn(QuadletPod) -> Seq<(Seq<char>, Seq<char>)> {
    |p: QuadletPod| seq![(p.name@ + ".pod"@, pod_text(p))]
}

pub open spec fn container_file() -> spec_fn(QuadletContainer) -> Seq<(Seq<char>, Seq<char>)> {
    |c: QuadletContainer| seq![(c.name@ + ".container"@, container_text(c))]
}

/// The name and content of each file: volumes, networks, pods, containers.
pub open spec fn unit_files(config: QuadletConfig) -> Seq<(Seq<char>, Seq<char>)> {
    flat(config.volumes@, volume_file()) + flat(config.networks@, network_file()) + flat(
        config.pods@,
        pod_file(),
    ) + flat(config.containers@, container_file())
}

fn add_file(files: &mut Vec<(String, String)>, name: &str, ending: &str, content: String)
    ensures
        views(final(files)@) == views(old(files)@) + seq![(name@ + ending@, content@)],
{
    let mut filename = name.to_owned();
    filename.push_str(ending);
    let file = (filename, content);
    proof {
        lemma_views_push(old(files)@, file);
        assert(views(old(files)@).push(file@) =~= views(old(files)@) + seq![file@]);
    }
    files.push(file);
}

/// The name and content of each unit file: volumes, networks, pods, containers.
pub fn generate_all_units(config: &QuadletConfig) -> (r: Vec<(String, String)>)
    ensures
        views(r@) == unit_files(*config),
{
    let mut files: Vec<(String, String)> = Vec::new();
    let mut i: usize = 0;
    assert(views(files@) =~= Seq::<(Seq<char>, Seq<char>)>::empty());
    while i < config.volumes.len()
        invariant
            i <= config.volumes.len(),
            views(files@) == flat(config.volumes@.take(i as int), volume_file()),
        decreases config.volumes.len() - i,
    {
        let v = &config.volumes[i];
        proof {
            lemma_flat_take(config.volumes@, volume_file(), i as int);
        }
        add_file(&mut files, v.name.as_str(), ".volume", generate_volume_unit(v));
        i += 1;
    }
    assert(config.volumes@.take(i as int) =~= config.volumes@);
    let ghost s1 = views(files@);
    assert(s1 + flat(config.networks@.take(0), network_file()) =~= s1);
    i = 0;
    while i < config.networks.len()
        invariant
            i <= config.networks.len(),
            views(files@) == s1 + flat(config.networks@.take(i as int), network_file()),
        decreases config.networks.len() - i,
    {
        let n = &config.networks[i];
        proof {
            lemma_flat_take(config.networks@, network_file(), i as int);
        }
        add_file(&mut files, n.name.as_str(), ".network", generate_network_unit(n));
        i += 1;
        assert(views(files@) =~= s1 + flat(config.networks@.take(i as int), network_file()));
    }
    assert(config.networks@.take(i as int) =~= config.networks@);
    let ghost s2 = views(files@);
    assert(s2 + flat(config.pods@.take(0), pod_file()) =~= s2);
    i = 0;
    while i < config.pods.len()
        invariant
            i <= config.pods.len(),
            views(files@) == s2 + flat(config.pods@.take(i as int), pod_file()),
        decreases config.pods.len() - i,
    {
        let p = &config.pods[i];
        proof {
            lemma_flat_take(config.pods@, pod_file(), i as int);
        }
        add_file(&mut files, p.name.as_str(), ".pod", generate_pod_unit(p));
        i += 1;
        assert(views(files@) =~= s2 + flat(config.pods@.take(i as int), pod_file()));
    }
    assert(config.pods@.take(i as int) =~= config.pods@);
    let ghost s3 = views(files@);
    assert(s3 + flat(config.containers@.take(0), container_file()) =~= s3);
    i = 0;
    while i < config.containers.len()
        invariant
            i <= config.containers.len(),
            views(files@) == s3 + flat(config.containers@.take(i as int), container_file()),
        decreases config.containers.len() - i,
    {
        let c = &config.containers[i];
        proof {
            lemma_flat_take(config.containers@, container_file(), i as int);
        }
        add_file(&mut files, c.name.as_str(), ".container", generate_container_unit(c));
        i += 1;
        assert(views(files@) =~= s3 + flat(config.containers@.take(i as int), container_file()));
    }
    assert(config.containers@.take(i as int) =~= config.containers@);
    files
}

} // verus!
