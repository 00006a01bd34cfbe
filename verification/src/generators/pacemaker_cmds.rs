//! The pcs commands of single resources and constraints, and the quoting they need.

use crate::chars::{replace, replaced};
use crate::lines::{add_line, join, joined, push_when, wrap, wrap_all, wrapped};
use crate::models::pacemaker::{
    ColocationConstraint, ColocationModel, DrbdPacemakerResource, FsResource, LocationConstraint,
    OrderConstraint, OrderModel, ResourceGroup, StonithDevice, SystemdResource,
};
use crate::number::{decimal, decimal_text, flag, flag_text};
use crate::text::{chars_of, contains_char, given, opt_view, trim, trimmed, views};
use vstd::prelude::*;
use vstd::string::*;

verus! {

// ---------------------------------------------------------------------------
// Quoting
// ---------------------------------------------------------------------------

/// `s` as one word of a shell command, in single quotes.
pub open spec fn shell_quoted(s: Seq<char>) -> Seq<char> {
    "'"@ + replaced(s, '\'', "'\\''"@) + "'"@
}

/// `s` as a single-quoted YAML scalar.
pub open spec fn yaml_single_quoted(s: Seq<char>) -> Seq<char> {
    "'"@ + replaced(s, '\'', "''"@) + "'"@
}

/// `s` as it stands inside a double-quoted YAML scalar.
pub open spec fn yaml_escaped(s: Seq<char>) -> Seq<char> {
    replaced(replaced(s, '\\', "\\\\"@), '"', "\\\""@)
}

/// `s` as a double-quoted YAML scalar.
pub open spec fn yaml_double_quoted(s: Seq<char>) -> Seq<char> {
    "\""@ + yaml_escaped(s) + "\""@
}

/// `s` as one word of a shell command, in single quotes.
pub fn shell_quote(s: &str) -> (r: String)
    ensures
        r@ == shell_quoted(s@),
{
    wrap("'", replace(s, '\'', "'\\''").as_str(), "'")
}

/// `s` as a single-quoted YAML scalar.
pub fn yaml_squote(s: &str) -> (r: String)
    ensures
        r@ == yaml_single_quoted(s@),
{
    wrap("'", replace(s, '\'', "''").as_str(), "'")
}

/// `s` as it stands inside a double-quoted YAML scalar.
pub fn yaml_dquote_inner(s: &str) -> (r: String)
    ensures
        r@ == yaml_escaped(s@),
{
    replace(replace(s, '\\', "\\\\").as_str(), '"', "\\\"")
}

/// `s` as a double-quoted YAML scalar.
pub fn yaml_dquote(s: &str) -> (r: String)
    ensures
        r@ == yaml_double_quoted(s@),
{
    wrap("\"", yaml_dquote_inner(s).as_str(), "\"")
}

/// How far a shell has read a word: the characters of the word, whether it is inside single
/// quotes, whether it has just read a backslash, and whether all characters so far were
/// quoted or behind a backslash.
pub struct ShellState {
    pub text: Seq<char>,
    pub quoted: bool,
    pub escaped: bool,
    pub protected: bool,
}

/// What a shell makes of a text: single quotes keep all characters but themselves, and a
/// backslash outside quotes keeps the next one.
pub open spec fn shell_reads(s: Seq<char>) -> ShellState
    decreases s.len(),
{
    if s.len() == 0 {
        ShellState { text: Seq::empty(), quoted: false, escaped: false, protected: true }
    } else {
        let st = shell_reads(s.drop_last());
        let c = s.last();
        if st.quoted {
            if c == '\'' {
                ShellState { quoted: false, ..st }
            } else {
                ShellState { text: st.text.push(c), ..st }
            }
        } else if st.escaped {
            ShellState { text: st.text.push(c), escaped: false, ..st }
        } else if c == '\'' {
            ShellState { quoted: true, ..st }
        } else if c == '\\' {
            ShellState { escaped: true, ..st }
        } else {
            ShellState { text: st.text.push(c), protected: false, ..st }
        }
    }
}

proof fn lemma_shell_reads_push(s: Seq<char>, c: char)
    ensures
        shell_reads(s.push(c)) == ({
            let st = shell_reads(s);
            if st.quoted {
                if c == '\'' {
                    ShellState { quoted: false, ..st }
                } else {
                    ShellState { text: st.text.push(c), ..st }
                }
            } else if st.escaped {
                ShellState { text: st.text.push(c), escaped: false, ..st }
            } else if c == '\'' {
                ShellState { quoted: true, ..st }
            } else if c == '\\' {
                ShellState { escaped: true, ..st }
            } else {
                ShellState { text: st.text.push(c), protected: false, ..st }
            }
        }),
{
    assert(s.push(c).drop_last() =~= s);
}

proof fn lemma_shell_reads_quoted(s: Seq<char>)
    ensures
        shell_reads(seq!['\''] + replaced(s, '\'', "'\\''"@)) == (ShellState {
            text: s,
            quoted: true,
            escaped: false,
            protected: true,
        }),
    decreases s.len(),
{
    let by = "'\\''"@;
    reveal_strlit("'\\''");
    if s.len() == 0 {
        lemma_shell_reads_push(Seq::empty(), '\'');
        assert(seq!['\''] + replaced(s, '\'', by) =~= Seq::<char>::empty().push('\''));
        assert(s =~= Seq::<char>::empty());
    } else {
        let front = seq!['\''] + replaced(s.drop_last(), '\'', by);
        lemma_shell_reads_quoted(s.drop_last());
        assert(s.drop_last().push(s.last()) =~= s);
        if s.last() == '\'' {
            lemma_shell_reads_push(front, '\'');
            lemma_shell_reads_push(front.push('\''), '\\');
            lemma_shell_reads_push(front.push('\'').push('\\'), '\'');
            lemma_shell_reads_push(front.push('\'').push('\\').push('\''), '\'');
            assert(seq!['\''] + replaced(s, '\'', by) =~= front.push('\'').push('\\').push(
                '\'',
            ).push('\''));
        } else {
            lemma_shell_reads_push(front, s.last());
            assert(seq!['\''] + replaced(s, '\'', by) =~= front.push(s.last()));
        }
    }
}

/// A quoted text is one word to a shell, and the word is the text: none of its characters
/// is left for the shell to interpret.
pub proof fn law_shell_reads_what_was_quoted(s: Seq<char>)
    ensures
        shell_reads(shell_quoted(s)) == (ShellState {
            text: s,
            quoted: false,
            escaped: false,
            protected: true,
        }),
{
    reveal_strlit("'");
    let front = seq!['\''] + replaced(s, '\'', "'\\''"@);
    lemma_shell_reads_quoted(s);
    lemma_shell_reads_push(front, '\'');
    assert(shell_quoted(s) =~= front.push('\''));
}

/// The text of a single-quoted YAML scalar that stands on one line, from what is between its
/// quotes: two quotes stand for one.
pub open spec fn yaml_single_read(s: Seq<char>) -> Seq<char>
    decreases s.len(),
{
    if s.len() >= 2 && s[0] == '\'' && s[1] == '\'' {
        seq!['\''] + yaml_single_read(s.skip(2))
    } else if s.len() > 0 {
        seq![s[0]] + yaml_single_read(s.skip(1))
    } else {
        Seq::empty()
    }
}

/// The text of a double-quoted YAML scalar that stands on one line, from what is between its
/// quotes: a backslash stands before a quote or another backslash. Nothing where a quote
/// stands alone or a backslash stands before anything else.
pub open spec fn yaml_double_read(s: Seq<char>) -> Option<Seq<char>>
    decreases s.len(),
{
    if s.len() == 0 {
        Some(Seq::empty())
    } else if s[0] == '"' {
        None
    } else if s[0] == '\\' {
        if s.len() >= 2 && (s[1] == '"' || s[1] == '\\') {
            match yaml_double_read(s.skip(2)) {
                Some(t) => Some(seq![s[1]] + t),
                None => None,
            }
        } else {
            None
        }
    } else {
        match yaml_double_read(s.skip(1)) {
            Some(t) => Some(seq![s[0]] + t),
            None => None,
        }
    }
}

/// A replacement goes from the front as it goes from the back.
proof fn lemma_replaced_first(s: Seq<char>, c: char, by: Seq<char>)
    requires
        s.len() > 0,
    ensures
        replaced(s, c, by) == (if s[0] == c {
            by
        } else {
            seq![s[0]]
        }) + replaced(s.skip(1), c, by),
    decreases s.len(),
{
    let head = if s[0] == c {
        by
    } else {
        seq![s[0]]
    };
    let tail = if s.last() == c {
        by
    } else {
        seq![s.last()]
    };
    if s.len() == 1 {
        assert(s.skip(1) =~= Seq::<char>::empty());
        assert(s.drop_last() =~= Seq::<char>::empty());
        assert(replaced(s.drop_last(), c, by) =~= Seq::<char>::empty());
        assert(Seq::<char>::empty() + tail =~= head + Seq::<char>::empty());
    } else {
        lemma_replaced_first(s.drop_last(), c, by);
        assert(s.drop_last().skip(1) =~= s.skip(1).drop_last());
        assert(s.skip(1).last() == s.last());
        let mid = replaced(s.skip(1).drop_last(), c, by);
        assert(head + mid + tail =~= head + (mid + tail));
    }
}

/// Reading a single-quoted scalar gives the text that was quoted, for any text of one line.
pub proof fn law_yaml_single_quotes_are_undone(s: Seq<char>)
    requires
        !contains_char(s, '\n'),
        !contains_char(s, '\r'),
    ensures
        yaml_single_quoted(s) == seq!['\''] + replaced(s, '\'', "''"@) + seq!['\''],
        yaml_single_read(replaced(s, '\'', "''"@)) == s,
    decreases s.len(),
{
    reveal_strlit("'");
    reveal_strlit("''");
    assert("'"@ =~= seq!['\'']);
    if s.len() > 0 {
        let rest = replaced(s.skip(1), '\'', "''"@);
        lemma_replaced_first(s, '\'', "''"@);
        assert forall|c: char| contains_char(s.skip(1), c) implies contains_char(s, c) by {
            let i = choose|i: int| 0 <= i < s.skip(1).len() && s.skip(1)[i] == c;
            assert(s[i + 1] == c);
        }
        law_yaml_single_quotes_are_undone(s.skip(1));
        let all = replaced(s, '\'', "''"@);
        if s[0] == '\'' {
            assert(all =~= "''"@ + rest);
            assert(all.skip(2) =~= rest);
        } else {
            assert(all =~= seq![s[0]] + rest);
            assert(all.skip(1) =~= rest);
        }
        assert(seq![s[0]] + s.skip(1) =~= s);
    } else {
        assert(replaced(s, '\'', "''"@) =~= Seq::<char>::empty());
        assert(s =~= Seq::<char>::empty());
    }
}

proof fn lemma_yaml_escaped_first(s: Seq<char>)
    requires
        s.len() > 0,
    ensures
        yaml_escaped(s) == (if s[0] == '\\' {
            seq!['\\', '\\']
        } else if s[0] == '"' {
            seq!['\\', '"']
        } else {
            seq![s[0]]
        }) + yaml_escaped(s.skip(1)),
{
    reveal_strlit("\\\\");
    reveal_strlit("\\\"");
    let bs = "\\\\"@;
    let qt = "\\\""@;
    let rest = replaced(s.skip(1), '\\', bs);
    lemma_replaced_first(s, '\\', bs);
    let once = replaced(s, '\\', bs);
    lemma_replaced_first(once, '"', qt);
    if s[0] == '\\' {
        assert(once =~= seq!['\\', '\\'] + rest);
        let tail = once.skip(1);
        assert(tail =~= seq!['\\'] + rest);
        lemma_replaced_first(tail, '"', qt);
        assert(tail.skip(1) =~= rest);
        assert(yaml_escaped(s) =~= seq!['\\', '\\'] + yaml_escaped(s.skip(1)));
    } else {
        assert(once =~= seq![s[0]] + rest);
        assert(once.skip(1) =~= rest);
        assert(qt =~= seq!['\\', '"']);
    }
}

/// Reading a double-quoted scalar gives the text that was quoted, for any text of one line.
pub proof fn law_yaml_double_quotes_are_undone(s: Seq<char>)
    requires
        !contains_char(s, '\n'),
        !contains_char(s, '\r'),
    ensures
        yaml_double_quoted(s) == seq!['"'] + yaml_escaped(s) + seq!['"'],
        yaml_double_read(yaml_escaped(s)) == Some(s),
    decreases s.len(),
{
    reveal_strlit("\"");
    assert("\""@ =~= seq!['"']);
    if s.len() > 0 {
        lemma_yaml_escaped_first(s);
        assert forall|c: char| contains_char(s.skip(1), c) implies contains_char(s, c) by {
            let i = choose|i: int| 0 <= i < s.skip(1).len() && s.skip(1)[i] == c;
            assert(s[i + 1] == c);
        }
        law_yaml_double_quotes_are_undone(s.skip(1));
        let rest = yaml_escaped(s.skip(1));
        let all = yaml_escaped(s);
        if s[0] == '\\' || s[0] == '"' {
            assert(all =~= seq!['\\', s[0]] + rest);
            assert(all.skip(2) =~= rest);
        } else {
            assert(all.skip(1) =~= rest);
        }
        assert(seq![s[0]] + s.skip(1) =~= s);
    } else {
        assert(s =~= Seq::<char>::empty());
        reveal_strlit("\\\\");
        assert(replaced(s, '\\', "\\\\"@) =~= Seq::<char>::empty());
        assert(yaml_escaped(s) =~= Seq::<char>::empty());
    }
}

// ---------------------------------------------------------------------------
// Fencing devices
// ---------------------------------------------------------------------------

/// Whether a character may stand in the name of a fencing device.
pub open spec fn is_id_char(c: char) -> bool {
    ('a' <= c && c <= 'z') || ('A' <= c && c <= 'Z') || ('0' <= c && c <= '9') || c == '.' || c
        == '_' || c == '-'
}

/// The name of a node with underscores for what may not stand in the name of a device.
pub open spec fn stonith_id(node: Seq<char>) -> Seq<char> {
    node.map_values(
        |c: char|
            if is_id_char(c) {
                c
            } else {
                '_'
            },
    )
}

/// The name of the fencing device of a node.
pub open spec fn stonith_name(node: Seq<char>) -> Seq<char> {
    "stonith-ipmi-"@ + stonith_id(node)
}

/// The options that every fencing device has.
pub const STONITH_OPTIONS: &'static str = "lanplus=1 power_wait=5 pcmk_reboot_timeout=300 pcmk_monitor_timeout=60 pcmk_reboot_action=reboot";

/// The command that registers a fencing device.
pub open spec fn stonith_cmds(dev: StonithDevice) -> Seq<Seq<char>> {
    seq![
        "pcs stonith create "@ + stonith_name(dev.node@) + " fence_ipmilan \\"@,
        "    pcmk_host_list="@ + shell_quoted(dev.node@) + " \\"@,
        "    ip="@ + shell_quoted(dev.ipmi_ip@) + " user="@ + shell_quoted(dev.ipmi_user@)
            + " password="@ + shell_quoted(dev.ipmi_password@) + " \\"@,
        "    "@ + STONITH_OPTIONS@ + wrapped(views(dev.extra_opts@), " "@, ""@),
    ]
}

/// The name of a node with underscores for what may not stand in the name of a device.
pub fn sanitize_stonith_id(node: &str) -> (r: String)
    ensures
        r@ == stonith_id(node@),
{
    let v = chars_of(node);
    let mut out = String::new();
    let mut i: usize = 0;
    while i < v.len()
        invariant
            v@ == node@,
            i <= v.len(),
            out@ =~= stonith_id(node@).take(i as int),
        decreases v.len() - i,
    {
        let c = v[i];
        if ('a' <= c && c <= 'z') || ('A' <= c && c <= 'Z') || ('0' <= c && c <= '9') || c == '.'
            || c == '_' || c == '-' {
            out.push(c);
        } else {
            out.push('_');
        }
        i += 1;
    }
    out
}

/// The name of the fencing device of a node.
pub fn stonith_device_name(node: &str) -> (r: String)
    ensures
        r@ == stonith_name(node@),
{
    let mut out = "stonith-ipmi-".to_owned();
    out.push_str(sanitize_stonith_id(node).as_str());
    out
}

/// The name of a fencing device holds only letters, digits, dots, underscores and hyphens,
/// so it needs no quotes; it is as long as the name of the node behind its prefix.
pub proof fn law_stonith_ids_are_plain(node: Seq<char>)
    ensures
        stonith_id(node).len() == node.len(),
        forall|i: int| 0 <= i < node.len() ==> is_id_char(#[trigger] stonith_id(node)[i]),
        forall|i: int|
            0 <= i < node.len() && is_id_char(node[i]) ==> #[trigger] stonith_id(node)[i]
                == node[i],
{
}

/// The command that registers a fencing device.
pub fn generate_stonith_cmds(dev: &StonithDevice) -> (r: Vec<String>)
    ensures
        views(r@) == stonith_cmds(*dev),
{
    let mut cmds: Vec<String> = Vec::new();
    assert(views(cmds@) =~= Seq::<Seq<char>>::empty());
    let name = stonith_device_name(dev.node.as_str());
    add_line(&mut cmds, wrap("pcs stonith create ", name.as_str(), " fence_ipmilan \\").as_str());
    add_line(
        &mut cmds,
        wrap("    pcmk_host_list=", shell_quote(dev.node.as_str()).as_str(), " \\").as_str(),
    );
    let mut login = "    ip=".to_owned();
    login.push_str(shell_quote(dev.ipmi_ip.as_str()).as_str());
    login.push_str(" user=");
    login.push_str(shell_quote(dev.ipmi_user.as_str()).as_str());
    login.push_str(" password=");
    login.push_str(shell_quote(dev.ipmi_password.as_str()).as_str());
    login.push_str(" \\");
    add_line(&mut cmds, login.as_str());
    let mut options = "    ".to_owned();
    options.push_str(STONITH_OPTIONS);
    options.push_str(wrap_all(&dev.extra_opts, " ", "").as_str());
    add_line(&mut cmds, options.as_str());
    cmds
}

// ---------------------------------------------------------------------------
// Resources
// ---------------------------------------------------------------------------

/// The monitor of the promoted role, with what happens when it fails, if that is set.
pub open spec fn promoted_monitor(d: DrbdPacemakerResource) -> Seq<char> {
    let on_fail = trimmed(d.on_fail@);
    "    op monitor interval="@ + d.monitor_interval_promoted@ + " role=Promoted"@ + given(
        on_fail.len() > 0,
        " on-fail="@ + on_fail,
    ) + " \\"@
}

/// The commands that create a DRBD resource as a promotable clone with one copy on each
/// node of the cluster.
pub open spec fn drbd_cmds(d: DrbdPacemakerResource, node_count: nat) -> Seq<Seq<char>> {
    seq![
        "pcs resource create "@ + d.resource_name@ + " ocf:linbit:drbd \\"@,
        "    drbd_resource="@ + d.drbd_resource_name@ + " \\"@,
        "    op demote  interval=0s timeout="@ + d.demote_timeout@ + " \\"@,
        promoted_monitor(d),
        "    op monitor interval="@ + d.monitor_interval_unpromoted@ + " role=Unpromoted \\"@,
        "    op notify  interval=0s timeout=90s \\"@,
        "    op promote interval=0s timeout="@ + d.promote_timeout@ + " \\"@,
        "    op reload  interval=0s timeout=30s \\"@,
        "    op start   interval=0s timeout="@ + d.start_timeout@ + " \\"@,
        "    op stop    interval=0s timeout="@ + d.stop_timeout@,
        "pcs resource promotable "@ + d.resource_name@ + " \\"@,
        "    promoted-max=1 promoted-node-max=1 \\"@,
        "    clone-max="@ + decimal(node_count) + " clone-node-max=1 \\"@,
        "    notify="@ + flag(d.notify) + " \\"@,
        "    id="@ + d.clone_name@,
    ] + match d.target_role_master_node {
        Some(node) => seq![
            "pcs constraint location "@ + d.clone_name@ + " prefers "@ + node@ + "=200"@,
        ],
        None => Seq::empty(),
    }
}

/// The command that creates a file system.
pub open spec fn fs_cmds(fs: FsResource) -> Seq<Seq<char>> {
    seq![
        "pcs resource create "@ + fs.resource_name@ + " ocf:heartbeat:Filesystem \\"@,
        "    device="@ + fs.device@ + " \\"@,
        "    directory="@ + fs.directory@ + " \\"@,
        "    fstype="@ + fs.fstype@ + " \\"@,
        "    op monitor interval="@ + fs.monitor_interval@ + " \\"@,
        "    op start  timeout="@ + fs.start_timeout@ + " \\"@,
        "    op stop   timeout="@ + fs.stop_timeout@,
    ]
}

/// The commands that create a systemd unit as a resource, and its clone if it has one.
pub open spec fn systemd_cmds(svc: SystemdResource) -> Seq<Seq<char>> {
    seq![
        "pcs resource create "@ + svc.resource_name@ + " systemd:"@ + svc.systemd_unit@ + " \\"@,
        "    op monitor interval="@ + svc.monitor_interval@ + " \\"@,
        "    op start timeout="@ + svc.start_timeout@ + " \\"@,
        "    op stop timeout="@ + svc.stop_timeout@,
    ] + match svc.clone_name {
        Some(name) => if svc.clone {
            seq!["pcs resource clone "@ + svc.resource_name@ + " id="@ + name@]
        } else {
            Seq::empty()
        },
        None => Seq::empty(),
    }
}

/// The command that puts resources into a group.
pub open spec fn group_cmd(grp: ResourceGroup) -> Seq<char> {
    "pcs resource group add "@ + grp.group_name@ + " "@ + joined(views(grp.members@), " "@)
}

/// The commands that create a DRBD resource as a promotable clone.
pub fn generate_drbd_resource_cmds(drbd: &DrbdPacemakerResource, node_count: usize) -> (r: Vec<
    String,
>)
    ensures
        views(r@) == drbd_cmds(*drbd, node_count as nat),
{
    let mut cmds: Vec<String> = Vec::new();
    assert(views(cmds@) =~= Seq::<Seq<char>>::empty());
    let name = drbd.resource_name.as_str();
    add_line(&mut cmds, wrap("pcs resource create ", name, " ocf:linbit:drbd \\").as_str());
    add_line(
        &mut cmds,
        wrap("    drbd_resource=", drbd.drbd_resource_name.as_str(), " \\").as_str(),
    );
    add_line(
        &mut cmds,
        wrap("    op demote  interval=0s timeout=", drbd.demote_timeout.as_str(), " \\").as_str(),
    );
    let on_fail = trim(drbd.on_fail.as_str());
    let mut failing = " on-fail=".to_owned();
    failing.push_str(on_fail);
    let mut monitor = "    op monitor interval=".to_owned();
    monitor.push_str(drbd.monitor_interval_promoted.as_str());
    monitor.push_str(" role=Promoted");
    push_when(&mut monitor, on_fail.unicode_len() > 0, failing.as_str());
    monitor.push_str(" \\");
    add_line(&mut cmds, monitor.as_str());
    add_line(
        &mut cmds,
        wrap(
            "    op monitor interval=",
            drbd.monitor_interval_unpromoted.as_str(),
            " role=Unpromoted \\",
        ).as_str(),
    );
    add_line(&mut cmds, "    op notify  interval=0s timeout=90s \\");
    add_line(
        &mut cmds,
        wrap("    op promote interval=0s timeout=", drbd.promote_timeout.as_str(), " \\").as_str(),
    );
    add_line(&mut cmds, "    op reload  interval=0s timeout=30s \\");
    add_line(
        &mut cmds,
        wrap("    op start   interval=0s timeout=", drbd.start_timeout.as_str(), " \\").as_str(),
    );
    let mut stop = "    op stop    interval=0s timeout=".to_owned();
    stop.push_str(drbd.stop_timeout.as_str());
    add_line(&mut cmds, stop.as_str());
    add_line(&mut cmds, wrap("pcs resource promotable ", name, " \\").as_str());
    add_line(&mut cmds, "    promoted-max=1 promoted-node-max=1 \\");
    add_line(
        &mut cmds,
        wrap(
            "    clone-max=",
            decimal_text(node_count as u64).as_str(),
            " clone-node-max=1 \\",
        ).as_str(),
    );
    add_line(&mut cmds, wrap("    notify=", flag_text(drbd.notify), " \\").as_str());
    let mut id = "    id=".to_owned();
    id.push_str(drbd.clone_name.as_str());
    add_line(&mut cmds, id.as_str());
    let ghost before = views(cmds@);
    if let Some(node) = &drbd.target_role_master_node {
        let mut prefer = "pcs constraint location ".to_owned();
        prefer.push_str(drbd.clone_name.as_str());
        prefer.push_str(" prefers ");
        prefer.push_str(node.as_str());
        prefer.push_str("=200");
        add_line(&mut cmds, prefer.as_str());
        assert(views(cmds@) =~= before + seq![prefer@]);
    } else {
        assert(views(cmds@) =~= before + Seq::<Seq<char>>::empty());
    }
    cmds
}

/// The command that creates a file system.
pub fn generate_fs_resource_cmds(fs: &FsResource) -> (r: Vec<String>)
    ensures
        views(r@) == fs_cmds(*fs),
{
    let mut cmds: Vec<String> = Vec::new();
    assert(views(cmds@) =~= Seq::<Seq<char>>::empty());
    add_line(
        &mut cmds,
        wrap(
            "pcs resource create ",
            fs.resource_name.as_str(),
            " ocf:heartbeat:Filesystem \\",
        ).as_str(),
    );
    add_line(&mut cmds, wrap("    device=", fs.device.as_str(), " \\").as_str());
    add_line(&mut cmds, wrap("    directory=", fs.directory.as_str(), " \\").as_str());
    add_line(&mut cmds, wrap("    fstype=", fs.fstype.as_str(), " \\").as_str());
    add_line(
        &mut cmds,
        wrap("    op monitor interval=", fs.monitor_interval.as_str(), " \\").as_str(),
    );
    add_line(&mut cmds, wrap("    op start  timeout=", fs.start_timeout.as_str(), " \\").as_str());
    let mut stop = "    op stop   timeout=".to_owned();
    stop.push_str(fs.stop_timeout.as_str());
    add_line(&mut cmds, stop.as_str());
    cmds
}

/// The commands that create a systemd unit as a resource.
pub fn generate_systemd_resource_cmds(svc: &SystemdResource) -> (r: Vec<String>)
    ensures
        views(r@) == systemd_cmds(*svc),
{
    let mut cmds: Vec<String> = Vec::new();
    assert(views(cmds@) =~= Seq::<Seq<char>>::empty());
    let mut create = "pcs resource create ".to_owned();
    create.push_str(svc.resource_name.as_str());
    create.push_str(" systemd:");
    create.push_str(svc.systemd_unit.as_str());
    create.push_str(" \\");
    add_line(&mut cmds, create.as_str());
    add_line(
        &mut cmds,
        wrap("    op monitor interval=", svc.monitor_interval.as_str(), " \\").as_str(),
    );
    add_line(&mut cmds, wrap("    op start timeout=", svc.start_timeout.as_str(), " \\").as_str());
    let mut stop = "    op stop timeout=".to_owned();
    stop.push_str(svc.stop_timeout.as_str());
    add_line(&mut cmds, stop.as_str());
    let ghost before = views(cmds@);
    assert(before + Seq::<Seq<char>>::empty() =~= before);
    if svc.clone {
        if let Some(name) = &svc.clone_name {
            let mut clone = "pcs resource clone ".to_owned();
            clone.push_str(svc.resource_name.as_str());
            clone.push_str(" id=");
            clone.push_str(name.as_str());
            add_line(&mut cmds, clone.as_str());
            assert(views(cmds@) =~= before + seq![clone@]);
        }
    }
    cmds
}

/// The command that puts resources into a group.
pub fn generate_resource_group_cmd(grp: &ResourceGroup) -> (r: String)
    ensures
        r@ == group_cmd(*grp),
{
    let mut out = "pcs resource group add ".to_owned();
    out.push_str(grp.group_name.as_str());
    out.push_str(" ");
    out.push_str(join(&grp.members, " ").as_str());
    out
}

// ---------------------------------------------------------------------------
// Constraints
// ---------------------------------------------------------------------------

/// The command of an order constraint.
pub open spec fn order_cmd(o: OrderModel) -> Seq<char> {
    "pcs constraint order "@ + o.first_action + " "@ + o.first + " then "@ + o.then_action + " "@
        + o.then_rsc + " kind="@ + o.kind + " id="@ + o.id
}

/// A role as it stands before a resource, or nothing.
pub open spec fn role_prefix(role: Option<Seq<char>>) -> Seq<char> {
    match role {
        Some(r) => r + " "@,
        None => Seq::empty(),
    }
}

/// The command of a colocation constraint. A role stands before the resource that it is
/// of.
pub open spec fn colocation_cmd(c: ColocationModel) -> Seq<char> {
    "pcs constraint colocation add "@ + role_prefix(c.rsc_role) + c.rsc + " with "@ + role_prefix(
        c.with_rsc_role,
    ) + c.with_rsc + " score="@ + c.score + " id="@ + c.id
}

/// The command of a location constraint.
pub open spec fn location_cmd(l: LocationConstraint) -> Seq<char> {
    "pcs constraint location "@ + l.rsc@ + " prefers "@ + l.node@ + "="@ + l.score@ + " id="@
        + l.id@
}

/// The command of an order constraint.
pub fn generate_order_constraint(ord: &OrderConstraint) -> (r: String)
    ensures
        r@ == order_cmd(ord@),
{
    let mut out = "pcs constraint order ".to_owned();
    out.push_str(ord.first_action.as_str());
    out.push_str(" ");
    out.push_str(ord.first.as_str());
    out.push_str(" then ");
    out.push_str(ord.then_action.as_str());
    out.push_str(" ");
    out.push_str(ord.then_rsc.as_str());
    out.push_str(" kind=");
    out.push_str(ord.kind.as_str());
    out.push_str(" id=");
    out.push_str(ord.id.as_str());
    out
}

/// A role as it stands before a resource, or nothing.
pub fn write_role_prefix(role: &Option<String>) -> (r: String)
    ensures
        r@ == role_prefix(opt_view(*role)),
{
    match role {
        Some(name) => {
            let mut out = name.clone();
            out.push_str(" ");
            out
        },
        None => String::new(),
    }
}

/// The command of a colocation constraint.
pub fn generate_colocation_constraint(col: &ColocationConstraint) -> (r: String)
    ensures
        r@ == colocation_cmd(col@),
{
    let mut out = "pcs constraint colocation add ".to_owned();
    out.push_str(write_role_prefix(&col.rsc_role).as_str());
    out.push_str(col.rsc.as_str());
    out.push_str(" with ");
    out.push_str(write_role_prefix(&col.with_rsc_role).as_str());
    out.push_str(col.with_rsc.as_str());
    out.push_str(" score=");
    out.push_str(col.score.as_str());
    out.push_str(" id=");
    out.push_str(col.id.as_str());
    out
}

/// The command of a location constraint.
pub fn generate_location_constraint(loc: &LocationConstraint) -> (r: String)
    ensures
        r@ == location_cmd(*loc),
{
    let mut out = "pcs constraint location ".to_owned();
    out.push_str(loc.rsc.as_str());
    out.push_str(" prefers ");
    out.push_str(loc.node.as_str());
    out.push_str("=");
    out.push_str(loc.score.as_str());
    out.push_str(" id=");
    out.push_str(loc.id.as_str());
    out
}

} // verus!
