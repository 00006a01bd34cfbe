//! The playbooks that deploy Quadlet units.

use crate::chars::{replace_text, replaced_text, to_word, word};
use crate::generators::quadlet::PARENT_PLACEHOLDER;
use crate::lines::{
    add_line, flat, join, join_slices, joined, lemma_flat_take, lemma_none_empty,
    lemma_split_on_chars, lemma_views_push, lines, lines_of, prefixed, split, split_on,
    unless_empty, with_prefix, wrap,
};
use crate::models::quadlet::{QuadletConfig, QuadletNetwork};
use crate::occurs::{lemma_contains_at, lemma_place_of};
use crate::read_back::{lemma_split_single, lemma_split_sum};
use crate::res_file::or_text;
use crate::text::{
    chars_of, contains, contains_text, find_text, is_space, is_space_char, lemma_find_from,
    occurs_at, opt_view, same, trim_end_matches, trim_or, trimmed_or, views, without_suffixes,
};
use vstd::prelude::*;
use vstd::string::*;

verus! {

// ---------------------------------------------------------------------------
// Hosts and login
// ---------------------------------------------------------------------------

/// `s` with a comma for each white space character.
pub open spec fn with_commas(s: Seq<char>) -> Seq<char> {
    s.map_values(
        |c: char|
            if is_space(c) {
                ','
            } else {
                c
            },
    )
}

/// The hosts that a form names, separated by commas or white space.
pub open spec fn host_names(raw: Seq<char>) -> Seq<Seq<char>> {
    flat(split_on(with_commas(raw), ','), unless_empty())
}

/// The host pattern of a play: the named hosts, or all hosts where none is named.
pub open spec fn host_pattern(raw: Option<Seq<char>>) -> Seq<char> {
    let names = host_names(or_text(raw, ""@));
    if names.len() == 0 {
        "all"@
    } else {
        joined(names, ","@)
    }
}

/// An optional text without surrounding white space, or `default` where nothing is left.
pub open spec fn trimmed_opt_or(raw: Option<Seq<char>>, default: Seq<char>) -> Seq<char> {
    match raw {
        Some(s) => trimmed_or(s, default),
        None => default,
    }
}

fn spaces_to_commas(s: &str) -> (r: String)
    ensures
        r@ == with_commas(s@),
{
    let v = chars_of(s);
    let mut out = String::new();
    let mut i: usize = 0;
    while i < v.len()
        invariant
            v@ == s@,
            i <= v.len(),
            out@ =~= with_commas(s@).take(i as int),
        decreases v.len() - i,
    {
        if is_space_char(v[i]) {
            out.push(',');
        } else {
            out.push(v[i]);
        }
        i += 1;
    }
    out
}

/// The host pattern of a play.
pub fn normalize_ansible_hosts(raw: Option<&str>) -> (r: String)
    ensures
        r@ == host_pattern(opt_view(raw)),
{
    let text = match raw {
        Some(s) => s,
        None => "",
    };
    let listed = spaces_to_commas(text);
    let parts = split(listed.as_str(), ',');
    let ghost all = views(parts@);
    let mut names: Vec<&str> = Vec::new();
    let mut i: usize = 0;
    assert(views(names@) =~= Seq::<Seq<char>>::empty());
    while i < parts.len()
        invariant
            all == views(parts@),
            i <= parts.len(),
            views(names@) == flat(all.take(i as int), unless_empty()),
        decreases parts.len() - i,
    {
        let ghost before = views(names@);
        let part: &str = parts[i];
        proof {
            lemma_flat_take(all, unless_empty(), i as int);
            assert(all[i as int] == part@);
            lemma_views_push(names@, part);
        }
        if part.unicode_len() > 0 {
            names.push(part);
            assert(views(names@) =~= before + seq![part@]);
        } else {
            assert(views(names@) =~= before + Seq::<Seq<char>>::empty());
        }
        i += 1;
    }
    assert(all.take(i as int) =~= all);
    if names.len() == 0 {
        "all".to_owned()
    } else {
        join_slices(&names, ",")
    }
}

/// An optional text without surrounding white space, or `default` where nothing is left.
pub fn or_default(raw: Option<&str>, default: &str) -> (r: String)
    ensures
        r@ == trimmed_opt_or(opt_view(raw), default@),
{
    match raw {
        Some(s) => trim_or(s, default).to_owned(),
        None => default.to_owned(),
    }
}

/// The text of an optional string.
pub fn as_slice(o: &Option<String>) -> (r: Option<&str>)
    ensures
        opt_view(r) == opt_view(*o),
{
    match o {
        Some(s) => Some(s.as_str()),
        None => None,
    }
}

/// The hosts that a play names: those of the form, or `all`.
pub open spec fn play_hosts(raw: Option<Seq<char>>) -> Seq<Seq<char>> {
    let names = host_names(or_text(raw, ""@));
    if names.len() == 0 {
        seq!["all"@]
    } else {
        names
    }
}

/// A host pattern is one line: it holds no white space.
pub proof fn law_host_pattern_has_no_space(raw: Option<Seq<char>>)
    ensures
        forall|i: int|
            0 <= i < host_pattern(raw).len() ==> !is_space(#[trigger] host_pattern(raw)[i]),
        host_pattern(raw).len() > 0,
{
    lemma_play_hosts(raw);
    reveal_strlit(",");
    lemma_joined_no_space(play_hosts(raw));
}

/// The parts of a host pattern between its commas are the hosts that the form names, or
/// `all`. None of them is empty: no comma stands at the start, at the end, or next to
/// another one.
pub proof fn law_host_pattern_lists_the_hosts(raw: Option<Seq<char>>)
    ensures
        split_on(host_pattern(raw), ',') == play_hosts(raw),
        host_pattern(raw).len() > 0,
        host_pattern(raw)[0] != ',',
        host_pattern(raw).last() != ',',
        forall|i: int|
            0 <= i < host_pattern(raw).len() - 1 && #[trigger] host_pattern(raw)[i] == ','
                ==> host_pattern(raw)[i + 1] != ',',
{
    lemma_play_hosts(raw);
    lemma_joined_hosts(play_hosts(raw));
}

/// A host pattern that is read as hosts again gives itself.
pub proof fn law_host_patterns_are_kept(raw: Option<Seq<char>>)
    ensures
        host_pattern(Some(host_pattern(raw))) == host_pattern(raw),
{
    let s = host_pattern(raw);
    law_host_pattern_has_no_space(raw);
    law_host_pattern_lists_the_hosts(raw);
    lemma_play_hosts(raw);
    assert(with_commas(s) =~= s);
    lemma_none_empty(play_hosts(raw));
}

/// A host pattern joins its hosts, which are not empty and hold neither white space nor
/// commas.
proof fn lemma_play_hosts(raw: Option<Seq<char>>)
    ensures
        play_hosts(raw).len() > 0,
        host_pattern(raw) == joined(play_hosts(raw), ","@),
        forall|i: int, j: int|
            0 <= i < play_hosts(raw).len() && 0 <= j < play_hosts(raw)[i].len() ==> !is_space(
                #[trigger] play_hosts(raw)[i][j],
            ) && play_hosts(raw)[i][j] != ',',
        forall|i: int| 0 <= i < play_hosts(raw).len() ==> (#[trigger] play_hosts(raw)[i]).len() > 0,
{
    let s = or_text(raw, ""@);
    let pieces = split_on(with_commas(s), ',');
    let names = host_names(s);
    lemma_split_on_chars(with_commas(s), ',');
    lemma_pieces_hold_no_comma(with_commas(s));
    assert forall|i: int, j: int|
        0 <= i < pieces.len() && 0 <= j < pieces[i].len() implies !is_space(
        #[trigger] pieces[i][j],
    ) && pieces[i][j] != ',' by {
        let k = choose|k: int|
            0 <= k < with_commas(s).len() && with_commas(s)[k] == pieces[i][j];
        assert(!is_space(','));
    }
    lemma_unless_empty(pieces);
    if names.len() == 0 {
        reveal_strlit("all");
        let v = play_hosts(raw);
        assert(v[0] == "all"@);
        assert forall|i: int, j: int| 0 <= i < v.len() && 0 <= j < v[i].len() implies !is_space(
            #[trigger] v[i][j],
        ) && v[i][j] != ',' by {
            assert(v[i][j] == "all"@[j]);
        }
    }
}

/// The pieces of a text between commas hold none.
proof fn lemma_pieces_hold_no_comma(s: Seq<char>)
    ensures
        forall|i: int, j: int|
            0 <= i < split_on(s, ',').len() && 0 <= j < split_on(s, ',')[i].len()
                ==> #[trigger] split_on(s, ',')[i][j] != ',',
        split_on(s, ',').len() > 0,
    decreases s.len(),
{
    if s.len() > 0 {
        let front = split_on(s.drop_last(), ',');
        lemma_pieces_hold_no_comma(s.drop_last());
        let all = split_on(s, ',');
        assert forall|i: int, j: int| 0 <= i < all.len() && 0 <= j < all[i].len() implies
            #[trigger] all[i][j] != ',' by {
            if i < front.len() - 1 {
                assert(all[i] == front[i]);
                assert(front[i][j] != ',');
            } else if s.last() == ',' {
                if i == front.len() - 1 {
                    assert(all[i] == front[i]);
                    assert(front[i][j] != ',');
                }
            } else {
                assert(all[i] == front.last().push(s.last()));
                if j < front.last().len() {
                    assert(front[front.len() - 1][j] != ',');
                }
            }
        }
    }
}

/// Hosts that are joined with commas are found between them again.
proof fn lemma_joined_hosts(v: Seq<Seq<char>>)
    requires
        v.len() > 0,
        forall|i: int, j: int|
            0 <= i < v.len() && 0 <= j < v[i].len() ==> #[trigger] v[i][j] != ',',
        forall|i: int| 0 <= i < v.len() ==> (#[trigger] v[i]).len() > 0,
    ensures
        ({
            let s = joined(v, ","@);
            &&& split_on(s, ',') == v
            &&& s.len() > 0
            &&& s[0] != ','
            &&& s.last() != ','
            &&& forall|i: int| 0 <= i < s.len() - 1 && #[trigger] s[i] == ',' ==> s[i + 1] != ','
        }),
    decreases v.len(),
{
    reveal_strlit(",");
    let x = v[v.len() - 1];
    assert(x.len() > 0);
    assert forall|j: int| 0 <= j < x.len() implies #[trigger] x[j] != ',' by {
        assert(v[v.len() - 1][j] != ',');
    }
    lemma_split_single(x, ',');
    if v.len() == 1 {
        assert(seq![x] =~= v);
    } else {
        let front = v.drop_last();
        assert forall|i: int, j: int| 0 <= i < front.len() && 0 <= j < front[i].len() implies
            #[trigger] front[i][j] != ',' by {
            assert(front[i][j] == v[i][j]);
        }
        assert forall|i: int| 0 <= i < front.len() implies (#[trigger] front[i]).len() > 0 by {
            assert(front[i] == v[i]);
        }
        lemma_joined_hosts(front);
        let a = joined(front, ","@);
        let s = joined(v, ","@);
        assert(s =~= a + seq![','] + x);
        lemma_split_sum(a, x, ',');
        assert(front + seq![x] =~= v);
        assert forall|i: int| 0 <= i < s.len() - 1 && #[trigger] s[i] == ',' implies s[i + 1]
            != ',' by {
            if i < a.len() {
                assert(a[i] == ',');
                assert(i + 1 < a.len());
                assert(s[i + 1] == a[i + 1]);
            } else {
                assert(s[i + 1] == x[i - a.len()]);
            }
        }
    }
}

proof fn lemma_unless_empty(pieces: Seq<Seq<char>>)
    requires
        forall|i: int, j: int|
            0 <= i < pieces.len() && 0 <= j < pieces[i].len() ==> !is_space(
                #[trigger] pieces[i][j],
            ) && pieces[i][j] != ',',
    ensures
        forall|i: int, j: int|
            0 <= i < flat(pieces, unless_empty()).len() && 0 <= j < flat(
                pieces,
                unless_empty(),
            )[i].len() ==> !is_space(#[trigger] flat(pieces, unless_empty())[i][j]) && flat(
                pieces,
                unless_empty(),
            )[i][j] != ',',
        forall|i: int|
            0 <= i < flat(pieces, unless_empty()).len() ==> (#[trigger] flat(
                pieces,
                unless_empty(),
            )[i]).len() > 0,
    decreases pieces.len(),
{
    if pieces.len() > 0 {
        let front = pieces.drop_last();
        assert forall|i: int, j: int|
            0 <= i < front.len() && 0 <= j < front[i].len() implies !is_space(
            #[trigger] front[i][j],
        ) && front[i][j] != ',' by {
            assert(front[i][j] == pieces[i][j]);
        }
        lemma_unless_empty(front);
        let a = flat(front, unless_empty());
        let all = flat(pieces, unless_empty());
        let last = pieces.last();
        assert forall|i: int, j: int|
            0 <= i < all.len() && 0 <= j < all[i].len() implies !is_space(
            #[trigger] all[i][j],
        ) && all[i][j] != ',' by {
            if i < a.len() {
                assert(all[i] == a[i]);
                assert(!is_space(a[i][j]));
            } else {
                assert(all[i] == last);
                assert(!is_space(pieces[pieces.len() - 1][j]));
            }
        }
        assert forall|i: int| 0 <= i < all.len() implies (#[trigger] all[i]).len() > 0 by {
            if i < a.len() {
                assert(all[i] == a[i]);
            }
        }
    }
}

proof fn lemma_joined_no_space(v: Seq<Seq<char>>)
    requires
        v.len() > 0,
        forall|i: int, j: int|
            0 <= i < v.len() && 0 <= j < v[i].len() ==> !is_space(#[trigger] v[i][j]),
        forall|i: int| 0 <= i < v.len() ==> (#[trigger] v[i]).len() > 0,
    ensures
        joined(v, ","@).len() > 0,
        forall|i: int|
            0 <= i < joined(v, ","@).len() ==> !is_space(#[trigger] joined(v, ","@)[i]),
    decreases v.len(),
{
    reveal_strlit(",");
    if v.len() == 1 {
        assert forall|i: int| 0 <= i < joined(v, ","@).len() implies !is_space(
            #[trigger] joined(v, ","@)[i],
        ) by {
            assert(!is_space(v[0][i]));
        }
    } else {
        let front = v.drop_last();
        assert forall|i: int, j: int|
            0 <= i < front.len() && 0 <= j < front[i].len() implies !is_space(
            #[trigger] front[i][j],
        ) by {
            assert(front[i][j] == v[i][j]);
        }
        lemma_joined_no_space(front);
        let a = joined(front, ","@);
        let all = joined(v, ","@);
        assert forall|i: int| 0 <= i < all.len() implies !is_space(#[trigger] all[i]) by {
            if i < a.len() {
                assert(all[i] == a[i]);
            } else if i == a.len() {
                assert(all[i] == ',');
            } else {
                assert(all[i] == v[v.len() - 1][i - a.len() - 1]);
            }
        }
    }
}

// ---------------------------------------------------------------------------
// The playbook of the units
// ---------------------------------------------------------------------------

/// The variable that holds the parent interface of a network.
pub open spec fn interface_var(network: Seq<char>) -> Seq<char> {
    "_piface_"@ + word(network)
}

/// The subnet by which the parent interface of a network is found: that of the first
/// network of that name, IPv4 before IPv6.
pub open spec fn subnet_of(networks: Seq<QuadletNetwork>, name: Seq<char>) -> Seq<char>
    decreases networks.len(),
{
    if networks.len() == 0 {
        "0.0.0.0/0"@
    } else if networks[0].name@ == name {
        if networks[0].subnet@.len() > 0 {
            networks[0].subnet@
        } else {
            networks[0].subnet6@
        }
    } else {
        subnet_of(networks.skip(1), name)
    }
}

/// The name of the network that a file describes.
pub open spec fn network_of(filename: Seq<char>) -> Seq<char> {
    without_suffixes(filename, ".network"@)
}

/// The task that finds the parent interface of a network, where its file leaves it open.
pub open spec fn detect_task(networks: Seq<QuadletNetwork>) -> spec_fn((String, String)) -> Seq<
    Seq<char>,
> {
    |f: (String, String)|
        if contains_text(f.1@, PARENT_PLACEHOLDER@) {
            let name = network_of(f.0@);
            seq![
                "    - name: "@ + name
                    + " 부모 인터페이스 감지\n      shell: ip route show to match "@ + subnet_of(
                    networks,
                    name,
                ) + " | grep -oP 'dev \\K\\S+' | head -1\n      register: "@ + interface_var(name)
                    + "\n      changed_when: false\n      failed_when: false"@,
            ]
        } else {
            Seq::empty()
        }
}

/// The content of a file as it is deployed: with the variable for the placeholder.
pub open spec fn resolved_content(f: (String, String)) -> Seq<char> {
    if contains_text(f.1@, PARENT_PLACEHOLDER@) {
        replaced_text(
            f.1@,
            PARENT_PLACEHOLDER@,
            "{{ "@ + interface_var(network_of(f.0@)) + ".stdout | trim }}"@,
        )
    } else {
        f.1@
    }
}

/// The task that makes the directory of the units.
pub open spec fn directory_task(path: Seq<char>) -> Seq<char> {
    "    - name: Quadlet 디렉토리 생성\n      file:\n        path: "@ + path
        + "\n        state: directory\n        mode: '0755'"@
}

/// The lines of a file as they stand in a task.
pub open spec fn content_block(content: Seq<char>) -> Seq<char> {
    joined(prefixed(lines_of(content), "          "@), "\n"@)
}

/// The task that deploys a file.
pub open spec fn copy_task(path: Seq<char>) -> spec_fn((String, String)) -> Seq<Seq<char>> {
    |f: (String, String)|
        seq![
            "    - name: "@ + f.0@ + " 배포\n      copy:\n        dest: "@ + path + "/"@ + f.0@
                + "\n        content: |\n"@ + content_block(resolved_content(f)),
        ]
}

/// The task that makes systemd read the units.
pub const RELOAD_TASK: &'static str = "    - name: systemd 데몬 리로드\n      systemd:\n        daemon_reload: yes";

/// The tasks: the directory, the interfaces that are still open, the files, the reload.
pub open spec fn quadlet_tasks(
    networks: Seq<QuadletNetwork>,
    path: Seq<char>,
    files: Seq<(String, String)>,
) -> Seq<Seq<char>> {
    seq![directory_task(path)] + flat(files, detect_task(networks)) + flat(files, copy_task(path))
        + seq![RELOAD_TASK@]
}

/// The playbook that deploys units.
pub open spec fn quadlet_playbook(
    config: QuadletConfig,
    files: Seq<(String, String)>,
    hosts: Option<Seq<char>>,
    user: Option<Seq<char>>,
    key: Option<Seq<char>>,
) -> Seq<char> {
    "---\n- name: Quadlet 유닛 배포\n  hosts: "@ + host_pattern(hosts) + "\n  remote_user: "@
        + trimmed_opt_or(user, "root"@)
        + "\n  become: yes\n  vars:\n    ansible_ssh_private_key_file: "@ + trimmed_opt_or(
        key,
        "~/.ssh/id_rsa"@,
    ) + "\n  tasks:\n"@ + joined(
        quadlet_tasks(config.networks@, config.install_path@, files),
        "\n\n"@,
    )
}

/// A name with an underscore for each character that may not stand in a variable.
pub fn sanitize_var(name: &str) -> (r: String)
    ensures
        r@ == word(name@),
{
    to_word(name)
}

fn write_interface_var(network: &str) -> (r: String)
    ensures
        r@ == interface_var(network@),
{
    let mut out = "_piface_".to_owned();
    out.push_str(sanitize_var(network).as_str());
    out
}

fn find_subnet(networks: &Vec<QuadletNetwork>, name: &str) -> (r: String)
    ensures
        r@ == subnet_of(networks@, name@),
{
    let mut i: usize = 0;
    assert(networks@.skip(0) =~= networks@);
    while i < networks.len()
        invariant
            i <= networks.len(),
            subnet_of(networks@, name@) == subnet_of(networks@.skip(i as int), name@),
        decreases networks.len() - i,
    {
        proof {
            assert(networks@.skip(i as int)[0] == networks@[i as int]);
            assert(networks@.skip(i as int).skip(1) =~= networks@.skip(i as int + 1));
        }
        if same(networks[i].name.as_str(), name) {
            return if networks[i].subnet.as_str().unicode_len() > 0 {
                networks[i].subnet.clone()
            } else {
                networks[i].subnet6.clone()
            };
        }
        i += 1;
    }
    "0.0.0.0/0".to_owned()
}

fn network_stem<'a>(filename: &'a str) -> (r: &'a str)
    ensures
        r@ == network_of(filename@),
{
    proof {
        reveal_strlit(".network");
    }
    trim_end_matches(filename, ".network")
}

fn write_detect_task(networks: &Vec<QuadletNetwork>, filename: &str) -> (r: String)
    ensures
        r@ == "    - name: "@ + network_of(filename@)
            + " 부모 인터페이스 감지\n      shell: ip route show to match "@ + subnet_of(
            networks@,
            network_of(filename@),
        ) + " | grep -oP 'dev \\K\\S+' | head -1\n      register: "@ + interface_var(
            network_of(filename@),
        ) + "\n      changed_when: false\n      failed_when: false"@,
{
    let name = network_stem(filename);
    let mut out = "    - name: ".to_owned();
    out.push_str(name);
    out.push_str(" 부모 인터페이스 감지\n      shell: ip route show to match ");
    out.push_str(find_subnet(networks, name).as_str());
    out.push_str(" | grep -oP 'dev \\K\\S+' | head -1\n      register: ");
    out.push_str(write_interface_var(name).as_str());
    out.push_str("\n      changed_when: false\n      failed_when: false");
    out
}

fn resolve_content(filename: &str, content: &str) -> (r: String)
    ensures
        r@ == if contains_text(content@, PARENT_PLACEHOLDER@) {
            replaced_text(
                content@,
                PARENT_PLACEHOLDER@,
                "{{ "@ + interface_var(network_of(filename@)) + ".stdout | trim }}"@,
            )
        } else {
            content@
        },
{
    if contains(content, PARENT_PLACEHOLDER) {
        proof {
            reveal_strlit("__PARENT_IFACE__");
        }
        let var = write_interface_var(network_stem(filename));
        replace_text(
            content,
            PARENT_PLACEHOLDER,
            wrap("{{ ", var.as_str(), ".stdout | trim }}").as_str(),
        )
    } else {
        content.to_owned()
    }
}

fn write_content_block(content: &str) -> (r: String)
    ensures
        r@ == content_block(content@),
{
    join(&with_prefix(&lines(content), "          "), "\n")
}

fn write_copy_task(path: &str, filename: &str, block: &str) -> (r: String)
    ensures
        r@ == "    - name: "@ + filename@ + " 배포\n      copy:\n        dest: "@ + path@ + "/"@
            + filename@ + "\n        content: |\n"@ + block@,
{
    let mut out = "    - name: ".to_owned();
    out.push_str(filename);
    out.push_str(" 배포\n      copy:\n        dest: ");
    out.push_str(path);
    out.push_str("/");
    out.push_str(filename);
    out.push_str("\n        content: |\n");
    out.push_str(block);
    out
}

fn write_quadlet_tasks(
    networks: &Vec<QuadletNetwork>,
    path: &str,
    files: &Vec<(String, String)>,
) -> (r: Vec<String>)
    ensures
        views(r@) == quadlet_tasks(networks@, path@, files@),
{
    let mut tasks: Vec<String> = Vec::new();
    add_line(
        &mut tasks,
        wrap(
            "    - name: Quadlet 디렉토리 생성\n      file:\n        path: ",
            path,
            "\n        state: directory\n        mode: '0755'",
        ).as_str(),
    );
    let ghost s0 = views(tasks@);
    assert(s0 =~= seq![directory_task(path@)]);
    assert(s0 + flat(files@.take(0), detect_task(networks@)) =~= s0);
    let mut i: usize = 0;
    while i < files.len()
        invariant
            i <= files.len(),
            views(tasks@) == s0 + flat(files@.take(i as int), detect_task(networks@)),
        decreases files.len() - i,
    {
        proof {
            lemma_flat_take(files@, detect_task(networks@), i as int);
        }
        if contains(files[i].1.as_str(), PARENT_PLACEHOLDER) {
            add_line(&mut tasks, write_detect_task(networks, files[i].0.as_str()).as_str());
        }
        i += 1;
        assert(views(tasks@) =~= s0 + flat(files@.take(i as int), detect_task(networks@)));
    }
    assert(files@.take(i as int) =~= files@);
    let ghost s1 = views(tasks@);
    assert(s1 + flat(files@.take(0), copy_task(path@)) =~= s1);
    i = 0;
    while i < files.len()
        invariant
            i <= files.len(),
            views(tasks@) == s1 + flat(files@.take(i as int), copy_task(path@)),
        decreases files.len() - i,
    {
        proof {
            lemma_flat_take(files@, copy_task(path@), i as int);
        }
        let content = resolve_content(files[i].0.as_str(), files[i].1.as_str());
        let block = write_content_block(content.as_str());
        add_line(
            &mut tasks,
            write_copy_task(path, files[i].0.as_str(), block.as_str()).as_str(),
        );
        i += 1;
        assert(views(tasks@) =~= s1 + flat(files@.take(i as int), copy_task(path@)));
    }
    assert(files@.take(i as int) =~= files@);
    add_line(&mut tasks, RELOAD_TASK);
    assert(views(tasks@) =~= quadlet_tasks(networks@, path@, files@));
    tasks
}

/// The playbook that deploys units to the hosts that a form names.
pub fn write_quadlet_playbook(
    config: &QuadletConfig,
    files: &Vec<(String, String)>,
    hosts: Option<&str>,
    user: Option<&str>,
    key: Option<&str>,
) -> (r: String)
    ensures
        r@ == quadlet_playbook(*config, files@, opt_view(hosts), opt_view(user), opt_view(key)),
{
    let tasks = write_quadlet_tasks(&config.networks, config.install_path.as_str(), files);
    let mut out = "---\n- name: Quadlet 유닛 배포\n  hosts: ".to_owned();
    out.push_str(normalize_ansible_hosts(hosts).as_str());
    out.push_str("\n  remote_user: ");
    out.push_str(or_default(user, "root").as_str());
    out.push_str("\n  become: yes\n  vars:\n    ansible_ssh_private_key_file: ");
    out.push_str(or_default(key, "~/.ssh/id_rsa").as_str());
    out.push_str("\n  tasks:\n");
    out.push_str(join(&tasks, "\n\n").as_str());
    out
}

// ---------------------------------------------------------------------------
// The playbook of volumes
// ---------------------------------------------------------------------------

pub open spec fn volume_copy_task(path: Seq<char>) -> spec_fn((String, String)) -> Seq<Seq<char>> {
    |f: (String, String)|
        seq![
            "    - name: "@ + f.0@ + " 배포\n      copy:\n        dest: "@ + path + "/"@ + f.0@
                + "\n        content: |\n"@ + content_block(f.1@) + "\n        mode: '0644'"@,
        ]
}

/// The directory that Podman reads units from.
pub const UNIT_DIRECTORY: &'static str = "/etc/containers/systemd";

/// The playbook that deploys volumes.
pub open spec fn volume_playbook(files: Seq<(String, String)>) -> Seq<char> {
    "---\n- name: Quadlet Volume 유닛 배포\n  hosts: all\n  become: yes\n  tasks:\n"@ + joined(
        seq![directory_task(UNIT_DIRECTORY@)] + flat(files, volume_copy_task(UNIT_DIRECTORY@))
            + seq![RELOAD_TASK@],
        "\n\n"@,
    )
}

/// The playbook that deploys volumes to all hosts.
pub fn build_volume_ansible_playbook(files: &Vec<(String, String)>) -> (r: String)
    ensures
        r@ == volume_playbook(files@),
{
    let mut tasks: Vec<String> = Vec::new();
    add_line(
        &mut tasks,
        wrap(
            "    - name: Quadlet 디렉토리 생성\n      file:\n        path: ",
            UNIT_DIRECTORY,
            "\n        state: directory\n        mode: '0755'",
        ).as_str(),
    );
    let ghost s0 = views(tasks@);
    assert(s0 =~= seq![directory_task(UNIT_DIRECTORY@)]);
    assert(s0 + flat(files@.take(0), volume_copy_task(UNIT_DIRECTORY@)) =~= s0);
    let mut i: usize = 0;
    while i < files.len()
        invariant
            i <= files.len(),
            views(tasks@) == s0 + flat(files@.take(i as int), volume_copy_task(UNIT_DIRECTORY@)),
        decreases files.len() - i,
    {
        proof {
            lemma_flat_take(files@, volume_copy_task(UNIT_DIRECTORY@), i as int);
        }
        let block = write_content_block(files[i].1.as_str());
        let mut task = write_copy_task(UNIT_DIRECTORY, files[i].0.as_str(), block.as_str());
        task.push_str("\n        mode: '0644'");
        add_line(&mut tasks, task.as_str());
        i += 1;
        assert(views(tasks@) =~= s0 + flat(
            files@.take(i as int),
            volume_copy_task(UNIT_DIRECTORY@),
        ));
    }
    assert(files@.take(i as int) =~= files@);
    add_line(&mut tasks, RELOAD_TASK);
    assert(views(tasks@) =~= s0 + flat(files@, volume_copy_task(UNIT_DIRECTORY@)) + seq![
        RELOAD_TASK@,
    ]);
    let mut out =
        "---\n- name: Quadlet Volume 유닛 배포\n  hosts: all\n  become: yes\n  tasks:\n".to_owned();
    out.push_str(join(&tasks, "\n\n").as_str());
    out
}

// ---------------------------------------------------------------------------
// Parent interfaces
// ---------------------------------------------------------------------------

/// A text that shares no character with the ends of another stands in a sum only if it stands
/// in one of the three parts.
proof fn lemma_not_across(a: Seq<char>, by: Seq<char>, b: Seq<char>, p: Seq<char>)
    requires
        p.len() > 0,
        by.len() > 0,
        forall|k: int| 0 <= k < p.len() ==> #[trigger] p[k] != by[0] && p[k] != by.last(),
        !contains_text(a, p),
        !contains_text(by, p),
        !contains_text(b, p),
    ensures
        !contains_text(a + by + b, p),
{
    let s = a + by + b;
    if contains_text(s, p) {
        let i = lemma_place_of(s, p);
        let n = p.len() as int;
        let x = a.len() as int;
        let y = (a.len() + by.len() - 1) as int;
        assert(s[x] == by[0]);
        assert(s[y] == by.last());
        if i <= x < i + n {
            assert(s.subrange(i, i + n)[x - i] == s[x]);
            assert(p[x - i] == by[0]);
        } else if i <= y < i + n {
            assert(s.subrange(i, i + n)[y - i] == s[y]);
            assert(p[y - i] == by.last());
        } else if i + n <= x {
            assert(a.subrange(i, i + n) =~= s.subrange(i, i + n));
            lemma_contains_at(a, p, i);
        } else if i > y {
            let j = i - a.len() - by.len();
            assert(b.subrange(j, j + n) =~= s.subrange(i, i + n));
            lemma_contains_at(b, p, j);
        } else {
            let j = i - a.len();
            assert(by.subrange(j, j + n) =~= s.subrange(i, i + n));
            lemma_contains_at(by, p, j);
        }
    }
}

proof fn lemma_nothing_before_the_first(s: Seq<char>, p: Seq<char>, i: int)
    requires
        find_text(s, p) == Some(i),
        p.len() > 0,
    ensures
        !contains_text(s.take(i), p),
        0 <= i,
        i + p.len() <= s.len(),
{
    lemma_find_from(s, p, 0);
    if contains_text(s.take(i), p) {
        let j = lemma_place_of(s.take(i), p);
        assert(s.subrange(j, j + p.len()) =~= s.take(i).subrange(j, j + p.len()));
        assert(occurs_at(s, p, j));
    }
}

proof fn lemma_all_are_replaced(s: Seq<char>, p: Seq<char>, by: Seq<char>)
    requires
        p.len() > 0,
        by.len() > 0,
        forall|k: int| 0 <= k < p.len() ==> #[trigger] p[k] != by[0] && p[k] != by.last(),
        !contains_text(by, p),
    ensures
        !contains_text(replaced_text(s, p, by), p),
    decreases s.len(),
{
    if let Some(i) = find_text(s, p) {
        lemma_nothing_before_the_first(s, p, i);
        let rest = s.skip(i + p.len());
        lemma_all_are_replaced(rest, p, by);
        lemma_not_across(s.take(i), by, replaced_text(rest, p, by), p);
    }
}

/// What is deployed holds no placeholder for a parent interface, unless the name of the
/// network brings one in.
pub proof fn law_placeholders_are_resolved(f: (String, String))
    requires
        !contains_text(
            "{{ "@ + interface_var(network_of(f.0@)) + ".stdout | trim }}"@,
            PARENT_PLACEHOLDER@,
        ),
    ensures
        !contains_text(resolved_content(f), PARENT_PLACEHOLDER@),
{
    reveal_strlit("__PARENT_IFACE__");
    reveal_strlit("{{ ");
    reveal_strlit(".stdout | trim }}");
    let by = "{{ "@ + interface_var(network_of(f.0@)) + ".stdout | trim }}"@;
    assert(by[0] == '{');
    assert(by.last() == '}');
    lemma_all_are_replaced(f.1@, PARENT_PLACEHOLDER@, by);
}

/// Where a file leaves the parent interface open, a task finds the interface before the file
/// is deployed.
pub proof fn law_interfaces_are_found_before_use(
    networks: Seq<QuadletNetwork>,
    path: Seq<char>,
    files: Seq<(String, String)>,
    i: int,
)
    requires
        0 <= i < files.len(),
        contains_text(files[i].1@, PARENT_PLACEHOLDER@),
    ensures
        exists|a: int, b: int|
            0 <= a < b < quadlet_tasks(networks, path, files).len() && #[trigger] quadlet_tasks(
                networks,
                path,
                files,
            )[a] == detect_task(networks)(files[i])[0] && #[trigger] quadlet_tasks(
                networks,
                path,
                files,
            )[b] == copy_task(path)(files[i])[0],
{
    let tasks = quadlet_tasks(networks, path, files);
    let detect = flat(files, detect_task(networks));
    let copy = flat(files, copy_task(path));
    let j = lemma_place_in_flat(files, detect_task(networks), i);
    let k = lemma_place_in_flat(files, copy_task(path), i);
    let a = 1 + j;
    let b = 1 + detect.len() + k;
    assert(tasks[a] == detect[j]);
    assert(tasks[b] == copy[k]);
}

/// The place of what an item of a list gives among what the list gives.
proof fn lemma_place_in_flat<T, U>(v: Seq<T>, f: spec_fn(T) -> Seq<U>, i: int) -> (k: int)
    requires
        0 <= i < v.len(),
        f(v[i]).len() == 1,
    ensures
        0 <= k < flat(v, f).len(),
        flat(v, f)[k] == f(v[i])[0],
    decreases v.len(),
{
    if i == v.len() - 1 {
        flat(v.drop_last(), f).len() as int
    } else {
        lemma_place_in_flat(v.drop_last(), f, i)
    }
}

} // verus!
