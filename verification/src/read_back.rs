//! Reading back the resource files that are written.

use crate::db::NodeModel;
use crate::generators::drbd::{
    after_sb_1pri_value, head_lines, hostnames, mesh_lines, node_lines, on_io_error_value,
    res_lines, res_text, split_brain_lines,
};
use crate::lines::{
    first_match, flat_indexed, joined, lemma_split_on_len, lines_of, split_on, without_cr, wrapped,
};
use crate::models::drbd::{
    DrbdNetOptions, DrbdNode, DrbdResource, ScannedNodeModel, ScannedResourceModel,
};
use crate::number::{decimal, is_digit, law_decimal_round_trip, lemma_decimal};
use crate::res_file::{
    OnState, address_port, block_name, brace_change, drbd_address, last_word, minor_line, on_scan,
    on_start, on_step, or_text, protocol_line, resource_line, scanned_node, scanned_resource,
    value_of, volume_group,
};
use crate::scan::{
    NodeState, line_address, node_scan, node_start, node_step, opened_host, with_node,
};
use crate::text::{
    count_of, find_text, is_space, lemma_find_from, lemma_rfind_before, occurs_at, rfind_text,
    trimmed, trimmed_end, trimmed_start, without_prefixes, without_trailing,
};
use vstd::prelude::*;
use vstd::string::*;

verus! {

// ---------------------------------------------------------------------------
// Trimming and counting
// ---------------------------------------------------------------------------

/// A text without spaces, braces and semicolons, and not empty: a word of a resource file.
pub open spec fn is_word(s: Seq<char>) -> bool {
    s.len() > 0 && forall|i: int|
        0 <= i < s.len() ==> !is_space(#[trigger] s[i]) && s[i] != '{' && s[i] != '}' && s[i] != ';'
}

/// A text without braces and line breaks.
pub open spec fn is_quiet(s: Seq<char>) -> bool {
    forall|i: int|
        0 <= i < s.len() ==> #[trigger] s[i] != '{' && s[i] != '}' && s[i] != '\n' && s[i] != '\r'
}

/// Whether all characters are white space.
pub open spec fn all_space(s: Seq<char>) -> bool {
    forall|i: int| 0 <= i < s.len() ==> is_space(#[trigger] s[i])
}

pub proof fn lemma_word_is_quiet(s: Seq<char>)
    requires
        is_word(s),
    ensures
        is_quiet(s),
{
    assert(is_space('\n') && is_space('\r'));
}

pub proof fn lemma_quiet_sum(a: Seq<char>, b: Seq<char>)
    requires
        is_quiet(a),
        is_quiet(b),
    ensures
        is_quiet(a + b),
{
}

pub proof fn lemma_trimmed_start(pre: Seq<char>, rest: Seq<char>)
    requires
        all_space(pre),
        rest.len() == 0 || !is_space(rest[0]),
    ensures
        trimmed_start(pre + rest) == rest,
    decreases pre.len(),
{
    if pre.len() == 0 {
        assert(pre + rest =~= rest);
    } else {
        assert((pre + rest).skip(1) =~= pre.skip(1) + rest);
        assert((pre + rest)[0] == pre[0]);
        lemma_trimmed_start(pre.skip(1), rest);
    }
}

proof fn lemma_trimmed_end(front: Seq<char>, post: Seq<char>)
    requires
        all_space(post),
        front.len() == 0 || !is_space(front.last()),
    ensures
        trimmed_end(front + post) == front,
    decreases post.len(),
{
    if post.len() == 0 {
        assert(front + post =~= front);
    } else {
        assert((front + post).drop_last() =~= front + post.drop_last());
        assert((front + post).last() == post.last());
        lemma_trimmed_end(front, post.drop_last());
    }
}

/// Trimming takes away exactly the white space around a text.
pub proof fn lemma_trimmed(pre: Seq<char>, body: Seq<char>, post: Seq<char>)
    requires
        all_space(pre),
        all_space(post),
        body.len() > 0,
        !is_space(body[0]),
        !is_space(body.last()),
    ensures
        trimmed(pre + body + post) == body,
{
    assert(pre + body + post =~= pre + (body + post));
    lemma_trimmed_start(pre, body + post);
    lemma_trimmed_end(body, post);
}

/// A text without white space at its ends is kept.
pub proof fn lemma_trimmed_kept(s: Seq<char>)
    requires
        s.len() > 0,
        !is_space(s[0]),
        !is_space(s.last()),
    ensures
        trimmed(s) == s,
{
    assert(Seq::<char>::empty() + s + Seq::<char>::empty() =~= s);
    lemma_trimmed(Seq::empty(), s, Seq::empty());
}

pub proof fn lemma_trimmed_end_is_part(s: Seq<char>) -> (b: int)
    ensures
        0 <= b <= s.len(),
        trimmed_end(s) == s.take(b),
        forall|j: int| b <= j < s.len() ==> is_space(#[trigger] s[j]),
    decreases s.len(),
{
    if s.len() > 0 && is_space(s.last()) {
        let b = lemma_trimmed_end_is_part(s.drop_last());
        assert(s.drop_last().take(b) =~= s.take(b));
        assert forall|j: int| b <= j < s.len() implies is_space(#[trigger] s[j]) by {
            if j < s.len() - 1 {
                assert(s.drop_last()[j] == s[j]);
            }
        }
        b
    } else {
        assert(s.take(s.len() as int) =~= s);
        s.len() as int
    }
}

proof fn lemma_trimmed_start_is_part(s: Seq<char>) -> (a: int)
    ensures
        0 <= a <= s.len(),
        trimmed_start(s) == s.skip(a),
        forall|j: int| 0 <= j < a ==> is_space(#[trigger] s[j]),
        a < s.len() ==> !is_space(s[a]),
    decreases s.len(),
{
    if s.len() > 0 && is_space(s[0]) {
        let a = lemma_trimmed_start_is_part(s.skip(1));
        assert(s.skip(1).skip(a) =~= s.skip(a + 1));
        assert forall|j: int| 0 <= j < a + 1 implies is_space(#[trigger] s[j]) by {
            if j > 0 {
                assert(s.skip(1)[j - 1] == s[j]);
            }
        }
        a + 1
    } else {
        assert(s.skip(0) =~= s);
        0
    }
}

/// Trimming keeps a part of the text, and takes away white space only.
pub proof fn lemma_trimmed_is_part(s: Seq<char>) -> (r: (int, int))
    ensures
        0 <= r.0 <= r.1 <= s.len(),
        trimmed(s) == s.subrange(r.0, r.1),
        forall|j: int| 0 <= j < r.0 ==> is_space(#[trigger] s[j]),
        forall|j: int| r.1 <= j < s.len() ==> is_space(#[trigger] s[j]),
{
    let a = lemma_trimmed_start_is_part(s);
    let b = lemma_trimmed_end_is_part(s.skip(a));
    assert(s.skip(a).take(b) =~= s.subrange(a, a + b));
    assert forall|j: int| a + b <= j < s.len() implies is_space(#[trigger] s[j]) by {
        assert(s.skip(a)[j - a] == s[j]);
    }
    (a, a + b)
}

pub proof fn lemma_quiet_trimmed(s: Seq<char>)
    requires
        is_quiet(s),
    ensures
        is_quiet(trimmed(s)),
{
    let r = lemma_trimmed_is_part(s);
    assert forall|i: int| 0 <= i < trimmed(s).len() implies #[trigger] trimmed(s)[i] != '{'
        && trimmed(s)[i] != '}' && trimmed(s)[i] != '\n' && trimmed(s)[i] != '\r' by {
        assert(trimmed(s)[i] == s[r.0 + i]);
    }
}

pub proof fn lemma_count_none(s: Seq<char>, c: char)
    requires
        forall|i: int| 0 <= i < s.len() ==> #[trigger] s[i] != c,
    ensures
        count_of(s, c) == 0,
    decreases s.len(),
{
    if s.len() > 0 {
        assert forall|i: int| 0 <= i < s.drop_last().len() implies #[trigger] s.drop_last()[i]
            != c by {
            assert(s.drop_last()[i] == s[i]);
        }
        lemma_count_none(s.drop_last(), c);
    }
}

pub proof fn lemma_count_sum(a: Seq<char>, b: Seq<char>, c: char)
    ensures
        count_of(a + b, c) == count_of(a, c) + count_of(b, c),
    decreases b.len(),
{
    if b.len() == 0 {
        assert(a + b =~= a);
    } else {
        assert((a + b).drop_last() =~= a + b.drop_last());
        assert((a + b).last() == b.last());
        lemma_count_sum(a, b.drop_last(), c);
    }
}

pub proof fn lemma_quiet_change(t: Seq<char>)
    requires
        is_quiet(t),
    ensures
        brace_change(t) == 0,
        count_of(t, '}') == 0,
{
    lemma_count_none(t, '{');
    lemma_count_none(t, '}');
}

/// A text that ends in its only brace, which opens.
proof fn lemma_opening_change(front: Seq<char>)
    requires
        is_quiet(front),
    ensures
        brace_change(front + seq!['{']) == 1,
        count_of(front + seq!['{'], '}') == 0,
{
    lemma_quiet_change(front);
    lemma_count_sum(front, seq!['{'], '{');
    lemma_count_sum(front, seq!['{'], '}');
    lemma_count_none(front, '{');
    assert(seq!['{'].drop_last() =~= Seq::<char>::empty());
    reveal_with_fuel(count_of, 2);
}

/// A text without semicolons at its end is kept when semicolons are taken from the end.
proof fn lemma_without_semicolon(s: Seq<char>)
    requires
        s.len() == 0 || s.last() != ';',
    ensures
        without_trailing(s + seq![';'], ';') == s,
{
    assert((s + seq![';']).drop_last() =~= s);
    assert((s + seq![';']).last() == ';');
    reveal_with_fuel(without_trailing, 2);
}

// ---------------------------------------------------------------------------
// Lines
// ---------------------------------------------------------------------------

pub proof fn lemma_split_single(s: Seq<char>, c: char)
    requires
        forall|i: int| 0 <= i < s.len() ==> #[trigger] s[i] != c,
    ensures
        split_on(s, c) == seq![s],
    decreases s.len(),
{
    if s.len() == 0 {
        assert(s =~= Seq::<char>::empty());
    } else {
        assert forall|i: int| 0 <= i < s.drop_last().len() implies #[trigger] s.drop_last()[i]
            != c by {
            assert(s.drop_last()[i] == s[i]);
        }
        lemma_split_single(s.drop_last(), c);
        assert(s.drop_last().push(s.last()) =~= s);
        assert(split_on(s, c) =~= seq![s]);
    }
}

/// A text is split on both sides of a separator.
pub proof fn lemma_split_sum(a: Seq<char>, b: Seq<char>, c: char)
    ensures
        split_on(a + seq![c] + b, c) == split_on(a, c) + split_on(b, c),
    decreases b.len(),
{
    lemma_split_on_len(a, c);
    lemma_split_on_len(b, c);
    let s = a + seq![c] + b;
    if b.len() == 0 {
        assert(s.drop_last() =~= a);
        assert(s.last() == c);
        assert(split_on(s, c) =~= split_on(a, c) + split_on(b, c));
    } else {
        assert(s.drop_last() =~= a + seq![c] + b.drop_last());
        assert(s.last() == b.last());
        lemma_split_sum(a, b.drop_last(), c);
        lemma_split_on_len(b.drop_last(), c);
        let front = split_on(b.drop_last(), c);
        assert(split_on(s.drop_last(), c) =~= split_on(a, c) + front);
        assert(split_on(s, c) =~= split_on(a, c) + split_on(b, c));
    }
}

/// A text that is one line: it holds no line feed, and no carriage return at its end.
pub open spec fn is_line(s: Seq<char>) -> bool {
    (forall|i: int| 0 <= i < s.len() ==> #[trigger] s[i] != '\n') && (s.len() == 0 || s.last()
        != '\r')
}

pub proof fn lemma_quiet_is_line(s: Seq<char>)
    requires
        is_quiet(s),
    ensures
        is_line(s),
{
}

proof fn lemma_split_lines(v: Seq<Seq<char>>)
    requires
        forall|i: int| 0 <= i < v.len() ==> is_line(#[trigger] v[i]),
    ensures
        split_on(wrapped(v, ""@, "\n"@), '\n') == v.push(Seq::empty()),
    decreases v.len(),
{
    reveal_strlit("");
    reveal_strlit("\n");
    if v.len() == 0 {
        assert(split_on(wrapped(v, ""@, "\n"@), '\n') =~= v.push(Seq::empty()));
    } else {
        let front = v.drop_last();
        assert forall|i: int| 0 <= i < front.len() implies is_line(#[trigger] front[i]) by {
            assert(front[i] == v[i]);
        }
        lemma_split_lines(front);
        let t = wrapped(front, ""@, "\n"@);
        let last = v.last();
        assert(is_line(v[v.len() - 1]));
        let s = wrapped(v, ""@, "\n"@);
        assert(s =~= t + last + seq!['\n'] + Seq::<char>::empty());
        lemma_split_sum(t + last, Seq::empty(), '\n');
        lemma_split_single(Seq::empty(), '\n');
        lemma_split_append(t, last, '\n');
        assert(v =~= front.push(last));
        assert(split_on(s, '\n') =~= v.push(Seq::empty()));
    }
}

/// What is added behind the last separator goes to the last piece.
proof fn lemma_split_append(a: Seq<char>, b: Seq<char>, c: char)
    requires
        forall|i: int| 0 <= i < b.len() ==> #[trigger] b[i] != c,
    ensures
        split_on(a + b, c) == split_on(a, c).drop_last().push(split_on(a, c).last() + b),
    decreases b.len(),
{
    lemma_split_on_len(a, c);
    if b.len() == 0 {
        assert(a + b =~= a);
        assert(split_on(a, c).last() + b =~= split_on(a, c).last());
        assert(split_on(a, c) =~= split_on(a, c).drop_last().push(split_on(a, c).last()));
    } else {
        assert((a + b).drop_last() =~= a + b.drop_last());
        assert((a + b).last() == b.last());
        assert(b[b.len() - 1] != c);
        assert forall|i: int| 0 <= i < b.drop_last().len() implies #[trigger] b.drop_last()[i]
            != c by {
            assert(b.drop_last()[i] == b[i]);
        }
        lemma_split_append(a, b.drop_last(), c);
        let front = split_on(a + b.drop_last(), c);
        assert(front.last() == split_on(a, c).last() + b.drop_last());
        assert((split_on(a, c).last() + b.drop_last()).push(b.last()) =~= split_on(a, c).last()
            + b);
        assert(split_on(a + b, c) =~= split_on(a, c).drop_last().push(
            split_on(a, c).last() + b,
        ));
    }
}

/// The lines of a text that was written line by line are those lines.
pub proof fn lemma_written_lines(v: Seq<Seq<char>>)
    requires
        forall|i: int| 0 <= i < v.len() ==> is_line(#[trigger] v[i]),
    ensures
        lines_of(wrapped(v, ""@, "\n"@)) == v,
{
    lemma_split_lines(v);
    let pieces = v.push(Seq::empty());
    assert(pieces.drop_last() =~= v);
    assert(pieces.last().len() == 0);
    assert forall|i: int| 0 <= i < v.len() implies without_cr(#[trigger] v[i]) == v[i] by {}
    assert(v.map_values(|p: Seq<char>| without_cr(p)) =~= v);
}

/// The first line with a value is the one that no line with a value precedes.
pub proof fn lemma_first_match<T>(
    v: Seq<Seq<char>>,
    f: spec_fn(Seq<char>) -> Option<T>,
    k: int,
)
    requires
        0 <= k < v.len(),
        f(v[k]) is Some,
        forall|j: int| 0 <= j < k ==> f(#[trigger] v[j]) is None,
    ensures
        first_match(v, f) == f(v[k]),
    decreases k,
{
    if k > 0 {
        assert(f(v[0]) is None);
        assert forall|j: int| 0 <= j < k - 1 implies f(#[trigger] v.skip(1)[j]) is None by {
            assert(v.skip(1)[j] == v[j + 1]);
        }
        assert(v.skip(1)[k - 1] == v[k]);
        lemma_first_match(v.skip(1), f, k - 1);
    }
}

// ---------------------------------------------------------------------------
// The `on` sections
// ---------------------------------------------------------------------------

/// Reading lines from some state on.
pub open spec fn on_run(s: OnState, lines: Seq<Seq<char>>) -> OnState
    decreases lines.len(),
{
    if lines.len() == 0 {
        s
    } else {
        on_step(on_run(s, lines.drop_last()), lines.last())
    }
}

proof fn lemma_on_run_start(lines: Seq<Seq<char>>)
    ensures
        on_run(on_start(), lines) == on_scan(lines),
    decreases lines.len(),
{
    if lines.len() > 0 {
        lemma_on_run_start(lines.drop_last());
    }
}

proof fn lemma_on_run_sum(s: OnState, a: Seq<Seq<char>>, b: Seq<Seq<char>>)
    ensures
        on_run(s, a + b) == on_run(on_run(s, a), b),
    decreases b.len(),
{
    if b.len() == 0 {
        assert(a + b =~= a);
    } else {
        assert((a + b).drop_last() =~= a + b.drop_last());
        assert((a + b).last() == b.last());
        lemma_on_run_sum(s, a, b.drop_last());
    }
}

proof fn lemma_on_run_one(s: OnState, line: Seq<char>)
    ensures
        on_run(s, seq![line]) == on_step(s, line),
{
    assert(seq![line].drop_last() =~= Seq::<Seq<char>>::empty());
    assert(seq![line].last() == line);
    reveal_with_fuel(on_run, 2);
}

/// Lines inside a resource, outside its `on` sections, that change nothing.
spec fn is_neutral(lines: Seq<Seq<char>>) -> bool {
    forall|s: OnState| s.host is None && s.depth > 0 ==> #[trigger] on_run(s, lines) == s
}

proof fn lemma_neutral_sum(a: Seq<Seq<char>>, b: Seq<Seq<char>>)
    requires
        is_neutral(a),
        is_neutral(b),
    ensures
        is_neutral(a + b),
{
    assert forall|s: OnState| s.host is None && s.depth > 0 implies #[trigger] on_run(s, a + b)
        == s by {
        lemma_on_run_sum(s, a, b);
        assert(on_run(s, a) == s);
        assert(on_run(s, b) == s);
    }
}

/// A line without braces is neutral.
proof fn lemma_quiet_line(line: Seq<char>)
    requires
        is_quiet(line),
    ensures
        is_neutral(seq![line]),
{
    lemma_quiet_trimmed(line);
    let t = trimmed(line);
    lemma_quiet_change(t);
    reveal_strlit("{");
    assert(block_name(line, "on "@) is None) by {
        if "{"@.is_suffix_of(t) {
            assert(t.subrange(t.len() - 1, t.len() as int)[0] == t[t.len() - 1]);
        }
    }
    assert forall|s: OnState| s.host is None && s.depth > 0 implies #[trigger] on_run(
        s,
        seq![line],
    ) == s by {
        lemma_on_run_one(s, line);
    }
}

/// Lines without braces are neutral.
proof fn lemma_quiet_lines(lines: Seq<Seq<char>>)
    requires
        forall|i: int| 0 <= i < lines.len() ==> is_quiet(#[trigger] lines[i]),
    ensures
        is_neutral(lines),
    decreases lines.len(),
{
    if lines.len() > 0 {
        let front = lines.drop_last();
        assert forall|i: int| 0 <= i < front.len() implies is_quiet(#[trigger] front[i]) by {
            assert(front[i] == lines[i]);
        }
        assert(is_quiet(lines[lines.len() - 1]));
        lemma_quiet_lines(front);
        lemma_quiet_line(lines.last());
        lemma_neutral_sum(front, seq![lines.last()]);
        assert(front + seq![lines.last()] =~= lines);
    }
}

/// The line `    }`.
proof fn lemma_closing_line()
    ensures
        trimmed("    }"@) == seq!['}'],
        brace_change(seq!['}']) == -1,
        count_of(seq!['}'], '}') == 1,
        is_line("    }"@),
{
    reveal_strlit("    }");
    assert("    }"@ =~= seq![' ', ' ', ' ', ' '] + seq!['}'] + Seq::<char>::empty());
    lemma_trimmed(seq![' ', ' ', ' ', ' '], seq!['}'], Seq::empty());
    assert(seq!['}'].drop_last() =~= Seq::<char>::empty());
    reveal_with_fuel(count_of, 2);
}

/// A section with lines without braces is neutral, unless it is that of a host.
proof fn lemma_section(open: Seq<char>, name: Seq<char>, inner: Seq<Seq<char>>)
    requires
        open == seq![' ', ' ', ' ', ' '] + name + seq![' ', '{'],
        is_word(name),
        !(name.len() == 2 && name[0] == 'o' && name[1] == 'n'),
        forall|i: int| 0 <= i < inner.len() ==> is_quiet(#[trigger] inner[i]),
    ensures
        is_neutral(seq![open] + inner + seq!["    }"@]),
{
    let t = name + seq![' ', '{'];
    let front = name + seq![' '];
    assert(t =~= front + seq!['{']);
    lemma_word_is_quiet(name);
    lemma_quiet_sum(name, seq![' ']);
    lemma_opening_change(front);
    assert(open =~= seq![' ', ' ', ' ', ' '] + t + Seq::<char>::empty());
    lemma_trimmed(seq![' ', ' ', ' ', ' '], t, Seq::empty());
    reveal_strlit("on ");
    assert(block_name(open, "on "@) is None) by {
        if "on "@.is_prefix_of(t) {
            assert(t[0] == "on "@[0] && t[1] == "on "@[1] && t[2] == "on "@[2]);
            if name.len() > 2 {
                assert(t[2] == name[2]);
            } else if name.len() == 2 {
                assert(t[0] == name[0] && t[1] == name[1]);
            } else {
                assert(t[1] == ' ');
            }
        }
    }
    lemma_closing_line();
    lemma_quiet_lines(inner);
    let all = seq![open] + inner + seq!["    }"@];
    assert forall|s: OnState| s.host is None && s.depth > 0 implies #[trigger] on_run(s, all)
        == s by {
        lemma_on_run_sum(s, seq![open] + inner, seq!["    }"@]);
        lemma_on_run_sum(s, seq![open], inner);
        lemma_on_run_one(s, open);
        let inside = OnState { depth: s.depth + 1, ..s };
        assert(on_step(s, open) == inside);
        assert(on_run(inside, inner) == inside);
        lemma_on_run_one(inside, "    }"@);
        reveal_strlit("{");
        assert(block_name("    }"@, "on "@) is None) by {
            assert(seq!['}'].len() == 1);
        }
    }
}

// ---------------------------------------------------------------------------
// The section of a node
// ---------------------------------------------------------------------------

/// The indentation of the lines of a section.
spec fn indent() -> Seq<char> {
    seq![' ', ' ', ' ', ' ', ' ', ' ', ' ', ' ']
}

/// What an indented line that does not end in white space holds.
proof fn lemma_indented(line: Seq<char>, body: Seq<char>)
    requires
        line == indent() + body,
        body.len() > 0,
        !is_space(body[0]),
        !is_space(body.last()),
    ensures
        trimmed(line) == body,
{
    assert(line =~= indent() + body + Seq::<char>::empty());
    lemma_trimmed(indent(), body, Seq::empty());
}

/// A line that sets a key to a word gives that word.
proof fn lemma_value_line(line: Seq<char>, key: Seq<char>, pad: Seq<char>, value: Seq<char>)
    requires
        line == indent() + (key + pad + value + seq![';']),
        is_word(key),
        is_word(value),
        all_space(pad),
    ensures
        value_of(key)(line) == Some(value),
{
    let body = key + pad + value + seq![';'];
    lemma_indented(line, body);
    assert(key.is_prefix_of(body)) by {
        assert(body.subrange(0, key.len() as int) =~= key);
    }
    let rest = body.skip(key.len() as int);
    assert(rest =~= pad + (value + seq![';']) + Seq::<char>::empty());
    lemma_trimmed(pad, value + seq![';'], Seq::empty());
    lemma_without_semicolon(value);
    lemma_trimmed_kept(value);
}

/// What is read from a line that sets a key to a value: the value without surrounding white
/// space and without semicolons at its end.
pub open spec fn read_value(value: Seq<char>) -> Seq<char> {
    trimmed(without_trailing(trimmed_start(value), ';'))
}

/// Whether a value has neither white space around it nor a semicolon at its end.
pub open spec fn is_kept_value(value: Seq<char>) -> bool {
    value.len() == 0 || (!is_space(value[0]) && !is_space(value.last()) && value.last() != ';')
}

/// A value without white space around it and without a semicolon at its end is read as it
/// is.
pub proof fn law_kept_values_are_read_unchanged(value: Seq<char>)
    requires
        is_kept_value(value),
    ensures
        read_value(value) == value,
{
    if value.len() > 0 {
        lemma_trimmed_kept(value);
    } else {
        lemma_trimmed_is_part(value);
        assert(trimmed(value) =~= value);
    }
}

/// A line that sets a key to any value gives what is read of the value.
proof fn lemma_any_value_line(line: Seq<char>, key: Seq<char>, pad: Seq<char>, value: Seq<char>)
    requires
        line == indent() + (key + pad + value + seq![';']),
        is_word(key),
        all_space(pad),
    ensures
        value_of(key)(line) == Some(read_value(value)),
{
    let body = key + pad + value + seq![';'];
    assert(body[0] == key[0] && body.last() == ';');
    lemma_indented(line, body);
    assert(key.is_prefix_of(body)) by {
        assert(body.subrange(0, key.len() as int) =~= key);
    }
    let rest = body.skip(key.len() as int);
    let a = lemma_trimmed_start_is_part(value);
    let pre = pad + value.take(a);
    let tail = value.skip(a) + seq![';'];
    assert(rest =~= pre + tail + Seq::<char>::empty());
    assert(all_space(pre)) by {
        assert forall|j: int| 0 <= j < pre.len() implies is_space(#[trigger] pre[j]) by {
            if j < pad.len() {
                assert(pre[j] == pad[j]);
            } else {
                assert(pre[j] == value[j - pad.len()]);
            }
        }
    }
    if a < value.len() {
        assert(tail[0] == value[a]);
    }
    lemma_trimmed(pre, tail, Seq::empty());
    assert(tail.drop_last() =~= value.skip(a));
    assert(tail.last() == ';');
    reveal_with_fuel(without_trailing, 2);
}

/// A line that starts with another word does not set the key.
proof fn lemma_other_key(line: Seq<char>, key: Seq<char>, body: Seq<char>, k: int)
    requires
        line == indent() + body,
        body.len() > 0,
        !is_space(body[0]),
        !is_space(body.last()),
        0 <= k < key.len(),
        k >= body.len() || body[k] != key[k],
    ensures
        value_of(key)(line) is None,
{
    lemma_indented(line, body);
    if key.is_prefix_of(body) {
        assert(body.subrange(0, key.len() as int)[k] == body[k]);
    }
}

proof fn lemma_decimal_is_word(n: nat)
    ensures
        is_word(decimal(n)),
{
    lemma_decimal(n);
    assert forall|i: int| 0 <= i < decimal(n).len() implies !is_space(#[trigger] decimal(n)[i])
        && decimal(n)[i] != '{' && decimal(n)[i] != '}' && decimal(n)[i] != ';' by {
        assert(is_digit(decimal(n)[i]));
    }
}

proof fn lemma_last_word(s: Seq<char>)
    requires
        forall|i: int| 0 <= i < s.len() ==> !is_space(#[trigger] s[i]),
    ensures
        last_word(s) == s,
    decreases s.len(),
{
    if s.len() > 0 {
        assert forall|i: int| 0 <= i < s.drop_last().len() implies !is_space(
            #[trigger] s.drop_last()[i],
        ) by {
            assert(s.drop_last()[i] == s[i]);
        }
        lemma_last_word(s.drop_last());
        assert(!is_space(s[s.len() - 1]));
        assert(s.drop_last().push(s.last()) =~= s);
    } else {
        assert(s =~= Seq::<char>::empty());
    }
}

/// The last colon of an address stands before its port.
proof fn lemma_last_colon(ip: Seq<char>, port: nat)
    ensures
        rfind_text(ip + seq![':'] + decimal(port), ":"@) == Some(ip.len() as int),
{
    reveal_strlit(":");
    lemma_decimal(port);
    let s = ip + seq![':'] + decimal(port);
    lemma_rfind_before(s, ":"@, s.len() as int + 1);
    assert(s.subrange(ip.len() as int, ip.len() as int + 1) =~= ":"@);
    assert(occurs_at(s, ":"@, ip.len() as int));
    let k = rfind_text(s, ":"@)->0;
    if k > ip.len() {
        assert(s.subrange(k, k + 1)[0] == s[k]);
        assert(s[k] == decimal(port)[k - ip.len() - 1]);
        assert(is_digit(decimal(port)[k - ip.len() - 1]));
    }
}

/// What is read from an address line.
proof fn lemma_address(ip: Seq<char>, port: nat)
    requires
        is_word(ip),
        ip[0] != '[',
        port <= 65535,
    ensures
        drbd_address("address "@ + (ip + seq![':'] + decimal(port))) == Some(ip),
        address_port(ip + seq![':'] + decimal(port)) == port,
{
    reveal_strlit("address ");
    let a = ip + seq![':'] + decimal(port);
    lemma_decimal_is_word(port);
    assert(is_word(a));
    let line = "address "@ + a;
    lemma_trimmed_kept(line);
    assert(line.subrange(0, 8) =~= "address "@);
    assert(line.skip(8) =~= a);
    lemma_trimmed_kept(a);
    lemma_last_word(a);
    lemma_last_colon(ip, port);
    assert(a.take(ip.len() as int) =~= ip);
    assert(a.skip(ip.len() as int + 1) =~= decimal(port));
    lemma_trimmed_kept(decimal(port));
    law_decimal_round_trip(port, 65535);
}

/// What reading gives for a node that was written: its host name, address and port, and what
/// is read of its disk and of the place of its metadata.
pub open spec fn read_node(r: DrbdResource, n: DrbdNode) -> ScannedNodeModel {
    let disk = read_value(n.disk_path(r.resource_name@));
    ScannedNodeModel {
        hostname: n.hostname@,
        ip: n.ip@,
        port: n.port as nat,
        disk,
        meta: read_value(n.meta_disk@),
        disk_type: if volume_group(disk) is Some {
            "lvm"@
        } else {
            "block"@
        },
        lvm_vg: or_text(volume_group(disk), ""@),
        lvm_size: ""@,
    }
}

/// Whether a resource file can hold a node: its name and address are words, the address is
/// not in brackets, and its disk and the place of its metadata hold no braces and no line
/// breaks.
pub open spec fn is_writable_node(r: DrbdResource, n: DrbdNode) -> bool {
    is_word(n.hostname@) && is_word(n.ip@) && n.ip@[0] != '[' && is_quiet(
        n.disk_path(r.resource_name@),
    ) && is_quiet(n.meta_disk@)
}

/// The lines of the section of a node, between the first and the last.
spec fn inner_lines(r: DrbdResource, i: int, n: DrbdNode) -> Seq<Seq<char>> {
    node_lines(r)(i, n).subrange(1, 6)
}

proof fn lemma_key_lines()
    ensures
        "        node-id   "@ == indent() + seq!['n', 'o', 'd', 'e', '-', 'i', 'd'] + seq![
            ' ',
            ' ',
            ' ',
        ],
        "        device    /dev/drbd"@ == indent() + "device"@ + seq![' ', ' ', ' ', ' ']
            + "/dev/drbd"@,
        "        disk      "@ == indent() + "disk"@ + seq![' ', ' ', ' ', ' ', ' ', ' '],
        "        address   "@ == indent() + "address"@ + seq![' ', ' ', ' '],
        "        meta-disk "@ == indent() + "meta-disk"@ + seq![' '],
        "device"@ == seq!['d', 'e', 'v', 'i', 'c', 'e'],
        "/dev/drbd"@ == seq!['/', 'd', 'e', 'v', '/', 'd', 'r', 'b', 'd'],
        "disk"@ == seq!['d', 'i', 's', 'k'],
        "address"@ == seq!['a', 'd', 'd', 'r', 'e', 's', 's'],
        "meta-disk"@ == seq!['m', 'e', 't', 'a', '-', 'd', 'i', 's', 'k'],
        is_word("device"@),
        is_word("/dev/drbd"@),
        is_word("disk"@),
        is_word("address"@),
        is_word("meta-disk"@),
{
    reveal_strlit("        node-id   ");
    reveal_strlit("        device    /dev/drbd");
    reveal_strlit("        disk      ");
    reveal_strlit("        address   ");
    reveal_strlit("        meta-disk ");
    reveal_strlit("device");
    reveal_strlit("/dev/drbd");
    reveal_strlit("disk");
    reveal_strlit("address");
    reveal_strlit("meta-disk");
}

proof fn lemma_scanned_node(r: DrbdResource, i: int, n: DrbdNode)
    requires
        i >= 0,
        is_writable_node(r, n),
    ensures
        scanned_node(n.hostname@, inner_lines(r, i, n)) == read_node(r, n),
        forall|k: int|
            0 <= k < inner_lines(r, i, n).len() ==> is_quiet(#[trigger] inner_lines(r, i, n)[k]),
{
    lemma_key_lines();
    reveal_strlit(";");
    reveal_strlit(":");
    lemma_decimal_is_word(i as nat);
    lemma_decimal_is_word(r.minor as nat);
    lemma_decimal_is_word(n.port as nat);
    let lines = inner_lines(r, i, n);
    let disk = n.disk_path(r.resource_name@);
    let address = n.ip@ + seq![':'] + decimal(n.port as nat);
    assert(is_word(address));
    let b0 = seq!['n', 'o', 'd', 'e', '-', 'i', 'd'] + seq![' ', ' ', ' '] + decimal(i as nat)
        + seq![';'];
    let b1 = "device"@ + seq![' ', ' ', ' ', ' '] + "/dev/drbd"@ + decimal(r.minor as nat) + seq![
        ';',
    ];
    let b2 = "disk"@ + seq![' ', ' ', ' ', ' ', ' ', ' '] + disk + seq![';'];
    let b3 = "address"@ + seq![' ', ' ', ' '] + address + seq![';'];
    let b4 = "meta-disk"@ + seq![' '] + n.meta_disk@ + seq![';'];
    assert(lines[0] =~= indent() + b0);
    assert(lines[1] =~= indent() + b1);
    assert(lines[2] =~= indent() + b2);
    assert(lines[3] =~= indent() + b3);
    assert(lines[4] =~= indent() + b4);
    lemma_any_value_line(lines[2], "disk"@, seq![' ', ' ', ' ', ' ', ' ', ' '], disk);
    lemma_value_line(lines[3], "address"@, seq![' ', ' ', ' '], address);
    lemma_any_value_line(lines[4], "meta-disk"@, seq![' '], n.meta_disk@);
    lemma_other_key(lines[0], "disk"@, b0, 0);
    lemma_other_key(lines[1], "disk"@, b1, 1);
    lemma_first_match(lines, value_of("disk"@), 2);
    lemma_other_key(lines[0], "address"@, b0, 0);
    lemma_other_key(lines[1], "address"@, b1, 0);
    lemma_other_key(lines[2], "address"@, b2, 0);
    lemma_first_match(lines, value_of("address"@), 3);
    lemma_other_key(lines[0], "meta-disk"@, b0, 0);
    lemma_other_key(lines[1], "meta-disk"@, b1, 0);
    lemma_other_key(lines[2], "meta-disk"@, b2, 0);
    lemma_other_key(lines[3], "meta-disk"@, b3, 0);
    lemma_first_match(lines, value_of("meta-disk"@), 4);
    lemma_address(n.ip@, n.port as nat);
    lemma_quiet_words();
    assert(is_quiet(lines[0]));
    assert(is_quiet(lines[1]));
    assert(is_quiet(lines[2]));
    assert(is_quiet(lines[3]));
    assert(is_quiet(lines[4]));
}

proof fn lemma_quiet_words()
    ensures
        forall|s: Seq<char>| is_word(s) ==> is_quiet(s),
{
    assert forall|s: Seq<char>| is_word(s) implies is_quiet(s) by {
        lemma_word_is_quiet(s);
    }
}

proof fn lemma_quiet_inner(s: OnState, inner: Seq<Seq<char>>)
    requires
        s.host is Some,
        s.depth > s.resource_depth,
        s.depth > 0,
        forall|k: int| 0 <= k < inner.len() ==> is_quiet(#[trigger] inner[k]),
    ensures
        on_run(s, inner) == (OnState { block: s.block + inner, ..s }),
    decreases inner.len(),
{
    if inner.len() == 0 {
        assert(s.block + inner =~= s.block);
    } else {
        let front = inner.drop_last();
        assert forall|k: int| 0 <= k < front.len() implies is_quiet(#[trigger] front[k]) by {
            assert(front[k] == inner[k]);
        }
        lemma_quiet_inner(s, front);
        assert(is_quiet(inner[inner.len() - 1]));
        lemma_quiet_trimmed(inner.last());
        lemma_quiet_change(trimmed(inner.last()));
        assert((s.block + front).push(inner.last()) =~= s.block + inner);
    }
}

/// Reading the section of a node gives the node.
proof fn lemma_node_section(s: OnState, r: DrbdResource, i: int, n: DrbdNode)
    requires
        i >= 0,
        s.host is None,
        s.depth > 0,
        s.depth == s.resource_depth,
        s.block == Seq::<Seq<char>>::empty(),
        is_writable_node(r, n),
    ensures
        on_run(s, node_lines(r)(i, n)) == (OnState { nodes: s.nodes.push(read_node(r, n)), ..s }),
{
    reveal_strlit("    on ");
    reveal_strlit(" {");
    reveal_strlit("on ");
    reveal_strlit("{");
    let lines = node_lines(r)(i, n);
    let open = "    on "@ + n.hostname@ + " {"@;
    let front = seq!['o', 'n', ' '] + n.hostname@ + seq![' '];
    let t = front + seq!['{'];
    assert(open =~= seq![' ', ' ', ' ', ' '] + t + Seq::<char>::empty());
    lemma_trimmed(seq![' ', ' ', ' ', ' '], t, Seq::empty());
    lemma_word_is_quiet(n.hostname@);
    lemma_opening_change(front);
    assert(t.subrange(0, 3) =~= "on "@);
    assert(t.subrange(t.len() - 1, t.len() as int) =~= "{"@);
    assert(t.subrange(3, t.len() - 1) =~= Seq::<char>::empty() + n.hostname@ + seq![' ']);
    lemma_trimmed(Seq::empty(), n.hostname@, seq![' ']);
    assert(block_name(open, "on "@) == Some(n.hostname@));
    let inner = inner_lines(r, i, n);
    lemma_scanned_node(r, i, n);
    lemma_closing_line();
    assert(lines =~= seq![open] + inner + seq!["    }"@]);
    lemma_on_run_sum(s, seq![open] + inner, seq!["    }"@]);
    lemma_on_run_sum(s, seq![open], inner);
    lemma_on_run_one(s, open);
    let inside = OnState {
        depth: s.depth + 1,
        host: Some(n.hostname@),
        block: Seq::empty(),
        ..s
    };
    assert(on_step(s, open) == inside);
    lemma_quiet_inner(inside, inner);
    assert(Seq::<Seq<char>>::empty() + inner =~= inner);
    lemma_on_run_one(OnState { block: inner, ..inside }, "    }"@);
}

/// What reading gives for all nodes.
pub open spec fn read_nodes(r: DrbdResource, nodes: Seq<DrbdNode>) -> Seq<ScannedNodeModel> {
    Seq::new(nodes.len(), |i: int| read_node(r, nodes[i]))
}

proof fn lemma_node_sections(s: OnState, r: DrbdResource, nodes: Seq<DrbdNode>)
    requires
        s.host is None,
        s.depth > 0,
        s.depth == s.resource_depth,
        s.block == Seq::<Seq<char>>::empty(),
        forall|k: int| 0 <= k < nodes.len() ==> is_writable_node(r, #[trigger] nodes[k]),
    ensures
        on_run(s, flat_indexed(nodes, node_lines(r))) == (OnState {
            nodes: s.nodes + read_nodes(r, nodes),
            ..s
        }),
    decreases nodes.len(),
{
    if nodes.len() == 0 {
        assert(s.nodes + read_nodes(r, nodes) =~= s.nodes);
    } else {
        let front = nodes.drop_last();
        assert forall|k: int| 0 <= k < front.len() implies is_writable_node(
            r,
            #[trigger] front[k],
        ) by {
            assert(front[k] == nodes[k]);
        }
        lemma_node_sections(s, r, front);
        let last = node_lines(r)(nodes.len() - 1, nodes.last());
        lemma_on_run_sum(s, flat_indexed(front, node_lines(r)), last);
        assert(is_writable_node(r, nodes[nodes.len() - 1]));
        lemma_node_section(
            OnState { nodes: s.nodes + read_nodes(r, front), ..s },
            r,
            nodes.len() - 1,
            nodes.last(),
        );
        assert((s.nodes + read_nodes(r, front)).push(read_node(r, nodes.last())) =~= s.nodes
            + read_nodes(r, nodes));
    }
}

// ---------------------------------------------------------------------------
// The whole file
// ---------------------------------------------------------------------------

/// Whether the values of a resource are such as a resource file can hold: names are words,
/// and other texts hold no braces and no line breaks.
pub open spec fn is_writable(r: DrbdResource) -> bool {
    &&& is_word(r.resource_name@)
    &&& is_word(r.protocol@)
    &&& is_quiet(r.disk_options.fencing@)
    &&& is_quiet(r.net_options.after_sb_0pri@)
    &&& is_quiet(r.net_options.after_sb_2pri@)
    &&& forall|k: int| 0 <= k < r.nodes@.len() ==> is_writable_node(r, #[trigger] r.nodes@[k])
}

/// The lines of the options of the network.
spec fn net_lines(r: DrbdResource) -> Seq<Seq<char>> {
    seq![
        "        fencing "@ + r.disk_options.fencing@ + ";"@,
        "        max-buffers 8000;"@,
        "        max-epoch-size 8000;"@,
    ] + split_brain_lines(r.net_options)
}

/// The lines between the first one and the sections of the nodes.
spec fn option_lines(r: DrbdResource) -> Seq<Seq<char>> {
    seq!["    protocol "@ + r.protocol@ + ";"@, ""@] + (seq!["    options {"@] + seq![
        "        quorum majority;"@,
        "        on-no-quorum io-error;"@,
    ] + seq!["    }"@]) + seq![""@] + (seq!["    startup {"@] + seq![
        "        wfc-timeout      "@ + decimal(r.startup_options.wfc_timeout as nat) + ";"@,
        "        degr-wfc-timeout "@ + decimal(r.startup_options.degr_wfc_timeout as nat) + ";"@,
    ] + seq!["    }"@]) + seq![""@] + (seq!["    disk {"@] + seq![
        "        on-io-error "@ + on_io_error_value(r.disk_options.on_io_error@) + ";"@,
    ] + seq!["    }"@]) + seq![""@] + (seq!["    net {"@] + net_lines(r) + seq!["    }"@]) + seq![
        ""@,
        "    # node-id values are assigned 0, 1, 2 ... in inventory order."@,
    ]
}

proof fn lemma_res_lines(r: DrbdResource)
    ensures
        res_lines(r) == seq!["resource "@ + r.resource_name@ + " {"@] + option_lines(r)
            + flat_indexed(r.nodes@, node_lines(r)) + mesh_lines(r.nodes@) + seq!["}"@],
{
    let a = head_lines(r) + split_brain_lines(r.net_options) + seq![
        "    }"@,
        ""@,
        "    # node-id values are assigned 0, 1, 2 ... in inventory order."@,
    ];
    assert(a =~= seq!["resource "@ + r.resource_name@ + " {"@] + option_lines(r));
}

proof fn lemma_quiet_value(before: Seq<char>, value: Seq<char>)
    requires
        is_quiet(before),
        is_quiet(value),
    ensures
        is_quiet(before + value + ";"@),
{
    reveal_strlit(";");
}

proof fn lemma_split_brain_lines_are_quiet(n: DrbdNetOptions)
    requires
        is_quiet(n.after_sb_0pri@),
        is_quiet(n.after_sb_2pri@),
    ensures
        forall|k: int|
            0 <= k < split_brain_lines(n).len() ==> is_quiet(#[trigger] split_brain_lines(n)[k]),
{
    reveal_strlit("        allow-two-primaries yes;");
    reveal_strlit("        after-sb-0pri ");
    reveal_strlit("        after-sb-1pri ");
    reveal_strlit("        after-sb-2pri ");
    reveal_strlit("disconnect");
    reveal_strlit("consensus");
    reveal_strlit("call-pri-lost-after-sb");
    reveal_strlit("violently-as0p");
    reveal_strlit("discard-secondary");
    assert(is_quiet(after_sb_1pri_value(n.after_sb_1pri@)));
    lemma_quiet_value("        after-sb-0pri "@, n.after_sb_0pri@);
    lemma_quiet_value("        after-sb-1pri "@, after_sb_1pri_value(n.after_sb_1pri@));
    lemma_quiet_value("        after-sb-2pri "@, n.after_sb_2pri@);
}

proof fn lemma_options_are_neutral(r: DrbdResource)
    requires
        is_writable(r),
    ensures
        is_neutral(option_lines(r)),
        forall|k: int| 0 <= k < option_lines(r).len() ==> is_line(#[trigger] option_lines(r)[k]),
{
    reveal_strlit("");
    reveal_strlit("    protocol ");
    reveal_strlit("    options {");
    reveal_strlit("        quorum majority;");
    reveal_strlit("        on-no-quorum io-error;");
    reveal_strlit("    startup {");
    reveal_strlit("        wfc-timeout      ");
    reveal_strlit("        degr-wfc-timeout ");
    reveal_strlit("    disk {");
    reveal_strlit("        on-io-error ");
    reveal_strlit("    net {");
    reveal_strlit("        fencing ");
    reveal_strlit("        max-buffers 8000;");
    reveal_strlit("        max-epoch-size 8000;");
    reveal_strlit("    # node-id values are assigned 0, 1, 2 ... in inventory order.");
    reveal_strlit("pass_on");
    reveal_strlit("call-local-io-error");
    reveal_strlit("detach");
    lemma_quiet_words();
    lemma_decimal_is_word(r.startup_options.wfc_timeout as nat);
    lemma_decimal_is_word(r.startup_options.degr_wfc_timeout as nat);
    lemma_quiet_value("    protocol "@, r.protocol@);
    lemma_quiet_value(
        "        wfc-timeout      "@,
        decimal(r.startup_options.wfc_timeout as nat),
    );
    lemma_quiet_value(
        "        degr-wfc-timeout "@,
        decimal(r.startup_options.degr_wfc_timeout as nat),
    );
    assert(is_quiet(on_io_error_value(r.disk_options.on_io_error@)));
    lemma_quiet_value("        on-io-error "@, on_io_error_value(r.disk_options.on_io_error@));
    lemma_quiet_value("        fencing "@, r.disk_options.fencing@);
    lemma_split_brain_lines_are_quiet(r.net_options);
    let four = seq![' ', ' ', ' ', ' '];
    let q0 = seq!["    protocol "@ + r.protocol@ + ";"@, ""@];
    let i1 = seq!["        quorum majority;"@, "        on-no-quorum io-error;"@];
    let s1 = seq!["    options {"@] + i1 + seq!["    }"@];
    let i2 = seq![
        "        wfc-timeout      "@ + decimal(r.startup_options.wfc_timeout as nat) + ";"@,
        "        degr-wfc-timeout "@ + decimal(r.startup_options.degr_wfc_timeout as nat) + ";"@,
    ];
    let s2 = seq!["    startup {"@] + i2 + seq!["    }"@];
    let i3 = seq![
        "        on-io-error "@ + on_io_error_value(r.disk_options.on_io_error@) + ";"@,
    ];
    let s3 = seq!["    disk {"@] + i3 + seq!["    }"@];
    let i4 = net_lines(r);
    let s4 = seq!["    net {"@] + i4 + seq!["    }"@];
    let q5 = seq![
        ""@,
        "    # node-id values are assigned 0, 1, 2 ... in inventory order."@,
    ];
    let gap = seq![""@];
    lemma_quiet_lines(q0);
    lemma_quiet_lines(gap);
    lemma_quiet_lines(q5);
    assert("    options {"@ =~= four + seq!['o', 'p', 't', 'i', 'o', 'n', 's'] + seq![' ', '{']);
    lemma_section("    options {"@, seq!['o', 'p', 't', 'i', 'o', 'n', 's'], i1);
    assert("    startup {"@ =~= four + seq!['s', 't', 'a', 'r', 't', 'u', 'p'] + seq![' ', '{']);
    lemma_section("    startup {"@, seq!['s', 't', 'a', 'r', 't', 'u', 'p'], i2);
    assert("    disk {"@ =~= four + seq!['d', 'i', 's', 'k'] + seq![' ', '{']);
    lemma_section("    disk {"@, seq!['d', 'i', 's', 'k'], i3);
    assert("    net {"@ =~= four + seq!['n', 'e', 't'] + seq![' ', '{']);
    assert forall|k: int| 0 <= k < i4.len() implies is_quiet(#[trigger] i4[k]) by {
        if k >= 3 {
            assert(i4[k] == split_brain_lines(r.net_options)[k - 3]);
        }
    }
    lemma_section("    net {"@, seq!['n', 'e', 't'], i4);
    lemma_neutral_sum(q0, s1);
    lemma_neutral_sum(q0 + s1, gap);
    lemma_neutral_sum(q0 + s1 + gap, s2);
    lemma_neutral_sum(q0 + s1 + gap + s2, gap);
    lemma_neutral_sum(q0 + s1 + gap + s2 + gap, s3);
    lemma_neutral_sum(q0 + s1 + gap + s2 + gap + s3, gap);
    lemma_neutral_sum(q0 + s1 + gap + s2 + gap + s3 + gap, s4);
    lemma_neutral_sum(q0 + s1 + gap + s2 + gap + s3 + gap + s4, q5);
    lemma_closing_line();
    lemma_all_lines(q0);
    lemma_all_lines(i1);
    lemma_all_lines(i2);
    lemma_all_lines(i3);
    lemma_all_lines(i4);
    lemma_all_lines(q5);
    assert(is_line("    options {"@));
    assert(is_line("    startup {"@));
    assert(is_line("    disk {"@));
    assert(is_line("    net {"@));
}

proof fn lemma_all_lines(v: Seq<Seq<char>>)
    requires
        forall|k: int| 0 <= k < v.len() ==> is_quiet(#[trigger] v[k]),
    ensures
        forall|k: int| 0 <= k < v.len() ==> is_line(#[trigger] v[k]),
{
    assert forall|k: int| 0 <= k < v.len() implies is_line(#[trigger] v[k]) by {
        lemma_quiet_is_line(v[k]);
    }
}

/// A line that starts with another word than `device` sets no minor number.
proof fn lemma_no_device(line: Seq<char>, pre: Seq<char>, body: Seq<char>)
    requires
        line == pre + body,
        all_space(pre),
        body.len() > 2,
        !is_space(body[0]),
        !is_space(body.last()),
        body[0] != 'd' || body[1] != 'e' || body[2] != 'v',
    ensures
        minor_line()(line) is None,
{
    assert(line =~= pre + body + Seq::<char>::empty());
    lemma_trimmed(pre, body, Seq::empty());
    reveal_strlit("device");
    if "device"@.is_prefix_of(body) {
        assert(body.subrange(0, 6)[0] == body[0]);
        assert(body.subrange(0, 6)[1] == body[1]);
        assert(body.subrange(0, 6)[2] == body[2]);
    }
}

/// An indented line with a value that starts with another word sets no minor number.
proof fn lemma_no_device_value(before: Seq<char>, value: Seq<char>)
    requires
        before.len() > 10,
        before.take(8) == indent(),
        !is_space(before[8]),
        before[8] != 'd' || before[9] != 'e' || before[10] != 'v',
    ensures
        minor_line()(before + value + ";"@) is None,
{
    reveal_strlit(";");
    let line = before + value + ";"@;
    assert(line =~= indent() + line.skip(8)) by {
        assert(before =~= before.take(8) + before.skip(8));
    }
    lemma_no_device(line, indent(), line.skip(8));
}

proof fn lemma_short_lines_set_no_minor()
    ensures
        minor_line()(""@) is None,
        minor_line()("    }"@) is None,
{
    reveal_strlit("");
    reveal_strlit("device");
    lemma_closing_line();
    assert(trimmed(""@).len() == 0) by {
        lemma_trimmed_is_part(""@);
    }
    assert(seq!['}'].len() == 1);
}

proof fn lemma_split_brain_sets_no_minor(n: DrbdNetOptions)
    ensures
        forall|k: int|
            0 <= k < split_brain_lines(n).len() ==> minor_line()(
                #[trigger] split_brain_lines(n)[k],
            ) is None,
{
    reveal_strlit("        allow-two-primaries yes;");
    reveal_strlit("        after-sb-0pri ");
    reveal_strlit("        after-sb-1pri ");
    reveal_strlit("        after-sb-2pri ");
    let two = "        allow-two-primaries yes;"@;
    assert(two =~= indent() + two.skip(8));
    lemma_no_device(two, indent(), two.skip(8));
    assert("        after-sb-0pri "@.take(8) =~= indent());
    assert("        after-sb-1pri "@.take(8) =~= indent());
    assert("        after-sb-2pri "@.take(8) =~= indent());
    lemma_no_device_value("        after-sb-0pri "@, n.after_sb_0pri@);
    lemma_no_device_value("        after-sb-1pri "@, after_sb_1pri_value(n.after_sb_1pri@));
    lemma_no_device_value("        after-sb-2pri "@, n.after_sb_2pri@);
}

proof fn lemma_fixed_lines_set_no_minor()
    ensures
        minor_line()("    options {"@) is None,
        minor_line()("        quorum majority;"@) is None,
        minor_line()("        on-no-quorum io-error;"@) is None,
        minor_line()("    startup {"@) is None,
        minor_line()("    disk {"@) is None,
        minor_line()("    net {"@) is None,
        minor_line()("        max-buffers 8000;"@) is None,
        minor_line()("        max-epoch-size 8000;"@) is None,
        minor_line()("    # node-id values are assigned 0, 1, 2 ... in inventory order."@) is None,
{
    reveal_strlit("    options {");
    reveal_strlit("        quorum majority;");
    reveal_strlit("        on-no-quorum io-error;");
    reveal_strlit("    startup {");
    reveal_strlit("    disk {");
    reveal_strlit("    net {");
    reveal_strlit("        max-buffers 8000;");
    reveal_strlit("        max-epoch-size 8000;");
    reveal_strlit("    # node-id values are assigned 0, 1, 2 ... in inventory order.");
    let four = seq![' ', ' ', ' ', ' '];
    let l0 = "    options {"@;
    assert(l0 =~= four + l0.skip(4));
    lemma_no_device(l0, four, l0.skip(4));
    let l1 = "        quorum majority;"@;
    assert(l1 =~= indent() + l1.skip(8));
    lemma_no_device(l1, indent(), l1.skip(8));
    let l2 = "        on-no-quorum io-error;"@;
    assert(l2 =~= indent() + l2.skip(8));
    lemma_no_device(l2, indent(), l2.skip(8));
    let l3 = "    startup {"@;
    assert(l3 =~= four + l3.skip(4));
    lemma_no_device(l3, four, l3.skip(4));
    let l4 = "    disk {"@;
    assert(l4 =~= four + l4.skip(4));
    lemma_no_device(l4, four, l4.skip(4));
    let l5 = "    net {"@;
    assert(l5 =~= four + l5.skip(4));
    lemma_no_device(l5, four, l5.skip(4));
    let l6 = "        max-buffers 8000;"@;
    assert(l6 =~= indent() + l6.skip(8));
    lemma_no_device(l6, indent(), l6.skip(8));
    let l7 = "        max-epoch-size 8000;"@;
    assert(l7 =~= indent() + l7.skip(8));
    lemma_no_device(l7, indent(), l7.skip(8));
    let l8 = "    # node-id values are assigned 0, 1, 2 ... in inventory order."@;
    assert(l8 =~= four + l8.skip(4));
    lemma_no_device(l8, four, l8.skip(4));
}

proof fn lemma_options_set_no_minor(r: DrbdResource)
    requires
        is_word(r.protocol@),
    ensures
        forall|k: int|
            0 <= k < option_lines(r).len() ==> minor_line()(#[trigger] option_lines(r)[k]) is None,
{
    lemma_short_lines_set_no_minor();
    lemma_split_brain_sets_no_minor(r.net_options);
    lemma_fixed_lines_set_no_minor();
    reveal_strlit(";");
    reveal_strlit("    protocol ");
    reveal_strlit("        wfc-timeout      ");
    reveal_strlit("        degr-wfc-timeout ");
    reveal_strlit("        on-io-error ");
    reveal_strlit("        fencing ");
    let four = seq![' ', ' ', ' ', ' '];
    let l0 = "    protocol "@ + r.protocol@ + ";"@;
    assert(l0 =~= four + l0.skip(4));
    lemma_no_device(l0, four, l0.skip(4));
    assert("        wfc-timeout      "@.take(8) =~= indent());
    assert("        degr-wfc-timeout "@.take(8) =~= indent());
    assert("        on-io-error "@.take(8) =~= indent());
    assert("        fencing "@.take(8) =~= indent());
    lemma_no_device_value(
        "        wfc-timeout      "@,
        decimal(r.startup_options.wfc_timeout as nat),
    );
    lemma_no_device_value(
        "        degr-wfc-timeout "@,
        decimal(r.startup_options.degr_wfc_timeout as nat),
    );
    lemma_no_device_value(
        "        on-io-error "@,
        on_io_error_value(r.disk_options.on_io_error@),
    );
    lemma_no_device_value("        fencing "@, r.disk_options.fencing@);
    assert forall|k: int| 0 <= k < net_lines(r).len() implies minor_line()(
        #[trigger] net_lines(r)[k],
    ) is None by {
        if k >= 3 {
            assert(net_lines(r)[k] == split_brain_lines(r.net_options)[k - 3]);
        }
    }
}

/// A text whose first character stands nowhere before it is found where it stands.
pub proof fn lemma_find_at(s: Seq<char>, p: Seq<char>, k: int)
    requires
        p.len() > 0,
        occurs_at(s, p, k),
        forall|j: int| 0 <= j < k ==> #[trigger] s[j] != p[0],
    ensures
        find_text(s, p) == Some(k),
{
    lemma_find_from(s, p, 0);
    let i = find_text(s, p)->0;
    if i < k {
        assert(s.subrange(i, i + p.len())[0] == s[i]);
    }
}

/// A text whose first character stands nowhere is not found.
pub proof fn lemma_find_nowhere(s: Seq<char>, p: Seq<char>)
    requires
        p.len() > 0,
        forall|j: int| 0 <= j < s.len() ==> #[trigger] s[j] != p[0],
    ensures
        find_text(s, p) is None,
{
    lemma_find_from(s, p, 0);
    if let Some(i) = find_text(s, p) {
        assert(s.subrange(i, i + p.len())[0] == s[i]);
    }
}

/// The line of the device of a node gives the minor number.
proof fn lemma_minor(minor: nat)
    requires
        minor <= u32::MAX,
    ensures
        minor_line()("        device    /dev/drbd"@ + decimal(minor) + ";"@) == Some(minor),
{
    lemma_key_lines();
    reveal_strlit(";");
    lemma_decimal_is_word(minor);
    lemma_decimal(minor);
    let d = "/dev/drbd"@;
    let line = "        device    /dev/drbd"@ + decimal(minor) + ";"@;
    let part = decimal(minor) + seq![';'];
    let body = "device"@ + seq![' ', ' ', ' ', ' '] + d + part;
    assert(line =~= indent() + body);
    lemma_indented(line, body);
    assert(body.subrange(0, 6) =~= "device"@);
    assert(body.subrange(10, 19) =~= d);
    lemma_find_at(body, d, 10);
    let rest = body.skip(19);
    assert(rest =~= part);
    assert forall|j: int| 0 <= j < rest.len() implies #[trigger] rest[j] != d[0] by {
        if j < decimal(minor).len() {
            assert(is_digit(decimal(minor)[j]));
        }
    }
    lemma_find_nowhere(rest, d);
    lemma_without_semicolon(decimal(minor));
    lemma_trimmed_kept(decimal(minor));
    law_decimal_round_trip(minor, u32::MAX as nat);
}

proof fn lemma_mesh_is_neutral(nodes: Seq<DrbdNode>)
    requires
        forall|k: int| 0 <= k < nodes.len() ==> is_word((#[trigger] nodes[k]).hostname@),
    ensures
        is_neutral(mesh_lines(nodes)),
        forall|k: int| 0 <= k < mesh_lines(nodes).len() ==> is_line(#[trigger] mesh_lines(nodes)[k]),
{
    if nodes.len() >= 2 {
        reveal_strlit("");
        reveal_strlit("    connection-mesh {");
        reveal_strlit("        hosts ");
        reveal_strlit(" ;");
        reveal_strlit(" ");
        lemma_quiet_words();
        lemma_closing_line();
        let name = seq![
            'c',
            'o',
            'n',
            'n',
            'e',
            'c',
            't',
            'i',
            'o',
            'n',
            '-',
            'm',
            'e',
            's',
            'h',
        ];
        assert("    connection-mesh {"@ =~= seq![' ', ' ', ' ', ' '] + name + seq![' ', '{']);
        let hosts = hostnames(nodes);
        assert forall|k: int| 0 <= k < hosts.len() implies is_quiet(#[trigger] hosts[k]) by {
            assert(is_word(nodes[k].hostname@));
        }
        lemma_joined_is_quiet(hosts);
        let line = "        hosts "@ + joined(hosts, " "@) + " ;"@;
        let inner = seq![line];
        assert(is_quiet(line));
        lemma_section("    connection-mesh {"@, name, inner);
        lemma_quiet_lines(seq![""@]);
        let section = seq!["    connection-mesh {"@] + inner + seq!["    }"@];
        lemma_neutral_sum(seq![""@], section);
        assert(mesh_lines(nodes) =~= seq![""@] + section);
        assert(is_line("    connection-mesh {"@));
    } else {
        lemma_quiet_lines(mesh_lines(nodes));
    }
}

proof fn lemma_joined_is_quiet(v: Seq<Seq<char>>)
    requires
        forall|k: int| 0 <= k < v.len() ==> is_quiet(#[trigger] v[k]),
    ensures
        is_quiet(joined(v, " "@)),
    decreases v.len(),
{
    reveal_strlit(" ");
    if v.len() > 1 {
        let front = v.drop_last();
        assert forall|k: int| 0 <= k < front.len() implies is_quiet(#[trigger] front[k]) by {
            assert(front[k] == v[k]);
        }
        lemma_joined_is_quiet(front);
        assert(is_quiet(v[v.len() - 1]));
    } else if v.len() == 1 {
        assert(is_quiet(v[0]));
    }
}

proof fn lemma_node_sections_are_lines(r: DrbdResource, nodes: Seq<DrbdNode>)
    requires
        forall|k: int| 0 <= k < nodes.len() ==> is_writable_node(r, #[trigger] nodes[k]),
    ensures
        forall|k: int|
            0 <= k < flat_indexed(nodes, node_lines(r)).len() ==> is_line(
                #[trigger] flat_indexed(nodes, node_lines(r))[k],
            ),
    decreases nodes.len(),
{
    if nodes.len() > 0 {
        let front = nodes.drop_last();
        let i = nodes.len() - 1;
        let n = nodes.last();
        assert forall|k: int| 0 <= k < front.len() implies is_writable_node(
            r,
            #[trigger] front[k],
        ) by {
            assert(front[k] == nodes[k]);
        }
        lemma_node_sections_are_lines(r, front);
        assert(is_writable_node(r, nodes[i]));
        lemma_scanned_node(r, i, n);
        lemma_closing_line();
        reveal_strlit("    on ");
        reveal_strlit(" {");
        lemma_word_is_quiet(n.hostname@);
        let lines = node_lines(r)(i, n);
        assert(is_line(lines[0]));
        assert forall|k: int| 0 <= k < lines.len() implies is_line(#[trigger] lines[k]) by {
            if 1 <= k < 6 {
                assert(lines[k] == inner_lines(r, i, n)[k - 1]);
                lemma_quiet_is_line(lines[k]);
            }
        }
        let all = flat_indexed(nodes, node_lines(r));
        let before = flat_indexed(front, node_lines(r));
        assert forall|k: int| 0 <= k < all.len() implies is_line(#[trigger] all[k]) by {
            if k < before.len() {
                assert(all[k] == before[k]);
            } else {
                assert(all[k] == lines[k - before.len()]);
            }
        }
    }
}

/// The first line of a resource file.
proof fn lemma_first_line(name: Seq<char>)
    requires
        is_word(name),
    ensures
        ({
            let line = "resource "@ + name + " {"@;
            &&& block_name(line, "resource "@) == Some(name)
            &&& brace_change(trimmed(line)) == 1
            &&& protocol_line()(line) is None
            &&& minor_line()(line) is None
            &&& is_line(line)
        }),
{
    reveal_strlit("resource ");
    reveal_strlit(" {");
    reveal_strlit("{");
    reveal_strlit("protocol ");
    let line = "resource "@ + name + " {"@;
    let front = "resource "@ + name + seq![' '];
    assert(line =~= front + seq!['{']);
    lemma_trimmed_kept(line);
    lemma_word_is_quiet(name);
    assert(is_quiet("resource "@));
    lemma_opening_change(front);
    assert(line.subrange(0, 9) =~= "resource "@);
    assert(line.subrange(line.len() - 1, line.len() as int) =~= "{"@);
    assert(line.subrange(9, line.len() - 1) =~= Seq::<char>::empty() + name + seq![' ']);
    lemma_trimmed(Seq::empty(), name, seq![' ']);
    if "protocol "@.is_prefix_of(line) {
        assert(line.subrange(0, 9)[0] == line[0]);
    }
    assert(line =~= Seq::<char>::empty() + line);
    lemma_no_device(line, Seq::empty(), line);
    assert(is_quiet(front));
}

/// The line of the protocol.
proof fn lemma_protocol(p: Seq<char>)
    requires
        is_word(p),
    ensures
        protocol_line()("    protocol "@ + p + ";"@) == Some(p),
{
    reveal_strlit("    protocol ");
    reveal_strlit("protocol ");
    reveal_strlit(";");
    let line = "    protocol "@ + p + ";"@;
    let body = "protocol "@ + p + seq![';'];
    assert(line =~= seq![' ', ' ', ' ', ' '] + body + Seq::<char>::empty());
    lemma_trimmed(seq![' ', ' ', ' ', ' '], body, Seq::empty());
    assert(body.subrange(0, 9) =~= "protocol "@);
    assert(body.skip(9) =~= p + seq![';']);
    lemma_without_semicolon(p);
    lemma_trimmed_kept(p);
}

/// The lines of a written file are those that it was made of.
proof fn lemma_file_lines(r: DrbdResource)
    requires
        is_writable(r),
    ensures
        lines_of(res_text(r)) == res_lines(r),
{
    let first = "resource "@ + r.resource_name@ + " {"@;
    let options = option_lines(r);
    let sections = flat_indexed(r.nodes@, node_lines(r));
    let mesh = mesh_lines(r.nodes@);
    let lines = res_lines(r);
    lemma_res_lines(r);
    lemma_first_line(r.resource_name@);
    lemma_options_are_neutral(r);
    lemma_node_sections_are_lines(r, r.nodes@);
    assert forall|k: int| 0 <= k < r.nodes@.len() implies is_word(
        (#[trigger] r.nodes@[k]).hostname@,
    ) by {
        assert(is_writable_node(r, r.nodes@[k]));
    }
    lemma_mesh_is_neutral(r.nodes@);
    reveal_strlit("}");
    assert(is_line("}"@));
    let a = seq![first] + options;
    assert forall|k: int| 0 <= k < lines.len() implies is_line(#[trigger] lines[k]) by {
        if k < a.len() {
            assert(lines[k] == a[k]);
            if k > 0 {
                assert(a[k] == options[k - 1]);
            }
        } else if k < a.len() + sections.len() {
            assert(lines[k] == sections[k - a.len()]);
        } else if k < a.len() + sections.len() + mesh.len() {
            assert(lines[k] == mesh[k - a.len() - sections.len()]);
        } else {
            assert(lines[k] == "}"@);
        }
    }
    lemma_written_lines(lines);
}

/// Reading a resource file gives back what was written: the name, the protocol and the minor
/// number of the resource, and of each node, in their order, its host name, address and port,
/// whatever its disk is, and its disk and metadata but for white space around them and
/// semicolons at their end. (A file without nodes does not hold the minor number.)
pub proof fn law_resource_files_are_read_back(r: DrbdResource, source_file: Seq<char>)
    requires
        is_writable(r),
        r.nodes@.len() > 0,
    ensures
        scanned_resource(res_text(r), source_file) == Some(
            ScannedResourceModel {
                resource_name: r.resource_name@,
                protocol: r.protocol@,
                minor: r.minor as nat,
                nodes: read_nodes(r, r.nodes@),
                source_file,
            },
        ),
        forall|k: int|
            #![trigger r.nodes@[k]]
            0 <= k < r.nodes@.len() && is_kept_value(r.nodes@[k].disk_path(r.resource_name@))
                ==> read_nodes(r, r.nodes@)[k].disk == r.nodes@[k].disk_path(r.resource_name@),
        forall|k: int|
            #![trigger r.nodes@[k]]
            0 <= k < r.nodes@.len() && is_kept_value(r.nodes@[k].meta_disk@) ==> read_nodes(
                r,
                r.nodes@,
            )[k].meta == r.nodes@[k].meta_disk@,
{
    assert forall|s: Seq<char>| is_kept_value(s) implies #[trigger] read_value(s) == s by {
        law_kept_values_are_read_unchanged(s);
    }
    let first = "resource "@ + r.resource_name@ + " {"@;
    let options = option_lines(r);
    let sections = flat_indexed(r.nodes@, node_lines(r));
    let mesh = mesh_lines(r.nodes@);
    let lines = res_lines(r);
    lemma_res_lines(r);
    lemma_first_line(r.resource_name@);
    lemma_options_are_neutral(r);
    lemma_options_set_no_minor(r);
    assert forall|k: int| 0 <= k < r.nodes@.len() implies is_word(
        (#[trigger] r.nodes@[k]).hostname@,
    ) by {
        assert(is_writable_node(r, r.nodes@[k]));
    }
    lemma_mesh_is_neutral(r.nodes@);
    reveal_strlit("}");
    assert("}"@ =~= seq!['}']);
    lemma_closing_line();
    lemma_trimmed_kept("}"@);
    let a = seq![first] + options;
    lemma_file_lines(r);
    // The name, the protocol and the minor number.
    assert(lines[0] == first);
    lemma_first_match(lines, resource_line(), 0);
    assert(lines[1] == options[0]);
    lemma_protocol(r.protocol@);
    lemma_first_match(lines, protocol_line(), 1);
    lemma_first_section(r);
    let d = a.len() + 2;
    assert(lines[d as int] == sections[2]);
    assert forall|j: int| 0 <= j < d implies minor_line()(#[trigger] lines[j]) is None by {
        if j == 0 {
        } else if j < a.len() {
            assert(lines[j] == options[j - 1]);
        } else {
            assert(lines[j] == sections[j - a.len()]);
        }
    }
    lemma_first_match(lines, minor_line(), d as int);
    // The nodes.
    let s0 = on_start();
    lemma_on_run_start(lines);
    lemma_on_run_sum(s0, a + sections + mesh, seq!["}"@]);
    lemma_on_run_sum(s0, a + sections, mesh);
    lemma_on_run_sum(s0, a, sections);
    lemma_on_run_sum(s0, seq![first], options);
    lemma_on_run_one(s0, first);
    let s1 = OnState { depth: 1, resource_depth: 1, ..s0 };
    assert(on_step(s0, first) == s1);
    assert(on_run(s1, options) == s1);
    lemma_node_sections(s1, r, r.nodes@);
    let s2 = OnState { nodes: read_nodes(r, r.nodes@), ..s1 };
    assert(s1.nodes + read_nodes(r, r.nodes@) =~= read_nodes(r, r.nodes@));
    assert(on_run(s2, mesh) == s2);
    lemma_on_run_one(s2, "}"@);
}

/// The first section starts with a line that opens it, the identifier of the node and its
/// device.
proof fn lemma_first_section(r: DrbdResource)
    requires
        is_writable(r),
        r.nodes@.len() > 0,
    ensures
        ({
            let sections = flat_indexed(r.nodes@, node_lines(r));
            &&& sections.len() >= 3
            &&& minor_line()(sections[0]) is None
            &&& minor_line()(sections[1]) is None
            &&& minor_line()(sections[2]) == Some(r.minor as nat)
        }),
{
    let n = r.nodes@[0];
    let lines = node_lines(r)(0, n);
    lemma_flat_indexed_first(r.nodes@, node_lines(r));
    assert(is_writable_node(r, n));
    reveal_strlit("    on ");
    reveal_strlit(" {");
    let four = seq![' ', ' ', ' ', ' '];
    assert(lines[0] =~= four + lines[0].skip(4));
    lemma_no_device(lines[0], four, lines[0].skip(4));
    reveal_strlit("        node-id   ");
    assert("        node-id   "@.take(8) =~= indent());
    lemma_no_device_value("        node-id   "@, decimal(0));
    lemma_minor(r.minor as nat);
}

proof fn lemma_flat_indexed_first<T, U>(v: Seq<T>, f: spec_fn(int, T) -> Seq<U>)
    requires
        v.len() > 0,
    ensures
        f(0, v[0]).is_prefix_of(flat_indexed(v, f)),
    decreases v.len(),
{
    if v.len() == 1 {
        assert(flat_indexed(v.drop_last(), f) =~= Seq::<U>::empty());
        assert(flat_indexed(v, f) =~= f(0, v[0]));
        assert(f(0, v[0]).subrange(0, f(0, v[0]).len() as int) =~= f(0, v[0]));
    } else {
        lemma_flat_indexed_first(v.drop_last(), f);
        let all = flat_indexed(v, f);
        let front = flat_indexed(v.drop_last(), f);
        let n = f(0, v[0]).len() as int;
        assert(all.subrange(0, n) =~= front.subrange(0, n));
    }
}

// ---------------------------------------------------------------------------
// The nodes that a scan finds
// ---------------------------------------------------------------------------

/// Reading lines from some state on.
spec fn node_run(s: NodeState, lines: Seq<Seq<char>>) -> NodeState
    decreases lines.len(),
{
    if lines.len() == 0 {
        s
    } else {
        node_step(node_run(s, lines.drop_last()), lines.last())
    }
}

proof fn lemma_node_run_start(lines: Seq<Seq<char>>, nodes: Seq<NodeModel>)
    ensures
        node_run(node_start(nodes), lines) == node_scan(lines, nodes),
    decreases lines.len(),
{
    if lines.len() > 0 {
        lemma_node_run_start(lines.drop_last(), nodes);
    }
}

proof fn lemma_node_run_sum(s: NodeState, a: Seq<Seq<char>>, b: Seq<Seq<char>>)
    ensures
        node_run(s, a + b) == node_run(node_run(s, a), b),
    decreases b.len(),
{
    if b.len() == 0 {
        assert(a + b =~= a);
    } else {
        assert((a + b).drop_last() =~= a + b.drop_last());
        assert((a + b).last() == b.last());
        lemma_node_run_sum(s, a, b.drop_last());
    }
}

proof fn lemma_node_run_one(s: NodeState, line: Seq<char>)
    ensures
        node_run(s, seq![line]) == node_step(s, line),
{
    assert(seq![line].drop_last() =~= Seq::<Seq<char>>::empty());
    assert(seq![line].last() == line);
    reveal_with_fuel(node_run, 2);
}

/// Whether none of the lines opens the section of a host.
spec fn opens_none(lines: Seq<Seq<char>>) -> bool {
    forall|k: int| 0 <= k < lines.len() ==> opened_host(trimmed(#[trigger] lines[k])) is None
}

/// Outside the sections of hosts, lines that open none find no node.
proof fn lemma_run_outside(s: NodeState, lines: Seq<Seq<char>>)
    requires
        s.host is None,
        opens_none(lines),
    ensures
        node_run(s, lines).host is None,
        node_run(s, lines).nodes == s.nodes,
    decreases lines.len(),
{
    if lines.len() > 0 {
        let front = lines.drop_last();
        assert forall|k: int| 0 <= k < front.len() implies opened_host(
            trimmed(#[trigger] front[k]),
        ) is None by {
            assert(front[k] == lines[k]);
        }
        lemma_run_outside(s, front);
        assert(opened_host(trimmed(lines[lines.len() - 1])) is None);
    }
}

/// A line whose first word is not `on` opens no section of a host.
proof fn lemma_no_host(line: Seq<char>, k: int)
    requires
        0 <= k < line.len(),
        forall|j: int| 0 <= j < k ==> is_space(#[trigger] line[j]),
        !is_space(line[k]),
        k + 2 >= line.len() || line[k] != 'o' || line[k + 1] != 'n' || line[k + 2] != ' ',
    ensures
        opened_host(trimmed(line)) is None,
{
    reveal_strlit("on ");
    assert(line =~= line.take(k) + line.skip(k));
    lemma_trimmed_start(line.take(k), line.skip(k));
    let b = lemma_trimmed_end_is_part(line.skip(k));
    let t = trimmed(line);
    assert(t == line.skip(k).take(b));
    if "on "@.is_prefix_of(t) {
        assert(t.subrange(0, 3)[0] == t[0] && t.subrange(0, 3)[1] == t[1] && t.subrange(0, 3)[2]
            == t[2]);
        assert(t[0] == line[k] && t[1] == line[k + 1] && t[2] == line[k + 2]);
    }
}

proof fn lemma_empty_line_opens_none()
    ensures
        opened_host(trimmed(""@)) is None,
{
    reveal_strlit("");
    reveal_strlit("on ");
    lemma_trimmed_is_part(""@);
}

proof fn lemma_options_open_none(r: DrbdResource)
    ensures
        opens_none(option_lines(r)),
{
    lemma_empty_line_opens_none();
    reveal_strlit("    protocol ");
    reveal_strlit("    options {");
    reveal_strlit("        quorum majority;");
    reveal_strlit("        on-no-quorum io-error;");
    reveal_strlit("    startup {");
    reveal_strlit("        wfc-timeout      ");
    reveal_strlit("        degr-wfc-timeout ");
    reveal_strlit("    disk {");
    reveal_strlit("        on-io-error ");
    reveal_strlit("    net {");
    reveal_strlit("        fencing ");
    reveal_strlit("        max-buffers 8000;");
    reveal_strlit("        max-epoch-size 8000;");
    reveal_strlit("    # node-id values are assigned 0, 1, 2 ... in inventory order.");
    reveal_strlit("    }");
    lemma_no_host("    protocol "@ + r.protocol@ + ";"@, 4);
    lemma_no_host("    options {"@, 4);
    lemma_no_host("        quorum majority;"@, 8);
    lemma_no_host("        on-no-quorum io-error;"@, 8);
    lemma_no_host("    startup {"@, 4);
    lemma_no_host(
        "        wfc-timeout      "@ + decimal(r.startup_options.wfc_timeout as nat) + ";"@,
        8,
    );
    lemma_no_host(
        "        degr-wfc-timeout "@ + decimal(r.startup_options.degr_wfc_timeout as nat) + ";"@,
        8,
    );
    lemma_no_host("    disk {"@, 4);
    lemma_no_host(
        "        on-io-error "@ + on_io_error_value(r.disk_options.on_io_error@) + ";"@,
        8,
    );
    lemma_no_host("    net {"@, 4);
    lemma_no_host("        fencing "@ + r.disk_options.fencing@ + ";"@, 8);
    lemma_no_host("        max-buffers 8000;"@, 8);
    lemma_no_host("        max-epoch-size 8000;"@, 8);
    lemma_no_host("    # node-id values are assigned 0, 1, 2 ... in inventory order."@, 4);
    lemma_no_host("    }"@, 4);
    lemma_split_brain_opens_none(r.net_options);
    assert forall|k: int| 0 <= k < net_lines(r).len() implies opened_host(
        trimmed(#[trigger] net_lines(r)[k]),
    ) is None by {
        if k >= 3 {
            assert(net_lines(r)[k] == split_brain_lines(r.net_options)[k - 3]);
        }
    }
}

proof fn lemma_split_brain_opens_none(n: DrbdNetOptions)
    ensures
        opens_none(split_brain_lines(n)),
{
    reveal_strlit("        allow-two-primaries yes;");
    reveal_strlit("        after-sb-0pri ");
    reveal_strlit("        after-sb-1pri ");
    reveal_strlit("        after-sb-2pri ");
    lemma_no_host("        allow-two-primaries yes;"@, 8);
    lemma_no_host("        after-sb-0pri "@ + n.after_sb_0pri@ + ";"@, 8);
    lemma_no_host("        after-sb-1pri "@ + after_sb_1pri_value(n.after_sb_1pri@) + ";"@, 8);
    lemma_no_host("        after-sb-2pri "@ + n.after_sb_2pri@ + ";"@, 8);
}

proof fn lemma_mesh_opens_none(nodes: Seq<DrbdNode>)
    ensures
        opens_none(mesh_lines(nodes)),
{
    lemma_empty_line_opens_none();
    reveal_strlit("    connection-mesh {");
    reveal_strlit("        hosts ");
    reveal_strlit("    }");
    lemma_no_host("    connection-mesh {"@, 4);
    lemma_no_host("        hosts "@ + joined(hostnames(nodes), " "@) + " ;"@, 8);
    lemma_no_host("    }"@, 4);
}

/// Whether a scan finds a node under its name and address: the name does not start with `#`
/// and the address holds no colon.
pub open spec fn is_scannable(n: DrbdNode) -> bool {
    n.hostname@[0] != '#' && forall|i: int| 0 <= i < n.ip@.len() ==> #[trigger] n.ip@[i] != ':'
}

/// A line of the section of a node that does not start with `address ` gives no address.
proof fn lemma_no_address(line: Seq<char>, body: Seq<char>)
    requires
        line == indent() + body,
        body.len() > 0,
        !is_space(body[0]),
        !is_space(body.last()),
        body[0] != 'a',
    ensures
        line_address(trimmed(line)) is None,
{
    lemma_indented(line, body);
    reveal_strlit("address ");
    if "address "@.is_prefix_of(body) {
        assert(body.subrange(0, 8)[0] == body[0]);
    }
}

/// The address that the address line of a node gives.
proof fn lemma_given_address(line: Seq<char>, ip: Seq<char>, port: nat)
    requires
        line == indent() + ("address"@ + seq![' ', ' ', ' '] + (ip + seq![':'] + decimal(port))
            + seq![';']),
        is_word(ip),
        forall|i: int| 0 <= i < ip.len() ==> #[trigger] ip[i] != ':',
    ensures
        line_address(trimmed(line)) == Some(ip),
{
    reveal_strlit("address");
    reveal_strlit("address ");
    lemma_decimal_is_word(port);
    let a = ip + seq![':'] + decimal(port);
    assert(is_word(a));
    let body = "address"@ + seq![' ', ' ', ' '] + a + seq![';'];
    lemma_indented(line, body);
    assert(body.subrange(0, 8) =~= "address "@);
    let rest = seq![' ', ' '] + a + seq![';'];
    assert(body.skip(8) =~= rest);
    assert(without_prefixes(body, "address "@) == rest) by {
        reveal_with_fuel(without_prefixes, 2);
        if "address "@.is_prefix_of(rest) {
            assert(rest.subrange(0, 8)[0] == rest[0]);
        }
    }
    assert(rest =~= (seq![' ', ' '] + a) + seq![';']);
    assert((seq![' ', ' '] + a).last() == a.last());
    assert(rest.drop_last() =~= seq![' ', ' '] + a);
    assert(without_trailing(rest, ';') == seq![' ', ' '] + a) by {
        reveal_with_fuel(without_trailing, 2);
    }
    assert(seq![' ', ' '] + a =~= seq![' ', ' '] + a + Seq::<char>::empty());
    lemma_trimmed(seq![' ', ' '], a, Seq::empty());
    assert(a =~= ip + seq![':'] + decimal(port));
    lemma_split_at_first(ip, decimal(port));
    lemma_trimmed_kept(ip);
}

/// The first piece of a text that is split at colons ends before the first one.
proof fn lemma_split_at_first(a: Seq<char>, b: Seq<char>)
    requires
        forall|i: int| 0 <= i < a.len() ==> #[trigger] a[i] != ':',
    ensures
        split_on(a + seq![':'] + b, ':').len() > 0,
        split_on(a + seq![':'] + b, ':')[0] == a,
    decreases b.len(),
{
    let s = a + seq![':'] + b;
    lemma_split_on_len(s, ':');
    if b.len() == 0 {
        assert(s.drop_last() =~= a);
        assert(s.last() == ':');
        lemma_split_single(a, ':');
    } else {
        let front = a + seq![':'] + b.drop_last();
        assert(s.drop_last() =~= front);
        assert(s.last() == b.last());
        lemma_split_at_first(a, b.drop_last());
        lemma_split_has_colon(a, b.drop_last());
    }
}

/// A text with a colon is split into two pieces at least.
proof fn lemma_split_has_colon(a: Seq<char>, b: Seq<char>)
    ensures
        split_on(a + seq![':'] + b, ':').len() >= 2,
    decreases b.len(),
{
    let s = a + seq![':'] + b;
    if b.len() == 0 {
        assert(s.drop_last() =~= a);
        assert(s.last() == ':');
        lemma_split_on_len(a, ':');
    } else {
        assert(s.drop_last() =~= a + seq![':'] + b.drop_last());
        assert(s.last() == b.last());
        lemma_split_has_colon(a, b.drop_last());
    }
}

/// Scanning the section of a node finds the node.
proof fn lemma_found_section(s: NodeState, r: DrbdResource, i: int, n: DrbdNode)
    requires
        i >= 0,
        s.host is None,
        is_writable_node(r, n),
        is_scannable(n),
    ensures
        node_run(s, node_lines(r)(i, n)).host is None,
        node_run(s, node_lines(r)(i, n)).nodes == with_node(s.nodes, n.hostname@, n.ip@),
{
    reveal_strlit("    on ");
    reveal_strlit(" {");
    reveal_strlit("on ");
    let lines = node_lines(r)(i, n);
    let open = "    on "@ + n.hostname@ + " {"@;
    let front = seq!['o', 'n', ' '] + n.hostname@ + seq![' '];
    let t = front + seq!['{'];
    assert(open =~= seq![' ', ' ', ' ', ' '] + t + Seq::<char>::empty());
    lemma_trimmed(seq![' ', ' ', ' ', ' '], t, Seq::empty());
    lemma_word_is_quiet(n.hostname@);
    lemma_opening_change(front);
    assert(t.subrange(0, 3) =~= "on "@);
    let rest = n.hostname@ + seq![' '];
    assert(t.skip(3) =~= rest + seq!['{']);
    assert((rest + seq!['{']).drop_last() =~= rest);
    assert(without_trailing(t.skip(3), '{') == rest) by {
        reveal_with_fuel(without_trailing, 2);
    }
    assert(rest =~= Seq::<char>::empty() + n.hostname@ + seq![' ']);
    lemma_trimmed(Seq::empty(), n.hostname@, seq![' ']);
    assert(opened_host(trimmed(open)) == Some(n.hostname@));
    reveal_strlit("address ");
    assert(line_address(trimmed(open)) is None) by {
        if "address "@.is_prefix_of(t) {
            assert(t.subrange(0, 8)[0] == t[0]);
        }
    }
    let s1 = node_step(s, open);
    assert(s1.host == Some(n.hostname@) && s1.depth == s1.on_depth && s1.nodes == s.nodes);
    lemma_found_inside(s1, r, i, n);
    let inner = inner_lines(r, i, n);
    let s2 = node_run(s1, inner);
    lemma_closing_line();
    assert(line_address(seq!['}']) is None);
    assert(node_step(s2, "    }"@).nodes == with_node(s.nodes, n.hostname@, n.ip@));
    assert(lines =~= seq![open] + inner + seq!["    }"@]);
    lemma_node_run_sum(s, seq![open] + inner, seq!["    }"@]);
    lemma_node_run_sum(s, seq![open], inner);
    lemma_node_run_one(s, open);
    lemma_node_run_one(s2, "    }"@);
}

/// The lines inside the section of a node give its address and nothing else.
proof fn lemma_found_inside(s: NodeState, r: DrbdResource, i: int, n: DrbdNode)
    requires
        i >= 0,
        s.host is Some,
        s.depth == s.on_depth,
        is_writable_node(r, n),
        is_scannable(n),
    ensures
        node_run(s, inner_lines(r, i, n)) == (NodeState { ip: n.ip@, ..s }),
{
    lemma_key_lines();
    reveal_strlit(";");
    reveal_strlit(":");
    lemma_decimal_is_word(i as nat);
    lemma_decimal_is_word(r.minor as nat);
    lemma_scanned_node(r, i, n);
    let lines = inner_lines(r, i, n);
    let disk = n.disk_path(r.resource_name@);
    let address = n.ip@ + seq![':'] + decimal(n.port as nat);
    let b0 = seq!['n', 'o', 'd', 'e', '-', 'i', 'd'] + seq![' ', ' ', ' '] + decimal(i as nat)
        + seq![';'];
    let b1 = "device"@ + seq![' ', ' ', ' ', ' '] + "/dev/drbd"@ + decimal(r.minor as nat) + seq![
        ';',
    ];
    let b2 = "disk"@ + seq![' ', ' ', ' ', ' ', ' ', ' '] + disk + seq![';'];
    let b3 = "address"@ + seq![' ', ' ', ' '] + address + seq![';'];
    let b4 = "meta-disk"@ + seq![' '] + n.meta_disk@ + seq![';'];
    assert(lines[0] =~= indent() + b0);
    assert(lines[1] =~= indent() + b1);
    assert(lines[2] =~= indent() + b2);
    assert(lines[3] =~= indent() + b3);
    assert(lines[4] =~= indent() + b4);
    lemma_no_address(lines[0], b0);
    lemma_no_address(lines[1], b1);
    lemma_no_address(lines[2], b2);
    lemma_given_address(lines[3], n.ip@, n.port as nat);
    lemma_no_address(lines[4], b4);
    let given_address = NodeState { ip: n.ip@, ..s };
    lemma_inside_step(s, lines[0]);
    lemma_inside_step(s, lines[1]);
    lemma_inside_step(s, lines[2]);
    lemma_inside_step(s, lines[3]);
    lemma_inside_step(given_address, lines[4]);
    assert(lines =~= seq![lines[0]] + seq![lines[1]] + seq![lines[2]] + seq![lines[3]] + seq![
        lines[4],
    ]);
    lemma_node_run_sum(
        s,
        seq![lines[0]] + seq![lines[1]] + seq![lines[2]] + seq![lines[3]],
        seq![lines[4]],
    );
    lemma_node_run_sum(s, seq![lines[0]] + seq![lines[1]] + seq![lines[2]], seq![lines[3]]);
    lemma_node_run_sum(s, seq![lines[0]] + seq![lines[1]], seq![lines[2]]);
    lemma_node_run_sum(s, seq![lines[0]], seq![lines[1]]);
    lemma_node_run_one(s, lines[0]);
    lemma_node_run_one(s, lines[1]);
    lemma_node_run_one(s, lines[2]);
    lemma_node_run_one(s, lines[3]);
    lemma_node_run_one(given_address, lines[4]);
}

/// Inside the section of a host, a line without braces can only give the address.
proof fn lemma_inside_step(s: NodeState, line: Seq<char>)
    requires
        s.host is Some,
        s.depth == s.on_depth,
        is_quiet(line),
    ensures
        node_step(s, line) == (NodeState {
            ip: if line_address(trimmed(line)) is Some {
                line_address(trimmed(line))->0
            } else {
                s.ip
            },
            ..s
        }),
{
    lemma_quiet_trimmed(line);
    lemma_quiet_change(trimmed(line));
}

/// `known` with the nodes of a resource that it does not hold yet.
pub open spec fn with_nodes(known: Seq<NodeModel>, nodes: Seq<DrbdNode>) -> Seq<NodeModel>
    decreases nodes.len(),
{
    if nodes.len() == 0 {
        known
    } else {
        with_node(with_nodes(known, nodes.drop_last()), nodes.last().hostname@, nodes.last().ip@)
    }
}

proof fn lemma_found_sections(s: NodeState, r: DrbdResource, nodes: Seq<DrbdNode>)
    requires
        s.host is None,
        forall|k: int|
            0 <= k < nodes.len() ==> is_writable_node(r, #[trigger] nodes[k]) && is_scannable(
                nodes[k],
            ),
    ensures
        node_run(s, flat_indexed(nodes, node_lines(r))).host is None,
        node_run(s, flat_indexed(nodes, node_lines(r))).nodes == with_nodes(s.nodes, nodes),
    decreases nodes.len(),
{
    if nodes.len() > 0 {
        let front = nodes.drop_last();
        assert forall|k: int| 0 <= k < front.len() implies is_writable_node(r, #[trigger] front[k])
            && is_scannable(front[k]) by {
            assert(front[k] == nodes[k]);
        }
        lemma_found_sections(s, r, front);
        let last = node_lines(r)(nodes.len() - 1, nodes.last());
        lemma_node_run_sum(s, flat_indexed(front, node_lines(r)), last);
        assert(is_writable_node(r, nodes[nodes.len() - 1]));
        lemma_found_section(
            node_run(s, flat_indexed(front, node_lines(r))),
            r,
            nodes.len() - 1,
            nodes.last(),
        );
    }
}

/// Scanning a written resource file finds each of its nodes under its name and address, and
/// adds those that are not known yet, in their order.
pub proof fn law_written_nodes_are_found(r: DrbdResource, known: Seq<NodeModel>)
    requires
        is_writable(r),
        forall|k: int| 0 <= k < r.nodes@.len() ==> is_scannable(#[trigger] r.nodes@[k]),
    ensures
        node_scan(lines_of(res_text(r)), known).nodes == with_nodes(known, r.nodes@),
{
    let first = "resource "@ + r.resource_name@ + " {"@;
    let options = option_lines(r);
    let sections = flat_indexed(r.nodes@, node_lines(r));
    let mesh = mesh_lines(r.nodes@);
    lemma_res_lines(r);
    lemma_file_lines(r);
    lemma_options_open_none(r);
    lemma_mesh_opens_none(r.nodes@);
    reveal_strlit("resource ");
    reveal_strlit("}");
    lemma_no_host(first, 0);
    lemma_no_host("}"@, 0);
    let s0 = node_start(known);
    lemma_node_run_start(res_lines(r), known);
    let a = seq![first] + options;
    lemma_node_run_sum(s0, a + sections + mesh, seq!["}"@]);
    lemma_node_run_sum(s0, a + sections, mesh);
    lemma_node_run_sum(s0, a, sections);
    assert forall|k: int| 0 <= k < a.len() implies opened_host(trimmed(#[trigger] a[k])) is None by {
        if k > 0 {
            assert(a[k] == options[k - 1]);
        }
    }
    lemma_run_outside(s0, a);
    let s1 = node_run(s0, a);
    assert forall|k: int| 0 <= k < r.nodes@.len() implies is_writable_node(r, #[trigger] r.nodes@[k])
        && is_scannable(r.nodes@[k]) by {}
    lemma_found_sections(s1, r, r.nodes@);
    let s2 = node_run(s1, sections);
    lemma_run_outside(s2, mesh);
    lemma_run_outside(node_run(s2, mesh), seq!["}"@]);
}

} // verus!
