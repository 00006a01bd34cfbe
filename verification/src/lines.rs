//! Splitting text into pieces and lines, and putting pieces together again.

use crate::text::{chars_of, given, strip_suffix, views};
use vstd::prelude::*;
use vstd::string::*;

verus! {

/// What `f` gives for each item of `v`, one after the other.
pub open spec fn flat<T, U>(v: Seq<T>, f: spec_fn(T) -> Seq<U>) -> Seq<U>
    decreases v.len(),
{
    if v.len() == 0 {
        Seq::empty()
    } else {
        flat(v.drop_last(), f) + f(v.last())
    }
}

/// What `f` gives for each item of `v` and its position, one after the other.
pub open spec fn flat_indexed<T, U>(v: Seq<T>, f: spec_fn(int, T) -> Seq<U>) -> Seq<U>
    decreases v.len(),
{
    if v.len() == 0 {
        Seq::empty()
    } else {
        flat_indexed(v.drop_last(), f) + f(v.len() - 1, v.last())
    }
}

/// One more item adds what `f` gives for it.
pub proof fn lemma_flat_take<T, U>(v: Seq<T>, f: spec_fn(T) -> Seq<U>, i: int)
    requires
        0 <= i < v.len(),
    ensures
        flat(v.take(i + 1), f) == flat(v.take(i), f) + f(v[i]),
{
    assert(v.take(i + 1).drop_last() =~= v.take(i));
    assert(v.take(i + 1).last() == v[i]);
}

/// One more item adds what `f` gives for it and its position.
pub proof fn lemma_flat_indexed_take<T, U>(v: Seq<T>, f: spec_fn(int, T) -> Seq<U>, i: int)
    requires
        0 <= i < v.len(),
    ensures
        flat_indexed(v.take(i + 1), f) == flat_indexed(v.take(i), f) + f(i, v[i]),
{
    assert(v.take(i + 1).drop_last() =~= v.take(i));
    assert(v.take(i + 1).last() == v[i]);
}

/// The text as a sequence of one item, or of none where it is empty.
pub open spec fn unless_empty() -> spec_fn(Seq<char>) -> Seq<Seq<char>> {
    |p: Seq<char>|
        if p.len() > 0 {
            seq![p]
        } else {
            Seq::empty()
        }
}

/// A list without empty texts loses none where these are left out.
pub proof fn lemma_none_empty(v: Seq<Seq<char>>)
    requires
        forall|i: int| 0 <= i < v.len() ==> (#[trigger] v[i]).len() > 0,
    ensures
        flat(v, unless_empty()) == v,
    decreases v.len(),
{
    if v.len() > 0 {
        let front = v.drop_last();
        assert forall|i: int| 0 <= i < front.len() implies (#[trigger] front[i]).len() > 0 by {
            assert(front[i] == v[i]);
        }
        lemma_none_empty(front);
        assert(v[v.len() - 1].len() > 0);
        assert(flat(v, unless_empty()) =~= front + seq![v.last()]);
        assert(front + seq![v.last()] =~= v);
    } else {
        assert(v =~= Seq::<Seq<char>>::empty());
    }
}

/// What is made of those items of a list for which something is made.
pub proof fn lemma_flat_is_filtered<T, U>(
    v: Seq<T>,
    f: spec_fn(T) -> Seq<U>,
    p: spec_fn(T) -> bool,
)
    requires
        forall|x: T| (#[trigger] f(x)).len() == if p(x) {
            1nat
        } else {
            0nat
        },
    ensures
        flat(v, f).len() == v.filter(p).len(),
        forall|i: int|
            0 <= i < v.filter(p).len() ==> p(#[trigger] v.filter(p)[i]) && flat(v, f)[i] == f(
                v.filter(p)[i],
            )[0],
    decreases v.len(),
{
    reveal(Seq::filter);
    if v.len() > 0 {
        lemma_flat_is_filtered(v.drop_last(), f, p);
        let kept = v.drop_last().filter(p);
        let before = flat(v.drop_last(), f);
        assert(f(v.last()).len() == if p(v.last()) {
            1nat
        } else {
            0nat
        });
        assert forall|i: int| 0 <= i < v.filter(p).len() implies p(#[trigger] v.filter(p)[i])
            && flat(v, f)[i] == f(v.filter(p)[i])[0] by {
            if i < kept.len() {
                assert(v.filter(p)[i] == kept[i]);
                assert(flat(v, f)[i] == before[i]);
            }
        }
    }
}

/// `parts` with `sep` between each two of them.
pub open spec fn joined(parts: Seq<Seq<char>>, sep: Seq<char>) -> Seq<char>
    decreases parts.len(),
{
    if parts.len() == 0 {
        Seq::empty()
    } else if parts.len() == 1 {
        parts[0]
    } else {
        joined(parts.drop_last(), sep) + sep + parts.last()
    }
}

/// The pieces of `s` between the characters `c`.
pub open spec fn split_on(s: Seq<char>, c: char) -> Seq<Seq<char>>
    decreases s.len(),
{
    if s.len() == 0 {
        seq![Seq::empty()]
    } else {
        let front = split_on(s.drop_last(), c);
        if s.last() == c {
            front.push(Seq::empty())
        } else {
            front.drop_last().push(front.last().push(s.last()))
        }
    }
}

/// A line without the carriage return that ends it.
pub open spec fn without_cr(s: Seq<char>) -> Seq<char> {
    if s.len() > 0 && s.last() == '\r' {
        s.drop_last()
    } else {
        s
    }
}

/// The lines of `s`: each ends at a line feed, with or without a carriage return
/// before it, or at the end of the text; what follows the last line feed counts as a
/// line only if it is not empty.
pub open spec fn lines_of(s: Seq<char>) -> Seq<Seq<char>> {
    let pieces = split_on(s, '\n');
    let ended = pieces.drop_last().map_values(|p: Seq<char>| without_cr(p));
    if pieces.last().len() == 0 {
        ended
    } else {
        ended.push(pieces.last())
    }
}

/// Each text with `before` before it and `after` behind it, one after the other.
pub open spec fn wrapped(v: Seq<Seq<char>>, before: Seq<char>, after: Seq<char>) -> Seq<char>
    decreases v.len(),
{
    if v.len() == 0 {
        Seq::empty()
    } else {
        wrapped(v.drop_last(), before, after) + before + v.last() + after
    }
}

/// `s` with `before` before it and `after` behind it, or nothing where `s` is empty.
pub open spec fn entry(s: Seq<char>, before: Seq<char>, after: Seq<char>) -> Seq<char> {
    given(s.len() > 0, before + s + after)
}

/// An optional text with `before` before it and `after` behind it, or nothing where it is
/// missing or empty.
pub open spec fn opt_entry(o: Option<String>, before: Seq<char>, after: Seq<char>) -> Seq<char> {
    match o {
        Some(s) => entry(s@, before, after),
        None => Seq::empty(),
    }
}

/// Each text with `prefix` before it.
pub open spec fn prefixed(lines: Seq<Seq<char>>, prefix: Seq<char>) -> Seq<Seq<char>> {
    Seq::new(lines.len(), |i: int| prefix + lines[i])
}

/// A text always has at least one piece.
pub proof fn lemma_split_on_len(s: Seq<char>, c: char)
    ensures
        split_on(s, c).len() >= 1,
    decreases s.len(),
{
    if s.len() > 0 {
        lemma_split_on_len(s.drop_last(), c);
    }
}

/// Each character of a piece is one of the text.
pub proof fn lemma_split_on_chars(s: Seq<char>, c: char)
    ensures
        forall|i: int, j: int|
            0 <= i < split_on(s, c).len() && 0 <= j < split_on(s, c)[i].len() ==> s.contains(
                #[trigger] split_on(s, c)[i][j],
            ),
    decreases s.len(),
{
    if s.len() > 0 {
        let t = s.drop_last();
        lemma_split_on_chars(t, c);
        lemma_split_on_len(t, c);
        let front = split_on(t, c);
        let all = split_on(s, c);
        assert forall|i: int, j: int|
            0 <= i < all.len() && 0 <= j < all[i].len() implies s.contains(
            #[trigger] all[i][j],
        ) by {
            if s.last() != c && i == front.len() - 1 && j == front.last().len() {
                assert(all[i][j] == s[s.len() - 1]);
            } else {
                assert(all[i][j] == front[i][j]);
                let k = choose|k: int| 0 <= k < t.len() && t[k] == front[i][j];
                assert(s[k] == all[i][j]);
            }
        }
    }
}

/// Joining the pieces with the character at which the text was split gives it back.
pub proof fn lemma_join_of_split(s: Seq<char>, c: char)
    ensures
        joined(split_on(s, c), seq![c]) == s,
    decreases s.len(),
{
    let all = split_on(s, c);
    if s.len() == 0 {
        assert(joined(all, seq![c]) =~= s);
    } else {
        lemma_join_of_split(s.drop_last(), c);
        lemma_split_on_len(s.drop_last(), c);
        let front = split_on(s.drop_last(), c);
        if s.last() == c {
            assert(all.drop_last() =~= front);
            assert(joined(all, seq![c]) =~= s);
        } else {
            let tail = front.last().push(s.last());
            assert(all.drop_last() =~= front.drop_last());
            assert(all.last() == tail);
            if front.len() == 1 {
                assert(front[0] == s.drop_last());
                assert(all =~= seq![tail]);
                assert(tail =~= s);
            } else {
                assert(joined(all, seq![c]) =~= joined(front, seq![c]).push(s.last()));
                assert(joined(all, seq![c]) =~= s);
            }
        }
    }
}

/// The number of characters of all texts together.
pub open spec fn total_len(v: Seq<Seq<char>>) -> nat
    decreases v.len(),
{
    if v.len() == 0 {
        0
    } else {
        total_len(v.drop_last()) + v.last().len()
    }
}

/// The pieces of a text hold no more characters than the text.
proof fn lemma_split_total(s: Seq<char>, c: char)
    ensures
        total_len(split_on(s, c)) <= s.len(),
    decreases s.len(),
{
    let all = split_on(s, c);
    if s.len() == 0 {
        assert(all.drop_last() =~= Seq::<Seq<char>>::empty());
        assert(total_len(all.drop_last()) == 0);
    } else {
        lemma_split_total(s.drop_last(), c);
        lemma_split_on_len(s.drop_last(), c);
        let front = split_on(s.drop_last(), c);
        if s.last() == c {
            assert(all.drop_last() =~= front);
        } else {
            assert(all.drop_last() =~= front.drop_last());
        }
    }
}

/// The lines of a text hold no more characters than the text.
pub proof fn lemma_lines_total(s: Seq<char>)
    ensures
        total_len(lines_of(s)) <= s.len(),
{
    lemma_split_total(s, '\n');
    lemma_split_on_len(s, '\n');
    let pieces = split_on(s, '\n');
    let ended = pieces.drop_last().map_values(|p: Seq<char>| without_cr(p));
    lemma_total_without_cr(pieces.drop_last());
    if pieces.last().len() > 0 {
        assert(lines_of(s).drop_last() =~= ended);
    }
}

proof fn lemma_total_without_cr(v: Seq<Seq<char>>)
    ensures
        total_len(v.map_values(|p: Seq<char>| without_cr(p))) <= total_len(v),
    decreases v.len(),
{
    if v.len() > 0 {
        let m = v.map_values(|p: Seq<char>| without_cr(p));
        lemma_total_without_cr(v.drop_last());
        assert(m.drop_last() =~= v.drop_last().map_values(|p: Seq<char>| without_cr(p)));
    }
}

/// The first texts of a list hold no more characters than all of them.
pub proof fn lemma_total_take(v: Seq<Seq<char>>, i: int)
    requires
        0 <= i <= v.len(),
    ensures
        total_len(v.take(i)) <= total_len(v),
    decreases v.len() - i,
{
    if i == v.len() {
        assert(v.take(i) =~= v);
    } else {
        lemma_total_take(v, i + 1);
        assert(v.take(i + 1).drop_last() =~= v.take(i));
    }
}

/// What `f` gives for the first text that it gives anything for.
pub open spec fn first_match<T>(v: Seq<Seq<char>>, f: spec_fn(Seq<char>) -> Option<T>) -> Option<T>
    decreases v.len(),
{
    if v.len() == 0 {
        None
    } else {
        match f(v[0]) {
            Some(x) => Some(x),
            None => first_match(v.skip(1), f),
        }
    }
}

/// The views of a list that has grown by one item.
pub proof fn lemma_views_push<T: View>(v: Seq<T>, s: T)
    ensures
        views(v.push(s)) == views(v).push(s@),
{
    assert(views(v.push(s)) =~= views(v).push(s@));
}

/// Adds one line to a list of lines.
pub fn add_line(lines: &mut Vec<String>, s: &str)
    ensures
        views(final(lines)@) == views(old(lines)@).push(s@),
{
    let line = s.to_owned();
    proof {
        lemma_views_push(old(lines)@, line);
    }
    lines.push(line);
}

/// The line that sets a key to a text, or none where the text is empty.
pub open spec fn opt_line(key: Seq<char>, s: Seq<char>) -> Seq<Seq<char>> {
    if s.len() > 0 {
        seq![key + s]
    } else {
        Seq::empty()
    }
}

/// An optional text, empty where it is missing.
pub open spec fn text_or_empty(o: Option<String>) -> Seq<char> {
    match o {
        Some(s) => s@,
        None => Seq::empty(),
    }
}

/// An optional text, empty where it is missing.
pub fn opt_text(o: &Option<String>) -> (r: &str)
    ensures
        r@ == text_or_empty(*o),
{
    match o {
        Some(s) => s.as_str(),
        None => {
            proof {
                reveal_strlit("");
                assert(""@ =~= Seq::<char>::empty());
            }
            ""
        },
    }
}

/// Adds the line that sets a key to a text.
pub fn add_pair(lines: &mut Vec<String>, key: &str, s: &str)
    ensures
        views(final(lines)@) == views(old(lines)@).push(key@ + s@),
{
    let mut line = key.to_owned();
    line.push_str(s);
    add_line(lines, line.as_str());
}

/// Adds the line that sets a key to a text, unless the text is empty.
pub fn add_opt_line(lines: &mut Vec<String>, key: &str, s: &str)
    ensures
        views(final(lines)@) == views(old(lines)@) + opt_line(key@, s@),
{
    if s.unicode_len() > 0 {
        add_pair(lines, key, s);
    }
    assert(views(lines@) =~= views(old(lines)@) + opt_line(key@, s@));
}

/// Adds a line where `cond` holds.
pub fn add_line_when(lines: &mut Vec<String>, cond: bool, s: &str)
    ensures
        views(final(lines)@) == views(old(lines)@) + (if cond {
            seq![s@]
        } else {
            Seq::empty()
        }),
{
    if cond {
        add_line(lines, s);
        assert(views(lines@) =~= views(old(lines)@) + seq![s@]);
    } else {
        assert(views(lines@) =~= views(old(lines)@) + Seq::<Seq<char>>::empty());
    }
}

/// Adds a line with `key` before each of the texts.
pub fn add_prefixed(lines: &mut Vec<String>, key: &str, v: &Vec<String>)
    ensures
        views(final(lines)@) == views(old(lines)@) + prefixed(views(v@), key@),
{
    let ghost before = views(lines@);
    let ghost all = prefixed(views(v@), key@);
    let mut i: usize = 0;
    assert(before =~= before + all.take(0));
    while i < v.len()
        invariant
            i <= v.len(),
            all == prefixed(views(v@), key@),
            views(lines@) == before + all.take(i as int),
        decreases v.len() - i,
    {
        add_pair(lines, key, v[i].as_str());
        assert(views(lines@) =~= before + all.take(i as int + 1));
        i += 1;
    }
    assert(all.take(i as int) =~= all);
}

/// Adds all lines of a list to another one.
pub fn add_lines(lines: &mut Vec<String>, more: Vec<String>)
    ensures
        views(final(lines)@) == views(old(lines)@) + views(more@),
{
    add_copies(lines, &more);
}

/// Adds copies of all lines of a list to another one.
pub fn add_copies(lines: &mut Vec<String>, more: &Vec<String>)
    ensures
        views(final(lines)@) == views(old(lines)@) + views(more@),
{
    let mut i: usize = 0;
    assert(views(lines@) =~= views(lines@) + views(more@).take(0));
    while i < more.len()
        invariant
            i <= more.len(),
            views(lines@) == views(old(lines)@) + views(more@).take(i as int),
        decreases more.len() - i,
    {
        add_line(lines, more[i].as_str());
        i += 1;
        assert(views(lines@) =~= views(old(lines)@) + views(more@).take(i as int));
    }
    assert(views(more@).take(i as int) =~= views(more@));
}

/// A copy of a list.
pub fn copy_lines(v: &Vec<String>) -> (r: Vec<String>)
    ensures
        views(r@) == views(v@),
{
    let mut out: Vec<String> = Vec::new();
    add_copies(&mut out, v);
    assert(views(out@) =~= views(v@));
    out
}

/// The strings of a list, joined by `sep`.
pub fn join(parts: &Vec<String>, sep: &str) -> (r: String)
    ensures
        r@ == joined(views(parts@), sep@),
{
    let mut out = String::new();
    let mut i: usize = 0;
    let ghost all = views(parts@);
    while i < parts.len()
        invariant
            i <= parts.len(),
            all == views(parts@),
            out@ == joined(all.take(i as int), sep@),
        decreases parts.len() - i,
    {
        proof {
            assert(all.take(i as int + 1).drop_last() =~= all.take(i as int));
            assert(all.take(i as int + 1).last() == parts@[i as int]@);
        }
        if i > 0 {
            out.push_str(sep);
        }
        out.push_str(parts[i].as_str());
        i += 1;
        assert(out@ =~= joined(all.take(i as int), sep@));
    }
    assert(all.take(i as int) =~= all);
    out
}

/// The string slices of a list, joined by `sep`.
pub fn join_slices(parts: &Vec<&str>, sep: &str) -> (r: String)
    ensures
        r@ == joined(views(parts@), sep@),
{
    let mut out = String::new();
    let mut i: usize = 0;
    let ghost all = views(parts@);
    while i < parts.len()
        invariant
            i <= parts.len(),
            all == views(parts@),
            out@ == joined(all.take(i as int), sep@),
        decreases parts.len() - i,
    {
        proof {
            assert(all.take(i as int + 1).drop_last() =~= all.take(i as int));
            assert(all.take(i as int + 1).last() == parts@[i as int]@);
        }
        if i > 0 {
            out.push_str(sep);
        }
        out.push_str(parts[i]);
        i += 1;
        assert(out@ =~= joined(all.take(i as int), sep@));
    }
    assert(all.take(i as int) =~= all);
    out
}

/// The pieces of the text between the characters `c`.
pub fn split<'a>(s: &'a str, c: char) -> (r: Vec<&'a str>)
    ensures
        views(r@) == split_on(s@, c),
{
    let v = chars_of(s);
    let mut out: Vec<&'a str> = Vec::new();
    let mut from: usize = 0;
    let mut i: usize = 0;
    assert(s@.subrange(0, 0) =~= Seq::<char>::empty());
    assert(s@.take(0) =~= Seq::<char>::empty());
    assert(views(out@).push(s@.subrange(0, 0)) =~= split_on(s@.take(0), c));
    while i < v.len()
        invariant
            v@ == s@,
            from <= i <= v.len(),
            views(out@).push(s@.subrange(from as int, i as int)) == split_on(s@.take(i as int), c),
        decreases v.len() - i,
    {
        let ghost front = views(out@).push(s@.subrange(from as int, i as int));
        proof {
            assert(s@.take(i as int + 1).drop_last() =~= s@.take(i as int));
            assert(s@.take(i as int + 1).last() == v@[i as int]);
        }
        if v[i] == c {
            let piece = s.substring_char(from, i);
            proof {
                lemma_views_push(out@, piece);
            }
            out.push(piece);
            from = i + 1;
            assert(s@.subrange(from as int, i as int + 1) =~= Seq::<char>::empty());
        } else {
            assert(front.drop_last() =~= views(out@));
            assert(s@.subrange(from as int, i as int + 1) =~= s@.subrange(
                from as int,
                i as int,
            ).push(v@[i as int]));
        }
        i += 1;
    }
    let piece = s.substring_char(from, v.len());
    proof {
        lemma_views_push(out@, piece);
        assert(s@.take(i as int) =~= s@);
    }
    out.push(piece);
    out
}

/// The lines of the text.
pub fn lines<'a>(s: &'a str) -> (r: Vec<&'a str>)
    ensures
        views(r@) == lines_of(s@),
{
    let pieces = split(s, '\n');
    proof {
        lemma_split_on_len(s@, '\n');
    }
    let mut out: Vec<&'a str> = Vec::new();
    let mut i: usize = 0;
    let ghost ended = views(pieces@).drop_last().map_values(|p: Seq<char>| without_cr(p));
    while i < pieces.len() - 1
        invariant
            pieces.len() >= 1,
            i <= pieces.len() - 1,
            ended == views(pieces@).drop_last().map_values(|p: Seq<char>| without_cr(p)),
            views(out@) =~= ended.take(i as int),
        decreases pieces.len() - i,
    {
        let p: &'a str = pieces[i];
        let line = match strip_suffix(p, "\r") {
            Some(rest) => rest,
            None => p,
        };
        proof {
            reveal_strlit("\r");
            assert("\r"@ =~= seq!['\r']);
            lemma_views_push(out@, line);
            if p@.len() > 0 {
                let tail = p@.subrange(p@.len() - 1, p@.len() as int);
                assert(tail =~= seq![p@.last()]);
                assert("\r"@.is_suffix_of(p@) ==> tail[0] == '\r');
                assert(p@.take(p@.len() - 1) =~= p@.drop_last());
            }
            assert(line@ =~= without_cr(p@));
            assert(ended[i as int] == without_cr(p@));
        }
        out.push(line);
        i += 1;
    }
    let last: &'a str = pieces[pieces.len() - 1];
    assert(views(pieces@).last() == last@);
    if last.unicode_len() > 0 {
        proof {
            lemma_views_push(out@, last);
        }
        out.push(last);
    }
    out
}

/// Each string slice with `before` before it and `after` behind it.
pub fn wrap_slices(v: &Vec<&str>, before: &str, after: &str) -> (r: String)
    ensures
        r@ == wrapped(views(v@), before@, after@),
{
    let ghost all = views(v@);
    let mut out = String::new();
    let mut i: usize = 0;
    while i < v.len()
        invariant
            i <= v.len(),
            all == views(v@),
            out@ == wrapped(all.take(i as int), before@, after@),
        decreases v.len() - i,
    {
        proof {
            assert(all.take(i as int + 1).drop_last() =~= all.take(i as int));
            assert(all.take(i as int + 1).last() == v@[i as int]@);
        }
        out.push_str(before);
        out.push_str(v[i]);
        out.push_str(after);
        i += 1;
    }
    assert(all.take(i as int) =~= all);
    out
}

/// Each string with `before` before it and `after` behind it.
pub fn wrap_all(v: &Vec<String>, before: &str, after: &str) -> (r: String)
    ensures
        r@ == wrapped(views(v@), before@, after@),
{
    let ghost all = views(v@);
    let mut out = String::new();
    let mut i: usize = 0;
    while i < v.len()
        invariant
            i <= v.len(),
            all == views(v@),
            out@ == wrapped(all.take(i as int), before@, after@),
        decreases v.len() - i,
    {
        proof {
            assert(all.take(i as int + 1).drop_last() =~= all.take(i as int));
            assert(all.take(i as int + 1).last() == v@[i as int]@);
        }
        out.push_str(before);
        out.push_str(v[i].as_str());
        out.push_str(after);
        i += 1;
    }
    assert(all.take(i as int) =~= all);
    out
}

/// `before`, `s` and `after`, one after the other.
pub fn wrap(before: &str, s: &str, after: &str) -> (r: String)
    ensures
        r@ == before@ + s@ + after@,
{
    let mut out = before.to_owned();
    out.push_str(s);
    out.push_str(after);
    out
}

/// The string with `before` before it and `after` behind it, or nothing where it is empty.
pub fn wrap_entry(s: &str, before: &str, after: &str) -> (r: String)
    ensures
        r@ == entry(s@, before@, after@),
{
    if s.unicode_len() > 0 {
        wrap(before, s, after)
    } else {
        String::new()
    }
}

/// An optional string with `before` before it and `after` behind it, or nothing where it is
/// missing or empty.
pub fn wrap_opt(o: &Option<String>, before: &str, after: &str) -> (r: String)
    ensures
        r@ == opt_entry(*o, before@, after@),
{
    match o {
        Some(s) => wrap_entry(s.as_str(), before, after),
        None => String::new(),
    }
}

/// Appends a text where `cond` holds.
pub fn push_when(out: &mut String, cond: bool, s: &str)
    ensures
        final(out)@ == old(out)@ + given(cond, s@),
{
    if cond {
        out.push_str(s);
    } else {
        assert(out@ =~= out@ + Seq::<char>::empty());
    }
}

/// The text where `cond` holds, nothing otherwise.
pub fn keep_when(cond: bool, s: String) -> (r: String)
    ensures
        r@ == given(cond, s@),
{
    if cond {
        s
    } else {
        String::new()
    }
}

/// The texts with `prefix` before each.
pub fn with_prefix(lines: &Vec<&str>, prefix: &str) -> (r: Vec<String>)
    ensures
        views(r@) == prefixed(views(lines@), prefix@),
{
    let mut out: Vec<String> = Vec::new();
    let mut i: usize = 0;
    while i < lines.len()
        invariant
            i <= lines.len(),
            views(out@) =~= prefixed(views(lines@), prefix@).take(i as int),
        decreases lines.len() - i,
    {
        let mut line = String::new();
        line.push_str(prefix);
        line.push_str(lines[i]);
        assert(line@ =~= prefix@ + lines@[i as int]@);
        add_line(&mut out, line.as_str());
        i += 1;
    }
    out
}

} // verus!
