//! Where one text stands in another.

use crate::lines::{flat, flat_indexed, wrapped};
use crate::text::{contains_text, find_from, lemma_find_from, occurs_at};
use vstd::prelude::*;

verus! {

/// Whether `p` stands in `s` before a place in which `q` stands.
pub open spec fn stands_before(s: Seq<char>, p: Seq<char>, q: Seq<char>) -> bool {
    exists|k: int|
        0 <= k <= s.len() && contains_text(#[trigger] s.take(k), p) && contains_text(s.skip(k), q)
}

/// What stands at some place of a text stands in it.
pub proof fn lemma_contains_at(s: Seq<char>, p: Seq<char>, i: int)
    requires
        occurs_at(s, p, i),
    ensures
        contains_text(s, p),
{
    lemma_find_from(s, p, 0);
}

/// The place of a text in another.
pub proof fn lemma_place_of(s: Seq<char>, p: Seq<char>) -> (i: int)
    requires
        contains_text(s, p),
    ensures
        occurs_at(s, p, i),
{
    lemma_find_from(s, p, 0);
    find_from(s, p, 0)->0
}

/// What stands in one of two texts stands in both together.
pub proof fn lemma_contains_sum(a: Seq<char>, b: Seq<char>, p: Seq<char>)
    ensures
        contains_text(a, p) || contains_text(b, p) ==> contains_text(a + b, p),
{
    if contains_text(a, p) {
        let i = lemma_place_of(a, p);
        assert((a + b).subrange(i, i + p.len()) =~= a.subrange(i, i + p.len()));
        lemma_contains_at(a + b, p, i);
    } else if contains_text(b, p) {
        let i = lemma_place_of(b, p);
        assert((a + b).subrange(a.len() + i, a.len() + i + p.len()) =~= b.subrange(
            i,
            i + p.len(),
        ));
        lemma_contains_at(a + b, p, a.len() + i);
    }
}

/// A text stands in itself.
pub proof fn lemma_contains_self(s: Seq<char>)
    ensures
        contains_text(s, s),
{
    assert(s.subrange(0, s.len() as int) =~= s);
    lemma_contains_at(s, s, 0);
}

/// What stands in a text that stands in another stands in that one.
pub proof fn lemma_contains_trans(s: Seq<char>, t: Seq<char>, p: Seq<char>)
    requires
        contains_text(s, t),
        contains_text(t, p),
    ensures
        contains_text(s, p),
{
    let i = lemma_place_of(s, t);
    let j = lemma_place_of(t, p);
    assert(s.subrange(i + j, i + j + p.len()) =~= s.subrange(i, i + t.len()).subrange(
        j,
        j + p.len(),
    ));
    lemma_contains_at(s, p, i + j);
}

/// A wrapped line stands in what is written for all lines.
pub proof fn lemma_wrapped_contains(v: Seq<Seq<char>>, before: Seq<char>, after: Seq<char>, i: int)
    requires
        0 <= i < v.len(),
    ensures
        contains_text(wrapped(v, before, after), before + v[i] + after),
    decreases v.len(),
{
    let front = wrapped(v.drop_last(), before, after);
    let last = before + v.last() + after;
    assert(front + before + v.last() + after =~= front + last);
    lemma_contains_sum(front, last, before + v[i] + after);
    if i == v.len() - 1 {
        lemma_contains_self(last);
    } else {
        lemma_wrapped_contains(v.drop_last(), before, after, i);
    }
}

/// What is written for one item of a list stands in what is written for the list.
pub proof fn lemma_flat_contains<T>(v: Seq<T>, f: spec_fn(T) -> Seq<char>, i: int)
    requires
        0 <= i < v.len(),
    ensures
        contains_text(flat(v, f), f(v[i])),
    decreases v.len(),
{
    lemma_contains_sum(flat(v.drop_last(), f), f(v.last()), f(v[i]));
    if i == v.len() - 1 {
        lemma_contains_self(f(v[i]));
    } else {
        lemma_flat_contains(v.drop_last(), f, i);
    }
}

/// What stands in the first of two texts stands before what stands in the second.
pub proof fn lemma_before_in_sum(a: Seq<char>, b: Seq<char>, p: Seq<char>, q: Seq<char>)
    requires
        contains_text(a, p),
        contains_text(b, q),
    ensures
        stands_before(a + b, p, q),
{
    assert((a + b).take(a.len() as int) =~= a);
    assert((a + b).skip(a.len() as int) =~= b);
}

/// What stands before something in a part of a text does so in the whole text.
pub proof fn lemma_before_in_part(
    a: Seq<char>,
    b: Seq<char>,
    c: Seq<char>,
    p: Seq<char>,
    q: Seq<char>,
)
    requires
        stands_before(b, p, q),
    ensures
        stands_before(a + b + c, p, q),
{
    let k = choose|k: int|
        0 <= k <= b.len() && contains_text(#[trigger] b.take(k), p) && contains_text(b.skip(k), q);
    let s = a + b + c;
    assert(s.take(a.len() + k) =~= a + b.take(k));
    assert(s.skip(a.len() + k) =~= b.skip(k) + c);
    lemma_contains_sum(a, b.take(k), p);
    lemma_contains_sum(b.skip(k), c, q);
}

/// Whether the given lines stand in a text, one after the other.
pub open spec fn holds_lines(text: Seq<char>, lines: Seq<Seq<char>>) -> bool {
    contains_text(text, wrapped(lines, ""@, "\n"@))
}

pub proof fn lemma_wrapped_sum(
    a: Seq<Seq<char>>,
    b: Seq<Seq<char>>,
    before: Seq<char>,
    after: Seq<char>,
)
    ensures
        wrapped(a + b, before, after) == wrapped(a, before, after) + wrapped(b, before, after),
    decreases b.len(),
{
    if b.len() == 0 {
        assert(a + b =~= a);
        assert(wrapped(a, before, after) + wrapped(b, before, after) =~= wrapped(a, before, after));
    } else {
        assert((a + b).drop_last() =~= a + b.drop_last());
        assert((a + b).last() == b.last());
        lemma_wrapped_sum(a, b.drop_last(), before, after);
        assert(wrapped(a + b, before, after) =~= wrapped(a, before, after) + wrapped(
            b,
            before,
            after,
        ));
    }
}

/// What stands between two texts stands in all three together.
pub proof fn lemma_contains_middle(a: Seq<char>, b: Seq<char>, c: Seq<char>)
    ensures
        contains_text(a + b + c, b),
{
    lemma_contains_self(b);
    lemma_contains_sum(a, b, b);
    lemma_contains_sum(a + b, c, b);
}

/// Lines that stand among others stand in the text of all of them.
pub proof fn lemma_holds_lines(a: Seq<Seq<char>>, b: Seq<Seq<char>>, c: Seq<Seq<char>>)
    ensures
        holds_lines(wrapped(a + b + c, ""@, "\n"@), b),
{
    lemma_wrapped_sum(a, b, ""@, "\n"@);
    lemma_wrapped_sum(a + b, c, ""@, "\n"@);
    lemma_contains_middle(
        wrapped(a, ""@, "\n"@),
        wrapped(b, ""@, "\n"@),
        wrapped(c, ""@, "\n"@),
    );
}

/// Where what is made of one item of a list stands in what is made of all.
pub proof fn lemma_flat_indexed_parts<T, U>(
    v: Seq<T>,
    f: spec_fn(int, T) -> Seq<U>,
    i: int,
) -> (r: (Seq<U>, Seq<U>))
    requires
        0 <= i < v.len(),
    ensures
        flat_indexed(v, f) == r.0 + f(i, v[i]) + r.1,
    decreases v.len(),
{
    let front = flat_indexed(v.drop_last(), f);
    let last = f(v.len() - 1, v.last());
    if i == v.len() - 1 {
        assert(flat_indexed(v, f) =~= front + f(i, v[i]) + Seq::<U>::empty());
        (front, Seq::empty())
    } else {
        let r = lemma_flat_indexed_parts(v.drop_last(), f, i);
        assert(flat_indexed(v, f) =~= r.0 + f(i, v[i]) + (r.1 + last));
        (r.0, r.1 + last)
    }
}

/// Where what is made of one item of a list stands in what is made of all.
pub proof fn lemma_flat_parts<T, U>(v: Seq<T>, f: spec_fn(T) -> Seq<U>, i: int) -> (r: (
    Seq<U>,
    Seq<U>,
))
    requires
        0 <= i < v.len(),
    ensures
        flat(v, f) == r.0 + f(v[i]) + r.1,
    decreases v.len(),
{
    let front = flat(v.drop_last(), f);
    let last = f(v.last());
    if i == v.len() - 1 {
        assert(flat(v, f) =~= front + f(v[i]) + Seq::<U>::empty());
        (front, Seq::empty())
    } else {
        let r = lemma_flat_parts(v.drop_last(), f, i);
        assert(flat(v, f) =~= r.0 + f(v[i]) + (r.1 + last));
        (r.0, r.1 + last)
    }
}

/// Texts may be put together in either order.
pub proof fn lemma_regrouped(a: Seq<char>, b: Seq<char>, c: Seq<char>)
    ensures
        a + (b + c) == a + b + c,
{
    assert(a + (b + c) =~= a + b + c);
}

/// The text that is made of parts.
pub open spec fn of_parts(parts: Seq<Seq<char>>) -> Seq<char>
    decreases parts.len(),
{
    if parts.len() == 0 {
        Seq::empty()
    } else {
        of_parts(parts.drop_last()) + parts.last()
    }
}

pub proof fn lemma_parts_push(parts: Seq<Seq<char>>, x: Seq<char>)
    ensures
        of_parts(parts.push(x)) == of_parts(parts) + x,
{
    assert(parts.push(x).drop_last() =~= parts);
}

pub proof fn lemma_parts_push_two(parts: Seq<Seq<char>>, x: Seq<char>, y: Seq<char>)
    ensures
        of_parts(parts.push(x).push(y)) == of_parts(parts) + (x + y),
{
    lemma_parts_push(parts, x);
    lemma_parts_push(parts.push(x), y);
    lemma_regrouped(of_parts(parts), x, y);
}

pub proof fn lemma_parts_sum(a: Seq<Seq<char>>, b: Seq<Seq<char>>)
    ensures
        of_parts(a + b) == of_parts(a) + of_parts(b),
    decreases b.len(),
{
    if b.len() == 0 {
        assert(a + b =~= a);
        assert(of_parts(a) + of_parts(b) =~= of_parts(a));
    } else {
        assert((a + b).drop_last() =~= a + b.drop_last());
        assert((a + b).last() == b.last());
        lemma_parts_sum(a, b.drop_last());
        lemma_regrouped(of_parts(a), of_parts(b.drop_last()), b.last());
    }
}

/// Parts that follow each other stand in the whole text.
pub proof fn lemma_parts_stand(parts: Seq<Seq<char>>, i: int, j: int)
    requires
        0 <= i <= j <= parts.len(),
    ensures
        contains_text(of_parts(parts), of_parts(parts.subrange(i, j))),
{
    let a = parts.take(i);
    let b = parts.subrange(i, j);
    let c = parts.skip(j);
    assert(parts =~= a + b + c);
    lemma_parts_sum(a, b);
    lemma_parts_sum(a + b, c);
    lemma_contains_middle(of_parts(a), of_parts(b), of_parts(c));
}

/// Parts stand before later ones.
pub proof fn lemma_parts_before(parts: Seq<Seq<char>>, i: int, j: int, k: int, l: int)
    requires
        0 <= i <= j <= k <= l <= parts.len(),
    ensures
        stands_before(
            of_parts(parts),
            of_parts(parts.subrange(i, j)),
            of_parts(parts.subrange(k, l)),
        ),
{
    let a = parts.take(j);
    let b = parts.skip(j);
    assert(parts =~= a + b);
    lemma_parts_sum(a, b);
    lemma_parts_stand(a, i, j);
    lemma_parts_stand(b, k - j, l - j);
    assert(a.subrange(i, j) =~= parts.subrange(i, j));
    assert(b.subrange(k - j, l - j) =~= parts.subrange(k, l));
    lemma_before_in_sum(
        of_parts(a),
        of_parts(b),
        of_parts(parts.subrange(i, j)),
        of_parts(parts.subrange(k, l)),
    );
}

pub proof fn lemma_parts_one(x: Seq<char>)
    ensures
        of_parts(seq![x]) == x,
{
    assert(seq![x].drop_last() =~= Seq::<Seq<char>>::empty());
    reveal_with_fuel(of_parts, 2);
    assert(of_parts(seq![x]) =~= x);
}

pub proof fn lemma_parts_three(x: Seq<char>, y: Seq<char>, z: Seq<char>)
    ensures
        of_parts(seq![x, y, z]) == x + y + z,
{
    lemma_parts_one(x);
    lemma_parts_push(seq![x], y);
    lemma_parts_push(seq![x].push(y), z);
    assert(seq![x].push(y).push(z) =~= seq![x, y, z]);
}

} // verus!
