//! The order of texts by their characters, and sorting by it.

use crate::text::{chars_of, views};
use vstd::prelude::*;
use vstd::string::*;

verus! {

/// Whether `a` comes before `b` or equals it, compared character by character.
pub open spec fn text_le(a: Seq<char>, b: Seq<char>) -> bool
    decreases a.len(),
{
    if a.len() == 0 {
        true
    } else if b.len() == 0 {
        false
    } else if a[0] != b[0] {
        a[0] < b[0]
    } else {
        text_le(a.skip(1), b.skip(1))
    }
}

/// `v` with `x` put behind the texts that are not greater.
pub open spec fn insert_text(v: Seq<Seq<char>>, x: Seq<char>) -> Seq<Seq<char>>
    decreases v.len(),
{
    if v.len() == 0 {
        seq![x]
    } else if text_le(v.last(), x) {
        v.push(x)
    } else {
        insert_text(v.drop_last(), x).push(v.last())
    }
}

/// The texts of `v` in ascending order.
pub open spec fn sorted_texts(v: Seq<Seq<char>>) -> Seq<Seq<char>>
    decreases v.len(),
{
    if v.len() == 0 {
        Seq::empty()
    } else {
        insert_text(sorted_texts(v.drop_last()), v.last())
    }
}

/// Whether each text is at most the next one.
pub open spec fn ascending(v: Seq<Seq<char>>) -> bool {
    forall|i: int, j: int| 0 <= i < j < v.len() ==> text_le(#[trigger] v[i], #[trigger] v[j])
}

proof fn lemma_le_total(a: Seq<char>, b: Seq<char>)
    ensures
        text_le(a, b) || text_le(b, a),
    decreases a.len(),
{
    if a.len() > 0 && b.len() > 0 && a[0] == b[0] {
        lemma_le_total(a.skip(1), b.skip(1));
    }
}

proof fn lemma_le_transitive(a: Seq<char>, b: Seq<char>, c: Seq<char>)
    requires
        text_le(a, b),
        text_le(b, c),
    ensures
        text_le(a, c),
    decreases a.len(),
{
    if a.len() > 0 && b.len() > 0 && c.len() > 0 && a[0] == b[0] && b[0] == c[0] {
        lemma_le_transitive(a.skip(1), b.skip(1), c.skip(1));
    }
}

/// Two texts of which each is at most the other are equal.
pub proof fn lemma_le_antisymmetric(a: Seq<char>, b: Seq<char>)
    requires
        text_le(a, b),
        text_le(b, a),
    ensures
        a == b,
    decreases a.len(),
{
    if a.len() > 0 && b.len() > 0 {
        lemma_le_antisymmetric(a.skip(1), b.skip(1));
        assert(a =~= seq![a[0]] + a.skip(1));
        assert(b =~= seq![b[0]] + b.skip(1));
    } else {
        assert(a =~= b);
    }
}

proof fn lemma_insert(v: Seq<Seq<char>>, x: Seq<char>)
    requires
        ascending(v),
    ensures
        ascending(insert_text(v, x)),
        insert_text(v, x).to_multiset() == v.to_multiset().insert(x),
    decreases v.len(),
{
    broadcast use vstd::seq_lib::group_to_multiset_ensures;

    let r = insert_text(v, x);
    if v.len() == 0 {
        assert(r =~= Seq::<Seq<char>>::empty().push(x));
        assert(v =~= Seq::<Seq<char>>::empty());
    } else if text_le(v.last(), x) {
        assert forall|i: int, j: int| 0 <= i < j < r.len() implies text_le(
            #[trigger] r[i],
            #[trigger] r[j],
        ) by {
            if j == v.len() && i < v.len() - 1 {
                lemma_le_transitive(v[i], v.last(), x);
            }
        }
    } else {
        let front = v.drop_last();
        lemma_insert(front, x);
        lemma_le_total(v.last(), x);
        let s = insert_text(front, x);
        assert(v =~= front.push(v.last()));
        assert(r == s.push(v.last()));
        assert(r.to_multiset() =~= v.to_multiset().insert(x));
        assert forall|i: int| 0 <= i < s.len() implies text_le(#[trigger] s[i], v.last()) by {
            assert(s.to_multiset().count(s[i]) > 0) by {
                assert(s.contains(s[i]));
            }
            if s[i] != x {
                assert(front.to_multiset().count(s[i]) > 0);
                assert(front.contains(s[i]));
                let k = choose|k: int| 0 <= k < front.len() && front[k] == s[i];
                assert(v[k] == s[i]);
                assert(text_le(v[k], v[v.len() - 1]));
            }
        }
    }
}

/// Sorting gives the same texts, in ascending order.
pub proof fn law_sorted_texts(v: Seq<Seq<char>>)
    ensures
        ascending(sorted_texts(v)),
        sorted_texts(v).to_multiset() == v.to_multiset(),
        sorted_texts(v).len() == v.len(),
    decreases v.len(),
{
    broadcast use vstd::seq_lib::group_to_multiset_ensures;

    if v.len() > 0 {
        law_sorted_texts(v.drop_last());
        lemma_insert(sorted_texts(v.drop_last()), v.last());
        assert(v =~= v.drop_last().push(v.last()));
        lemma_insert_len(sorted_texts(v.drop_last()), v.last());
    } else {
        assert(v =~= Seq::<Seq<char>>::empty());
    }
}

proof fn lemma_insert_len(v: Seq<Seq<char>>, x: Seq<char>)
    ensures
        insert_text(v, x).len() == v.len() + 1,
    decreases v.len(),
{
    if v.len() > 0 && !text_le(v.last(), x) {
        lemma_insert_len(v.drop_last(), x);
    }
}

/// Whether `a` is at most `b`.
pub fn at_most(a: &str, b: &str) -> (r: bool)
    ensures
        r == text_le(a@, b@),
{
    let v = chars_of(a);
    let w = chars_of(b);
    let mut i: usize = 0;
    assert(a@.skip(0) =~= a@);
    assert(b@.skip(0) =~= b@);
    while i < v.len() && i < w.len()
        invariant
            v@ == a@,
            w@ == b@,
            i <= v.len(),
            i <= w.len(),
            text_le(a@, b@) == text_le(a@.skip(i as int), b@.skip(i as int)),
        decreases v.len() - i,
    {
        proof {
            assert(a@.skip(i as int)[0] == v@[i as int]);
            assert(b@.skip(i as int)[0] == w@[i as int]);
            assert(a@.skip(i as int).skip(1) =~= a@.skip(i as int + 1));
            assert(b@.skip(i as int).skip(1) =~= b@.skip(i as int + 1));
        }
        if v[i] != w[i] {
            return v[i] < w[i];
        }
        i += 1;
    }
    i == v.len()
}

/// The texts of a list in ascending order.
pub fn sort_texts(v: &Vec<String>) -> (r: Vec<String>)
    ensures
        views(r@) == sorted_texts(views(v@)),
{
    let mut out: Vec<String> = Vec::new();
    let mut i: usize = 0;
    let ghost all = views(v@);
    assert(views(out@) =~= sorted_texts(all.take(0)));
    while i < v.len()
        invariant
            i <= v.len(),
            all == views(v@),
            views(out@) == sorted_texts(all.take(i as int)),
            out.len() == i,
        decreases v.len() - i,
    {
        let x = v[i].clone();
        let mut k: usize = out.len();
        let ghost before = views(out@);
        assert(before.take(k as int) =~= before);
        assert(insert_text(before, x@) =~= insert_text(before.take(k as int), x@) + before.skip(
            k as int,
        ));
        while k > 0 && !at_most(out[k - 1].as_str(), x.as_str())
            invariant
                k <= out.len(),
                before == views(out@),
                insert_text(before, x@) == insert_text(before.take(k as int), x@) + before.skip(
                    k as int,
                ),
            decreases k,
        {
            proof {
                let t = before.take(k as int);
                assert(t.last() == before[k - 1]);
                assert(t.drop_last() =~= before.take(k - 1));
                assert(insert_text(t, x@) == insert_text(before.take(k - 1), x@).push(
                    before[k - 1],
                ));
                assert(insert_text(before, x@) =~= insert_text(before.take(k - 1), x@)
                    + before.skip(k - 1));
            }
            k -= 1;
        }
        proof {
            let t = before.take(k as int);
            if k > 0 {
                assert(t.last() == before[k - 1]);
            }
            assert(insert_text(t, x@) =~= t.push(x@));
            assert(all.take(i as int + 1).drop_last() =~= all.take(i as int));
            assert(all.take(i as int + 1).last() == x@);
        }
        out.insert(k, x);
        proof {
            assert(views(out@) =~= before.take(k as int).push(x@) + before.skip(k as int));
        }
        i += 1;
    }
    assert(all.take(i as int) =~= all);
    out
}

} // verus!
