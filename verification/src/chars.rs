//! Changing the characters of a text.

use crate::text::{chars_of, find, find_text};
use vstd::prelude::*;
use vstd::string::*;

verus! {

/// Whether a text holds ASCII characters only.
pub open spec fn is_ascii_text(s: Seq<char>) -> bool {
    forall|i: int| 0 <= i < s.len() ==> (#[trigger] s[i] as u32) < 128
}

/// An ASCII letter in lower case; any other character as it is.
pub open spec fn ascii_lower(c: char) -> char {
    if 'A' <= c && c <= 'Z' {
        (c as u32 + 32) as char
    } else {
        c
    }
}

/// An ASCII letter in upper case; any other character as it is.
pub open spec fn ascii_upper(c: char) -> char {
    if 'a' <= c && c <= 'z' {
        (c as u32 - 32) as char
    } else {
        c
    }
}

/// What `str::to_lowercase` gives for a text that is not ASCII.
pub uninterp spec fn unicode_lowercase(s: Seq<char>) -> Seq<char>;

/// A text in lower case.
pub open spec fn lowercase(s: Seq<char>) -> Seq<char> {
    if is_ascii_text(s) {
        s.map_values(|c: char| ascii_lower(c))
    } else {
        unicode_lowercase(s)
    }
}

/// `str::to_lowercase` maps the letters `A` to `Z` of an ASCII text to `a` to `z` and keeps
/// its other characters; for other texts it depends on the text alone.
pub assume_specification[ str::to_lowercase ](s: &str) -> (r: String)
    ensures
        is_ascii_text(s@) ==> r@ == s@.map_values(|c: char| ascii_lower(c)),
        !is_ascii_text(s@) ==> r@ == unicode_lowercase(s@),
;

/// What `str::to_uppercase` gives for a text that is not ASCII.
pub uninterp spec fn unicode_uppercase(s: Seq<char>) -> Seq<char>;

/// A text in upper case.
pub open spec fn uppercase(s: Seq<char>) -> Seq<char> {
    if is_ascii_text(s) {
        s.map_values(|c: char| ascii_upper(c))
    } else {
        unicode_uppercase(s)
    }
}

/// `str::to_uppercase` maps the letters `a` to `z` of an ASCII text to `A` to `Z` and keeps
/// its other characters; for other texts it depends on the text alone.
pub assume_specification[ str::to_uppercase ](s: &str) -> (r: String)
    ensures
        is_ascii_text(s@) ==> r@ == s@.map_values(|c: char| ascii_upper(c)),
        !is_ascii_text(s@) ==> r@ == unicode_uppercase(s@),
;

/// Whether `char::is_alphanumeric` holds of a character that is not ASCII.
pub uninterp spec fn unicode_alphanumeric(c: char) -> bool;

/// Whether a character is an ASCII letter or digit.
pub open spec fn ascii_alphanumeric(c: char) -> bool {
    ('0' <= c && c <= '9') || ('A' <= c && c <= 'Z') || ('a' <= c && c <= 'z')
}

/// Whether a character is a letter or a digit.
pub open spec fn alphanumeric(c: char) -> bool {
    if (c as u32) < 128 {
        ascii_alphanumeric(c)
    } else {
        unicode_alphanumeric(c)
    }
}

/// `char::is_alphanumeric` holds of the ASCII letters and digits and of no other ASCII
/// character; for other characters it depends on the character alone.
pub assume_specification[ char::is_alphanumeric ](c: char) -> (r: bool)
    ensures
        (c as u32) < 128 ==> r == ascii_alphanumeric(c),
        (c as u32) >= 128 ==> r == unicode_alphanumeric(c),
;

/// `c` where it may stand in a name, an underscore otherwise.
pub open spec fn word_char(c: char) -> char {
    if alphanumeric(c) || c == '_' {
        c
    } else {
        '_'
    }
}

/// `s` with an underscore for each character that is neither alphanumeric nor an
/// underscore.
pub open spec fn word(s: Seq<char>) -> Seq<char> {
    s.map_values(|c: char| word_char(c))
}

/// `s` with the text `by` for each character `c`.
pub open spec fn replaced(s: Seq<char>, c: char, by: Seq<char>) -> Seq<char>
    decreases s.len(),
{
    if s.len() == 0 {
        Seq::empty()
    } else {
        replaced(s.drop_last(), c, by) + if s.last() == c {
            by
        } else {
            seq![s.last()]
        }
    }
}

/// `s` with `by` for each copy of `p`, from left to right.
pub open spec fn replaced_text(s: Seq<char>, p: Seq<char>, by: Seq<char>) -> Seq<char>
    decreases s.len(),
{
    match find_text(s, p) {
        Some(i) if p.len() > 0 && 0 <= i && i + p.len() <= s.len() => s.take(i) + by
            + replaced_text(s.skip(i + p.len()), p, by),
        _ => s,
    }
}

/// Whether two texts differ at most in the case of ASCII letters.
pub open spec fn same_ignoring_ascii_case(a: Seq<char>, b: Seq<char>) -> bool {
    a.len() == b.len() && forall|i: int|
        0 <= i < a.len() ==> ascii_lower(#[trigger] a[i]) == ascii_lower(#[trigger] b[i])
}

/// The text as a name: an underscore for each character that may not stand in one.
pub fn to_word(s: &str) -> (r: String)
    ensures
        r@ == word(s@),
{
    let v = chars_of(s);
    let mut out = String::new();
    let mut i: usize = 0;
    while i < v.len()
        invariant
            v@ == s@,
            i <= v.len(),
            out@ =~= word(s@).take(i as int),
        decreases v.len() - i,
    {
        let c = v[i];
        if c.is_alphanumeric() || c == '_' {
            out.push(c);
        } else {
            out.push('_');
        }
        i += 1;
    }
    out
}

/// The text with `by` for each character `c`.
pub fn replace(s: &str, c: char, by: &str) -> (r: String)
    ensures
        r@ == replaced(s@, c, by@),
{
    let v = chars_of(s);
    let mut out = String::new();
    let mut i: usize = 0;
    while i < v.len()
        invariant
            v@ == s@,
            i <= v.len(),
            out@ == replaced(s@.take(i as int), c, by@),
        decreases v.len() - i,
    {
        let ghost before = out@;
        proof {
            assert(s@.take(i as int + 1).drop_last() =~= s@.take(i as int));
            assert(s@.take(i as int + 1).last() == v@[i as int]);
        }
        if v[i] == c {
            out.push_str(by);
        } else {
            out.push(v[i]);
            assert(out@ =~= before + seq![v@[i as int]]);
        }
        i += 1;
    }
    assert(s@.take(i as int) =~= s@);
    out
}

/// The text with `by` for each copy of `p`.
pub fn replace_text(s: &str, p: &str, by: &str) -> (r: String)
    requires
        p@.len() > 0,
    ensures
        r@ == replaced_text(s@, p@, by@),
{
    let mut out = String::new();
    let mut rest: &str = s;
    let n = p.unicode_len();
    assert(Seq::<char>::empty() + replaced_text(s@, p@, by@) =~= replaced_text(s@, p@, by@));
    loop
        invariant
            n == p@.len(),
            n > 0,
            out@ + replaced_text(rest@, p@, by@) == replaced_text(s@, p@, by@),
        decreases rest@.len(),
    {
        match find(rest, p) {
            None => {
                out.push_str(rest);
                return out;
            },
            Some(i) => {
                let m = rest.unicode_len();
                let ghost before = out@;
                let ghost old_rest = rest@;
                let head = rest.substring_char(0, i);
                out.push_str(head);
                out.push_str(by);
                rest = rest.substring_char(i + n, m);
                proof {
                    assert(head@ =~= old_rest.take(i as int));
                    assert(rest@ =~= old_rest.skip(i + n));
                    assert(out@ + replaced_text(rest@, p@, by@) =~= before + (head@ + by@
                        + replaced_text(rest@, p@, by@)));
                }
            },
        }
    }
}

/// An ASCII letter in lower case; any other character as it is.
fn lower_ascii(c: char) -> (r: char)
    ensures
        r == ascii_lower(c),
{
    if 'A' <= c && c <= 'Z' {
        ((c as u8) + 32) as char
    } else {
        c
    }
}

/// Whether two texts differ at most in the case of ASCII letters.
pub fn eq_ignore_ascii_case(a: &str, b: &str) -> (r: bool)
    ensures
        r == same_ignoring_ascii_case(a@, b@),
{
    let v = chars_of(a);
    let w = chars_of(b);
    if v.len() != w.len() {
        return false;
    }
    let mut i: usize = 0;
    while i < v.len()
        invariant
            v@ == a@,
            w@ == b@,
            v.len() == w.len(),
            i <= v.len(),
            forall|j: int|
                0 <= j < i ==> ascii_lower(#[trigger] a@[j]) == ascii_lower(#[trigger] b@[j]),
        decreases v.len() - i,
    {
        if lower_ascii(v[i]) != lower_ascii(w[i]) {
            assert(ascii_lower(a@[i as int]) != ascii_lower(b@[i as int]));
            return false;
        }
        i += 1;
    }
    true
}

} // verus!
