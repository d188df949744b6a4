//! Character-level text utilities.
//!
//! All path and name manipulation in this crate is specified over
//! `Seq<char>`; the executable side works on `Vec<char>` and converts
//! to and from `String` at the crate's boundary.

use vstd::prelude::*;
use vstd::string::StrSliceExecFns;

verus! {

/// Relies on `String::push`: appends the given character to the string.
pub assume_specification[ String::push ](s: &mut String, c: char)
    ensures
        final(s)@ == old(s)@.push(c),
;

/// The characters of a string slice, as a vector.
pub fn str_to_chars(s: &str) -> (r: Vec<char>)
    ensures
        r@ == s@,
{
    let len = s.unicode_len();
    let mut r: Vec<char> = Vec::new();
    let mut i: usize = 0;
    while i < len
        invariant
            len == s@.len(),
            i <= len,
            r@ == s@.subrange(0, i as int),
        decreases len - i,
    {
        r.push(s.get_char(i));
        i = i + 1;
        assert(r@ =~= s@.subrange(0, i as int));
    }
    assert(r@ =~= s@);
    r
}

/// The string holding exactly the given characters.
pub fn chars_to_string(v: &Vec<char>) -> (r: String)
    ensures
        r@ == v@,
{
    let mut r = String::new();
    let mut i: usize = 0;
    while i < v.len()
        invariant
            i <= v@.len(),
            r@ == v@.subrange(0, i as int),
        decreases v@.len() - i,
    {
        r.push(v[i]);
        i = i + 1;
        assert(r@ =~= v@.subrange(0, i as int));
    }
    assert(r@ =~= v@);
    r
}

/// A copy of the given character vector.
pub fn copy_chars(v: &Vec<char>) -> (r: Vec<char>)
    ensures
        r@ == v@,
{
    let mut r: Vec<char> = Vec::new();
    let mut i: usize = 0;
    while i < v.len()
        invariant
            i <= v@.len(),
            r@ == v@.subrange(0, i as int),
        decreases v@.len() - i,
    {
        r.push(v[i]);
        i = i + 1;
        assert(r@ =~= v@.subrange(0, i as int));
    }
    assert(r@ =~= v@);
    r
}

/// Whether `pat` occurs in `s` starting at index `i`.
pub open spec fn is_match_at(s: Seq<char>, pat: Seq<char>, i: int) -> bool {
    0 <= i && i + pat.len() <= s.len() && s.subrange(i, i + pat.len()) == pat
}

/// The first index `>= i` at which `pat` occurs in `s`, if any.
pub open spec fn find_from(s: Seq<char>, pat: Seq<char>, i: int) -> Option<int>
    decreases s.len() - i,
{
    if i < 0 || i + pat.len() > s.len() {
        None
    } else if is_match_at(s, pat, i) {
        Some(i)
    } else if pat.len() == 0 {
        None
    } else {
        find_from(s, pat, i + 1)
    }
}

/// A found occurrence lies within `s`, at or after the start of the search.
pub proof fn lemma_find_from_bounds(s: Seq<char>, pat: Seq<char>, i: int)
    requires
        find_from(s, pat, i) is Some,
    ensures
        i <= find_from(s, pat, i)->Some_0,
        is_match_at(s, pat, find_from(s, pat, i)->Some_0),
    decreases s.len() - i,
{
    if !(i < 0 || i + pat.len() > s.len()) && !is_match_at(s, pat, i) && pat.len() > 0 {
        lemma_find_from_bounds(s, pat, i + 1);
    }
}

/// Whether `pat` occurs in `s` at index `i`, decided by comparing characters.
pub fn match_at(s: &Vec<char>, pat: &Vec<char>, i: usize) -> (r: bool)
    requires
        i + pat@.len() <= s@.len(),
    ensures
        r == is_match_at(s@, pat@, i as int),
{
    let slen = s.len();
    let mut j: usize = 0;
    while j < pat.len()
        invariant
            slen == s@.len(),
            i + pat@.len() <= s@.len(),
            j <= pat@.len(),
            forall|k: int| 0 <= k < j ==> s@[i + k] == pat@[k],
        decreases pat@.len() - j,
    {
        if s[i + j] != pat[j] {
            assert(s@.subrange(i as int, i + pat@.len())[j as int] != pat@[j as int]);
            return false;
        }
        j = j + 1;
    }
    assert(s@.subrange(i as int, i + pat@.len()) =~= pat@);
    true
}

/// The first occurrence of `pat` in `s`, searched from the front.
pub fn find_sub(s: &Vec<char>, pat: &Vec<char>) -> (r: Option<usize>)
    requires
        pat@.len() > 0,
    ensures
        match r {
            Some(i) => find_from(s@, pat@, 0) == Some(i as int),
            None => find_from(s@, pat@, 0) is None,
        },
{
    if pat.len() > s.len() {
        return None;
    }
    let slen = s.len();
    let last_start = s.len() - pat.len();
    let mut i: usize = 0;
    while i <= last_start
        invariant
            slen == s@.len(),
            pat@.len() > 0,
            pat@.len() <= s@.len(),
            last_start == s@.len() - pat@.len(),
            i <= last_start + 1,
            find_from(s@, pat@, 0) == find_from(s@, pat@, i as int),
        decreases last_start + 1 - i,
    {
        if match_at(s, pat, i) {
            return Some(i);
        }
        i = i + 1;
    }
    None
}

/// `s` split around every occurrence of `pat`, found left to right.
pub open spec fn split_by(s: Seq<char>, pat: Seq<char>) -> Seq<Seq<char>>
    decreases s.len(),
{
    if pat.len() == 0 {
        seq![s]
    } else {
        match find_from(s, pat, 0) {
            None => seq![s],
            Some(i) => {
                if 0 <= i && i + pat.len() <= s.len() {
                    seq![s.subrange(0, i)] + split_by(
                        s.subrange(i + pat.len(), s.len() as int),
                        pat,
                    )
                } else {
                    seq![s]
                }
            },
        }
    }
}

/// Splits `s` around every occurrence of `pat`.
pub fn split_chars(s: &Vec<char>, pat: &Vec<char>) -> (r: Vec<Vec<char>>)
    requires
        pat@.len() > 0,
    ensures
        r@.len() == split_by(s@, pat@).len(),
        forall|j: int| 0 <= j < r@.len() ==> #[trigger] r@[j]@ == split_by(s@, pat@)[j],
    decreases s@.len(),
{
    let ghost target = split_by(s@, pat@);
    let mut r: Vec<Vec<char>> = Vec::new();
    match find_sub(s, pat) {
        None => {
            r.push(copy_chars(s));
            assert(target =~= seq![s@]);
            r
        },
        Some(i) => {
            proof {
                lemma_find_from_bounds(s@, pat@, 0);
            }
            let slen = s.len();
            assert(i + pat@.len() <= s@.len());
            let mut head: Vec<char> = Vec::new();
            let mut k: usize = 0;
            while k < i
                invariant
                    i <= s@.len(),
                    k <= i,
                    head@ == s@.subrange(0, k as int),
                decreases i - k,
            {
                head.push(s[k]);
                k = k + 1;
                assert(head@ =~= s@.subrange(0, k as int));
            }
            let mut tail: Vec<char> = Vec::new();
            let start = i + pat.len();
            let mut k2: usize = start;
            while k2 < slen
                invariant
                    slen == s@.len(),
                    start <= s@.len(),
                    start <= k2 <= s@.len(),
                    tail@ == s@.subrange(start as int, k2 as int),
                decreases s@.len() - k2,
            {
                tail.push(s[k2]);
                k2 = k2 + 1;
                assert(tail@ =~= s@.subrange(start as int, k2 as int));
            }
            assert(tail@ =~= s@.subrange(start as int, s@.len() as int));
            let rest = split_chars(&tail, pat);
            let ghost sub_target = split_by(tail@, pat@);
            assert(target =~= seq![s@.subrange(0, i as int)] + sub_target);
            assert(head@ == s@.subrange(0, i as int));
            r.push(head);
            let mut m: usize = 0;
            while m < rest.len()
                invariant
                    m <= rest@.len(),
                    rest@.len() == sub_target.len(),
                    forall|j: int| 0 <= j < rest@.len() ==> #[trigger] rest@[j]@ == sub_target[j],
                    target == seq![s@.subrange(0, i as int)] + sub_target,
                    r@.len() == 1 + m,
                    forall|j: int| 0 <= j < r@.len() ==> #[trigger] r@[j]@ == target[j],
                decreases rest@.len() - m,
            {
                r.push(copy_chars(&rest[m]));
                m = m + 1;
            }
            r
        },
    }
}

/// The deep view of a vector of character vectors is its element views.
pub proof fn lemma_chars_deep_view(parts: Vec<Vec<char>>)
    ensures
        parts.deep_view().len() == parts@.len(),
        forall|j: int| 0 <= j < parts@.len() ==> #[trigger] parts.deep_view()[j] == parts@[j]@,
{
    assert forall|j: int| 0 <= j < parts@.len() implies #[trigger] parts.deep_view()[j]
        == parts@[j]@ by {
        assert(parts.deep_view()[j] =~= parts@[j]@);
    }
}

/// The parts joined with `sep` between consecutive parts.
pub open spec fn join_with(parts: Seq<Seq<char>>, sep: Seq<char>) -> Seq<char>
    decreases parts.len(),
{
    if parts.len() == 0 {
        Seq::empty()
    } else if parts.len() == 1 {
        parts[0]
    } else {
        parts[0] + sep + join_with(parts.drop_first(), sep)
    }
}

/// Joins the parts with `sep` between consecutive parts.
pub fn join_chars(parts: &Vec<Vec<char>>, sep: &Vec<char>) -> (r: Vec<char>)
    ensures
        r@ == join_with(parts.deep_view(), sep@),
    decreases parts@.len(),
{
    let mut r: Vec<char> = Vec::new();
    let mut i: usize = 0;
    while i < parts.len()
        invariant
            i <= parts@.len(),
            r@ == join_with(parts.deep_view().subrange(0, i as int), sep@),
        decreases parts@.len() - i,
    {
        if i > 0 {
            append_chars(&mut r, sep);
        }
        append_chars(&mut r, &parts[i]);
        i = i + 1;
        proof {
            lemma_join_with_step(parts.deep_view(), sep@, i as int);
        }
    }
    assert(parts.deep_view().subrange(0, parts@.len() as int) =~= parts.deep_view());
    r
}

/// Joining one more part appends a separator (except for the first part) and the part.
proof fn lemma_join_with_step(parts: Seq<Seq<char>>, sep: Seq<char>, i: int)
    requires
        0 < i <= parts.len(),
    ensures
        join_with(parts.subrange(0, i), sep) == if i == 1 {
            parts[0]
        } else {
            join_with(parts.subrange(0, i - 1), sep) + sep + parts[i - 1]
        },
    decreases i,
{
    if i == 1 {
        assert(parts.subrange(0, 1) =~= seq![parts[0]]);
    } else {
        let p = parts.subrange(0, i);
        let q = parts.subrange(0, i - 1);
        lemma_join_with_step(parts.drop_first(), sep, i - 1);
        assert(p.drop_first() =~= parts.drop_first().subrange(0, i - 1));
        assert(q.drop_first() =~= parts.drop_first().subrange(0, i - 2));
        if i == 2 {
            assert(join_with(p, sep) =~= q[0] + sep + parts[i - 1]);
            assert(join_with(q, sep) == q[0]);
        } else {
            assert(parts.drop_first()[i - 2] == parts[i - 1]);
            assert(join_with(p, sep) == p[0] + sep + join_with(p.drop_first(), sep));
            assert(join_with(q, sep) == q[0] + sep + join_with(q.drop_first(), sep));
            assert(join_with(p, sep) =~= join_with(q, sep) + sep + parts[i - 1]);
        }
    }
}

/// Appends all of `other` onto `v`.
pub fn append_chars(v: &mut Vec<char>, other: &Vec<char>)
    ensures
        final(v)@ == old(v)@ + other@,
{
    let mut i: usize = 0;
    while i < other.len()
        invariant
            i <= other@.len(),
            v@ == old(v)@ + other@.subrange(0, i as int),
        decreases other@.len() - i,
    {
        v.push(other[i]);
        i = i + 1;
        assert(v@ =~= old(v)@ + other@.subrange(0, i as int));
    }
    assert(v@ =~= old(v)@ + other@);
}

/// Whether `s` ends with `suffix`.
pub open spec fn spec_ends_with(s: Seq<char>, suffix: Seq<char>) -> bool {
    s.len() >= suffix.len() && s.subrange(s.len() - suffix.len(), s.len() as int) == suffix
}

/// Decides whether `s` ends with `suffix`.
pub fn ends_with(s: &Vec<char>, suffix: &Vec<char>) -> (r: bool)
    ensures
        r == spec_ends_with(s@, suffix@),
{
    if s.len() < suffix.len() {
        return false;
    }
    let slen = s.len();
    let start = s.len() - suffix.len();
    let mut j: usize = 0;
    while j < suffix.len()
        invariant
            slen == s@.len(),
            start == s@.len() - suffix@.len(),
            j <= suffix@.len(),
            forall|k: int| 0 <= k < j ==> s@[start + k] == suffix@[k],
        decreases suffix@.len() - j,
    {
        if s[start + j] != suffix[j] {
            assert(s@.subrange(s@.len() - suffix@.len(), s@.len() as int)[j as int]
                != suffix@[j as int]);
            return false;
        }
        j = j + 1;
    }
    assert(s@.subrange(s@.len() - suffix@.len(), s@.len() as int) =~= suffix@);
    true
}

/// Decides whether two character vectors hold the same characters.
pub fn chars_eq(a: &Vec<char>, b: &Vec<char>) -> (r: bool)
    ensures
        r == (a@ == b@),
{
    if a.len() != b.len() {
        assert(a@ !~= b@);
        return false;
    }
    let mut j: usize = 0;
    while j < a.len()
        invariant
            a@.len() == b@.len(),
            j <= a@.len(),
            forall|k: int| 0 <= k < j ==> a@[k] == b@[k],
        decreases a@.len() - j,
    {
        if a[j] != b[j] {
            return false;
        }
        j = j + 1;
    }
    assert(a@ =~= b@);
    true
}

/// Strict lexicographic order on character sequences, by code point.
pub open spec fn chars_lt(a: Seq<char>, b: Seq<char>) -> bool
    decreases a.len(),
{
    if b.len() == 0 {
        false
    } else if a.len() == 0 {
        true
    } else if (a[0] as u32) < (b[0] as u32) {
        true
    } else if a[0] != b[0] {
        false
    } else {
        chars_lt(a.drop_first(), b.drop_first())
    }
}

/// Decides the strict lexicographic order on character vectors.
pub fn chars_less(a: &Vec<char>, b: &Vec<char>) -> (r: bool)
    ensures
        r == chars_lt(a@, b@),
{
    let mut i: usize = 0;
    assert(a@.skip(0) =~= a@ && b@.skip(0) =~= b@);
    loop
        invariant
            i <= a@.len(),
            i <= b@.len(),
            forall|k: int| 0 <= k < i ==> a@[k] == b@[k],
            chars_lt(a@, b@) == chars_lt(a@.skip(i as int), b@.skip(i as int)),
        decreases a@.len() - i,
    {
        if i >= b.len() {
            assert(b@.skip(i as int).len() == 0);
            return false;
        }
        if i >= a.len() {
            assert(a@.skip(i as int).len() == 0 && b@.skip(i as int).len() > 0);
            return true;
        }
        let ca = a[i];
        let cb = b[i];
        assert(a@.skip(i as int)[0] == a@[i as int] && b@.skip(i as int)[0] == b@[i as int]);
        if (ca as u32) < (cb as u32) {
            return true;
        }
        if ca != cb {
            return false;
        }
        proof {
            assert(a@.skip(i as int).drop_first() =~= a@.skip(i + 1));
            assert(b@.skip(i as int).drop_first() =~= b@.skip(i + 1));
        }
        i = i + 1;
    }
}

/// The lexicographic order is irreflexive and asymmetric.
pub proof fn lemma_chars_lt_asym(a: Seq<char>, b: Seq<char>)
    requires
        chars_lt(a, b),
    ensures
        !chars_lt(b, a),
    decreases a.len(),
{
    if a.len() > 0 && b.len() > 0 && a[0] == b[0] {
        lemma_chars_lt_asym(a.drop_first(), b.drop_first());
    }
}

/// The lexicographic order is transitive.
pub proof fn lemma_chars_lt_trans(a: Seq<char>, b: Seq<char>, c: Seq<char>)
    requires
        chars_lt(a, b),
        chars_lt(b, c),
    ensures
        chars_lt(a, c),
    decreases a.len(),
{
    if a.len() > 0 {
        if a[0] == b[0] && b[0] == c[0] {
            lemma_chars_lt_trans(a.drop_first(), b.drop_first(), c.drop_first());
        }
    }
}

/// The decimal digit characters, in value order.
pub const DIGITS: [char; 10] = ['0', '1', '2', '3', '4', '5', '6', '7', '8', '9'];

/// The decimal representation of `n`, most significant digit first.
pub open spec fn dec_chars(n: nat) -> Seq<char>
    decreases n,
{
    if n < 10 {
        seq![DIGITS[n as int]]
    } else {
        dec_chars(n / 10).push(DIGITS[(n % 10) as int])
    }
}

/// Formats `n` in decimal.
pub fn u64_to_chars(n: u64) -> (r: Vec<char>)
    ensures
        r@ == dec_chars(n as nat),
    decreases n,
{
    if n < 10 {
        let mut r: Vec<char> = Vec::new();
        r.push(DIGITS[n as usize]);
        assert(r@ =~= dec_chars(n as nat));
        r
    } else {
        let mut r = u64_to_chars(n / 10);
        r.push(DIGITS[(n % 10) as usize]);
        r
    }
}

} // verus!
