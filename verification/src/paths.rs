//! Output-path and nesting-depth computation.
//!
//! Pure mappings from source locations and qualified names to output
//! locations, and the "how many directories up" count that rendered
//! pages need for their relative links. Paths are strings whose
//! components are separated by `/`.

use vstd::prelude::*;

use crate::text::{
    chars_to_string, copy_chars, ends_with, chars_eq, join_chars, join_with,
    lemma_chars_deep_view, split_by, split_chars, str_to_chars,
};

verus! {

/// The index of the last occurrence of `c` in `s`, if any.
pub open spec fn last_index_of(s: Seq<char>, c: char) -> Option<int>
    decreases s.len(),
{
    if s.len() == 0 {
        None
    } else if s.last() == c {
        Some(s.len() - 1)
    } else {
        last_index_of(s.drop_last(), c)
    }
}

/// The number of characters up to and including the last `/` of `p`;
/// zero when `p` has no directory part.
pub open spec fn dir_part_len(p: Seq<char>) -> int {
    match last_index_of(p, '/') {
        None => 0,
        Some(i) => i + 1,
    }
}

/// A found last occurrence is a real occurrence, and no later one exists.
pub proof fn lemma_last_index_of(s: Seq<char>, c: char)
    ensures
        match last_index_of(s, c) {
            Some(i) => 0 <= i < s.len() && s[i] == c && forall|j: int|
                i < j < s.len() ==> s[j] != c,
            None => forall|j: int| 0 <= j < s.len() ==> s[j] != c,
        },
    decreases s.len(),
{
    if s.len() > 0 && s.last() != c {
        lemma_last_index_of(s.drop_last(), c);
        assert forall|j: int| 0 <= j < s.len() - 1 implies s.drop_last()[j] == s[j] by {}
    }
}

/// Finds the index of the last occurrence of `c` in `v`.
pub fn find_last(v: &Vec<char>, c: char) -> (r: Option<usize>)
    ensures
        match r {
            Some(i) => last_index_of(v@, c) == Some(i as int),
            None => last_index_of(v@, c) is None,
        },
{
    let mut i: usize = v.len();
    assert(v@.subrange(0, v@.len() as int) =~= v@);
    while i > 0
        invariant
            i <= v@.len(),
            last_index_of(v@, c) == last_index_of(v@.subrange(0, i as int), c),
        decreases i,
    {
        i = i - 1;
        if v[i] == c {
            assert(v@.subrange(0, i + 1).last() == c);
            return Some(i);
        }
        assert(v@.subrange(0, i + 1).drop_last() =~= v@.subrange(0, i as int));
    }
    assert(v@.subrange(0, 0).len() == 0);
    None
}

/// The output location of a rendered source document: the same path with
/// extension `.md` exchanged for `.html`, except that a file named
/// `README.md` becomes `index.html` in the same directory.
pub open spec fn spec_markdown_output_path(p: Seq<char>) -> Seq<char> {
    let d = dir_part_len(p);
    if p.skip(d) == "README.md"@ {
        p.take(d) + "index.html"@
    } else {
        p.take(p.len() - 2) + "html"@
    }
}

/// Maps a source document's relative path to its output relative path.
pub fn markdown_output_path(p: &str) -> (r: String)
    requires
        spec_ends_with_md(p@),
    ensures
        r@ == spec_markdown_output_path(p@),
{
    let v = str_to_chars(p);
    let vlen = v.len();
    let d: usize = match find_last(&v, '/') {
        None => 0,
        Some(i) => {
            proof {
                lemma_last_index_of(v@, '/');
            }
            assert(i < vlen);
            i + 1
        },
    };
    let mut file: Vec<char> = Vec::new();
    let mut i: usize = d;
    while i < v.len()
        invariant
            d <= i <= v@.len(),
            file@ == v@.subrange(d as int, i as int),
        decreases v@.len() - i,
    {
        file.push(v[i]);
        i = i + 1;
        assert(file@ =~= v@.subrange(d as int, i as int));
    }
    assert(file@ =~= v@.skip(d as int));
    let readme = str_to_chars("README.md");
    let mut out: Vec<char> = Vec::new();
    if chars_eq(&file, &readme) {
        let mut k: usize = 0;
        while k < d
            invariant
                d <= v@.len(),
                k <= d,
                out@ == v@.subrange(0, k as int),
            decreases d - k,
        {
            out.push(v[k]);
            k = k + 1;
            assert(out@ =~= v@.subrange(0, k as int));
        }
        let index = str_to_chars("index.html");
        crate::text::append_chars(&mut out, &index);
        assert(out@ =~= v@.take(d as int) + "index.html"@);
    } else {
        let keep = v.len() - 2;
        let mut k: usize = 0;
        while k < keep
            invariant
                keep <= v@.len(),
                k <= keep,
                out@ == v@.subrange(0, k as int),
            decreases keep - k,
        {
            out.push(v[k]);
            k = k + 1;
            assert(out@ =~= v@.subrange(0, k as int));
        }
        let html = str_to_chars("html");
        crate::text::append_chars(&mut out, &html);
        assert(out@ =~= v@.take(v@.len() - 2) + "html"@);
    }
    chars_to_string(&out)
}

/// Whether `p` ends in the markdown extension `.md`.
pub open spec fn spec_ends_with_md(p: Seq<char>) -> bool {
    p.len() >= 3 && p.skip(p.len() - 3) == ".md"@
}

/// Decides whether `p` ends in the markdown extension `.md`.
pub fn ends_with_md(p: &str) -> (r: bool)
    ensures
        r == spec_ends_with_md(p@),
{
    let v = str_to_chars(p);
    let pat = str_to_chars(".md");
    proof {
        reveal_strlit(".md");
    }
    let r = ends_with(&v, &pat);
    proof {
        if v@.len() >= 3 {
            assert(v@.subrange(v@.len() - 3, v@.len() as int) =~= v@.skip(v@.len() - 3));
        }
    }
    r
}

/// The containing output directory for a definition: its qualified name
/// split on `::`, with the first segment (the crate) and the last (the
/// item itself) dropped, the remainder joined with `/`.
pub open spec fn spec_name_to_path(n: Seq<char>) -> Seq<char> {
    let segs = split_by(n, "::"@);
    if segs.len() <= 2 {
        Seq::empty()
    } else {
        join_with(segs.subrange(1, segs.len() - 1), "/"@)
    }
}

/// Maps a qualified name to the directory that holds the item's page.
pub fn name_to_path(n: &str) -> (r: String)
    ensures
        r@ == spec_name_to_path(n@),
{
    let v = str_to_chars(n);
    let sep = str_to_chars("::");
    proof {
        reveal_strlit("::");
    }
    let segs = split_chars(&v, &sep);
    let ghost spec_segs = split_by(n@, "::"@);
    if segs.len() <= 2 {
        let r = String::new();
        return r;
    }
    let mut middle: Vec<Vec<char>> = Vec::new();
    let mut j: usize = 1;
    let last = segs.len() - 1;
    while j < last
        invariant
            1 <= j <= last,
            last == segs@.len() - 1,
            segs@.len() == spec_segs.len(),
            forall|k: int| 0 <= k < segs@.len() ==> #[trigger] segs@[k]@ == spec_segs[k],
            middle@.len() == j - 1,
            forall|k: int| 0 <= k < j - 1 ==> #[trigger] middle@[k]@ == spec_segs[1 + k],
        decreases last - j,
    {
        middle.push(copy_chars(&segs[j]));
        j = j + 1;
    }
    let slash = str_to_chars("/");
    proof {
        reveal_strlit("/");
        lemma_chars_deep_view(middle);
        assert(middle.deep_view() =~= spec_segs.subrange(1, spec_segs.len() - 1));
    }
    let joined = join_chars(&middle, &slash);
    chars_to_string(&joined)
}

/// The number of times `c` occurs in `s`.
pub open spec fn count_char(s: Seq<char>, c: char) -> nat
    decreases s.len(),
{
    if s.len() == 0 {
        0
    } else {
        count_char(s.drop_last(), c) + if s.last() == c {
            1nat
        } else {
            0nat
        }
    }
}

/// The count of a character never exceeds the length of the text.
pub proof fn lemma_count_char_le_len(s: Seq<char>, c: char)
    ensures
        count_char(s, c) <= s.len(),
    decreases s.len(),
{
    if s.len() > 0 {
        lemma_count_char_le_len(s.drop_last(), c);
    }
}

/// A text without the character has count zero.
pub proof fn lemma_count_char_absent(s: Seq<char>, c: char)
    requires
        forall|j: int| 0 <= j < s.len() ==> s[j] != c,
    ensures
        count_char(s, c) == 0,
    decreases s.len(),
{
    if s.len() > 0 {
        assert(forall|j: int| 0 <= j < s.len() - 1 ==> s.drop_last()[j] == s[j]);
        lemma_count_char_absent(s.drop_last(), c);
    }
}

/// Counting a character distributes over concatenation.
pub proof fn lemma_count_char_concat(a: Seq<char>, b: Seq<char>, c: char)
    ensures
        count_char(a + b, c) == count_char(a, c) + count_char(b, c),
    decreases b.len(),
{
    if b.len() == 0 {
        assert(a + b =~= a);
    } else {
        lemma_count_char_concat(a, b.drop_last(), c);
        assert((a + b).drop_last() =~= a + b.drop_last());
        assert((a + b).last() == b.last());
    }
}

/// The nesting depth of a rendered page: the number of directory levels
/// its output-relative path sits below the output root, plus one more
/// level when a non-empty base path is configured. It drives how many
/// `../` steps a page needs for root-relative links.
pub open spec fn spec_page_nesting(output_rel: Seq<char>, base_url: Seq<char>) -> nat {
    count_char(output_rel, '/') + if base_url.len() > 0 {
        1nat
    } else {
        0nat
    }
}

/// Computes the nesting depth of a page from its output-relative path
/// and the configured base path.
pub fn page_nesting(output_rel: &str, base_url: &str) -> (r: usize)
    requires
        spec_page_nesting(output_rel@, base_url@) <= usize::MAX,
    ensures
        r == spec_page_nesting(output_rel@, base_url@),
{
    let v = str_to_chars(output_rel);
    proof {
        lemma_count_char_le_len(v@, '/');
    }
    let mut n: usize = 0;
    let mut i: usize = 0;
    while i < v.len()
        invariant
            i <= v@.len(),
            n == count_char(v@.subrange(0, i as int), '/'),
            count_char(v@.subrange(0, i as int), '/') <= i,
        decreases v@.len() - i,
    {
        proof {
            assert(v@.subrange(0, i + 1).drop_last() =~= v@.subrange(0, i as int));
        }
        if v[i] == '/' {
            n = n + 1;
        }
        i = i + 1;
    }
    assert(v@.subrange(0, v@.len() as int) =~= v@);
    if base_url.unicode_len() > 0 {
        n + 1
    } else {
        n
    }
}

/// The relative prefix that climbs `n` directory levels: `../` written
/// `n` times.
pub open spec fn spec_up_dir(n: nat) -> Seq<char>
    decreases n,
{
    if n == 0 {
        Seq::empty()
    } else {
        spec_up_dir((n - 1) as nat) + "../"@
    }
}

/// The `../` prefix for a page at the given nesting depth.
pub fn up_dir_prefix(n: usize) -> (r: String)
    ensures
        r@ == spec_up_dir(n as nat),
{
    let step = str_to_chars("../");
    let mut out: Vec<char> = Vec::new();
    let mut i: usize = 0;
    while i < n
        invariant
            i <= n,
            step@ == "../"@,
            out@ == spec_up_dir(i as nat),
        decreases n - i,
    {
        crate::text::append_chars(&mut out, &step);
        i = i + 1;
    }
    chars_to_string(&out)
}

/// Two path parts joined with `/`; an empty part yields the other part
/// alone.
pub open spec fn spec_path_join(a: Seq<char>, b: Seq<char>) -> Seq<char> {
    if a.len() == 0 {
        b
    } else if b.len() == 0 {
        a
    } else {
        a + "/"@ + b
    }
}

/// Joins two relative path parts.
pub fn path_join(a: &str, b: &str) -> (r: String)
    ensures
        r@ == spec_path_join(a@, b@),
{
    let mut out = str_to_chars(a);
    let bv = str_to_chars(b);
    if out.len() == 0 {
        return chars_to_string(&bv);
    }
    if bv.len() == 0 {
        return chars_to_string(&out);
    }
    let slash = str_to_chars("/");
    proof {
        reveal_strlit("/");
    }
    crate::text::append_chars(&mut out, &slash);
    crate::text::append_chars(&mut out, &bv);
    assert(out@ =~= a@ + "/"@ + b@);
    chars_to_string(&out)
}

} // verus!
