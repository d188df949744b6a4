//! A static documentation site generator: it turns a flat, id-indexed
//! graph of declaration records into a browsable tree of rendered pages,
//! keeps the rendered output in sync with its sources, and reconciles
//! stale artifacts left over from earlier builds.

use vstd::prelude::*;

pub use crate::config::Config;

pub mod api;
pub mod cargo;
pub mod config;
pub mod defs;
pub mod error;
pub mod pages;
pub mod paths;
pub mod reconcile;
pub mod render;
pub mod skeleton;
pub mod supervisor;
pub mod text;
pub mod tree;
pub mod ui;
pub mod walker;

use crate::text::{
    chars_to_string, copy_chars, join_chars, join_with, lemma_chars_deep_view, split_by,
    split_chars, str_to_chars,
};

verus! {

/// One line with a single leading space removed; a line that does not
/// start with a space (a blank line among them) is kept as it is.
pub open spec fn strip_line(l: Seq<char>) -> Seq<char> {
    if l.len() > 0 && l[0] == ' ' {
        l.drop_first()
    } else {
        l
    }
}

/// The lines of `s`, split on newlines; a single trailing newline ends
/// the last line rather than opening an empty one.
pub open spec fn lines_of(s: Seq<char>) -> Seq<Seq<char>> {
    if s.len() > 0 && s.last() == '\n' {
        split_by(s.drop_last(), seq!['\n'])
    } else {
        split_by(s, seq!['\n'])
    }
}

/// The text with one leading space removed from every line.
pub open spec fn spec_strip_leading_space(s: Seq<char>) -> Seq<char> {
    if s.len() == 0 {
        s
    } else {
        join_with(lines_of(s).map_values(|l: Seq<char>| strip_line(l)), seq!['\n'])
    }
}

/// One line with a single leading space removed.
fn strip_one_line(l: &Vec<char>) -> (r: Vec<char>)
    ensures
        r@ == strip_line(l@),
{
    if l.len() > 0 && l[0] == ' ' {
        let mut r: Vec<char> = Vec::new();
        let mut i: usize = 1;
        while i < l.len()
            invariant
                1 <= i <= l@.len(),
                r@ == l@.subrange(1, i as int),
            decreases l@.len() - i,
        {
            r.push(l[i]);
            i = i + 1;
            assert(r@ =~= l@.subrange(1, i as int));
        }
        assert(r@ =~= l@.drop_first());
        r
    } else {
        copy_chars(l)
    }
}

/// This removes the first space from each line of its input.
///
/// Documentation text arrives with the space that separated the comment
/// marker from the words still attached to every line, so each rendered
/// page would otherwise be indented by one column.
pub fn strip_leading_space(s: &str) -> (r: String)
    ensures
        r@ == spec_strip_leading_space(s@),
{
    let mut v = str_to_chars(s);
    if v.len() == 0 {
        let r = String::new();
        return r;
    }
    if v[v.len() - 1] == '\n' {
        v.pop();
        assert(v@ =~= s@.drop_last());
    }
    let mut newline: Vec<char> = Vec::new();
    newline.push('\n');
    assert(newline@ =~= seq!['\n']);
    let parts = split_chars(&v, &newline);
    let ghost lines = lines_of(s@);
    proof {
        assert(lines =~= split_by(v@, seq!['\n']));
    }
    let mut stripped: Vec<Vec<char>> = Vec::new();
    let mut j: usize = 0;
    while j < parts.len()
        invariant
            j <= parts@.len(),
            parts@.len() == lines.len(),
            forall|k: int| 0 <= k < parts@.len() ==> #[trigger] parts@[k]@ == lines[k],
            stripped@.len() == j,
            forall|k: int| 0 <= k < j ==> #[trigger] stripped@[k]@ == strip_line(lines[k]),
        decreases parts@.len() - j,
    {
        stripped.push(strip_one_line(&parts[j]));
        j = j + 1;
    }
    let joined = join_chars(&stripped, &newline);
    proof {
        lemma_chars_deep_view(stripped);
        assert(stripped.deep_view() =~= lines.map_values(|l: Seq<char>| strip_line(l)));
    }
    chars_to_string(&joined)
}

} // verus!
