use vstd::prelude::*;
use crate::text::{strip_quotes, unquoted};

verus! {

/// The characters with the Unicode White_Space property.
pub open spec fn is_white_space(c: char) -> bool {
    ('\u{9}' <= c && c <= '\u{d}') || c == ' ' || c == '\u{85}' || c == '\u{a0}' || c
        == '\u{1680}' || ('\u{2000}' <= c && c <= '\u{200a}') || c == '\u{2028}' || c
        == '\u{2029}' || c == '\u{202f}' || c == '\u{205f}' || c == '\u{3000}'
}

/// Relies on `char::is_whitespace`, which holds exactly of the characters with
/// the Unicode White_Space property.
#[verifier::external_body]
fn white_space(c: char) -> (r: bool)
    ensures
        r == is_white_space(c),
{
    c.is_whitespace()
}

/// `s` without the white space at its end.
pub open spec fn trimmed_end(s: Seq<char>) -> Seq<char>
    decreases s.len(),
{
    if s.len() > 0 && is_white_space(s.last()) {
        trimmed_end(s.drop_last())
    } else {
        s
    }
}

/// The pieces of `s` between line breaks, in order: one more than the line breaks.
pub open spec fn lines(s: Seq<char>) -> Seq<Seq<char>>
    decreases s.len(),
{
    if s.len() == 0 {
        seq![Seq::<char>::empty()]
    } else if s.last() == '\n' {
        lines(s.drop_last()).push(Seq::<char>::empty())
    } else {
        let l = lines(s.drop_last());
        l.update(l.len() - 1, l.last().push(s.last()))
    }
}

/// The entries that the store prints for a directory: quotes removed, white
/// space at the end trimmed, one entry per line.
pub open spec fn listing_of(s: Seq<char>) -> Seq<Seq<char>> {
    lines(trimmed_end(unquoted(s)))
}

/// The entry that the store may print after the last child of a directory.
pub open spec fn sentinel() -> Seq<char> {
    "list"@
}

/// `v` without a last entry that is the sentinel.
pub open spec fn without_sentinel(v: Seq<Seq<char>>) -> Seq<Seq<char>> {
    if v.len() > 0 && v.last() == sentinel() {
        v.drop_last()
    } else {
        v
    }
}

/// Removes the white space at the end of `s`.
pub fn trim_end(s: &str) -> (r: &str)
    ensures
        r@ == trimmed_end(s@),
{
    let n = s.unicode_len();
    let mut j: usize = n;
    let mut done = false;
    assert(s@.subrange(0, n as int) =~= s@);
    while j > 0 && !done
        invariant
            j <= n,
            n == s@.len(),
            trimmed_end(s@) == trimmed_end(s@.subrange(0, j as int)),
            done ==> j > 0 && !is_white_space(s@[j - 1]),
        decreases j + if done { 0int } else { 1int },
    {
        if white_space(s.get_char(j - 1)) {
            assert(s@.subrange(0, j as int).drop_last() =~= s@.subrange(0, j - 1));
            j = j - 1;
        } else {
            done = true;
        }
    }
    assert(s@.subrange(0, n as int) =~= s@);
    s.substring_char(0, j)
}

/// Splits `s` at each line break.
pub fn split_lines(s: &str) -> (r: Vec<String>)
    ensures
        r.deep_view() == lines(s@),
{
    let n = s.unicode_len();
    let mut pieces: Vec<String> = Vec::new();
    let mut current = String::new();
    let mut i: usize = 0;
    assert(s@.subrange(0, 0) =~= Seq::<char>::empty());
    assert(pieces.deep_view().push(current@) =~= lines(Seq::<char>::empty()));
    while i < n
        invariant
            i <= n,
            n == s@.len(),
            pieces.deep_view().push(current@) == lines(s@.subrange(0, i as int)),
        decreases n - i,
    {
        let c = s.get_char(i);
        let ghost before = s@.subrange(0, i as int);
        let ghost old_pieces = pieces.deep_view();
        let ghost old_current = current@;
        proof {
            let p = s@.subrange(0, i + 1);
            assert(p.drop_last() =~= before);
            assert(p.last() == c);
        }
        if c == '\n' {
            pieces.push(current);
            current = String::new();
            assert(pieces.deep_view() =~= old_pieces.push(old_current));
            assert(pieces.deep_view().push(current@) =~= lines(before).push(Seq::<char>::empty()));
        } else {
            current.append(s.substring_char(i, i + 1));
            assert(s@.subrange(i as int, i + 1) =~= seq![c]);
            assert(current@ =~= old_current.push(c));
            assert(lines(before) == old_pieces.push(old_current));
            assert(pieces.deep_view().push(current@) =~= lines(before).update(
                lines(before).len() - 1,
                lines(before).last().push(c),
            ));
        }
        i = i + 1;
    }
    let ghost old_pieces = pieces.deep_view();
    pieces.push(current);
    assert(pieces.deep_view() =~= old_pieces.push(current@));
    assert(s@.subrange(0, n as int) =~= s@);
    pieces
}

/// The entries of a directory listing as the store printed it.
pub fn split_listing(stdout: &str) -> (r: Vec<String>)
    ensures
        r.deep_view() == listing_of(stdout@),
{
    let unquoted_text = strip_quotes(stdout);
    split_lines(trim_end(unquoted_text.as_str()))
}

/// Drops a last entry that is the sentinel; keeps every other entry in order.
pub fn drop_sentinel(values: Vec<String>) -> (r: Vec<String>)
    ensures
        r.deep_view() == without_sentinel(values.deep_view()),
{
    let mut values = values;
    let n = values.len();
    if n > 0 {
        let sentinel_text = String::from_str("list");
        proof {
            reveal_strlit("list");
        }
        if values[n - 1] == sentinel_text {
            let ghost before = values.deep_view();
            values.pop();
            assert(values.deep_view() =~= before.drop_last());
        }
    }
    values
}

} // verus!
