//! Conversions between strings and character vectors, and comparisons of
//! character sequences.
//!
//! Every algorithm of this crate is stated over `Seq<char>`, the view of a
//! string, and runs on a `Vec<char>` or a slice of it.

use vstd::prelude::*;

verus! {

/// `String::push` appends one character at the end of the string and leaves
/// the characters before it as they were. The standard library documents
/// this; vstd does not state it, so it is assumed here and not proved.
pub assume_specification[ String::push ](s: &mut String, c: char)
    ensures
        final(s)@ == old(s)@.push(c),
;

/// The characters of `s`, in order.
pub fn chars_of(s: &str) -> (v: Vec<char>)
    ensures
        v@ == s@,
{
    let mut v: Vec<char> = Vec::new();
    for c in it: s.chars()
        invariant
            it.seq() == s@,
            v@ == it.seq().take(it.index()),
    {
        v.push(c);
    }
    v
}

/// The string made of the characters `v[from..to]`.
pub fn string_of_range(v: &[char], from: usize, to: usize) -> (s: String)
    requires
        from <= to <= v.len(),
    ensures
        s@ == v@.subrange(from as int, to as int),
{
    let mut s = String::new();
    let mut i: usize = from;
    while i < to
        invariant
            from <= i <= to <= v.len(),
            s@ == v@.subrange(from as int, i as int),
        decreases to - i,
    {
        s.push(v[i]);
        i += 1;
    }
    s
}

/// The string made of the characters of `v`.
pub fn string_of(v: &[char]) -> (s: String)
    ensures
        s@ == v@,
{
    string_of_range(v, 0, v.len())
}

/// Whether `a` and `b` hold the same characters.
pub fn same_chars(a: &[char], b: &[char]) -> (r: bool)
    ensures
        r == (a@ == b@),
{
    if a.len() != b.len() {
        return false;
    }
    let mut i: usize = 0;
    while i < a.len()
        invariant
            i <= a.len() == b.len(),
            a@.take(i as int) == b@.take(i as int),
        decreases a.len() - i,
    {
        if a[i] != b[i] {
            return false;
        }
        assert(a@.take(i + 1) == a@.take(i as int).push(a@[i as int]));
        assert(b@.take(i + 1) == b@.take(i as int).push(b@[i as int]));
        i += 1;
    }
    assert(a@ == a@.take(a.len() as int));
    assert(b@ == b@.take(b.len() as int));
    true
}

/// Whether `a` begins with the characters of `prefix`.
pub fn begins_with(a: &[char], prefix: &[char]) -> (r: bool)
    ensures
        r == prefix@.is_prefix_of(a@),
{
    if prefix.len() > a.len() {
        return false;
    }
    same_chars(vstd::slice::slice_subrange(a, 0, prefix.len()), prefix)
}

/// Whether `a` is the text `literal`.
pub fn is_text(a: &[char], literal: &str) -> (r: bool)
    ensures
        r == (a@ == literal@),
{
    let l = chars_of(literal);
    same_chars(a, l.as_slice())
}

/// Whether `a` begins with the text `literal`.
pub fn begins_with_text(a: &[char], literal: &str) -> (r: bool)
    ensures
        r == literal@.is_prefix_of(a@),
{
    let l = chars_of(literal);
    begins_with(a, l.as_slice())
}

/// The index of the first `c` in `s` at or after `from`, or the length of
/// `s` where there is none.
pub open spec fn find_char(s: Seq<char>, c: char, from: int) -> int
    decreases s.len() - from,
{
    if 0 <= from < s.len() {
        if s[from] == c {
            from
        } else {
            find_char(s, c, from + 1)
        }
    } else {
        s.len() as int
    }
}

/// `find_char` gives an index from `from` to the length of `s`; no `c`
/// stands before it, and `c` stands at it unless it is the length.
pub proof fn lemma_find_char(s: Seq<char>, c: char, from: int)
    requires
        0 <= from <= s.len(),
    ensures
        from <= find_char(s, c, from) <= s.len(),
        forall|i: int| from <= i < find_char(s, c, from) ==> #[trigger] s[i] != c,
        find_char(s, c, from) < s.len() ==> s[find_char(s, c, from)] == c,
    decreases s.len() - from,
{
    if from < s.len() && s[from] != c {
        lemma_find_char(s, c, from + 1);
    }
}

/// The index of the first `c` in `s` at or after `from`, or the length of `s`.
pub fn find_char_from(s: &[char], c: char, from: usize) -> (at: usize)
    requires
        from <= s.len(),
    ensures
        at == find_char(s@, c, from as int),
        from <= at <= s.len(),
{
    let mut i: usize = from;
    while i < s.len() && s[i] != c
        invariant
            from <= i <= s.len(),
            find_char(s@, c, i as int) == find_char(s@, c, from as int),
        decreases s.len() - i,
    {
        i += 1;
    }
    i
}

/// Appends `text` to `list`.
pub fn push_text(list: &mut Vec<String>, text: String)
    ensures
        final(list).deep_view() == old(list).deep_view().push(text@),
{
    list.push(text);
    assert(list.deep_view() =~= old(list).deep_view().push(text@));
}

} // verus!
