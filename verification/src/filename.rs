//! The file name deriver: the name under which a URL is saved where the
//! user gave none, and the encoding of the spaces of a URL.

use vstd::prelude::*;
use vstd::slice::slice_subrange;
use crate::command::Wcurl;
use crate::percent::{
    is_unsafe_char,
    lemma_decoding_is_safe,
    percent_decode_chars,
    percent_decoded,
};
use crate::text::{chars_of, find_char, find_char_from, string_of};

verus! {

/// What one character of a URL becomes: a space becomes `%20`, any other
/// character stays.
pub open spec fn encoded_char(c: char) -> Seq<char> {
    if c == ' ' {
        seq!['%', '2', '0']
    } else {
        seq![c]
    }
}

/// `url` with each of its spaces replaced by `%20`.
pub open spec fn whitespace_encoded(url: Seq<char>) -> Seq<char>
    decreases url.len(),
{
    if url.len() == 0 {
        url
    } else {
        whitespace_encoded(url.drop_last()) + encoded_char(url.last())
    }
}

/// An encoded URL holds no space.
pub proof fn lemma_encoded_has_no_space(url: Seq<char>)
    ensures
        !whitespace_encoded(url).contains(' '),
    decreases url.len(),
{
    if url.len() > 0 {
        lemma_encoded_has_no_space(url.drop_last());
        let head = whitespace_encoded(url.drop_last());
        let all = whitespace_encoded(url);
        assert forall|i: int| 0 <= i < all.len() implies all[i] != ' ' by {
            if i < head.len() {
                assert(head[i] == all[i]);
            } else {
                assert(all[i] == encoded_char(url.last())[i - head.len()]);
            }
        }
    }
}

/// Whether `://` stands at `url[at]`.
pub open spec fn is_scheme_mark_at(url: Seq<char>, at: int) -> bool {
    &&& 0 <= at
    &&& at + 3 <= url.len()
    &&& url[at] == ':'
    &&& url[at + 1] == '/'
    &&& url[at + 2] == '/'
}

/// The index of the first `://` in `url` at or after `from`, or the length
/// of `url` where there is none.
pub open spec fn find_scheme_mark(url: Seq<char>, from: int) -> int
    decreases url.len() - from,
{
    if 0 <= from < url.len() {
        if is_scheme_mark_at(url, from) {
            from
        } else {
            find_scheme_mark(url, from + 1)
        }
    } else {
        url.len() as int
    }
}

/// `find_scheme_mark` gives an index from `from` to the length of `url`; no
/// `://` stands before it, and one stands at it unless it is the length.
pub proof fn lemma_find_scheme_mark(url: Seq<char>, from: int)
    requires
        0 <= from <= url.len(),
    ensures
        from <= find_scheme_mark(url, from) <= url.len(),
        forall|i: int| from <= i < find_scheme_mark(url, from) ==> !is_scheme_mark_at(url, i),
        find_scheme_mark(url, from) < url.len() ==> is_scheme_mark_at(
            url,
            find_scheme_mark(url, from),
        ),
    decreases url.len() - from,
{
    if from < url.len() && !is_scheme_mark_at(url, from) {
        lemma_find_scheme_mark(url, from + 1);
    }
}

/// `url` without its scheme: what follows the first `://`, or all of `url`
/// where it holds none.
pub open spec fn without_scheme(url: Seq<char>) -> Seq<char> {
    let mark = find_scheme_mark(url, 0);
    if mark < url.len() {
        url.skip(mark + 3)
    } else {
        url
    }
}

/// `s` without its query: what stands before the first `?`.
pub open spec fn without_query(s: Seq<char>) -> Seq<char> {
    s.take(find_char(s, '?', 0))
}

/// The index of the last `c` in `s[..before]`, or -1 where there is none.
pub open spec fn find_last_char(s: Seq<char>, c: char, before: int) -> int
    decreases before,
{
    if 0 < before <= s.len() {
        if s[before - 1] == c {
            before - 1
        } else {
            find_last_char(s, c, before - 1)
        }
    } else {
        -1
    }
}

/// `find_last_char` gives an index below `before`, or -1; no `c` stands
/// after it in `s[..before]`, and `c` stands at it unless it is -1.
pub proof fn lemma_find_last_char(s: Seq<char>, c: char, before: int)
    requires
        0 <= before <= s.len(),
    ensures
        -1 <= find_last_char(s, c, before) < before,
        forall|i: int| find_last_char(s, c, before) < i < before ==> #[trigger] s[i] != c,
        find_last_char(s, c, before) >= 0 ==> s[find_last_char(s, c, before)] == c,
    decreases before,
{
    if 0 < before && s[before - 1] != c {
        lemma_find_last_char(s, c, before - 1);
    }
}

/// The host and path of `url`: `url` without its scheme and its query.
pub open spec fn host_and_path(url: Seq<char>) -> Seq<char> {
    without_query(without_scheme(url))
}

/// What follows the last `/` in the host and path of `url`.
pub open spec fn last_segment(url: Seq<char>) -> Seq<char> {
    let path = host_and_path(url);
    path.skip(find_last_char(path, '/', path.len() as int) + 1)
}

/// The file name that `url` gives. It is empty where the host and path hold
/// no `/`, where `url` ends with `/`, and where nothing follows the last
/// `/` of the host and path. Else it is what follows that `/`, decoded if
/// `decode` is set.
pub open spec fn url_filename(url: Seq<char>, decode: bool) -> Seq<char> {
    let path = host_and_path(url);
    if find_last_char(path, '/', path.len() as int) < 0 || url.last() == '/' {
        Seq::empty()
    } else if decode {
        percent_decoded(last_segment(url))
    } else {
        last_segment(url)
    }
}

/// The file name that a URL gives never holds a path separator `/`, so it
/// names a file in the directory where the download runs.
pub proof fn lemma_filename_has_no_slash(url: Seq<char>, decode: bool)
    ensures
        !url_filename(url, decode).contains('/'),
{
    let path = host_and_path(url);
    let last = find_last_char(path, '/', path.len() as int);
    let name = last_segment(url);
    lemma_find_last_char(path, '/', path.len() as int);
    assert forall|i: int| 0 <= i < name.len() implies name[i] != '/' by {
        assert(name[i] == path[last + 1 + i]);
    }
    if url_filename(url, decode).contains('/') {
        assert(is_unsafe_char('/'));
        if last >= 0 && url.last() != '/' && decode {
            lemma_decoding_is_safe(name, '/');
        }
        assert(name.contains('/'));
    }
}

/// The index of the first `://` in `url` at or after `from`, or the length
/// of `url`.
fn find_scheme_mark_from(url: &[char], from: usize) -> (at: usize)
    requires
        from <= url.len(),
    ensures
        at == find_scheme_mark(url@, from as int),
        from <= at <= url.len(),
        at < url.len() ==> at + 3 <= url.len(),
{
    let mut i: usize = from;
    while i < url.len()
        invariant
            from <= i <= url.len(),
            find_scheme_mark(url@, i as int) == find_scheme_mark(url@, from as int),
        decreases url.len() - i,
    {
        if url.len() - i >= 3 && url[i] == ':' && url[i + 1] == '/' && url[i + 2] == '/' {
            return i;
        }
        i += 1;
    }
    i
}

/// One more than the index of the last `c` in `s`, or 0 where there is none.
fn after_last_char(s: &[char], c: char) -> (after: usize)
    ensures
        after == find_last_char(s@, c, s.len() as int) + 1,
        after <= s.len(),
{
    let mut i: usize = s.len();
    while i > 0 && s[i - 1] != c
        invariant
            i <= s.len(),
            find_last_char(s@, c, i as int) == find_last_char(s@, c, s.len() as int),
        decreases i,
    {
        i -= 1;
    }
    i
}

impl Wcurl {
    /// `url` with each of its spaces replaced by `%20`.
    pub fn encode_whitespace(url: &str) -> (encoded: String)
        ensures
            encoded@ == whitespace_encoded(url@),
    {
        let mut encoded = String::new();
        for c in it: url.chars()
            invariant
                it.seq() == url@,
                encoded@ == whitespace_encoded(it.seq().take(it.index())),
        {
            proof {
                let done = it.seq().take(it.index() + 1);
                assert(done.drop_last() == it.seq().take(it.index()));
                assert(done.last() == c);
            }
            if c == ' ' {
                encoded.push('%');
                encoded.push('2');
                encoded.push('0');
            } else {
                encoded.push(c);
            }
            assert(encoded@ =~= whitespace_encoded(it.seq().take(it.index())) + encoded_char(c));
        }
        assert(url@.take(url@.len() as int) == url@);
        encoded
    }

    /// The name of the file in which `url` is saved, or the empty string
    /// where `url` names none and the caller has to pick one.
    ///
    /// The scheme (all up to the first `://`) and the query (all from the
    /// first `?` after it) do not count. The name is empty where no `/`
    /// is left, where `url` ends with `/`, and where nothing follows the
    /// last `/`. Else it is what follows the last `/`, with its escapes
    /// decoded as [`Wcurl::percent_decode_filename`] does if
    /// `decode_filename` is set.
    pub fn get_url_filename(url: &str, decode_filename: bool) -> (filename: String)
        ensures
            filename@ == url_filename(url@, decode_filename),
    {
        let u = chars_of(url);
        let mark = find_scheme_mark_from(u.as_slice(), 0);
        let start = if mark < u.len() {
            mark + 3
        } else {
            0
        };
        let rest = slice_subrange(u.as_slice(), start, u.len());
        assert(rest@ == without_scheme(url@));
        let query = find_char_from(rest, '?', 0);
        let path = slice_subrange(rest, 0, query);
        assert(path@ == host_and_path(url@));
        let after = after_last_char(path, '/');
        if after == 0 || u[u.len() - 1] == '/' {
            return String::new();
        }
        let name = slice_subrange(path, after, path.len());
        assert(name@ == last_segment(url@));
        if decode_filename {
            percent_decode_chars(name)
        } else {
            string_of(name)
        }
    }
}

} // verus!
