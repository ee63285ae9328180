//! The capability prober: from the text of `curl --version` to the set of
//! features that the installed curl supports.
//!
//! A text in which no version can be read gives the empty set: the program
//! then uses the fewest features.

use vstd::prelude::*;
use crate::command::Wcurl;
use crate::text::{chars_of, find_char, find_char_from, is_text, lemma_find_char};

verus! {

/// What the installed curl supports.
#[derive(Debug, Clone, Copy, PartialEq, Eq, Structural)]
pub struct CurlFeatures {
    /// `--no-clobber`: never overwrite a file.
    pub supports_no_clobber: bool,
    /// `--parallel`: several transfers at once.
    pub supports_parallel: bool,
    /// `--parallel-max-host`: a limit of transfers for each host.
    pub supports_parallel_max_host: bool,
}

/// The features of curl `major`.`minor`.
pub open spec fn features_of_version(major: u32, minor: u32) -> CurlFeatures {
    CurlFeatures {
        supports_no_clobber: (major == 7 && minor >= 83) || major >= 8,
        supports_parallel: (major == 7 && minor >= 66) || major >= 8,
        supports_parallel_max_host: major >= 8 && minor >= 16,
    }
}

/// The empty set of features.
pub open spec fn no_features() -> CurlFeatures {
    CurlFeatures {
        supports_no_clobber: false,
        supports_parallel: false,
        supports_parallel_max_host: false,
    }
}

/// Whether `c` is white space as Unicode defines it (`White_Space`).
pub open spec fn is_whitespace(c: char) -> bool {
    ||| '\u{9}' <= c <= '\u{d}'
    ||| c == ' '
    ||| c == '\u{85}'
    ||| c == '\u{a0}'
    ||| c == '\u{1680}'
    ||| '\u{2000}' <= c <= '\u{200a}'
    ||| c == '\u{2028}'
    ||| c == '\u{2029}'
    ||| c == '\u{202f}'
    ||| c == '\u{205f}'
    ||| c == '\u{3000}'
}

/// Whether `c` is one of the digits `0` to `9`.
pub open spec fn is_digit(c: char) -> bool {
    '0' <= c <= '9'
}

/// Whether `s` holds digits only. The empty sequence does.
pub open spec fn all_digits(s: Seq<char>) -> bool {
    forall|i: int| 0 <= i < s.len() ==> is_digit(#[trigger] s[i])
}

/// Where the word that starts at `from` ends: the index of the first white
/// space at or after `from`, or the length of `text`.
pub open spec fn word_end(text: Seq<char>, from: int) -> int
    decreases text.len() - from,
{
    if 0 <= from < text.len() && !is_whitespace(text[from]) {
        word_end(text, from + 1)
    } else {
        from
    }
}

/// A word that starts inside the text ends after its start and inside the
/// text, and holds no white space.
pub proof fn lemma_word_end(text: Seq<char>, from: int)
    requires
        0 <= from <= text.len(),
    ensures
        from <= word_end(text, from) <= text.len(),
        from < text.len() && !is_whitespace(text[from]) ==> from < word_end(text, from),
        forall|i: int| from <= i < word_end(text, from) ==> !is_whitespace(#[trigger] text[i]),
        word_end(text, from) < text.len() ==> is_whitespace(text[word_end(text, from)]),
    decreases text.len() - from,
{
    if from < text.len() && !is_whitespace(text[from]) {
        lemma_word_end(text, from + 1);
    }
}

/// The words of `text[from..]`: its longest runs of characters that are no
/// white space, in order.
pub open spec fn words_from(text: Seq<char>, from: int) -> Seq<Seq<char>>
    decreases text.len() - from,
{
    if 0 <= from < text.len() {
        if is_whitespace(text[from]) {
            words_from(text, from + 1)
        } else {
            let end = word_end(text, from);
            proof {
                lemma_word_end(text, from);
            }
            seq![text.subrange(from, end)] + words_from(text, end)
        }
    } else {
        Seq::empty()
    }
}

/// Whether `w` is one character or more and holds no white space.
pub open spec fn is_word(w: Seq<char>) -> bool {
    w.len() > 0 && forall|i: int| 0 <= i < w.len() ==> !is_whitespace(#[trigger] w[i])
}

/// Every word of a text is one character or more and holds no white space.
pub proof fn lemma_words_hold_no_whitespace(text: Seq<char>, from: int)
    ensures
        forall|k: int| 0 <= k < words_from(text, from).len() ==> is_word(words_from(text, from)[k]),
    decreases text.len() - from,
{
    let ws = words_from(text, from);
    if 0 <= from < text.len() {
        if is_whitespace(text[from]) {
            lemma_words_hold_no_whitespace(text, from + 1);
            assert(ws == words_from(text, from + 1));
        } else {
            let end = word_end(text, from);
            let first = text.subrange(from, end);
            let rest = words_from(text, end);
            lemma_word_end(text, from);
            lemma_words_hold_no_whitespace(text, end);
            assert(ws == seq![first] + rest);
            assert forall|i: int| 0 <= i < first.len() implies !is_whitespace(
                #[trigger] first[i],
            ) by {
                assert(first[i] == text[from + i]);
            }
            assert(is_word(first));
            assert forall|k: int| 0 <= k < ws.len() implies is_word(ws[k]) by {
                if k > 0 {
                    assert(ws[k] == rest[k - 1]);
                } else {
                    assert(ws[k] == first);
                }
            }
        }
    } else {
        assert(ws.len() == 0);
    }
}

/// The words of `text`, as white space separates them.
pub open spec fn words(text: Seq<char>) -> Seq<Seq<char>> {
    words_from(text, 0)
}

/// The first of the groups that the dots of `w` separate.
pub open spec fn major_group(w: Seq<char>) -> Seq<char> {
    w.subrange(0, find_char(w, '.', 0))
}

/// The second of the groups that the dots of `w` separate, where `w` holds
/// a dot.
pub open spec fn minor_group(w: Seq<char>) -> Seq<char> {
    let dot = find_char(w, '.', 0);
    w.subrange(dot + 1, find_char(w, '.', dot + 1))
}

/// Whether the dots of `w` separate at least two groups of which the first
/// two hold digits only.
pub open spec fn has_version_shape(w: Seq<char>) -> bool {
    &&& find_char(w, '.', 0) < w.len()
    &&& all_digits(major_group(w))
    &&& all_digits(minor_group(w))
}

/// Whether `w` begins with a digit and has the shape of a version.
pub open spec fn is_version_word(w: Seq<char>) -> bool {
    w.len() > 0 && is_digit(w[0]) && has_version_shape(w)
}

/// The first word of `ws[from..]` that begins with a digit and has the
/// shape of a version.
pub open spec fn first_version_word(ws: Seq<Seq<char>>, from: int) -> Option<Seq<char>>
    decreases ws.len() - from,
{
    if 0 <= from < ws.len() {
        if is_version_word(ws[from]) {
            Some(ws[from])
        } else {
            first_version_word(ws, from + 1)
        }
    } else {
        None
    }
}

/// The first word of `ws[from + 1..]` that has the shape of a version and
/// follows the word `curl`.
pub open spec fn version_after_curl(ws: Seq<Seq<char>>, from: int) -> Option<Seq<char>>
    decreases ws.len() - from,
{
    if 0 <= from && from + 1 < ws.len() {
        if ws[from] == "curl"@ && has_version_shape(ws[from + 1]) {
            Some(ws[from + 1])
        } else {
            version_after_curl(ws, from + 1)
        }
    } else {
        None
    }
}

/// The word of `ws` in which the version is read: the first that begins
/// with a digit and has the shape of a version; where there is none, the
/// first with that shape that follows the word `curl`.
pub open spec fn version_word(ws: Seq<Seq<char>>) -> Option<Seq<char>> {
    match first_version_word(ws, 0) {
        Some(w) => Some(w),
        None => version_after_curl(ws, 0),
    }
}

/// The value of the digit `c`.
pub open spec fn digit_value(c: char) -> nat {
    if is_digit(c) {
        (c as int - '0' as int) as nat
    } else {
        0
    }
}

/// The number that the digits `s` denote in base ten.
pub open spec fn decimal(s: Seq<char>) -> nat
    decreases s.len(),
{
    if s.len() == 0 {
        0
    } else {
        decimal(s.drop_last()) * 10 + digit_value(s.last())
    }
}

/// The number that `s` denotes, where `s` is one digit or more and the
/// number fits in 32 bits.
pub open spec fn decimal_u32(s: Seq<char>) -> Option<u32> {
    if s.len() > 0 && all_digits(s) && decimal(s) <= u32::MAX {
        Some(decimal(s) as u32)
    } else {
        None
    }
}

/// The major and minor number of the version `w`, where `w` holds a dot and
/// both numbers can be read.
pub open spec fn version_numbers(w: Seq<char>) -> Option<(u32, u32)> {
    if find_char(w, '.', 0) < w.len() {
        match (decimal_u32(major_group(w)), decimal_u32(minor_group(w))) {
            (Some(major), Some(minor)) => Some((major, minor)),
            _ => None,
        }
    } else {
        None
    }
}

/// The features that the version word `found` gives.
pub open spec fn features_of_word(found: Option<Seq<char>>) -> CurlFeatures {
    match found {
        Some(w) => match version_numbers(w) {
            Some((major, minor)) => features_of_version(major, minor),
            None => no_features(),
        },
        None => no_features(),
    }
}

/// The features of the curl whose version report is `text`: those of the
/// version that is read in its version word, and none where there is no
/// such word or no version can be read in it.
pub open spec fn curl_features(text: Seq<char>) -> CurlFeatures {
    features_of_word(version_word(words(text)))
}

/// Where `first_version_word` finds nothing in `ws[from..]`, no word there
/// begins with a digit and has the shape of a version.
proof fn lemma_no_version_word(ws: Seq<Seq<char>>, from: int, at: int)
    requires
        0 <= from <= at < ws.len(),
        first_version_word(ws, from) is None,
    ensures
        !is_version_word(ws[at]),
    decreases ws.len() - from,
{
    if from < at {
        lemma_no_version_word(ws, from + 1, at);
    }
}

/// What `version_after_curl` finds is a word of `ws` with the shape of a
/// version.
proof fn lemma_version_after_curl(ws: Seq<Seq<char>>, from: int) -> (at: int)
    requires
        0 <= from,
        version_after_curl(ws, from) is Some,
    ensures
        0 <= at < ws.len(),
        version_after_curl(ws, from) == Some(ws[at]),
        has_version_shape(ws[at]),
    decreases ws.len() - from,
{
    if ws[from] == "curl"@ && has_version_shape(ws[from + 1]) {
        from + 1
    } else {
        lemma_version_after_curl(ws, from + 1)
    }
}

/// Only a word that begins with a digit gives features: where no word
/// begins with a digit and has the shape of a version, the word after
/// `curl` has an empty first group, in which no number can be read. So the
/// features are those of the first word that begins with a digit and has
/// the shape of a version, and none where there is no such word.
pub proof fn lemma_features_need_leading_digit(text: Seq<char>)
    ensures
        curl_features(text) == features_of_word(first_version_word(words(text), 0)),
{
    let ws = words(text);
    if first_version_word(ws, 0) is None && version_after_curl(ws, 0) is Some {
        let at = lemma_version_after_curl(ws, 0);
        let w = ws[at];
        lemma_no_version_word(ws, 0, at);
        lemma_find_char(w, '.', 0);
        let dot = find_char(w, '.', 0);
        if dot > 0 {
            assert(major_group(w)[0] == w[0]);
        }
        assert(major_group(w).len() == 0);
        assert(version_numbers(w) is None);
    }
}

impl CurlFeatures {
    /// The empty set of features.
    pub fn none() -> (features: CurlFeatures)
        ensures
            features == no_features(),
    {
        CurlFeatures {
            supports_no_clobber: false,
            supports_parallel: false,
            supports_parallel_max_host: false,
        }
    }

    /// The features of curl `major`.`minor`.
    pub fn of_version(major: u32, minor: u32) -> (features: CurlFeatures)
        ensures
            features == features_of_version(major, minor),
    {
        CurlFeatures {
            supports_no_clobber: (major == 7 && minor >= 83) || major >= 8,
            supports_parallel: (major == 7 && minor >= 66) || major >= 8,
            supports_parallel_max_host: major >= 8 && minor >= 16,
        }
    }
}

impl Wcurl {
    /// The features of the curl whose version report is `version_text`.
    ///
    /// No text is refused: one in which no version can be read gives the
    /// empty set.
    pub fn get_curl_features(version_text: &str) -> (features: CurlFeatures)
        ensures
            features == curl_features(version_text@),
    {
        let text = chars_of(version_text);
        let ws = split_words(text.as_slice());
        let found = match find_version_word(&ws) {
            Some(at) => Some(at),
            None => find_version_after_curl(&ws),
        };
        match found {
            Some(at) => {
                assert(ws.deep_view()[at as int] == ws[at as int]@);
                match read_version_numbers(ws[at].as_slice()) {
                    Some((major, minor)) => CurlFeatures::of_version(major, minor),
                    None => CurlFeatures::none(),
                }
            },
            None => CurlFeatures::none(),
        }
    }
}

/// Whether `c` is white space.
fn whitespace(c: char) -> (r: bool)
    ensures
        r == is_whitespace(c),
{
    (c >= '\u{9}' && c <= '\u{d}') || c == ' ' || c == '\u{85}' || c == '\u{a0}' || c
        == '\u{1680}' || (c >= '\u{2000}' && c <= '\u{200a}') || c == '\u{2028}' || c
        == '\u{2029}' || c == '\u{202f}' || c == '\u{205f}' || c == '\u{3000}'
}

/// Whether `c` is a digit.
fn digit(c: char) -> (r: bool)
    ensures
        r == is_digit(c),
{
    c >= '0' && c <= '9'
}

/// The words of `text`.
fn split_words(text: &[char]) -> (ws: Vec<Vec<char>>)
    ensures
        ws.deep_view() == words(text@),
{
    let mut ws: Vec<Vec<char>> = Vec::new();
    let mut i: usize = 0;
    assert(ws.deep_view() =~= Seq::<Seq<char>>::empty());
    while i < text.len()
        invariant
            i <= text.len(),
            ws.deep_view() + words_from(text@, i as int) == words(text@),
        decreases text.len() - i,
    {
        if whitespace(text[i]) {
            i += 1;
        } else {
            let start = i;
            let mut word: Vec<char> = Vec::new();
            while i < text.len() && !whitespace(text[i])
                invariant
                    start <= i <= text.len(),
                    word@ == text@.subrange(start as int, i as int),
                    word_end(text@, i as int) == word_end(text@, start as int),
                decreases text.len() - i,
            {
                word.push(text[i]);
                i += 1;
            }
            let ghost before = ws.deep_view();
            ws.push(word);
            proof {
                assert(word.deep_view() =~= word@);
                assert(ws.deep_view() =~= before.push(word@));
                assert(before.push(word@) + words_from(text@, i as int) =~= before + (seq![word@]
                    + words_from(text@, i as int)));
            }
        }
    }
    assert(ws.deep_view() + Seq::<Seq<char>>::empty() =~= ws.deep_view());
    ws
}

/// Whether `s[from..to]` holds digits only.
fn digits_only(s: &[char], from: usize, to: usize) -> (r: bool)
    requires
        from <= to <= s.len(),
    ensures
        r == all_digits(s@.subrange(from as int, to as int)),
{
    let mut i: usize = from;
    while i < to
        invariant
            from <= i <= to <= s.len(),
            forall|k: int| from <= k < i ==> is_digit(#[trigger] s@[k]),
        decreases to - i,
    {
        if !digit(s[i]) {
            assert(s@.subrange(from as int, to as int)[i - from] == s@[i as int]);
            return false;
        }
        i += 1;
    }
    true
}

/// Whether `w` has the shape of a version.
fn version_shaped(w: &[char]) -> (r: bool)
    ensures
        r == has_version_shape(w@),
{
    let dot = find_char_from(w, '.', 0);
    if dot >= w.len() {
        return false;
    }
    let next = find_char_from(w, '.', dot + 1);
    digits_only(w, 0, dot) && digits_only(w, dot + 1, next)
}

/// The index of the first word that begins with a digit and has the shape
/// of a version.
fn find_version_word(ws: &Vec<Vec<char>>) -> (found: Option<usize>)
    ensures
        match found {
            Some(at) => at < ws.len() && first_version_word(ws.deep_view(), 0) == Some(ws[at as int]@),
            None => first_version_word(ws.deep_view(), 0) is None,
        },
{
    let ghost all = ws.deep_view();
    let mut i: usize = 0;
    while i < ws.len()
        invariant
            i <= ws.len(),
            all == ws.deep_view(),
            first_version_word(all, i as int) == first_version_word(all, 0),
        decreases ws.len() - i,
    {
        let w = ws[i].as_slice();
        assert(all[i as int] == w@);
        if w.len() > 0 && digit(w[0]) && version_shaped(w) {
            return Some(i);
        }
        i += 1;
    }
    None
}

/// The index of the first word that has the shape of a version and follows
/// the word `curl`.
fn find_version_after_curl(ws: &Vec<Vec<char>>) -> (found: Option<usize>)
    ensures
        match found {
            Some(at) => at < ws.len() && version_after_curl(ws.deep_view(), 0) == Some(ws[at as int]@),
            None => version_after_curl(ws.deep_view(), 0) is None,
        },
{
    let ghost all = ws.deep_view();
    if ws.len() == 0 {
        return None;
    }
    let mut i: usize = 0;
    while i < ws.len() - 1
        invariant
            i < ws.len(),
            all == ws.deep_view(),
            all.len() == ws.len(),
            version_after_curl(all, i as int) == version_after_curl(all, 0),
        decreases ws.len() - i,
    {
        assert(all[i as int] == ws[i as int]@);
        assert(all[i + 1] == ws[i + 1]@);
        if is_text(ws[i].as_slice(), "curl") && version_shaped(ws[i + 1].as_slice()) {
            return Some(i + 1);
        }
        i += 1;
    }
    None
}

/// A prefix of a sequence of digits denotes no more than the whole.
proof fn lemma_decimal_prefix(s: Seq<char>, n: int)
    requires
        0 <= n <= s.len(),
    ensures
        decimal(s.take(n)) <= decimal(s),
    decreases s.len(),
{
    if n == s.len() {
        assert(s.take(n) == s);
    } else {
        lemma_decimal_prefix(s.drop_last(), n);
        assert(s.drop_last().take(n) == s.take(n));
    }
}

/// The number that `s[from..to]` denotes, if it denotes one that fits in 32
/// bits.
fn read_decimal(s: &[char], from: usize, to: usize) -> (r: Option<u32>)
    requires
        from <= to <= s.len(),
    ensures
        r == decimal_u32(s@.subrange(from as int, to as int)),
{
    if from == to || !digits_only(s, from, to) {
        return None;
    }
    let ghost digits = s@.subrange(from as int, to as int);
    let mut value: u64 = 0;
    let mut i: usize = from;
    assert(digits.take(0) == Seq::<char>::empty());
    while i < to
        invariant
            from <= i <= to <= s.len(),
            digits == s@.subrange(from as int, to as int),
            all_digits(digits),
            value == decimal(digits.take(i - from)),
            value <= u32::MAX,
        decreases to - i,
    {
        let c = s[i];
        assert(digits[i - from] == c);
        assert(digits.take(i - from + 1).drop_last() == digits.take(i - from));
        let d: u64 = (c as u32 - '0' as u32) as u64;
        let next: u64 = value * 10 + d;
        assert(next == decimal(digits.take(i - from + 1)));
        if next > 0xffff_ffff {
            proof {
                lemma_decimal_prefix(digits, i - from + 1);
            }
            return None;
        }
        value = next;
        i += 1;
    }
    assert(digits.take(to - from) == digits);
    Some(value as u32)
}

/// The major and minor number of the version `w`, if both can be read.
fn read_version_numbers(w: &[char]) -> (r: Option<(u32, u32)>)
    ensures
        r == version_numbers(w@),
{
    let dot = find_char_from(w, '.', 0);
    if dot >= w.len() {
        return None;
    }
    let next = find_char_from(w, '.', dot + 1);
    match (read_decimal(w, 0, dot), read_decimal(w, dot + 1, next)) {
        (Some(major), Some(minor)) => Some((major, minor)),
        _ => None,
    }
}

} // verus!
