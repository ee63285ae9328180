//! The argument lexer: from the words of a command line to an option record.
//!
//! The lexer reads the words after the program's name from left to right.
//! It never stops early: what the command line asks for is decided once the
//! last word has been read.

use vstd::prelude::*;
use crate::exit::{Exit, ExitView};
use crate::text::{begins_with_text, chars_of, is_text, push_text, string_of_range};

verus! {

/// What the user asked for.
#[derive(Debug, Clone, PartialEq, Eq)]
pub struct Args {
    /// The URLs to download, in the order given.
    pub urls: Vec<String>,
    /// Options handed on to curl untouched, in the order given.
    pub curl_options: Vec<String>,
    /// The output path, if one was given; the last one given wins.
    pub output: Option<String>,
    /// Whether the file name taken from a URL is left percent-encoded.
    pub no_decode_filename: bool,
    /// Whether the curl command is printed instead of run.
    pub dry_run: bool,
}

/// The mathematical value of an [`Args`].
pub struct ArgsView {
    pub urls: Seq<Seq<char>>,
    pub curl_options: Seq<Seq<char>>,
    pub output: Option<Seq<char>>,
    pub no_decode_filename: bool,
    pub dry_run: bool,
}

impl View for Args {
    type V = ArgsView;

    open spec fn view(&self) -> ArgsView {
        ArgsView {
            urls: self.urls.deep_view(),
            curl_options: self.curl_options.deep_view(),
            output: self.output.deep_view(),
            no_decode_filename: self.no_decode_filename,
            dry_run: self.dry_run,
        }
    }
}

/// What one word of the command line means where it is read as an option.
#[derive(Debug, Clone, Copy, PartialEq, Eq, Structural)]
pub enum WordKind {
    /// `--`: every word after it is a URL.
    Separator,
    /// `-h` or `--help`.
    Help,
    /// `-V` or `--version`.
    Version,
    /// `--curl-options=<value>`.
    CurlOptionsInline,
    /// `--curl-options`, whose value is the next word.
    CurlOptions,
    /// `--output=<value>`.
    OutputInline,
    /// `-o`, `-O` or `--output`, whose value is the next word.
    Output,
    /// `-o<value>` or `-O<value>`.
    OutputAttached,
    /// `--no-decode-filename`.
    NoDecodeFilename,
    /// `--dry-run`.
    DryRun,
    /// Any other word that begins with `-`.
    Unknown,
    /// Any other word.
    Url,
}

/// What kind of word `w` is outside literal mode.
pub open spec fn word_kind(w: Seq<char>) -> WordKind {
    if w == "--"@ {
        WordKind::Separator
    } else if w == "-h"@ || w == "--help"@ {
        WordKind::Help
    } else if w == "-V"@ || w == "--version"@ {
        WordKind::Version
    } else if "--curl-options="@.is_prefix_of(w) {
        WordKind::CurlOptionsInline
    } else if w == "--curl-options"@ {
        WordKind::CurlOptions
    } else if "--output="@.is_prefix_of(w) {
        WordKind::OutputInline
    } else if w == "-o"@ || w == "-O"@ || w == "--output"@ {
        WordKind::Output
    } else if ("-o"@.is_prefix_of(w) || "-O"@.is_prefix_of(w)) && w.len() > 2 {
        WordKind::OutputAttached
    } else if w == "--no-decode-filename"@ {
        WordKind::NoDecodeFilename
    } else if w == "--dry-run"@ {
        WordKind::DryRun
    } else if "-"@.is_prefix_of(w) {
        WordKind::Unknown
    } else {
        WordKind::Url
    }
}

/// Where the value starts in a word that carries its own value.
pub open spec fn value_offset(kind: WordKind) -> int {
    match kind {
        WordKind::CurlOptionsInline => "--curl-options="@.len() as int,
        WordKind::OutputInline => "--output="@.len() as int,
        WordKind::OutputAttached => 2,
        _ => 0,
    }
}

/// What the lexer knows after some words.
pub struct Scan {
    /// The options read so far.
    pub args: ArgsView,
    /// Whether `--` was read: every further word is a URL.
    pub literal: bool,
    /// Whether the usage text was asked for.
    pub help: bool,
    /// Whether the version was asked for.
    pub version: bool,
    /// The first word that was refused, if any.
    pub refused: Option<Seq<char>>,
}

/// The lexer's state before the first word.
pub open spec fn scan_start() -> Scan {
    Scan {
        args: ArgsView {
            urls: Seq::empty(),
            curl_options: Seq::empty(),
            output: None,
            no_decode_filename: false,
            dry_run: false,
        },
        literal: false,
        help: false,
        version: false,
        refused: None,
    }
}

/// `scan` with the URL `url` added.
pub open spec fn with_url(scan: Scan, url: Seq<char>) -> Scan {
    Scan { args: ArgsView { urls: scan.args.urls.push(url), ..scan.args }, ..scan }
}

/// `scan` with the curl option `value` added.
pub open spec fn with_curl_option(scan: Scan, value: Seq<char>) -> Scan {
    Scan {
        args: ArgsView { curl_options: scan.args.curl_options.push(value), ..scan.args },
        ..scan
    }
}

/// `scan` with the output path set to `path`.
pub open spec fn with_output(scan: Scan, path: Seq<char>) -> Scan {
    Scan { args: ArgsView { output: Some(path), ..scan.args }, ..scan }
}

/// `scan` with `word` refused, unless a word was refused before.
pub open spec fn with_refusal(scan: Scan, word: Seq<char>) -> Scan {
    if scan.refused is Some {
        scan
    } else {
        Scan { refused: Some(word), ..scan }
    }
}

/// How many words the lexer takes at `words[at]`: two where the word is an
/// option whose value is the next word and there is a next word, else one.
pub open spec fn words_taken(scan: Scan, words: Seq<Seq<char>>, at: int) -> int {
    let kind = word_kind(words[at]);
    if !scan.literal && (kind == WordKind::CurlOptions || kind == WordKind::Output) && at + 1
        < words.len() {
        2
    } else {
        1
    }
}

/// The lexer's state after it has read `words[at]` (and the next word, where
/// that is the option's value) in state `scan`.
pub open spec fn scan_word(scan: Scan, words: Seq<Seq<char>>, at: int) -> Scan {
    let word = words[at];
    let kind = word_kind(word);
    if scan.literal {
        with_url(scan, word)
    } else {
        match kind {
            WordKind::Separator => Scan { literal: true, ..scan },
            WordKind::Help => Scan { help: true, ..scan },
            WordKind::Version => Scan { version: true, ..scan },
            WordKind::CurlOptionsInline => with_curl_option(scan, word.skip(value_offset(kind))),
            WordKind::CurlOptions => if at + 1 < words.len() {
                with_curl_option(scan, words[at + 1])
            } else {
                with_refusal(scan, word)
            },
            WordKind::OutputInline | WordKind::OutputAttached => with_output(
                scan,
                word.skip(value_offset(kind)),
            ),
            WordKind::Output => if at + 1 < words.len() {
                with_output(scan, words[at + 1])
            } else {
                with_refusal(scan, word)
            },
            WordKind::NoDecodeFilename => Scan {
                args: ArgsView { no_decode_filename: true, ..scan.args },
                ..scan
            },
            WordKind::DryRun => Scan { args: ArgsView { dry_run: true, ..scan.args }, ..scan },
            WordKind::Unknown => with_refusal(scan, word),
            WordKind::Url => with_url(scan, word),
        }
    }
}

/// The lexer's state after it has read `words[at..]` in state `scan`.
pub open spec fn scan_from(scan: Scan, words: Seq<Seq<char>>, at: int) -> Scan
    decreases words.len() - at,
{
    if 0 <= at < words.len() {
        scan_from(scan_word(scan, words, at), words, at + words_taken(scan, words, at))
    } else {
        scan
    }
}

/// What a finished scan amounts to. A request for the version comes before
/// one for the usage text, both come before a refused word, and only a
/// command line with none of them gives an option record.
pub open spec fn scan_result(scan: Scan) -> Result<ArgsView, ExitView> {
    if scan.version {
        Err(ExitView::Version)
    } else if scan.help {
        Err(ExitView::Help)
    } else if scan.refused is Some {
        Err(ExitView::UnknownOption(scan.refused->0))
    } else {
        Ok(scan.args)
    }
}

/// What the command line `words` (without the program's name) asks for.
pub open spec fn parsed(words: Seq<Seq<char>>) -> Result<ArgsView, ExitView> {
    scan_result(scan_from(scan_start(), words, 0))
}

/// Reading on takes nothing back: a request for the usage text or for the
/// version stays, literal mode stays, and so does the first refused word.
pub proof fn lemma_scan_keeps_what_was_seen(scan: Scan, words: Seq<Seq<char>>, at: int)
    ensures
        scan.help ==> scan_from(scan, words, at).help,
        scan.version ==> scan_from(scan, words, at).version,
        scan.literal ==> scan_from(scan, words, at).literal,
        scan.refused is Some ==> scan_from(scan, words, at).refused == scan.refused,
    decreases words.len() - at,
{
    if 0 <= at < words.len() {
        lemma_scan_keeps_what_was_seen(
            scan_word(scan, words, at),
            words,
            at + words_taken(scan, words, at),
        );
    }
}

/// `scan` with the URLs `urls` added.
pub open spec fn with_urls(scan: Scan, urls: Seq<Seq<char>>) -> Scan {
    Scan { args: ArgsView { urls: scan.args.urls + urls, ..scan.args }, ..scan }
}

/// Once `--` was read, every further word is a URL, whatever it looks like,
/// and nothing else changes.
pub proof fn lemma_words_after_separator_are_urls(scan: Scan, words: Seq<Seq<char>>, at: int)
    requires
        scan.literal,
        0 <= at <= words.len(),
    ensures
        scan_from(scan, words, at) == with_urls(scan, words.skip(at)),
    decreases words.len() - at,
{
    if at < words.len() {
        let next = scan_word(scan, words, at);
        lemma_words_after_separator_are_urls(next, words, at + 1);
        assert(next.args.urls + words.skip(at + 1) =~= scan.args.urls + words.skip(at));
    } else {
        assert(scan.args.urls + words.skip(at) =~= scan.args.urls);
    }
}

/// What kind of word `word` is outside literal mode.
pub fn classify(word: &str) -> (kind: WordKind)
    ensures
        kind == word_kind(word@),
{
    let w = chars_of(word);
    classify_chars(w.as_slice())
}

/// What kind of word `w` is outside literal mode.
fn classify_chars(w: &[char]) -> (kind: WordKind)
    ensures
        kind == word_kind(w@),
{
    if is_text(w, "--") {
        WordKind::Separator
    } else if is_text(w, "-h") || is_text(w, "--help") {
        WordKind::Help
    } else if is_text(w, "-V") || is_text(w, "--version") {
        WordKind::Version
    } else if begins_with_text(w, "--curl-options=") {
        WordKind::CurlOptionsInline
    } else if is_text(w, "--curl-options") {
        WordKind::CurlOptions
    } else if begins_with_text(w, "--output=") {
        WordKind::OutputInline
    } else if is_text(w, "-o") || is_text(w, "-O") || is_text(w, "--output") {
        WordKind::Output
    } else if (begins_with_text(w, "-o") || begins_with_text(w, "-O")) && w.len() > 2 {
        WordKind::OutputAttached
    } else if is_text(w, "--no-decode-filename") {
        WordKind::NoDecodeFilename
    } else if is_text(w, "--dry-run") {
        WordKind::DryRun
    } else if begins_with_text(w, "-") {
        WordKind::Unknown
    } else {
        WordKind::Url
    }
}

/// The mathematical value of what [`Args::parse`] returns.
pub open spec fn outcome_view(outcome: Result<Args, Exit>) -> Result<ArgsView, ExitView> {
    match outcome {
        Ok(args) => Ok(args@),
        Err(exit) => Err(exit@),
    }
}

impl Args {
    /// Reads the command line `words`, the program's name left out.
    ///
    /// Every word is read, whatever came before it. Then the result is an
    /// option record, or the reason to end the program at once: the version
    /// or the usage text was asked for, or a word was refused (the first
    /// such word is reported).
    pub fn parse(words: &[String]) -> (outcome: Result<Args, Exit>)
        ensures
            outcome_view(outcome) == parsed(words.deep_view()),
    {
        let mut args = Args {
            urls: Vec::new(),
            curl_options: Vec::new(),
            output: None,
            no_decode_filename: false,
            dry_run: false,
        };
        let mut literal = false;
        let mut help = false;
        let mut version = false;
        let mut refused: Option<String> = None;
        let ghost all = words.deep_view();
        assert(Scan { args: args@, literal, help, version, refused: refused.deep_view() }
            == scan_start()) by {
            assert(args.urls.deep_view() =~= Seq::<Seq<char>>::empty());
            assert(args.curl_options.deep_view() =~= Seq::<Seq<char>>::empty());
        }
        let mut i: usize = 0;
        while i < words.len()
            invariant
                i <= words.len(),
                all == words.deep_view(),
                all.len() == words.len(),
                scan_from(
                    Scan { args: args@, literal, help, version, refused: refused.deep_view() },
                    all,
                    i as int,
                ) == scan_from(scan_start(), all, 0),
            decreases words.len() - i,
        {
            let ghost before = Scan {
                args: args@,
                literal,
                help,
                version,
                refused: refused.deep_view(),
            };
            let word = &words[i];
            assert(all[i as int] == word@);
            let w = chars_of(word.as_str());
            let kind = classify_chars(w.as_slice());
            let has_next = i + 1 < words.len();
            let mut taken: usize = 1;
            proof {
                reveal_strlit("--curl-options=");
                reveal_strlit("--output=");
                reveal_strlit("-o");
                reveal_strlit("-O");
            }
            if literal {
                push_text(&mut args.urls, word.clone());
            } else {
                match kind {
                    WordKind::Separator => {
                        literal = true;
                    },
                    WordKind::Help => {
                        help = true;
                    },
                    WordKind::Version => {
                        version = true;
                    },
                    WordKind::CurlOptionsInline => {
                        let value = string_of_range(w.as_slice(), 15, w.len());
                        push_text(&mut args.curl_options, value);
                    },
                    WordKind::OutputInline => {
                        args.output = Some(string_of_range(w.as_slice(), 9, w.len()));
                    },
                    WordKind::OutputAttached => {
                        args.output = Some(string_of_range(w.as_slice(), 2, w.len()));
                    },
                    WordKind::CurlOptions => {
                        if has_next {
                            assert(all[i + 1] == words[i + 1]@);
                            push_text(&mut args.curl_options, words[i + 1].clone());
                            taken = 2;
                        } else if refused.is_none() {
                            refused = Some(word.clone());
                        }
                    },
                    WordKind::Output => {
                        if has_next {
                            assert(all[i + 1] == words[i + 1]@);
                            args.output = Some(words[i + 1].clone());
                            taken = 2;
                        } else if refused.is_none() {
                            refused = Some(word.clone());
                        }
                    },
                    WordKind::NoDecodeFilename => {
                        args.no_decode_filename = true;
                    },
                    WordKind::DryRun => {
                        args.dry_run = true;
                    },
                    WordKind::Unknown => {
                        if refused.is_none() {
                            refused = Some(word.clone());
                        }
                    },
                    WordKind::Url => {
                        push_text(&mut args.urls, word.clone());
                    },
                }
            }
            proof {
                let after = Scan {
                    args: args@,
                    literal,
                    help,
                    version,
                    refused: refused.deep_view(),
                };
                assert(taken == words_taken(before, all, i as int));
                assert(after == scan_word(before, all, i as int));
            }
            i += taken;
        }
        if version {
            Err(Exit::Version)
        } else if help {
            Err(Exit::Help)
        } else {
            match refused {
                Some(word) => Err(Exit::UnknownOption(word)),
                None => Ok(args),
            }
        }
    }
}

} // verus!
