//! The command assembler: from an option record and the features of the
//! installed curl to the arguments that curl is run with.
//!
//! The arguments are, in this order: the flags for parallel transfers, one
//! block for each URL with `--next` between two blocks, and the options
//! that the user handed on to curl.

use vstd::prelude::*;
use crate::args::{Args, ArgsView};
use crate::exit::{Exit, ExitView};
use crate::features::{curl_features, CurlFeatures};
use crate::filename::{url_filename, whitespace_encoded};
use crate::text::push_text;

verus! {

/// A download request: the options to carry out.
#[derive(Debug, Clone, PartialEq, Eq)]
pub struct Wcurl {
    /// The options read from the command line.
    pub args: Args,
}

/// The flags for parallel transfers: `--parallel` where there are several
/// URLs and curl supports it, and `--parallel-max-host 5` behind it where
/// curl supports that too.
pub open spec fn parallel_flags(args: ArgsView, features: CurlFeatures) -> Seq<Seq<char>> {
    if args.urls.len() > 1 && features.supports_parallel {
        if features.supports_parallel_max_host {
            seq!["--parallel"@, "--parallel-max-host"@, "5"@]
        } else {
            seq!["--parallel"@]
        }
    } else {
        Seq::empty()
    }
}

/// The flags that every URL gets.
pub open spec fn fixed_flags() -> Seq<Seq<char>> {
    seq![
        "--fail"@,
        "--globoff"@,
        "--location"@,
        "--proto-default"@,
        "https"@,
        "--remote-time"@,
        "--retry"@,
        "5"@,
    ]
}

/// `--no-clobber`, where curl supports it and the user gave no output path.
pub open spec fn clobber_flags(args: ArgsView, features: CurlFeatures) -> Seq<Seq<char>> {
    if features.supports_no_clobber && args.output is None {
        seq!["--no-clobber"@]
    } else {
        Seq::empty()
    }
}

/// The path under which `url` is saved: the output path where the user gave
/// one; else the file name that the encoded URL gives, or `index.html`
/// where it gives none.
pub open spec fn output_path(args: ArgsView, url: Seq<char>) -> Seq<char> {
    match args.output {
        Some(path) => path,
        None => {
            let name = url_filename(whitespace_encoded(url), !args.no_decode_filename);
            if name.len() == 0 {
                "index.html"@
            } else {
                name
            }
        },
    }
}

/// The block of `url`: the fixed flags, `--no-clobber` where it applies,
/// `--output` with the path, and the encoded URL.
pub open spec fn url_block(args: ArgsView, features: CurlFeatures, url: Seq<char>) -> Seq<
    Seq<char>,
> {
    fixed_flags() + clobber_flags(args, features) + seq![
        "--output"@,
        output_path(args, url),
        whitespace_encoded(url),
    ]
}

/// `--next`, before every block but the first.
pub open spec fn separator(index: int) -> Seq<Seq<char>> {
    if index > 0 {
        seq!["--next"@]
    } else {
        Seq::empty()
    }
}

/// The blocks of the first `count` URLs, with `--next` between two blocks.
pub open spec fn url_blocks(args: ArgsView, features: CurlFeatures, count: int) -> Seq<Seq<char>>
    decreases count,
{
    if count <= 0 {
        Seq::empty()
    } else {
        url_blocks(args, features, count - 1) + separator(count - 1) + url_block(
            args,
            features,
            args.urls[count - 1],
        )
    }
}

/// The arguments that curl is run with.
pub open spec fn command_plan(args: ArgsView, features: CurlFeatures) -> Seq<Seq<char>> {
    parallel_flags(args, features) + url_blocks(args, features, args.urls.len() as int)
        + args.curl_options
}

/// The arguments that curl is run with, or the reason why it is not run: no
/// URL was given.
pub open spec fn planned(args: ArgsView, features: CurlFeatures) -> Result<
    Seq<Seq<char>>,
    ExitView,
> {
    if args.urls.len() == 0 {
        Err(ExitView::MissingUrl)
    } else {
        Ok(command_plan(args, features))
    }
}

/// The command as one line: `curl`, and each argument behind a space.
pub open spec fn command_line(plan: Seq<Seq<char>>) -> Seq<char>
    decreases plan.len(),
{
    if plan.len() == 0 {
        "curl"@
    } else {
        command_line(plan.drop_last()) + seq![' '] + plan.last()
    }
}

/// What happened outside the program since the last action.
#[derive(Debug, Clone, PartialEq, Eq)]
pub enum Event {
    /// The program has started.
    Started,
    /// curl has reported its version with this text.
    VersionReported(String),
    /// The line was printed.
    Printed,
    /// curl has ended, with this exit code if it gave one.
    CurlExited(Option<i32>),
    /// curl could not be run, or its version report was no text; with the
    /// cause.
    Failed(String),
}

/// The mathematical value of an [`Event`].
pub enum EventView {
    Started,
    VersionReported(Seq<char>),
    Printed,
    CurlExited(Option<i32>),
    Failed(Seq<char>),
}

impl View for Event {
    type V = EventView;

    open spec fn view(&self) -> EventView {
        match self {
            Event::Started => EventView::Started,
            Event::VersionReported(text) => EventView::VersionReported(text@),
            Event::Printed => EventView::Printed,
            Event::CurlExited(code) => EventView::CurlExited(*code),
            Event::Failed(cause) => EventView::Failed(cause@),
        }
    }
}

/// What the program does next outside itself.
#[derive(Debug, Clone, PartialEq, Eq)]
pub enum Action {
    /// Run `curl --version` and report its output.
    ProbeVersion,
    /// Print this line on standard output.
    Print(String),
    /// Run curl with these arguments and report how it ended.
    RunCurl(Vec<String>),
    /// End the program.
    Exit(Exit),
}

/// The mathematical value of an [`Action`].
pub enum ActionView {
    ProbeVersion,
    Print(Seq<char>),
    RunCurl(Seq<Seq<char>>),
    Exit(ExitView),
}

impl View for Action {
    type V = ActionView;

    open spec fn view(&self) -> ActionView {
        match self {
            Action::ProbeVersion => ActionView::ProbeVersion,
            Action::Print(line) => ActionView::Print(line@),
            Action::RunCurl(plan) => ActionView::RunCurl(plan.deep_view()),
            Action::Exit(exit) => ActionView::Exit(exit@),
        }
    }
}

/// How the program ends after curl has ended: with success where curl's
/// exit code is 0; else with curl's exit code, or with 1 where curl gave
/// none.
pub open spec fn exit_after_curl(code: Option<i32>) -> ExitView {
    match code {
        Some(code) => if code == 0 {
            ExitView::Success
        } else {
            ExitView::CurlFailed(code)
        },
        None => ExitView::CurlFailed(1),
    }
}

/// What the request `args` does after `event`.
///
/// Without a URL it ends at once. Else it asks for curl's version, then
/// prints the command (in a dry run) or runs it, and ends as curl did. It
/// ends with the cause where curl could not be run.
pub open spec fn next_action(args: ArgsView, event: EventView) -> ActionView {
    match event {
        EventView::Started => if args.urls.len() == 0 {
            ActionView::Exit(ExitView::MissingUrl)
        } else {
            ActionView::ProbeVersion
        },
        EventView::VersionReported(text) => match planned(args, curl_features(text)) {
            Ok(plan) => if args.dry_run {
                ActionView::Print(command_line(plan))
            } else {
                ActionView::RunCurl(plan)
            },
            Err(exit) => ActionView::Exit(exit),
        },
        EventView::Printed => ActionView::Exit(ExitView::Success),
        EventView::CurlExited(code) => ActionView::Exit(exit_after_curl(code)),
        EventView::Failed(cause) => ActionView::Exit(ExitView::Failure(cause)),
    }
}

/// The mathematical value of what [`Wcurl::command_plan`] returns.
pub open spec fn plan_view(plan: Result<Vec<String>, Exit>) -> Result<Seq<Seq<char>>, ExitView> {
    match plan {
        Ok(words) => Ok(words.deep_view()),
        Err(exit) => Err(exit@),
    }
}

/// Appends `word` to `plan`.
fn push_word(plan: &mut Vec<String>, word: &str)
    ensures
        final(plan).deep_view() == old(plan).deep_view().push(word@),
{
    push_text(plan, word.to_owned());
}

impl Wcurl {
    /// The request that carries out `args`.
    pub fn new(args: Args) -> (wcurl: Wcurl)
        ensures
            wcurl.args == args,
    {
        Wcurl { args }
    }

    /// The path under which `url` is saved.
    pub fn output_path(&self, url: &str) -> (path: String)
        ensures
            path@ == output_path(self.args@, url@),
    {
        match &self.args.output {
            Some(path) => path.clone(),
            None => {
                let encoded = Wcurl::encode_whitespace(url);
                let name = Wcurl::get_url_filename(
                    encoded.as_str(),
                    !self.args.no_decode_filename,
                );
                if name.as_str().is_empty() {
                    "index.html".to_owned()
                } else {
                    name
                }
            },
        }
    }

    /// Appends the block of `url` to `plan`.
    fn push_url_block(&self, features: &CurlFeatures, url: &str, plan: &mut Vec<String>)
        ensures
            final(plan).deep_view() == old(plan).deep_view() + url_block(
                self.args@,
                *features,
                url@,
            ),
    {
        push_word(plan, "--fail");
        push_word(plan, "--globoff");
        push_word(plan, "--location");
        push_word(plan, "--proto-default");
        push_word(plan, "https");
        push_word(plan, "--remote-time");
        push_word(plan, "--retry");
        push_word(plan, "5");
        assert(plan.deep_view() =~= old(plan).deep_view() + fixed_flags());
        if features.supports_no_clobber && self.args.output.is_none() {
            push_word(plan, "--no-clobber");
        }
        assert(plan.deep_view() =~= old(plan).deep_view() + fixed_flags() + clobber_flags(
            self.args@,
            *features,
        ));
        let path = self.output_path(url);
        let encoded = Wcurl::encode_whitespace(url);
        push_word(plan, "--output");
        push_text(plan, path);
        push_text(plan, encoded);
        assert(plan.deep_view() =~= old(plan).deep_view() + url_block(
            self.args@,
            *features,
            url@,
        ));
    }

    /// The arguments to run curl with, or the reason why curl is not run:
    /// no URL was given.
    pub fn command_plan(&self, features: &CurlFeatures) -> (plan: Result<Vec<String>, Exit>)
        ensures
            plan_view(plan) == planned(self.args@, *features),
    {
        let urls = &self.args.urls;
        let options = &self.args.curl_options;
        if urls.len() == 0 {
            return Err(Exit::MissingUrl);
        }
        let ghost args = self.args@;
        let mut plan: Vec<String> = Vec::new();
        assert(plan.deep_view() =~= Seq::<Seq<char>>::empty());
        if urls.len() > 1 && features.supports_parallel {
            push_word(&mut plan, "--parallel");
            if features.supports_parallel_max_host {
                push_word(&mut plan, "--parallel-max-host");
                push_word(&mut plan, "5");
            }
        }
        assert(plan.deep_view() =~= parallel_flags(args, *features));
        let mut i: usize = 0;
        while i < urls.len()
            invariant
                i <= urls.len(),
                args == self.args@,
                urls == &self.args.urls,
                plan.deep_view() == parallel_flags(args, *features) + url_blocks(
                    args,
                    *features,
                    i as int,
                ),
            decreases urls.len() - i,
        {
            let ghost before = plan.deep_view();
            if i > 0 {
                push_word(&mut plan, "--next");
            }
            assert(plan.deep_view() =~= before + separator(i as int));
            assert(args.urls[i as int] == urls[i as int]@);
            self.push_url_block(features, urls[i].as_str(), &mut plan);
            assert(plan.deep_view() =~= parallel_flags(args, *features) + url_blocks(
                args,
                *features,
                i + 1,
            ));
            i += 1;
        }
        let ghost head = plan.deep_view();
        let mut j: usize = 0;
        while j < options.len()
            invariant
                j <= options.len(),
                args == self.args@,
                options == &self.args.curl_options,
                plan.deep_view() == head + args.curl_options.take(j as int),
            decreases options.len() - j,
        {
            assert(args.curl_options[j as int] == options[j as int]@);
            push_text(&mut plan, options[j].clone());
            assert(plan.deep_view() =~= head + args.curl_options.take(j + 1));
            j += 1;
        }
        assert(args.curl_options.take(options.len() as int) =~= args.curl_options);
        Ok(plan)
    }

    /// The command `plan` as one line, as a dry run prints it.
    pub fn command_line(plan: &[String]) -> (line: String)
        ensures
            line@ == command_line(plan.deep_view()),
    {
        let ghost all = plan.deep_view();
        let mut line = "curl".to_owned();
        let mut i: usize = 0;
        assert(all.take(0) =~= Seq::<Seq<char>>::empty());
        while i < plan.len()
            invariant
                i <= plan.len(),
                all == plan.deep_view(),
                line@ == command_line(all.take(i as int)),
            decreases plan.len() - i,
        {
            proof {
                let done = all.take(i + 1);
                assert(done.drop_last() =~= all.take(i as int));
                assert(done.last() == plan[i as int]@);
            }
            line.push(' ');
            line.append(plan[i].as_str());
            assert(line@ =~= command_line(all.take(i as int)) + seq![' '] + plan[i as int]@);
            i += 1;
        }
        assert(all.take(plan.len() as int) =~= all);
        line
    }

    /// What to do after `event`.
    ///
    /// The caller carries out the action and reports what came of it as the
    /// next event, until the action is to end the program.
    pub fn run(&self, event: &Event) -> (action: Action)
        ensures
            action@ == next_action(self.args@, event@),
    {
        match event {
            Event::Started => {
                if self.args.urls.len() == 0 {
                    Action::Exit(Exit::MissingUrl)
                } else {
                    Action::ProbeVersion
                }
            },
            Event::VersionReported(text) => {
                let features = Wcurl::get_curl_features(text.as_str());
                match self.command_plan(&features) {
                    Ok(plan) => {
                        if self.args.dry_run {
                            Action::Print(Wcurl::command_line(plan.as_slice()))
                        } else {
                            Action::RunCurl(plan)
                        }
                    },
                    Err(exit) => Action::Exit(exit),
                }
            },
            Event::Printed => Action::Exit(Exit::Success),
            Event::CurlExited(code) => {
                match code {
                    Some(code) => {
                        if *code == 0 {
                            Action::Exit(Exit::Success)
                        } else {
                            Action::Exit(Exit::CurlFailed(*code))
                        }
                    },
                    None => Action::Exit(Exit::CurlFailed(1)),
                }
            },
            Event::Failed(cause) => Action::Exit(Exit::Failure(cause.clone())),
        }
    }
}

/// How often `word` stands in `words`.
pub open spec fn occurrences(words: Seq<Seq<char>>, word: Seq<char>) -> nat
    decreases words.len(),
{
    if words.len() == 0 {
        0
    } else {
        occurrences(words.drop_last(), word) + if words.last() == word {
            1nat
        } else {
            0nat
        }
    }
}

/// A word stands in `a + b` as often as in `a` and in `b` together.
pub proof fn lemma_occurrences_concat(a: Seq<Seq<char>>, b: Seq<Seq<char>>, word: Seq<char>)
    ensures
        occurrences(a + b, word) == occurrences(a, word) + occurrences(b, word),
    decreases b.len(),
{
    if b.len() == 0 {
        assert(a + b =~= a);
    } else {
        lemma_occurrences_concat(a, b.drop_last(), word);
        assert((a + b).drop_last() =~= a + b.drop_last());
        assert((a + b).last() == b.last());
    }
}

/// A word that is none of `words` stands in them zero times.
pub proof fn lemma_occurrences_absent(words: Seq<Seq<char>>, word: Seq<char>)
    requires
        forall|i: int| 0 <= i < words.len() ==> #[trigger] words[i] != word,
    ensures
        occurrences(words, word) == 0,
    decreases words.len(),
{
    if words.len() > 0 {
        lemma_occurrences_absent(words.drop_last(), word);
    }
}

/// Whether `word` is none of the words that `args` brings into the command:
/// no encoded URL, no output path and no option for curl.
pub open spec fn is_free_of(args: ArgsView, word: Seq<char>) -> bool {
    &&& forall|i: int|
        0 <= i < args.urls.len() ==> whitespace_encoded(#[trigger] args.urls[i]) != word
            && output_path(args, args.urls[i]) != word
    &&& forall|j: int| 0 <= j < args.curl_options.len() ==> #[trigger] args.curl_options[j] != word
}

/// Where the block of the URL `index` starts in the command.
pub open spec fn block_start(args: ArgsView, features: CurlFeatures, index: int) -> int {
    (parallel_flags(args, features).len() + url_blocks(args, features, index).len() + separator(
        index,
    ).len()) as int
}

/// Where `--output` stands in the command for the URL `index`.
pub open spec fn output_index(args: ArgsView, features: CurlFeatures, index: int) -> int {
    block_start(args, features, index) + fixed_flags().len() + clobber_flags(args, features).len()
}

/// The blocks of the first `count` URLs begin the blocks of the first `more`.
proof fn lemma_url_blocks_prefix(args: ArgsView, features: CurlFeatures, count: int, more: int)
    requires
        0 <= count <= more,
    ensures
        url_blocks(args, features, count).is_prefix_of(url_blocks(args, features, more)),
    decreases more,
{
    if count < more {
        lemma_url_blocks_prefix(args, features, count, more - 1);
    }
}

/// Where `before + part` begins `body`, `part` stands in `head + body +
/// tail` behind `head` and `before`.
proof fn lemma_part_of_concat(
    head: Seq<Seq<char>>,
    body: Seq<Seq<char>>,
    tail: Seq<Seq<char>>,
    before: Seq<Seq<char>>,
    part: Seq<Seq<char>>,
)
    requires
        (before + part).is_prefix_of(body),
    ensures
        head.len() + before.len() + part.len() <= (head + body + tail).len(),
        (head + body + tail).subrange(
            (head.len() + before.len()) as int,
            (head.len() + before.len() + part.len()) as int,
        ) == part,
{
    let whole = head + body + tail;
    let first = (head.len() + before.len()) as int;
    assert forall|k: int| 0 <= k < part.len() implies whole[first + k] == part[k] by {
        let j = before.len() + k;
        assert(body.subrange(0, (before + part).len() as int)[j] == body[j]);
        assert((before + part)[j] == part[k]);
    }
    assert(whole.subrange(first, first + part.len()) =~= part);
}

/// In the command, the block of each URL stands where [`block_start`] says:
/// behind `--next` unless it is the first, and with `--output`, the path
/// and the encoded URL as its last three words.
pub proof fn lemma_block_in_plan(args: ArgsView, features: CurlFeatures, index: int)
    requires
        0 <= index < args.urls.len(),
    ensures
        ({
            let plan = command_plan(args, features);
            let start = block_start(args, features, index);
            let at = output_index(args, features, index);
            let url = args.urls[index];
            &&& 0 <= start <= at
            &&& at + 3 <= plan.len()
            &&& plan.subrange(start, at + 3) == url_block(args, features, url)
            &&& plan[at] == "--output"@
            &&& plan[at + 1] == output_path(args, url)
            &&& plan[at + 2] == whitespace_encoded(url)
            &&& index > 0 ==> plan[start - 1] == "--next"@
        }),
{
    let plan = command_plan(args, features);
    let flags = parallel_flags(args, features);
    let before = url_blocks(args, features, index);
    let between = separator(index);
    let all = url_blocks(args, features, args.urls.len() as int);
    let start = block_start(args, features, index);
    let at = output_index(args, features, index);
    let block = url_block(args, features, args.urls[index]);
    let lead = fixed_flags() + clobber_flags(args, features);
    assert(block == lead + seq![
        "--output"@,
        output_path(args, args.urls[index]),
        whitespace_encoded(args.urls[index]),
    ]);
    assert(url_blocks(args, features, index + 1) == before + between + block);
    lemma_url_blocks_prefix(args, features, index + 1, args.urls.len() as int);
    lemma_part_of_concat(flags, all, args.curl_options, before + between, block);
    let found = plan.subrange(start, start + block.len());
    assert(found == block);
    assert(at + 3 == start + block.len());
    assert(plan[at] == found[at - start]);
    assert(plan[at + 1] == found[at - start + 1]);
    assert(plan[at + 2] == found[at - start + 2]);
    if index > 0 {
        assert(before + between + block =~= before + (between + block));
        lemma_part_of_concat(flags, all, args.curl_options, before, between + block);
        let wider = plan.subrange(start - 1, start + block.len());
        assert(wider == between + block);
        assert(plan[start - 1] == wider[0]);
    }
}

/// The words that the program itself puts into a block, `--output` left
/// out, all differ from `word`.
spec fn differs_from_flags(word: Seq<char>) -> bool {
    &&& "--fail"@ != word
    &&& "--globoff"@ != word
    &&& "--location"@ != word
    &&& "--proto-default"@ != word
    &&& "https"@ != word
    &&& "--remote-time"@ != word
    &&& "--retry"@ != word
    &&& "5"@ != word
    &&& "--no-clobber"@ != word
    &&& "--parallel"@ != word
    &&& "--parallel-max-host"@ != word
}

/// `--output` and `--next` differ from each other and from every other word
/// that the program itself puts into the command.
proof fn lemma_marks_differ_from_flags()
    ensures
        differs_from_flags("--output"@),
        differs_from_flags("--next"@),
        "--output"@ != "--next"@,
{
    reveal_strlit("--output");
    reveal_strlit("--next");
    reveal_strlit("--fail");
    reveal_strlit("--globoff");
    reveal_strlit("--location");
    reveal_strlit("--proto-default");
    reveal_strlit("https");
    reveal_strlit("--remote-time");
    reveal_strlit("--retry");
    reveal_strlit("5");
    reveal_strlit("--no-clobber");
    reveal_strlit("--parallel");
    reveal_strlit("--parallel-max-host");
    assert("--output"@.len() == 8);
    assert("--next"@.len() == 6);
    assert("--fail"@.len() == 6);
    assert("--globoff"@.len() == 9);
    assert("--location"@.len() == 10);
    assert("--proto-default"@.len() == 15);
    assert("https"@.len() == 5);
    assert("--remote-time"@.len() == 13);
    assert("--retry"@.len() == 7);
    assert("5"@.len() == 1);
    assert("--no-clobber"@.len() == 12);
    assert("--parallel"@.len() == 10);
    assert("--parallel-max-host"@.len() == 19);
    assert("--fail"@[2] == 'f');
    assert("--next"@[2] == 'n');
}

/// A word that differs from the program's own flags stands in none of the
/// flags of a block and in none of the flags for parallel transfers.
proof fn lemma_absent_from_flags(args: ArgsView, features: CurlFeatures, word: Seq<char>)
    requires
        differs_from_flags(word),
    ensures
        occurrences(fixed_flags() + clobber_flags(args, features), word) == 0,
        occurrences(parallel_flags(args, features), word) == 0,
{
    let fixed = fixed_flags();
    assert forall|i: int| 0 <= i < fixed.len() implies #[trigger] fixed[i] != word by {
        if i == 0 {
        } else if i == 1 {
        } else if i == 2 {
        } else if i == 3 {
        } else if i == 4 {
        } else if i == 5 {
        } else if i == 6 {
        } else {
        }
    }
    lemma_occurrences_absent(fixed, word);
    lemma_occurrences_absent(clobber_flags(args, features), word);
    lemma_occurrences_concat(fixed, clobber_flags(args, features), word);
    lemma_occurrences_absent(parallel_flags(args, features), word);
}

/// A word stands once in the sequence that holds it alone.
proof fn lemma_occurrences_single(word: Seq<char>)
    ensures
        occurrences(seq![word], word) == 1,
{
    assert(seq![word].drop_last() =~= Seq::<Seq<char>>::empty());
    assert(occurrences(Seq::<Seq<char>>::empty(), word) == 0);
}

/// A word that stands in `words` stands in them once at least.
proof fn lemma_occurrences_present(words: Seq<Seq<char>>, word: Seq<char>, at: int)
    requires
        0 <= at < words.len(),
        words[at] == word,
    ensures
        occurrences(words, word) >= 1,
    decreases words.len(),
{
    if at < words.len() - 1 {
        lemma_occurrences_present(words.drop_last(), word, at);
    }
}

/// The two words that the user brings into the block of `url`: the output
/// path and the encoded URL.
pub open spec fn user_words(args: ArgsView, url: Seq<char>) -> Seq<Seq<char>> {
    seq![output_path(args, url), whitespace_encoded(url)]
}

/// How often `word` stands among the words that the user brings into the
/// blocks of the first `count` URLs.
pub open spec fn occurrences_in_urls(args: ArgsView, count: int, word: Seq<char>) -> nat
    decreases count,
{
    if count <= 0 {
        0
    } else {
        occurrences_in_urls(args, count - 1, word) + occurrences(
            user_words(args, args.urls[count - 1]),
            word,
        )
    }
}

/// How often `word` stands among the words that the user brings into the
/// command: the output paths, the encoded URLs and the options for curl.
pub open spec fn user_occurrences(args: ArgsView, word: Seq<char>) -> nat {
    occurrences_in_urls(args, args.urls.len() as int, word) + occurrences(args.curl_options, word)
}

/// How often the program itself puts `word` into one block: `--output`
/// once, `--next` never.
spec fn own_in_block(word: Seq<char>) -> nat {
    if word == "--output"@ {
        1
    } else {
        0
    }
}

/// How often the program itself puts `word` between two blocks: `--next`
/// once, `--output` never.
spec fn own_between(word: Seq<char>) -> nat {
    if word == "--next"@ {
        1
    } else {
        0
    }
}

/// A word stands in the block of a URL as often as the program itself puts
/// it there, and as the user's two words are that word.
proof fn lemma_word_in_block(
    args: ArgsView,
    features: CurlFeatures,
    url: Seq<char>,
    word: Seq<char>,
)
    requires
        differs_from_flags(word),
    ensures
        occurrences(url_block(args, features, url), word) == own_in_block(word) + occurrences(
            user_words(args, url),
            word,
        ),
{
    let flags = fixed_flags() + clobber_flags(args, features);
    let mark = seq!["--output"@];
    let user = user_words(args, url);
    lemma_absent_from_flags(args, features, word);
    if word == "--output"@ {
        lemma_occurrences_single(word);
    } else {
        lemma_occurrences_absent(mark, word);
    }
    lemma_occurrences_concat(flags, mark, word);
    lemma_occurrences_concat(flags + mark, user, word);
    assert(url_block(args, features, url) =~= flags + mark + user);
}

/// A word stands in the blocks of the first `count` URLs as often as the
/// program itself puts it into them and between them, and as the user's
/// words in them are that word.
proof fn lemma_word_in_blocks(
    args: ArgsView,
    features: CurlFeatures,
    count: int,
    word: Seq<char>,
)
    requires
        0 < count <= args.urls.len(),
        differs_from_flags(word),
    ensures
        occurrences(url_blocks(args, features, count), word) == count * own_in_block(word) + (
        count - 1) * own_between(word) + occurrences_in_urls(args, count, word),
    decreases count,
{
    let before = url_blocks(args, features, count - 1);
    let between = separator(count - 1);
    let block = url_block(args, features, args.urls[count - 1]);
    lemma_word_in_block(args, features, args.urls[count - 1], word);
    if count > 1 {
        lemma_word_in_blocks(args, features, count - 1, word);
        if word == "--next"@ {
            lemma_occurrences_single(word);
        } else {
            lemma_occurrences_absent(between, word);
        }
    } else {
        assert(occurrences(before, word) == 0);
        assert(occurrences_in_urls(args, 0, word) == 0);
        lemma_occurrences_absent(between, word);
    }
    lemma_occurrences_concat(before, between, word);
    lemma_occurrences_concat(before + between, block, word);
}

/// A word stands in the command as often as the program itself puts it
/// into the blocks and between them, and as the user's words are that word.
proof fn lemma_word_in_plan(args: ArgsView, features: CurlFeatures, word: Seq<char>)
    requires
        args.urls.len() > 0,
        differs_from_flags(word),
    ensures
        occurrences(command_plan(args, features), word) == args.urls.len() * own_in_block(word)
            + (args.urls.len() - 1) * own_between(word) + user_occurrences(args, word),
{
    let flags = parallel_flags(args, features);
    let blocks = url_blocks(args, features, args.urls.len() as int);
    lemma_absent_from_flags(args, features, word);
    lemma_word_in_blocks(args, features, args.urls.len() as int, word);
    lemma_occurrences_concat(flags, blocks, word);
    lemma_occurrences_concat(flags + blocks, args.curl_options, word);
}

/// None of the user's words in the blocks of the first `count` URLs is
/// `word` exactly where no output path and no encoded URL of them is.
proof fn lemma_no_occurrences_in_urls(args: ArgsView, count: int, word: Seq<char>)
    requires
        0 <= count <= args.urls.len(),
    ensures
        occurrences_in_urls(args, count, word) == 0 <==> forall|i: int|
            0 <= i < count ==> whitespace_encoded(#[trigger] args.urls[i]) != word && output_path(
                args,
                args.urls[i],
            ) != word,
    decreases count,
{
    if count > 0 {
        let url = args.urls[count - 1];
        let user = user_words(args, url);
        lemma_no_occurrences_in_urls(args, count - 1, word);
        if user[0] == word {
            lemma_occurrences_present(user, word, 0);
        } else if user[1] == word {
            lemma_occurrences_present(user, word, 1);
        } else {
            lemma_occurrences_absent(user, word);
        }
    }
}

/// None of `words` is `word` exactly where `word` stands in them zero times.
proof fn lemma_no_occurrences(words: Seq<Seq<char>>, word: Seq<char>)
    ensures
        occurrences(words, word) == 0 <==> forall|i: int|
            0 <= i < words.len() ==> #[trigger] words[i] != word,
{
    if forall|i: int| 0 <= i < words.len() ==> #[trigger] words[i] != word {
        lemma_occurrences_absent(words, word);
    } else {
        let at = choose|i: int| 0 <= i < words.len() && #[trigger] words[i] == word;
        lemma_occurrences_present(words, word, at);
    }
}

/// The user brings `word` into the command zero times exactly where the
/// option record is free of it.
pub proof fn lemma_free_of_word(args: ArgsView, word: Seq<char>)
    ensures
        is_free_of(args, word) <==> user_occurrences(args, word) == 0,
{
    lemma_no_occurrences_in_urls(args, args.urls.len() as int, word);
    lemma_no_occurrences(args.curl_options, word);
}

/// The options for curl end the command, in the order given: none stands
/// between the URLs.
pub proof fn lemma_curl_options_end_the_plan(args: ArgsView, features: CurlFeatures)
    ensures
        args.curl_options.is_suffix_of(command_plan(args, features)),
{
    let plan = command_plan(args, features);
    assert(plan.subrange(plan.len() - args.curl_options.len(), plan.len() as int)
        =~= args.curl_options);
}

/// The program puts `--output` into the command once for each URL: the
/// word stands there as often as there are URLs, and as the user's own
/// words are `--output`. So it stands there once for each URL exactly where
/// it is none of the words that the user brought in.
pub proof fn lemma_one_output_for_each_url(args: ArgsView, features: CurlFeatures)
    requires
        args.urls.len() > 0,
    ensures
        occurrences(command_plan(args, features), "--output"@) == args.urls.len()
            + user_occurrences(args, "--output"@),
        occurrences(command_plan(args, features), "--output"@) == args.urls.len() <==> is_free_of(
            args,
            "--output"@,
        ),
{
    lemma_marks_differ_from_flags();
    lemma_word_in_plan(args, features, "--output"@);
    lemma_free_of_word(args, "--output"@);
}

/// The program puts `--next` into the command once between two URLs: the
/// word stands there one time less than there are URLs, and as often as
/// the user's own words are `--next`. So it stands there once between two
/// URLs exactly where it is none of the words that the user brought in.
pub proof fn lemma_one_next_between_urls(args: ArgsView, features: CurlFeatures)
    requires
        args.urls.len() > 0,
    ensures
        occurrences(command_plan(args, features), "--next"@) == args.urls.len() - 1
            + user_occurrences(args, "--next"@),
        occurrences(command_plan(args, features), "--next"@) == args.urls.len() - 1 <==> is_free_of(
            args,
            "--next"@,
        ),
{
    lemma_marks_differ_from_flags();
    lemma_word_in_plan(args, features, "--next"@);
    lemma_free_of_word(args, "--next"@);
}

} // verus!
