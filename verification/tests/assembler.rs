use wcurl::{get_usage, Action, Args, CurlFeatures, Event, Exit, Wcurl, USAGE};

fn words(list: &[&str]) -> Vec<String> {
    list.iter().map(|w| w.to_string()).collect()
}

fn request(list: &[&str]) -> Wcurl {
    Wcurl::new(Args::parse(&words(list)).unwrap())
}

fn features(no_clobber: bool, parallel: bool, max_host: bool) -> CurlFeatures {
    CurlFeatures {
        supports_no_clobber: no_clobber,
        supports_parallel: parallel,
        supports_parallel_max_host: max_host,
    }
}

fn plan(list: &[&str], features: CurlFeatures) -> Vec<String> {
    request(list).command_plan(&features).unwrap()
}

fn count(plan: &[String], word: &str) -> usize {
    plan.iter().filter(|w| w.as_str() == word).count()
}

#[test]
fn new_keeps_the_options() {
    let args = Args::parse(&words(&["-o", "x", "--dry-run", "url"])).unwrap();
    let wcurl = Wcurl::new(args.clone());
    assert_eq!(wcurl.args, args);
}

#[test]
fn two_urls_with_every_feature() {
    let argv = words(&["wcurl", "https://a.test/f.txt", "https://b.test/g.txt"]);
    let wcurl = Wcurl::new(Args::parse(&argv[1..]).unwrap());
    let plan = wcurl.command_plan(&features(true, true, true)).unwrap();
    assert_eq!(
        plan,
        words(&[
            "--parallel",
            "--parallel-max-host",
            "5",
            "--fail",
            "--globoff",
            "--location",
            "--proto-default",
            "https",
            "--remote-time",
            "--retry",
            "5",
            "--no-clobber",
            "--output",
            "f.txt",
            "https://a.test/f.txt",
            "--next",
            "--fail",
            "--globoff",
            "--location",
            "--proto-default",
            "https",
            "--remote-time",
            "--retry",
            "5",
            "--no-clobber",
            "--output",
            "g.txt",
            "https://b.test/g.txt",
        ])
    );
}

#[test]
fn output_path_switches_no_clobber_off() {
    let plan = plan(
        &["--output", "out.bin", "https://a.test/f.txt", "https://b.test/g.txt"],
        features(true, true, true),
    );
    assert_eq!(count(&plan, "--no-clobber"), 0);
    assert_eq!(
        plan,
        words(&[
            "--parallel",
            "--parallel-max-host",
            "5",
            "--fail",
            "--globoff",
            "--location",
            "--proto-default",
            "https",
            "--remote-time",
            "--retry",
            "5",
            "--output",
            "out.bin",
            "https://a.test/f.txt",
            "--next",
            "--fail",
            "--globoff",
            "--location",
            "--proto-default",
            "https",
            "--remote-time",
            "--retry",
            "5",
            "--output",
            "out.bin",
            "https://b.test/g.txt",
        ])
    );
}

#[test]
fn strange_url_behind_separator_is_downloaded() {
    let plan = plan(&["--", "--strange-url"], features(false, false, false));
    assert_eq!(
        plan,
        words(&[
            "--fail",
            "--globoff",
            "--location",
            "--proto-default",
            "https",
            "--remote-time",
            "--retry",
            "5",
            "--output",
            "index.html",
            "--strange-url",
        ])
    );
}

#[test]
fn single_url_is_not_parallel() {
    let plan = plan(&["https://a.test/f.txt"], features(true, true, true));
    assert_eq!(count(&plan, "--parallel"), 0);
    assert_eq!(count(&plan, "--parallel-max-host"), 0);
    assert_eq!(count(&plan, "--next"), 0);
    assert_eq!(plan[0], "--fail");
    assert_eq!(plan.len(), 12);
}

#[test]
fn parallel_without_host_limit() {
    let plan = plan(&["u1/a", "u2/b"], features(false, true, false));
    assert_eq!(&plan[..2], &words(&["--parallel", "--fail"])[..]);
    assert_eq!(count(&plan, "--parallel-max-host"), 0);
    assert_eq!(count(&plan, "--no-clobber"), 0);
}

#[test]
fn host_limit_needs_parallel() {
    let plan = plan(&["u1/a", "u2/b"], features(true, false, true));
    assert_eq!(plan[0], "--fail");
    assert_eq!(count(&plan, "--parallel"), 0);
    assert_eq!(count(&plan, "--parallel-max-host"), 0);
    assert_eq!(count(&plan, "--no-clobber"), 2);
}

#[test]
fn no_clobber_follows_the_retry_pair() {
    let plan = plan(&["https://a.test/f.txt"], features(true, false, false));
    assert_eq!(&plan[6..11], &words(&["--retry", "5", "--no-clobber", "--output", "f.txt"])[..]);
}

#[test]
fn url_without_filename_is_saved_as_index_html() {
    let plan = plan(
        &["https://example.com", "https://example.com/", "example.com/dir/?q=1"],
        features(false, false, false),
    );
    let paths: Vec<&String> =
        plan.iter().enumerate().filter(|(i, _)| *i > 0 && plan[i - 1] == "--output").map(|(_, w)| w).collect();
    assert_eq!(paths, vec!["index.html", "index.html", "index.html"]);
}

#[test]
fn spaces_in_the_url_are_encoded_and_decoded_in_the_filename() {
    let plan = plan(&["https://example.com/my file.txt"], features(false, false, false));
    assert_eq!(&plan[8..], &words(&["--output", "my file.txt", "https://example.com/my%20file.txt"])[..]);
}

#[test]
fn filename_stays_encoded_on_request() {
    let plan = plan(
        &["--no-decode-filename", "https://example.com/my file%41.txt"],
        features(false, false, false),
    );
    assert_eq!(
        &plan[8..],
        &words(&["--output", "my%20file%41.txt", "https://example.com/my%20file%41.txt"])[..]
    );
}

#[test]
fn output_path_is_used_as_given() {
    let wcurl = request(&["-o", "my out%41.bin", "https://example.com/x y"]);
    assert_eq!(wcurl.output_path("https://example.com/x y"), "my out%41.bin");
    let plan = wcurl.command_plan(&features(false, false, false)).unwrap();
    assert_eq!(&plan[8..], &words(&["--output", "my out%41.bin", "https://example.com/x%20y"])[..]);
}

#[test]
fn output_path_of_a_url() {
    let wcurl = request(&["url"]);
    assert_eq!(wcurl.output_path("https://example.com/a%20b.txt"), "a b.txt");
    assert_eq!(wcurl.output_path("https://example.com/a b.txt"), "a b.txt");
    assert_eq!(wcurl.output_path("https://example.com/"), "index.html");
    assert_eq!(wcurl.output_path(""), "index.html");
    assert_eq!(wcurl.output_path("https://example.com/a%2Fb"), "a%2Fb");
}

#[test]
fn curl_options_come_last_and_once() {
    let plan = plan(
        &["--curl-options=--verbose", "u1/a", "--curl-options", "--header X: y", "u2/b", "--curl-options=--verbose"],
        features(true, true, true),
    );
    let tail = &plan[plan.len() - 3..];
    assert_eq!(tail, &words(&["--verbose", "--header X: y", "--verbose"])[..]);
    assert_eq!(count(&plan, "--header X: y"), 1);
    assert_eq!(count(&plan, "--verbose"), 2);
    assert_eq!(plan[plan.len() - 4], "u2/b");
}

#[test]
fn one_output_for_each_url_and_one_next_between_two() {
    for n in 1usize..6 {
        let urls: Vec<String> = (0..n).map(|i| format!("https://h{}.test/file{}.bin", i, i)).collect();
        let list: Vec<&str> = urls.iter().map(|u| u.as_str()).collect();
        for f in [features(false, false, false), features(true, true, true), features(true, true, false)] {
            let plan = plan(&list, f);
            assert_eq!(count(&plan, "--output"), n);
            assert_eq!(count(&plan, "--next"), n - 1);
            let mut seen = 0;
            for (at, word) in plan.iter().enumerate() {
                if word == "--output" {
                    assert_eq!(plan[at + 1], format!("file{}.bin", seen));
                    assert_eq!(plan[at + 2], urls[seen]);
                    if seen + 1 < n {
                        assert_eq!(plan[at + 3], "--next");
                    }
                    seen += 1;
                }
            }
            assert_eq!(seen, n);
        }
    }
}

#[test]
fn no_url_gives_no_plan() {
    let wcurl = request(&["--dry-run", "--curl-options=-v"]);
    assert_eq!(wcurl.command_plan(&features(true, true, true)), Err(Exit::MissingUrl));
}

#[test]
fn command_line_joins_with_spaces() {
    let plan = words(&["--fail", "--output", "my file", "url"]);
    assert_eq!(Wcurl::command_line(&plan), "curl --fail --output my file url");
    assert_eq!(Wcurl::command_line(&Vec::new()), "curl");
    assert_eq!(Wcurl::command_line(&words(&[""])), "curl ");
}

#[test]
fn run_without_url_ends_at_once() {
    let wcurl = request(&["--dry-run"]);
    assert_eq!(wcurl.run(&Event::Started), Action::Exit(Exit::MissingUrl));
    assert_eq!(
        wcurl.run(&Event::VersionReported("curl 8.16.0".to_string())),
        Action::Exit(Exit::MissingUrl)
    );
}

#[test]
fn run_asks_for_the_version_first() {
    let wcurl = request(&["https://a.test/f.txt"]);
    assert_eq!(wcurl.run(&Event::Started), Action::ProbeVersion);
}

#[test]
fn run_prints_in_a_dry_run() {
    let wcurl = request(&["--dry-run", "https://a.test/f.txt", "https://b.test/g h.txt", "--curl-options=-v"]);
    assert_eq!(
        wcurl.run(&Event::VersionReported("curl 8.16.0 (x86_64-pc-linux-gnu)".to_string())),
        Action::Print(
            "curl --parallel --parallel-max-host 5 \
             --fail --globoff --location --proto-default https --remote-time --retry 5 \
             --no-clobber --output f.txt https://a.test/f.txt --next \
             --fail --globoff --location --proto-default https --remote-time --retry 5 \
             --no-clobber --output g h.txt https://b.test/g%20h.txt -v"
                .to_string()
        )
    );
    assert_eq!(wcurl.run(&Event::Printed), Action::Exit(Exit::Success));
}

#[test]
fn run_hands_the_plan_to_curl() {
    let wcurl = request(&["https://a.test/f.txt"]);
    let expected = wcurl.command_plan(&features(false, true, false)).unwrap();
    assert_eq!(
        wcurl.run(&Event::VersionReported("curl 7.66.0".to_string())),
        Action::RunCurl(expected)
    );
}

#[test]
fn run_uses_no_feature_when_the_version_is_unreadable() {
    let wcurl = request(&["u1/a", "u2/b"]);
    let expected = wcurl.command_plan(&features(false, false, false)).unwrap();
    assert_eq!(wcurl.run(&Event::VersionReported("garbage".to_string())), Action::RunCurl(expected.clone()));
    assert_eq!(count(&expected, "--parallel"), 0);
    assert_eq!(count(&expected, "--no-clobber"), 0);
}

#[test]
fn run_ends_as_curl_did() {
    let wcurl = request(&["https://a.test/f.txt"]);
    assert_eq!(wcurl.run(&Event::CurlExited(Some(0))), Action::Exit(Exit::Success));
    assert_eq!(wcurl.run(&Event::CurlExited(Some(22))), Action::Exit(Exit::CurlFailed(22)));
    assert_eq!(wcurl.run(&Event::CurlExited(Some(-9))), Action::Exit(Exit::CurlFailed(-9)));
    assert_eq!(wcurl.run(&Event::CurlExited(None)), Action::Exit(Exit::CurlFailed(1)));
    assert_eq!(Exit::CurlFailed(22).code(), 22);
    assert_eq!(Exit::CurlFailed(1).code(), 1);
}

#[test]
fn run_ends_with_the_cause_when_curl_cannot_be_run() {
    let wcurl = request(&["https://a.test/f.txt"]);
    assert_eq!(
        wcurl.run(&Event::Failed("No such file or directory (os error 2)".to_string())),
        Action::Exit(Exit::Failure("No such file or directory (os error 2)".to_string()))
    );
}

#[test]
fn usage_text_is_complete() {
    let usage = get_usage();
    assert_eq!(usage, USAGE);
    assert!(usage.starts_with("wcurl -- a simple wrapper around curl to easily download files.\n\nUsage: wcurl <URL>...\n"));
    assert!(usage.ends_with("then performs the parsing. May be specified more than once."));
    assert_eq!(usage.lines().count(), 33);
    assert!(usage.contains("  --dry-run: Don't actually execute curl, just print what would be invoked.\n"));
}
