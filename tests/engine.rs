use gitdump::fetch::{backoff_delay, Event, Retry, Verdict};
use gitdump::listing::{children, classify, entries_from_links, list, lists_head, next_frontier, FetchOutcome, Listing, Status};
use gitdump::objects::{is_hash, is_null_hash, object_file, ObjectSet};
use gitdump::pack::{is_pack_index_name, packs_listed, parse, parse_entry_count, PackError};
use gitdump::probe::{check_head, crawl_seeds, known_files, zero_text, Mode, Orchestrator, ProbeError, ResponseHead, Stage};
use gitdump::refs::{ref_paths, ref_seeds, scan_refs, RefDiscovery};
use gitdump::target::{base_path, Target, TargetError};
use gitdump::text::confined;
use url::Url;

const H1: &str = "1a410efbd13591db07496601ebc7a059dd55cfe9";
const H2: &str = "d670460b4b4aece5915caf5c68d12f560a9fe3e4";
const ZERO: &str = "0000000000000000000000000000000000000000";

fn strings(v: &[&str]) -> Vec<String> {
    v.iter().map(|s| s.to_string()).collect()
}

fn idx_bytes(count: u32, hashes: &[[u8; 20]]) -> Vec<u8> {
    let mut b = vec![0xff, b't', b'O', b'c', 0, 0, 0, 2];
    b.extend_from_slice(&count.to_be_bytes());
    for (i, h) in hashes.iter().enumerate() {
        b.extend_from_slice(h);
        b.extend_from_slice(&(i as u32 * 100).to_be_bytes());
        b.extend_from_slice(&[0xde, 0xad, 0xbe, 0xef]);
    }
    b
}

#[test]
fn base_path_stops_at_git_segment() {
    assert_eq!(base_path(&strings(&["repo", ".git", "HEAD"])), "repo");
    assert_eq!(base_path(&strings(&["a", "b", ".git"])), "a/b");
    assert_eq!(base_path(&strings(&[".git", "x"])), "");
}

#[test]
fn base_path_without_git_segment_keeps_whole_path() {
    assert_eq!(base_path(&strings(&["a", "b", "c"])), "a/b/c");
    assert_eq!(base_path(&strings(&["a", "b", ""])), "a/b");
    assert_eq!(base_path(&strings(&[""])), "");
}

#[test]
fn target_from_url_with_git_suffix() {
    let url = Url::parse("http://example.com/site/repo/.git/").unwrap();
    let t = Target::new(&url).unwrap();
    assert_eq!(t.base, "site/repo");
    assert_eq!(t.url.path(), "/site/repo");
    assert_eq!(t.resource_path(".git/HEAD"), "/site/repo/.git/HEAD");
    assert_eq!(t.normalize_url(".git/HEAD").unwrap().as_str(), "http://example.com/site/repo/.git/HEAD");
}

#[test]
fn target_at_server_root() {
    let url = Url::parse("https://example.com/.git").unwrap();
    let t = Target::new(&url).unwrap();
    assert_eq!(t.base, "");
    assert_eq!(t.resource_path(".git/HEAD"), "/.git/HEAD");
    assert_eq!(t.normalize_url(".git/HEAD").unwrap().as_str(), "https://example.com/.git/HEAD");
}

#[test]
fn target_without_git_segment() {
    let url = Url::parse("http://example.com/dir/").unwrap();
    let t = Target::new(&url).unwrap();
    assert_eq!(t.base, "dir");
    assert_eq!(t.normalize_url(".git/config").unwrap().as_str(), "http://example.com/dir/.git/config");
}

#[test]
fn opaque_url_is_invalid_target() {
    let url = Url::parse("mailto:someone@example.com").unwrap();
    assert_eq!(Target::new(&url).err(), Some(TargetError::InvalidTarget));
}

#[test]
fn retry_succeeds_on_last_attempt() {
    let mut r = Retry::new(3);
    let mut attempts = 0;
    let outcomes = [Event::Failed, Event::Failed, Event::Succeeded];
    let mut k = 0;
    while r.should_attempt() {
        attempts += 1;
        r.record(outcomes[k]);
        k += 1;
    }
    assert_eq!(attempts, 3);
    assert_eq!(r.attempts, 3);
    assert_eq!(r.verdict, Verdict::Success);
}

#[test]
fn retry_always_failing_makes_budget_attempts() {
    let mut r = Retry::new(4);
    let mut attempts = 0;
    while r.should_attempt() {
        attempts += 1;
        r.record(Event::Failed);
    }
    assert_eq!(attempts, 4);
    assert_eq!(r.verdict, Verdict::Exhausted);
    r.record(Event::Succeeded);
    assert_eq!(r.verdict, Verdict::Exhausted);
    assert_eq!(r.attempts, 4);
}

#[test]
fn retry_deadline_reports_timeout_with_budget_left() {
    let mut r = Retry::new(10);
    r.record(Event::Failed);
    r.record(Event::DeadlineExpired);
    assert_eq!(r.verdict, Verdict::TimedOut);
    assert!(!r.should_attempt());
    assert_eq!(r.attempts, 1);
}

#[test]
fn retry_with_no_budget_makes_no_attempt() {
    let r = Retry::new(0);
    assert!(!r.should_attempt());
    assert_eq!(r.verdict, Verdict::Exhausted);
}

#[test]
fn retry_delays_grow_from_ten_milliseconds() {
    let mut r = Retry::new(5);
    assert_eq!(r.delay_ms(), 0);
    r.record(Event::Failed);
    assert!(r.delay_ms() <= 10);
    r.record(Event::Failed);
    assert!(r.delay_ms() <= 100);
    r.record(Event::Failed);
    let d = r.delay_ms();
    assert!(d <= 1000);
    // The jitter scales the delay down, and over many draws leaves it above
    // the previous bound at least once.
    let mut above = false;
    for _ in 0..200 {
        if r.delay_ms() > 100 {
            above = true;
        }
    }
    assert!(above);
}

#[test]
fn pack_index_two_entries() {
    let mut a = [0u8; 20];
    let mut b = [0u8; 20];
    for i in 0..20 {
        a[i] = i as u8 * 13;
        b[i] = 255 - i as u8;
    }
    let bytes = idx_bytes(2, &[a, b]);
    let hashes = parse(&bytes).unwrap();
    assert_eq!(hashes, vec![hex::encode(a), hex::encode(b)]);
    assert_eq!(hashes[1], "fffefdfcfbfaf9f8f7f6f5f4f3f2f1f0efeeedec");
}

#[test]
fn pack_index_truncated_is_malformed() {
    let a = [7u8; 20];
    let mut bytes = idx_bytes(2, &[a, a]);
    bytes.truncate(bytes.len() - 1);
    assert_eq!(parse(&bytes), Err(PackError::MalformedPackIndex));
    assert_eq!(parse(&bytes[..10]), Err(PackError::MalformedPackIndex));
}

#[test]
fn pack_index_wrong_signature_is_malformed() {
    let a = [7u8; 20];
    let mut bytes = idx_bytes(1, &[a]);
    bytes[1] = b'T';
    assert_eq!(parse(&bytes), Err(PackError::MalformedPackIndex));
    assert_eq!(parse_entry_count(&bytes), Err(PackError::MalformedPackIndex));
}

#[test]
fn pack_index_entry_count_and_empty() {
    let bytes = idx_bytes(0, &[]);
    assert_eq!(parse_entry_count(&bytes), Ok(0));
    assert_eq!(parse(&bytes), Ok(vec![]));
    let mut big = idx_bytes(0, &[]);
    big[8] = 1;
    big[11] = 2;
    assert_eq!(parse_entry_count(&big), Ok(0x0100_0002));
    assert_eq!(parse(&big), Err(PackError::MalformedPackIndex));
}

#[test]
fn pack_index_keeps_every_entry() {
    let zero_type = [0x80u8; 20];
    let bytes = idx_bytes(1, &[zero_type]);
    assert_eq!(parse(&bytes).unwrap(), vec!["80".repeat(20)]);
}

#[test]
fn packs_file_names_index_and_pack() {
    let text = format!("P pack-{H1}.pack\n\n");
    assert_eq!(
        packs_listed(&text),
        vec![
            format!(".git/objects/pack/pack-{H1}.idx"),
            format!(".git/objects/pack/pack-{H1}.pack"),
        ]
    );
    assert!(packs_listed("P pack-abc.pack").is_empty());
}

#[test]
fn pack_index_file_names() {
    assert!(is_pack_index_name(&format!("pack-{H1}.idx")));
    assert!(!is_pack_index_name(&format!("pack-{H1}.pack")));
    assert!(!is_pack_index_name("pack.idx"));
}

#[test]
fn ref_file_expands_to_value_and_log() {
    assert_eq!(
        scan_refs("ref: refs/heads/feature-x\n"),
        strings(&[".git/refs/heads/feature-x", ".git/logs/refs/heads/feature-x"])
    );
}

#[test]
fn wildcard_refs_are_not_expanded() {
    let config = "[remote \"origin\"]\n\tfetch = +refs/heads/*:refs/remotes/origin/*\n";
    assert!(scan_refs(config).is_empty());
    assert!(ref_paths(&strings(&["refs/tags/*"])).is_empty());
    assert_eq!(
        ref_paths(&strings(&["refs/tags/v1", "refs/x/*"])),
        strings(&[".git/refs/tags/v1", ".git/logs/refs/tags/v1"])
    );
}

#[test]
fn packed_refs_yield_every_name() {
    let text = format!("# pack-refs with: peeled\n{H1} refs/heads/main\n{H2} refs/tags/v1.0\n");
    assert_eq!(
        scan_refs(&text),
        strings(&[
            ".git/refs/heads/main",
            ".git/logs/refs/heads/main",
            ".git/refs/tags/v1.0",
            ".git/logs/refs/tags/v1.0",
        ])
    );
}

#[test]
fn ref_waves_request_each_path_once() {
    let mut d = RefDiscovery::new();
    let first = d.next_wave(&strings(&["a", "b", "a"]));
    assert_eq!(first, strings(&["a", "b"]));
    let second = d.next_wave(&strings(&["b", "c"]));
    assert_eq!(second, strings(&["c"]));
    let third = d.next_wave(&strings(&["a", "c"]));
    assert!(third.is_empty());
}

#[test]
fn reconciliation_drops_null_and_duplicates() {
    let mut set = ObjectSet::new();
    set.extend_from_text(&format!("{ZERO} {H1} Someone <a@b> 1 +0000\tcommit\n"));
    set.extend(&strings(&[H1, H2, ZERO]));
    set.extend(&parse(&idx_bytes(1, &[[0u8; 20]])).unwrap());
    let paths = set.object_paths();
    let mut sorted = paths.clone();
    sorted.sort();
    let mut expected = vec![
        format!(".git/objects/{}/{}", &H1[..2], &H1[2..]),
        format!(".git/objects/{}/{}", &H2[..2], &H2[2..]),
    ];
    expected.sort();
    assert_eq!(sorted, expected);
    assert!(!paths.iter().any(|p| p.contains("00/000000")));
}

#[test]
fn object_set_rejects_non_hashes() {
    let mut set = ObjectSet::new();
    assert!(!set.insert("xyz"));
    assert!(!set.insert(&H1.to_uppercase()));
    assert!(set.insert(H1));
    assert!(!set.insert(H1));
    assert_eq!(set.len(), 1);
    assert!(set.contains(H1));
}

#[test]
fn object_hashes_in_text() {
    let mut set = ObjectSet::new();
    set.extend_from_text(&format!("{H1}\n{H2}x\n"));
    assert!(set.contains(H1));
    assert!(!set.contains(H2));
    assert_eq!(set.len(), 1);
}

#[test]
fn hash_predicates_and_object_file() {
    assert!(is_hash(H1));
    assert!(!is_hash(&H1[1..]));
    assert!(is_null_hash(ZERO));
    assert!(!is_null_hash(H1));
    assert_eq!(object_file(H1), ".git/objects/1a/410efbd13591db07496601ebc7a059dd55cfe9");
}

#[test]
fn listing_keeps_relative_entries() {
    let html = "<html><body><a href=\"?C=N;O=D\">Name</a><a href=\"/\">Parent</a>\
                <a href=\"HEAD\">HEAD</a><a href=\"refs/\">refs/</a><a>none</a>\
                <a href=\"./x/../config\">config</a></body></html>";
    let entries = list(html);
    assert_eq!(entries, strings(&["HEAD", "refs", "config"]));
    assert!(lists_head(&entries));
    assert!(!lists_head(&strings(&["refs", "HEADS"])));
}

#[test]
fn status_redirect_appends_slash() {
    assert_eq!(Status::Follow(".git/refs").redirect(), Some(".git/refs/".to_string()));
    assert_eq!(Status::Done.redirect(), None);
}

#[test]
fn responses_are_classified() {
    assert_eq!(classify(301, false), FetchOutcome::Redirected);
    assert_eq!(classify(302, true), FetchOutcome::Redirected);
    assert_eq!(classify(200, false), FetchOutcome::Delivered);
    assert_eq!(classify(200, true), FetchOutcome::Skipped);
    assert_eq!(classify(404, false), FetchOutcome::Skipped);
}

#[test]
fn children_are_prefixed_by_parent() {
    assert_eq!(children(".git", &strings(&["HEAD", "refs"])), strings(&[".git/HEAD", ".git/refs"]));
    let ls = vec![
        Listing { dir: "a".to_string(), entries: strings(&["x"]) },
        Listing { dir: "b".to_string(), entries: strings(&["y", "z"]) },
    ];
    assert_eq!(next_frontier(&ls), strings(&["a/x", "b/y", "b/z"]));
}

#[test]
fn crawl_of_depth_three_tree() {
    let mut tree: std::collections::HashMap<&str, Vec<&str>> = std::collections::HashMap::new();
    tree.insert(".git", vec!["HEAD", "refs", "objects"]);
    tree.insert(".git/refs", vec!["heads", "tags"]);
    tree.insert(".git/objects", vec!["info"]);
    let mut frontier = crawl_seeds();
    let mut fetched: Vec<String> = Vec::new();
    let mut waves = 0;
    while !frontier.is_empty() {
        waves += 1;
        let mut ls = Vec::new();
        for p in &frontier {
            fetched.push(p.clone());
            if let Some(entries) = tree.get(p.as_str()) {
                ls.push(Listing { dir: p.clone(), entries: strings(entries) });
            }
        }
        frontier = next_frontier(&ls);
    }
    assert!(waves <= 3);
    let mut unique = fetched.clone();
    unique.sort();
    unique.dedup();
    assert_eq!(unique.len(), fetched.len());
    assert_eq!(fetched.len(), 2 + 3 + 3);
}

#[test]
fn head_probe_accepts_symbolic_ref_and_hash() {
    let ok = ResponseHead { status: 200, content_type: None, content_length: Some(Some("23".to_string())) };
    assert_eq!(check_head(&ok, "ref: refs/heads/main\n"), Ok(()));
    assert_eq!(check_head(&ok, &format!("{H1}\n")), Ok(()));
}

#[test]
fn head_probe_errors() {
    let ok = ResponseHead { status: 200, content_type: None, content_length: None };
    assert_eq!(check_head(&ok, "<html>nope</html>"), Err(ProbeError::NotAGitHead));
    assert_eq!(check_head(&ok, &format!("{H1}0")), Err(ProbeError::NotAGitHead));
    let missing = ResponseHead { status: 404, content_type: None, content_length: None };
    assert_eq!(check_head(&missing, "ref: x"), Err(ProbeError::BadStatus(404)));
    let empty = ResponseHead { status: 200, content_type: None, content_length: Some(Some("0".to_string())) };
    assert_eq!(check_head(&empty, "ref: x"), Err(ProbeError::EmptyBody));
    let html = ResponseHead {
        status: 200,
        content_type: Some("text/html".to_string()),
        content_length: None,
    };
    assert!(html.is_html());
    assert_eq!(check_head(&html, "ref: x"), Err(ProbeError::HtmlBody));
}

#[test]
fn zero_lengths() {
    assert!(zero_text("0"));
    assert!(zero_text("+000"));
    assert!(!zero_text(""));
    assert!(!zero_text("+"));
    assert!(!zero_text("10"));
    assert!(!zero_text("-0"));
}

#[test]
fn listing_target_crawls_and_never_searches_packs() {
    let mut o = Orchestrator::new();
    let mut seen = vec![o.stage];
    o.advance();
    seen.push(o.stage);
    o.decide(&strings(&["HEAD", "config", "refs"]));
    assert_eq!(o.mode, Mode::Listing);
    assert!(!o.tolerate_errors());
    while o.stage != Stage::Done {
        seen.push(o.stage);
        o.advance();
    }
    assert_eq!(seen, vec![Stage::ProbeHead, Stage::ProbeListing, Stage::Crawl, Stage::Checkout]);
    assert!(!seen.contains(&Stage::DiscoverPacks));
}

#[test]
fn blind_target_runs_stages_in_order() {
    let mut o = Orchestrator::new();
    o.advance();
    o.decide(&strings(&["index.html"]));
    assert_eq!(o.mode, Mode::Blind);
    assert!(o.tolerate_errors());
    let mut seen = Vec::new();
    while o.stage != Stage::Done {
        seen.push(o.stage);
        o.advance();
    }
    assert_eq!(
        seen,
        vec![
            Stage::FetchKnownFiles,
            Stage::DiscoverRefs,
            Stage::DiscoverPacks,
            Stage::Reconcile,
            Stage::Checkout,
        ]
    );
}

#[test]
fn unreadable_content_length_fails_probe() {
    let head = ResponseHead { status: 200, content_type: None, content_length: Some(None) };
    assert_eq!(head.verify(), Err(ProbeError::UnreadableLength));
    assert_eq!(check_head(&head, "ref: refs/heads/main"), Err(ProbeError::UnreadableLength));
}

#[test]
fn paths_that_leave_the_target_are_refused() {
    let url = Url::parse("http://example.com/repo/.git/").unwrap();
    let t = Target::new(&url).unwrap();
    assert_eq!(t.normalize_url("../x").err(), Some(TargetError::EscapesTarget));
    assert_eq!(t.normalize_url(".git/refs/../../x").err(), Some(TargetError::EscapesTarget));
    assert_eq!(t.normalize_url(".git\\..\\x").err(), Some(TargetError::EscapesTarget));
    assert_eq!(t.normalize_url("%2e%2e/x").err(), Some(TargetError::EscapesTarget));
    assert!(t.normalize_url(".git/refs/heads/v1.0..x").is_ok());
    assert!(confined(".gitignore"));
    assert!(confined("a/.b/c.d"));
    assert!(!confined("a/./b"));
    assert!(!confined(".."));
}

#[test]
fn escaping_ref_names_are_not_expanded() {
    assert!(scan_refs("refs/../../../etc/x").is_empty());
    assert!(ref_paths(&strings(&["refs/heads/./x", "refs/%2E%2E/y"])).is_empty());
}

#[test]
fn backoff_starts_at_ten_milliseconds() {
    assert_eq!(backoff_delay(0), 10);
    assert_eq!(backoff_delay(1), 100);
    assert_eq!(backoff_delay(2), 1000);
    assert_eq!(backoff_delay(25), u64::MAX);
}

#[test]
fn seed_lists() {
    assert_eq!(crawl_seeds(), strings(&[".git", ".gitignore"]));
    assert!(ref_seeds().contains(&".git/packed-refs".to_string()));
    assert!(known_files().contains(&".git/objects/info/packs".to_string()));
}

#[test]
fn links_are_normalized() {
    let links = strings(&["./x/../config", "a//b/", "../up", "/abs/./x", "?C=N", "http://h/../y", "", "x/.."]);
    assert_eq!(
        entries_from_links(&links),
        strings(&["config", "a/b", "up", "http://h/../y", "", ""])
    );
}
