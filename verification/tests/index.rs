use teetotum_plugins::check::{format_problem, listing_problems, problems, repeat_problem, Listing, Problem};
use teetotum_plugins::entry::Entry;
use teetotum_plugins::origin::origin;
use teetotum_plugins::tags::{declaration_problems, ships_with_firmware, tag_problems};

fn tags(words: &[&str]) -> Vec<String> {
    words.iter().map(|w| w.to_string()).collect()
}

#[test]
fn firmware_modules_are_bundled() {
    assert!(ships_with_firmware(
        "https://raw.githubusercontent.com/teetotum-rs/firmware/v0.1.0/firmware/assets/plugins/nearby.wasm"
    ));
    assert!(!ships_with_firmware(
        "https://raw.githubusercontent.com/someone/firmware/v0.1.0/firmware/assets/plugins/nearby.wasm"
    ));
    assert!(!ships_with_firmware(
        "https://raw.githubusercontent.com/teetotum-rs/firmware/main/web/x.wasm"
    ));
    assert!(!ships_with_firmware(
        "https://example.com/teetotum-rs/firmware/firmware/assets/plugins/x.wasm"
    ));
}

#[test]
fn good_tags_pass() {
    assert!(tag_problems(&tags(&["bundled", "media", "remote-2"])).is_empty());
    assert!(tag_problems(&[]).is_empty());
}

#[test]
fn bad_tags_are_named() {
    for bad in ["Media", "2d", "", "a b", "media!", "abcdefghijklmnopq"] {
        assert_eq!(tag_problems(&tags(&[bad])).len(), 1, "{bad:?}");
    }
    assert_eq!(tag_problems(&tags(&["game", "game"])).len(), 1);
    assert_eq!(
        tag_problems(&tags(&["a", "b", "c", "d", "e", "f"])).len(),
        1
    );
    assert!(tag_problems(&tags(&["bundled", "a", "b", "c", "d", "e"])).is_empty());
}

#[test]
fn a_step_back_out_of_the_plugins_is_not_bundled() {
    assert!(!ships_with_firmware(
        "https://raw.githubusercontent.com/teetotum-rs/firmware/main/firmware/assets/plugins/../x.wasm"
    ));
}

#[test]
fn the_plugins_path_must_be_in_the_path() {
    assert!(!ships_with_firmware(
        "https://raw.githubusercontent.com/teetotum-rs/firmware/main/web/x.wasm?/firmware/assets/plugins/"
    ));
    assert!(!ships_with_firmware(
        "https://raw.githubusercontent.com/teetotum-rs/firmware/main/web/x.wasm#/firmware/assets/plugins/"
    ));
    assert!(ships_with_firmware(
        "https://raw.githubusercontent.com/teetotum-rs/firmware/v1/firmware/assets/plugins/n.wasm?raw=1"
    ));
}

#[test]
fn tag_problems_say_what_is_wrong() {
    assert_eq!(
        tag_problems(&tags(&["Media"])),
        vec!["tag \"Media\": a lowercase word of at most 16 letters, digits and dashes".to_string()]
    );
    assert_eq!(
        tag_problems(&tags(&["game", "game", "game"])),
        vec![
            "tag \"game\" is listed twice".to_string(),
            "tag \"game\" is listed twice".to_string()
        ]
    );
    assert_eq!(
        tag_problems(&tags(&["a", "b", "c", "d", "e", "f", "Q"])),
        vec![
            "7 tags, at most 5".to_string(),
            "tag \"Q\": a lowercase word of at most 16 letters, digits and dashes".to_string()
        ]
    );
    // Sixteen bytes pass; the length counts bytes.
    assert!(tag_problems(&tags(&["abcdefghijklmnop"])).is_empty());
    assert_eq!(tag_problems(&tags(&["\u{e9}t\u{e9}"])).len(), 1);
}

#[test]
fn bundled_cannot_be_declared() {
    assert_eq!(
        declaration_problems(&tags(&["media", "bundled"])),
        vec!["bundled follows from the url and cannot be declared".to_string()]
    );
    assert!(declaration_problems(&tags(&["media"])).is_empty());
}

fn args(words: &[&str]) -> Vec<String> {
    tags(words)
}

#[test]
fn origin_reads_flags_in_any_order() {
    let o = origin(&args(&["--source", "https://s", "--tag", "media", "--url", "https://u", "--tag", "game"]))
        .unwrap();
    assert_eq!(o.url, "https://u");
    assert_eq!(o.source, "https://s");
    assert_eq!(o.license, "MIT OR Apache-2.0");
    assert_eq!(o.tags, tags(&["media", "game"]));
    let o = origin(&args(&["--url", "a", "--url", "b", "--source", "s", "--license", "MIT"])).unwrap();
    assert_eq!(o.url, "b");
    assert_eq!(o.license, "MIT");
}

#[test]
fn origin_refuses_what_it_cannot_read() {
    assert!(origin(&args(&["--url", "u"])).is_none());
    assert!(origin(&args(&["--source", "s"])).is_none());
    assert!(origin(&args(&["--url", "u", "--source"])).is_none());
    assert!(origin(&args(&["--url", "u", "--source", "s", "--colour", "red"])).is_none());
    assert!(origin(&[]).is_none());
}

pub fn listed(url: &str) -> Entry {
    Entry {
        name: "Counter".into(),
        summary: "counts detents".into(),
        tags: Vec::new(),
        version: "0.1.0".into(),
        abi: 1,
        rights: vec!["KNOB".into()],
        id: "0011223344556677".into(),
        key: "00".repeat(32),
        size: 100,
        sha256: "00".repeat(32),
        url: url.into(),
        source: "https://github.com/teetotum-rs/plugins".into(),
        license: "MIT OR Apache-2.0".into(),
    }
}

fn notes(problems: &[Problem]) -> Vec<String> {
    problems
        .iter()
        .map(|p| match p {
            Problem::Note(n) => n.clone(),
            _ => panic!("not a note"),
        })
        .collect()
}

#[test]
fn an_empty_field_settles_the_entry() {
    let mut entry = listed("https://example.com/x.wasm");
    entry.license = String::new();
    match listing_problems(&entry) {
        Listing::Settled(p) => assert_eq!(notes(&p), vec!["name, source and license must not be empty"]),
        Listing::Fetch(_) => panic!("fetched"),
    }
}

#[test]
fn a_plain_http_url_is_not_fetched() {
    let mut entry = listed("http://example.com/x.wasm");
    entry.tags = tags(&["bundled", "Bad"]);
    match listing_problems(&entry) {
        Listing::Settled(p) => assert_eq!(
            notes(&p),
            vec![
                "tag \"Bad\": a lowercase word of at most 16 letters, digits and dashes",
                "tagged bundled, but its url is not among the firmware's modules",
                "http://example.com/x.wasm: not https",
            ]
        ),
        Listing::Fetch(_) => panic!("fetched"),
    }
}

#[test]
fn a_firmware_module_must_be_tagged_bundled() {
    let entry = listed("https://raw.githubusercontent.com/teetotum-rs/firmware/v1/firmware/assets/plugins/c.wasm");
    match listing_problems(&entry) {
        Listing::Fetch(p) => assert_eq!(
            notes(&p),
            vec!["not tagged bundled, but its url is among the firmware's modules"]
        ),
        Listing::Settled(_) => panic!("not fetched"),
    }
}

#[test]
fn a_good_listing_is_fetched() {
    match listing_problems(&listed("https://example.com/x.wasm")) {
        Listing::Fetch(p) => assert!(p.is_empty()),
        Listing::Settled(_) => panic!("not fetched"),
    }
}

#[test]
fn a_failed_fetch_is_a_problem() {
    let entry = listed("https://example.com/x.wasm");
    let found = problems(&entry, Vec::new(), Err("connection refused".into()));
    assert_eq!(notes(&found), vec!["https://example.com/x.wasm: connection refused"]);
}

#[test]
fn bytes_that_are_no_module_are_a_module_problem() {
    let entry = listed("https://example.com/x.wasm");
    let found = problems(&entry, Vec::new(), Ok(b"not wasm".to_vec()));
    assert_eq!(found.len(), 1);
    assert!(matches!(
        found[0],
        Problem::Module(teetotum_plugins::entry::ModuleError::Manifest(
            teetotum_plugins::entry::ManifestRefusal::NotWasm
        ))
    ));
}

#[test]
fn ids_listed_twice_are_named_at_the_second() {
    let mut second = listed("https://example.com/y.wasm");
    second.name = "Other".into();
    let plugins = vec![listed("https://example.com/x.wasm"), second, listed("https://example.com/z.wasm")];
    assert!(repeat_problem(&plugins, 0).is_none());
    match repeat_problem(&plugins, 1) {
        Some(Problem::Note(n)) => assert_eq!(n, "id 0011223344556677 is listed twice"),
        _ => panic!("no note"),
    }
    let mut third = listed("https://example.com/z.wasm");
    third.id = "ffffffffffffffff".into();
    let plugins = vec![listed("https://example.com/x.wasm"), third];
    assert!(repeat_problem(&plugins, 1).is_none());
}

#[test]
fn only_format_one_is_read() {
    assert_eq!(format_problem(1), None);
    assert_eq!(format_problem(2), Some("format 2, this tool reads 1".to_string()));
}

#[test]
fn the_order_of_the_tags_does_not_change_what_is_found() {
    let mut a = tag_problems(&tags(&["Media", "game", "x y", "game", "a", "b", "c"]));
    let mut b = tag_problems(&tags(&["game", "c", "b", "game", "x y", "a", "Media"]));
    assert_eq!(a.len(), 4);
    a.sort();
    b.sort();
    assert_eq!(a, b);
}
