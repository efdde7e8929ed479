use sha2::{Digest, Sha256};
use teetotum_face::{manifest, Icon, Rights};
use teetotum_pack::PluginId;
use teetotum_plugins::check::{listing_problems, problems, refusal_text, report, say, Field, FieldValue, Listing, Problem};
use teetotum_plugins::entry::{Entry, ManifestRefusal, ModuleError, PackRefusal};
use teetotum_plugins::origin::Origin;
use teetotum_plugins::tags::declaration_problems;

fn key() -> ed25519_compact::KeyPair {
    ed25519_compact::KeyPair::from_seed(ed25519_compact::Seed::new([7; 32]))
}

fn unsigned(name: &str) -> Vec<u8> {
    let icon = Icon::new(&["....####....####....####"; 24]);
    let version = manifest::Version { major: 1, minor: 20, patch: 3 };
    let body = manifest::encode(name, "counts detents", &icon, Rights::KNOB.union(Rights::HID), version);
    let section = manifest::SECTION.as_bytes();
    let size = 1 + section.len() + body.len();
    let mut wasm = b"\0asm\x01\0\0\0".to_vec();
    wasm.push(0);
    wasm.push((size as u8 & 0x7f) | 0x80);
    wasm.push((size >> 7) as u8);
    wasm.push(section.len() as u8);
    wasm.extend_from_slice(section);
    wasm.extend_from_slice(&body);
    wasm
}

fn signed(name: &str) -> Vec<u8> {
    teetotum_pack::sign(&unsigned(name), &key()).unwrap()
}

fn hex(bytes: &[u8]) -> String {
    bytes.iter().map(|b| format!("{b:02x}")).collect()
}

fn origin(url: &str, tags: &[&str]) -> Origin {
    Origin {
        url: url.into(),
        source: "https://github.com/you/face".into(),
        license: "MIT".into(),
        tags: tags.iter().map(|t| t.to_string()).collect(),
    }
}

#[test]
fn a_module_describes_itself() {
    let wasm = signed("Counter");
    let entry = Entry::describe(&wasm, origin("https://example.com/c.wasm", &["media"])).unwrap();
    assert_eq!(entry.name, "Counter");
    assert_eq!(entry.summary, "counts detents");
    assert_eq!(entry.tags, vec!["media"]);
    assert_eq!(entry.version, "1.20.3");
    assert_eq!(entry.rights, vec!["HID", "KNOB"]);
    assert_eq!(entry.key, hex(&key().pk[..]));
    let pk: [u8; 32] = key().pk[..].try_into().unwrap();
    assert_eq!(entry.id, hex(&PluginId::new(&pk, "Counter").bytes()));
    assert_eq!(entry.id.len(), 16);
    assert_eq!(entry.size, wasm.len());
    assert_eq!(entry.sha256, hex(&Sha256::digest(&wasm)));
    assert_eq!(entry.sha256.len(), 64);
    assert_eq!(entry.url, "https://example.com/c.wasm");
    assert_eq!(entry.license, "MIT");
}

#[test]
fn a_firmware_module_is_tagged_bundled_first() {
    let wasm = signed("Nearby");
    let url = "https://raw.githubusercontent.com/teetotum-rs/firmware/v0.1.0/firmware/assets/plugins/n.wasm";
    let entry = Entry::describe(&wasm, origin(url, &["radio"])).unwrap();
    assert_eq!(entry.tags, vec!["bundled", "radio"]);
}

#[test]
fn an_unsigned_module_is_refused() {
    let refused = Entry::describe(&unsigned("Counter"), origin("https://example.com/c.wasm", &[]));
    assert_eq!(
        refused.unwrap_err(),
        ModuleError::Signature(PackRefusal::Manifest(ManifestRefusal::Unsigned))
    );
    let refused = Entry::describe(b"\0asm\x01\0\0\0", origin("https://example.com/c.wasm", &[]));
    assert_eq!(refused.unwrap_err(), ModuleError::Manifest(ManifestRefusal::Missing));
    let mut flipped = signed("Counter");
    let last = flipped.len() - 1;
    flipped[last] ^= 0x01;
    let refused = Entry::describe(&flipped, origin("https://example.com/c.wasm", &[]));
    assert_eq!(refused.unwrap_err(), ModuleError::Signature(PackRefusal::Signature));
    let mut behind = signed("Counter");
    behind.extend_from_slice(&[0, 2, 1, b'x']);
    let refused = Entry::describe(&behind, origin("https://example.com/c.wasm", &[]));
    assert_eq!(
        refused.unwrap_err(),
        ModuleError::Signature(PackRefusal::Manifest(ManifestRefusal::Signature))
    );
}

#[test]
fn an_entry_written_for_a_module_holds() {
    let wasm = signed("Counter");
    for url in [
        "https://example.com/c.wasm",
        "https://raw.githubusercontent.com/teetotum-rs/firmware/v1/firmware/assets/plugins/c.wasm",
    ] {
        let written = origin(url, &["media", "knob-2"]);
        assert!(declaration_problems(&written.tags).is_empty());
        let entry = Entry::describe(&wasm, written).unwrap();
        let so_far = match listing_problems(&entry) {
            Listing::Fetch(p) => p,
            Listing::Settled(_) => panic!("not fetched"),
        };
        assert!(so_far.is_empty());
        assert!(problems(&entry, so_far, Ok(wasm.clone())).is_empty());
    }
}

#[test]
fn every_field_that_no_longer_matches_is_named() {
    let wasm = signed("Counter");
    let mut entry = Entry::describe(&wasm, origin("https://example.com/c.wasm", &[])).unwrap();
    entry.version = "1.20.2".into();
    entry.abi = 99;
    entry.rights = vec!["HID".into()];
    let found = problems(&entry, Vec::new(), Ok(wasm));
    let fields: Vec<Field> = found
        .iter()
        .map(|p| match p {
            Problem::Differs { field, .. } => *field,
            _ => panic!("not a difference"),
        })
        .collect();
    assert_eq!(fields, vec![Field::Abi, Field::Rights, Field::Version]);
    match &found[2] {
        Problem::Differs { listed: FieldValue::Text(l), found: FieldValue::Text(f), .. } => {
            assert_eq!(l, "1.20.2");
            assert_eq!(f, "1.20.3");
        }
        _ => panic!("not text"),
    }
}

#[test]
fn another_module_at_the_url_differs() {
    let entry = Entry::describe(&signed("Counter"), origin("https://example.com/c.wasm", &[])).unwrap();
    let found = problems(&entry, Vec::new(), Ok(signed("Count")));
    let fields: Vec<Field> = found
        .iter()
        .map(|p| match p {
            Problem::Differs { field, .. } => *field,
            _ => panic!("not a difference"),
        })
        .collect();
    // A manifest pads the name, so the size stays.
    assert_eq!(fields, vec![Field::Id, Field::Name, Field::Sha256]);
}

#[test]
fn refusals_are_worded_as_teetotum_pack_words_them() {
    assert_eq!(
        refusal_text(ModuleError::Signature(PackRefusal::Manifest(ManifestRefusal::Unsigned))),
        "not signed"
    );
    assert_eq!(
        refusal_text(ModuleError::Signature(PackRefusal::Signature)),
        "signature does not match its bytes and key"
    );
    assert_eq!(refusal_text(ModuleError::Manifest(ManifestRefusal::Missing)), "no manifest");
    assert_eq!(
        say(&Problem::Module(ModuleError::Key(ManifestRefusal::Version(2)))),
        "module: manifest format 2, this firmware reads 3"
    );
}

#[test]
fn a_report_names_the_entry_and_each_problem() {
    let wasm = signed("Counter");
    let mut entry = Entry::describe(&wasm, origin("https://example.com/c.wasm", &[])).unwrap();
    let abi = entry.abi;
    let (lines, holds) = report(&entry, &Vec::new());
    assert!(holds);
    assert_eq!(lines, vec!["Counter 1.20.3: holds"]);
    entry.version = "1.2\"0".into();
    entry.abi = abi + 1;
    entry.rights = vec!["HID".into()];
    let found = problems(&entry, Vec::new(), Ok(wasm));
    let (lines, holds) = report(&entry, &found);
    assert!(!holds);
    assert_eq!(
        lines,
        vec![
            format!("Counter 1.2\"0: abi is {}, the module says {}", abi + 1, abi),
            "Counter 1.2\"0: rights is [\"HID\"], the module says [\"HID\",\"KNOB\"]".to_string(),
            "Counter 1.2\"0: version is \"1.2\\\"0\", the module says \"1.20.3\"".to_string(),
        ]
    );
}
