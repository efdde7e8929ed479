//! An index entry: what a module says about itself, and what it cannot.
use vstd::prelude::*;
use vstd::string::*;

use crate::origin::{Origin, OriginView};
use crate::outside::{manifest_of, plugin_id, plugin_id_of, read_manifest, read_signing_key,
    sha256, sha256_of, signature_verdict, signing_key, verify_signature};
use crate::tags::{ships, ships_with_firmware, BUNDLED};
use crate::text::{digits_of, hex, hex_text, number_text};

verus! {

/// What a module's manifest says about the face.
#[derive(Debug)]
pub struct ManifestFields {
    pub name: String,
    pub summary: String,
    /// The host ABI the face was built against.
    pub abi: u16,
    pub major: u16,
    pub minor: u16,
    pub patch: u16,
    /// The bits of the rights the face asks for.
    pub rights: u32,
}

impl View for ManifestFields {
    type V = (Seq<char>, Seq<char>, u16, u16, u16, u16, u32);

    open spec fn view(&self) -> Self::V {
        (self.name@, self.summary@, self.abi, self.major, self.minor, self.patch, self.rights)
    }
}

/// One face in the index.
#[derive(Debug)]
pub struct Entry {
    pub name: String,
    pub summary: String,
    pub tags: Vec<String>,
    pub version: String,
    pub abi: u16,
    pub rights: Vec<String>,
    /// Hex of the eight bytes the device knows the face by.
    pub id: String,
    /// Hex of the author's Ed25519 public key.
    pub key: String,
    pub size: usize,
    pub sha256: String,
    pub url: String,
    pub source: String,
    pub license: String,
}

/// An [`Entry`] as text and numbers.
pub struct EntryView {
    pub name: Seq<char>,
    pub summary: Seq<char>,
    pub tags: Seq<Seq<char>>,
    pub version: Seq<char>,
    pub abi: u16,
    pub rights: Seq<Seq<char>>,
    pub id: Seq<char>,
    pub key: Seq<char>,
    pub size: usize,
    pub sha256: Seq<char>,
    pub url: Seq<char>,
    pub source: Seq<char>,
    pub license: Seq<char>,
}

impl View for Entry {
    type V = EntryView;

    open spec fn view(&self) -> EntryView {
        EntryView {
            name: self.name@,
            summary: self.summary@,
            tags: self.tags.deep_view(),
            version: self.version@,
            abi: self.abi,
            rights: self.rights.deep_view(),
            id: self.id@,
            key: self.key@,
            size: self.size,
            sha256: self.sha256@,
            url: self.url@,
            source: self.source@,
            license: self.license@,
        }
    }
}

/// Why a module has no manifest, or no signature section, that can be read: the refusals of
/// `teetotum_pack::manifest::Error`, each with what it carries.
#[derive(Clone, Copy, Debug, PartialEq, Eq)]
pub enum ManifestRefusal {
    /// Not a WebAssembly module, or one whose sections do not add up.
    NotWasm,
    /// A module without a manifest.
    Missing,
    /// Two manifests.
    Twice,
    /// Shorter than a manifest.
    Truncated,
    /// A manifest format that is not read, with its number.
    Version(u8),
    /// A name that is empty, too long or not UTF-8.
    Name,
    /// A summary that is too long or not UTF-8.
    Summary,
    /// Rights that are not known, with their bits.
    Rights(u32),
    /// Built against a newer host ABI, with its number.
    Abi(u16),
    /// No signature section.
    Unsigned,
    /// A signature section that is repeated, not the module's last, or not a key and a
    /// signature long.
    Signature,
}

/// Why a module's signature was not accepted: the refusals of `teetotum_pack::Error`.
#[derive(Clone, Copy, Debug, PartialEq, Eq)]
pub enum PackRefusal {
    /// No signature section to check, or one in the wrong place.
    Manifest(ManifestRefusal),
    /// The signature does not hold for the module's bytes and key.
    Signature,
}

/// Why a module could not be described: the step that refused it, and its refusal.
#[derive(Clone, Copy, Debug, PartialEq, Eq)]
pub enum ModuleError {
    /// No manifest this version reads.
    Manifest(ManifestRefusal),
    /// A signature that does not hold.
    Signature(PackRefusal),
    /// No signature section to take the key from.
    Key(ManifestRefusal),
}

/// A face's version as `major.minor.patch`.
pub open spec fn version_text(major: u16, minor: u16, patch: u16) -> Seq<char> {
    digits_of(major as nat) + "."@ + digits_of(minor as nat) + "."@ + digits_of(patch as nat)
}

/// One right's name if `bits` hold its bit.
pub open spec fn right_name(bits: u32, bit: u32, name: Seq<char>) -> Seq<Seq<char>> {
    if bits & bit == bit { seq![name] } else { seq![] }
}

/// The names of the rights in `bits`, in the order the firmware lists them.
pub open spec fn right_names(bits: u32) -> Seq<Seq<char>> {
    right_name(bits, 1, "HID"@) + right_name(bits, 2, "KNOB"@) + right_name(bits, 4, "RANDOM"@)
        + right_name(bits, 8, "RADIO"@) + right_name(bits, 16, "HAPTIC"@)
}

/// The names of the rights in `rights`: `HID`, `KNOB`, `RANDOM`, `RADIO`, `HAPTIC`, in that order,
/// each that the bits hold.
pub fn names(rights: u32) -> (named: Vec<String>)
    ensures
        named.deep_view() == right_names(rights),
{
    let mut named: Vec<String> = Vec::new();
    if rights & 1 == 1 {
        named.push(String::from_str("HID"));
    }
    let ghost a = named.deep_view();
    assert(a =~= right_name(rights, 1, "HID"@));
    if rights & 2 == 2 {
        named.push(String::from_str("KNOB"));
    }
    let ghost b = named.deep_view();
    assert(b =~= a + right_name(rights, 2, "KNOB"@));
    if rights & 4 == 4 {
        named.push(String::from_str("RANDOM"));
    }
    let ghost c = named.deep_view();
    assert(c =~= b + right_name(rights, 4, "RANDOM"@));
    if rights & 8 == 8 {
        named.push(String::from_str("RADIO"));
    }
    let ghost d = named.deep_view();
    assert(d =~= c + right_name(rights, 8, "RADIO"@));
    if rights & 16 == 16 {
        named.push(String::from_str("HAPTIC"));
    }
    assert(named.deep_view() =~= d + right_name(rights, 16, "HAPTIC"@));
    named
}

/// An entry's tags: `bundled` first where the url is among the firmware's modules, then the
/// author's.
pub open spec fn entry_tags(url: Seq<char>, tags: Seq<Seq<char>>) -> Seq<Seq<char>> {
    if ships(url) { seq![BUNDLED@] + tags } else { tags }
}

/// Why a module is refused, if it is: the refusal of the first step that refuses it -- reading
/// its manifest, checking its signature, reading its key.
pub open spec fn module_failure(wasm: Seq<u8>) -> Option<ModuleError> {
    match (manifest_of(wasm), signature_verdict(wasm), signing_key(wasm)) {
        (Err(r), _, _) => Some(ModuleError::Manifest(r)),
        (Ok(_), Err(p), _) => Some(ModuleError::Signature(p)),
        (Ok(_), Ok(()), Err(r)) => Some(ModuleError::Key(r)),
        (Ok(_), Ok(()), Ok(_)) => None,
    }
}

/// The entry a module and its origin make.
pub open spec fn described(wasm: Seq<u8>, origin: OriginView) -> Option<EntryView> {
    match (module_failure(wasm), manifest_of(wasm), signing_key(wasm)) {
        (None, Ok(m), Ok(key)) => Some(EntryView {
            name: m.0,
            summary: m.1,
            tags: entry_tags(origin.url, origin.tags),
            version: version_text(m.3, m.4, m.5),
            abi: m.2,
            rights: right_names(m.6),
            id: hex_text(plugin_id_of(key, m.0)),
            key: hex_text(key),
            size: wasm.len() as usize,
            sha256: hex_text(sha256_of(wasm)),
            url: origin.url,
            source: origin.source,
            license: origin.license,
        }),
        _ => None,
    }
}

impl Entry {
    /// The entry for `wasm`: what its manifest, key and bytes say, and what `origin` adds. A
    /// module is described only when its manifest reads and its signature holds.
    pub fn describe(wasm: &[u8], origin: Origin) -> (described_entry: Result<Entry, ModuleError>)
        ensures
            described_entry is Ok <==> module_failure(wasm@) is None,
            match described_entry {
                Ok(entry) => {
                    &&& described(wasm@, origin@) == Some(entry@)
                    &&& entry.name@.len() > 0
                    &&& entry.id@.len() == 16
                    &&& entry.key@.len() == 64
                    &&& entry.sha256@.len() == 64
                },
                Err(e) => module_failure(wasm@) == Some(e),
            },
    {
        let manifest = match read_manifest(wasm) {
            Ok(m) => m,
            Err(e) => return Err(ModuleError::Manifest(e)),
        };
        match verify_signature(wasm) {
            Ok(()) => {},
            Err(e) => return Err(ModuleError::Signature(e)),
        }
        let key = match read_signing_key(wasm) {
            Ok(k) => k,
            Err(e) => return Err(ModuleError::Key(e)),
        };
        let ghost author_tags = origin.tags.deep_view();
        let mut tags: Vec<String> = Vec::new();
        if ships_with_firmware(origin.url.as_str()) {
            tags.push(String::from_str(BUNDLED));
        }
        let ghost first = tags.deep_view();
        let mut author = origin.tags;
        tags.append(&mut author);
        assert(tags.deep_view() =~= first + author_tags);
        let mut version = number_text(manifest.major as u64);
        version.append(".");
        version.append(number_text(manifest.minor as u64).as_str());
        version.append(".");
        version.append(number_text(manifest.patch as u64).as_str());
        let id = plugin_id(&key, manifest.name.as_str());
        let entry = Entry {
            id: hex(&id),
            key: hex(&key),
            rights: names(manifest.rights),
            name: manifest.name,
            summary: manifest.summary,
            tags,
            version,
            abi: manifest.abi,
            size: wasm.len(),
            sha256: hex(sha256(wasm).as_slice()),
            url: origin.url,
            source: origin.source,
            license: origin.license,
        };
        let ghost e = described(wasm@, origin@)->0;
        assert(entry.name@ == e.name);
        assert(entry.tags.deep_view() == e.tags);
        assert(entry.version@ == e.version);
        assert(entry.rights.deep_view() == e.rights);
        assert(entry.id@ == e.id);
        assert(entry.key@ == e.key);
        assert(entry.sha256@ == e.sha256);
        assert(entry.size == e.size);
        Ok(entry)
    }
}

} // verus!
