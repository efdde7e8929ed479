//! What this library takes from outside crates and from std, each with the contract it is
//! trusted to keep.
use vstd::prelude::*;
use vstd::utf8::valid_utf8;
use vstd::string::*;

use sha2::{Digest, Sha256};
use teetotum_pack::manifest::Error as E;
use teetotum_pack::{Manifest, PluginId, Signed};

use crate::check::{FieldText, FieldValue};
use crate::entry::{ManifestFields, ManifestRefusal, PackRefusal};

verus! {

/// `core::str::from_utf8`, keeping the text and dropping the reason for a refusal.
///
/// Trusted: std documents that the call succeeds exactly on valid UTF-8 and then returns the
/// same bytes as a `str`.
#[verifier::external_body]
pub(crate) fn str_from_utf8(bytes: &[u8]) -> (text: Option<&str>)
    ensures
        text is Some <==> valid_utf8(bytes@),
        text matches Some(t) ==> t.spec_bytes() == bytes@,
{
    core::str::from_utf8(bytes).ok()
}

/// The text of `{:?}` for a string: as std's `Debug` writes it, quoted and escaped.
pub uninterp spec fn debug_text(text: Seq<char>) -> Seq<char>;

/// `format!("{:?}", text)` for a string.
///
/// Trusted: std's `Debug` of a `str` depends on the characters alone, so its result is named
/// by `debug_text`; nothing more of the escaping is stated.
#[verifier::external_body]
pub(crate) fn debug_quoted(text: &str) -> (quoted: String)
    ensures
        quoted@ == debug_text(text@),
{
    format!("{text:?}")
}

/// Why a module has no manifest, or no signature section, that can be read.
#[verifier::external_type_specification]
#[verifier::external_body]
pub struct ExManifestError(teetotum_pack::manifest::Error);

/// `teetotum_pack::manifest::Error` as the library's [`ManifestRefusal`], variant for variant,
/// each with the number it carries. The wrappers below share it to hand a refusal back as a
/// plain value; it tells the variants apart and does nothing else.
#[verifier::external_body]
pub(crate) fn refused(e: teetotum_pack::manifest::Error) -> ManifestRefusal {
    match e {
        E::NotWasm => ManifestRefusal::NotWasm,
        E::Missing => ManifestRefusal::Missing,
        E::Twice => ManifestRefusal::Twice,
        E::Truncated => ManifestRefusal::Truncated,
        E::Version(v) => ManifestRefusal::Version(v),
        E::Name => ManifestRefusal::Name,
        E::Summary => ManifestRefusal::Summary,
        E::Rights(bits) => ManifestRefusal::Rights(bits),
        E::Abi(v) => ManifestRefusal::Abi(v),
        E::Unsigned => ManifestRefusal::Unsigned,
        E::Signature => ManifestRefusal::Signature,
    }
}

/// What `teetotum_pack::Manifest::read` makes of a module: its name, summary, host ABI, the
/// three numbers of the face's version and the bits of its rights, or why it refuses.
pub uninterp spec fn manifest_of(wasm: Seq<u8>) -> Result<(Seq<char>, Seq<char>, u16, u16, u16, u16, u32), ManifestRefusal>;

/// `teetotum_pack::Manifest::read`, with the fields of the manifest it gives back copied out
/// through the manifest's getters, each of which returns a field as it was read, and its
/// refusal as a [`ManifestRefusal`].
///
/// Trusted: the call reads the bytes it is given and nothing else, so its outcome is named by
/// `manifest_of`. Its source refuses a name of no bytes, so a manifest it reads names the face.
#[verifier::external_body]
pub(crate) fn read_manifest(wasm: &[u8]) -> (read: Result<ManifestFields, ManifestRefusal>)
    ensures
        manifest_of(wasm@) == match read {
            Ok(m) => Ok(m@),
            Err(r) => Err(r),
        },
        read matches Ok(m) ==> m.name@.len() > 0,
{
    Manifest::read(wasm).map_err(refused).map(|m| ManifestFields {
        name: m.name().to_string(),
        summary: m.summary().to_string(),
        abi: m.abi(),
        major: m.version().major,
        minor: m.version().minor,
        patch: m.version().patch,
        rights: m.rights().bits(),
    })
}

/// What `teetotum_pack::verify` makes of a module's signature: that it holds for the module's
/// bytes and key, or why not.
pub uninterp spec fn signature_verdict(wasm: Seq<u8>) -> Result<(), PackRefusal>;

/// `teetotum_pack::verify`, with its refusal as a [`PackRefusal`].
///
/// Trusted: Ed25519 checks without chance, so the outcome depends on the bytes alone and is
/// named by `signature_verdict`. `teetotum_pack::Error` is `#[non_exhaustive]`; the version
/// brought has two variants, `Manifest` and `Signature`, and the second arm is the latter.
#[verifier::external_body]
pub(crate) fn verify_signature(wasm: &[u8]) -> (checked: Result<(), PackRefusal>)
    ensures
        checked == signature_verdict(wasm@),
{
    teetotum_pack::verify(wasm).map_err(|e| match e {
        teetotum_pack::Error::Manifest(m) => PackRefusal::Manifest(refused(m)),
        _ => PackRefusal::Signature,
    })
}

/// The key in a module's signature section, as `teetotum_pack::Signed::read` finds it, or why
/// it finds none.
pub uninterp spec fn signing_key(wasm: Seq<u8>) -> Result<Seq<u8>, ManifestRefusal>;

/// `teetotum_pack::Signed::read`, keeping the author's key, with its refusal as a
/// [`ManifestRefusal`].
///
/// Trusted: the call reads the bytes alone, so its outcome is named by `signing_key`; and
/// `verify` reads the signature section the same way before it checks anything, so a module
/// whose signature holds has a key to read.
#[verifier::external_body]
pub(crate) fn read_signing_key(wasm: &[u8]) -> (key: Result<[u8; 32], ManifestRefusal>)
    ensures
        signing_key(wasm@) == match key {
            Ok(k) => Ok(k@),
            Err(r) => Err(r),
        },
        signature_verdict(wasm@) is Ok ==> key is Ok,
{
    Signed::read(wasm).map(|signed| *signed.key).map_err(refused)
}

/// The eight bytes `teetotum_pack::PluginId::new` makes of a key and a name.
pub uninterp spec fn plugin_id_of(key: Seq<u8>, name: Seq<char>) -> Seq<u8>;

/// `teetotum_pack::PluginId::new(key, name).bytes()`.
///
/// Trusted: a hash of the key and the name, so named by `plugin_id_of`.
#[verifier::external_body]
pub(crate) fn plugin_id(key: &[u8; 32], name: &str) -> (id: [u8; 8])
    ensures
        id@ == plugin_id_of(key@, name@),
{
    PluginId::new(key, name).bytes()
}

/// The SHA-256 digest of some bytes.
pub uninterp spec fn sha256_of(data: Seq<u8>) -> Seq<u8>;

/// `sha2::Sha256::digest`.
///
/// Trusted: a digest depends on the bytes alone, so it is named by `sha256_of`; it is 32 bytes
/// long.
#[verifier::external_body]
pub(crate) fn sha256(data: &[u8]) -> (digest: Vec<u8>)
    ensures
        digest@ == sha256_of(data@),
        digest@.len() == 32,
{
    Sha256::digest(data).to_vec()
}

/// The library's [`ManifestRefusal`] as `teetotum_pack::manifest::Error`, variant for variant,
/// each with the number it carries: the other way of [`refused`], for the wording below.
#[verifier::external_body]
pub(crate) fn unrefused(r: ManifestRefusal) -> E {
    match r {
        ManifestRefusal::NotWasm => E::NotWasm,
        ManifestRefusal::Missing => E::Missing,
        ManifestRefusal::Twice => E::Twice,
        ManifestRefusal::Truncated => E::Truncated,
        ManifestRefusal::Version(v) => E::Version(v),
        ManifestRefusal::Name => E::Name,
        ManifestRefusal::Summary => E::Summary,
        ManifestRefusal::Rights(bits) => E::Rights(bits),
        ManifestRefusal::Abi(v) => E::Abi(v),
        ManifestRefusal::Unsigned => E::Unsigned,
        ManifestRefusal::Signature => E::Signature,
    }
}

/// The words in which `teetotum_pack::Error`'s `Display` gives a refusal.
pub uninterp spec fn pack_words(refusal: PackRefusal) -> Seq<char>;

/// `teetotum_pack::Error`'s `Display`, for the error that `refusal` stands for.
///
/// Trusted: the wording depends on the refusal alone, so it is named by `pack_words`.
#[verifier::external_body]
pub(crate) fn pack_error_text(refusal: PackRefusal) -> (text: String)
    ensures
        text@ == pack_words(refusal),
{
    match refusal {
        PackRefusal::Manifest(r) => teetotum_pack::Error::Manifest(unrefused(r)),
        PackRefusal::Signature => teetotum_pack::Error::Signature,
    }.to_string()
}

/// The compact JSON text that `serde_json` writes for a field's value: a string, a number or an
/// array of strings.
pub uninterp spec fn json_words(value: FieldText) -> Seq<char>;

/// `serde_json::Value`'s `Display` for a field's value, as a JSON string, number or array of
/// strings.
///
/// Trusted: the text depends on the value alone, so it is named by `json_words`.
#[verifier::external_body]
pub(crate) fn json_text(value: &FieldValue) -> (text: String)
    ensures
        text@ == json_words(value@),
{
    match value {
        FieldValue::Text(t) => serde_json::Value::from(t.as_str()),
        FieldValue::Number(n) => serde_json::Value::from(*n),
        FieldValue::List(list) => serde_json::Value::from(list.clone()),
    }.to_string()
}

} // verus!
