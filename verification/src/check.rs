//! Holding an index entry to the module behind its url: what the entry itself breaks, and every
//! field in which it differs from what the module says.
use vstd::prelude::*;
use vstd::string::*;

use crate::entry::{described, module_failure, Entry, EntryView, ModuleError, PackRefusal};
use crate::outside::{json_text, json_words, pack_error_text, pack_words};
use crate::origin::{Origin, OriginView};
use crate::tags::{ships, ships_with_firmware, tag_notes, tag_problems, BUNDLED};
use crate::text::{chars_of, digits_of, number_text, same_text, starts_with, text_starts_with};

verus! {

/// The index format this library reads and writes.
pub const FORMAT: u32 = 1;

/// A field of an entry that the module speaks for, in the order the fields are compared.
#[derive(Clone, Copy, Debug, PartialEq, Eq)]
pub enum Field {
    Abi,
    Id,
    Key,
    License,
    Name,
    Rights,
    Sha256,
    Size,
    Source,
    Summary,
    Url,
    Version,
}

/// The value of a field.
#[derive(Debug)]
pub enum FieldValue {
    Text(String),
    Number(u64),
    List(Vec<String>),
}

/// A [`FieldValue`] as text and numbers.
pub enum FieldText {
    Text(Seq<char>),
    Number(nat),
    List(Seq<Seq<char>>),
}

impl View for FieldValue {
    type V = FieldText;

    open spec fn view(&self) -> FieldText {
        match self {
            FieldValue::Text(t) => FieldText::Text(t@),
            FieldValue::Number(n) => FieldText::Number(*n as nat),
            FieldValue::List(l) => FieldText::List(l.deep_view()),
        }
    }
}

/// One way an entry fails.
#[derive(Debug)]
pub enum Problem {
    /// A problem in words.
    Note(String),
    /// The module behind the url could not be described.
    Module(ModuleError),
    /// The entry says one thing of a field, the module another.
    Differs { field: Field, listed: FieldValue, found: FieldValue },
}

/// A [`Problem`] as text.
pub enum Finding {
    Note(Seq<char>),
    Module(ModuleError),
    Differs(Field, FieldText, FieldText),
}

impl View for Problem {
    type V = Finding;

    open spec fn view(&self) -> Finding {
        match self {
            Problem::Note(t) => Finding::Note(t@),
            Problem::Module(e) => Finding::Module(*e),
            Problem::Differs { field, listed, found } => Finding::Differs(*field, listed@, found@),
        }
    }
}

/// Problems as findings.
pub open spec fn findings(problems: Seq<Problem>) -> Seq<Finding> {
    problems.map_values(|p: Problem| p@)
}

/// Notes as findings.
pub open spec fn noted(notes: Seq<Seq<char>>) -> Seq<Finding> {
    notes.map_values(|n: Seq<char>| Finding::Note(n))
}

/// A finding where `listed` and `found` differ.
pub open spec fn differ(field: Field, listed: FieldText, found: FieldText) -> Seq<Finding> {
    if listed == found { seq![] } else { seq![Finding::Differs(field, listed, found)] }
}

/// Every field in which `listed` differs from `found`, in the order of the fields' names.
/// Tags are the index's own and are not compared.
pub open spec fn differences(listed: EntryView, found: EntryView) -> Seq<Finding> {
    differ(Field::Abi, FieldText::Number(listed.abi as nat), FieldText::Number(found.abi as nat))
        + differ(Field::Id, FieldText::Text(listed.id), FieldText::Text(found.id))
        + differ(Field::Key, FieldText::Text(listed.key), FieldText::Text(found.key))
        + differ(Field::License, FieldText::Text(listed.license), FieldText::Text(found.license))
        + differ(Field::Name, FieldText::Text(listed.name), FieldText::Text(found.name))
        + differ(Field::Rights, FieldText::List(listed.rights), FieldText::List(found.rights))
        + differ(Field::Sha256, FieldText::Text(listed.sha256), FieldText::Text(found.sha256))
        + differ(Field::Size, FieldText::Number(listed.size as nat), FieldText::Number(found.size as nat))
        + differ(Field::Source, FieldText::Text(listed.source), FieldText::Text(found.source))
        + differ(Field::Summary, FieldText::Text(listed.summary), FieldText::Text(found.summary))
        + differ(Field::Url, FieldText::Text(listed.url), FieldText::Text(found.url))
        + differ(Field::Version, FieldText::Text(listed.version), FieldText::Text(found.version))
}

/// A copy of `list`.
fn copy_list(list: &Vec<String>) -> (copy: Vec<String>)
    ensures
        copy.deep_view() == list.deep_view(),
{
    let mut copy: Vec<String> = Vec::new();
    let mut i: usize = 0;
    while i < list.len()
        invariant
            0 <= i <= list@.len(),
            copy.deep_view() == list.deep_view().take(i as int),
        decreases list@.len() - i,
    {
        let item = list[i].clone();
        let ghost before = copy.deep_view();
        copy.push(item);
        assert(copy.deep_view() =~= before.push(list.deep_view()[i as int]));
        assert(list.deep_view().take(i + 1) =~= list.deep_view().take(i as int).push(list.deep_view()[i as int]));
        i += 1;
    }
    assert(list.deep_view().take(i as int) =~= list.deep_view());
    copy
}

/// Whether two lists hold the same texts in the same order.
fn same_list(a: &Vec<String>, b: &Vec<String>) -> (same: bool)
    ensures
        same == (a.deep_view() == b.deep_view()),
{
    if a.len() != b.len() {
        assert(a.deep_view().len() != b.deep_view().len());
        return false;
    }
    let mut i: usize = 0;
    while i < a.len()
        invariant
            a@.len() == b@.len(),
            0 <= i <= a@.len(),
            forall|k: int| 0 <= k < i ==> a.deep_view()[k] == b.deep_view()[k],
        decreases a@.len() - i,
    {
        if !(a[i] == b[i]) {
            assert(a.deep_view()[i as int] != b.deep_view()[i as int]);
            return false;
        }
        i += 1;
    }
    assert(a.deep_view() =~= b.deep_view());
    true
}

/// Adds a difference in a text field.
fn compare_text(problems: &mut Vec<Problem>, field: Field, listed: &String, found: &String)
    ensures
        findings(final(problems)@) == findings(old(problems)@) + differ(
            field,
            FieldText::Text(listed@),
            FieldText::Text(found@),
        ),
{
    let ghost before = findings(problems@);
    if !(*listed == *found) {
        problems.push(Problem::Differs {
            field,
            listed: FieldValue::Text(listed.clone()),
            found: FieldValue::Text(found.clone()),
        });
    }
    assert(findings(problems@) =~= before + differ(field, FieldText::Text(listed@), FieldText::Text(found@)));
}

/// Adds a difference in a number field.
fn compare_number(problems: &mut Vec<Problem>, field: Field, listed: u64, found: u64)
    ensures
        findings(final(problems)@) == findings(old(problems)@) + differ(
            field,
            FieldText::Number(listed as nat),
            FieldText::Number(found as nat),
        ),
{
    let ghost before = findings(problems@);
    if listed != found {
        problems.push(Problem::Differs {
            field,
            listed: FieldValue::Number(listed),
            found: FieldValue::Number(found),
        });
    }
    assert(findings(problems@) =~= before + differ(field, FieldText::Number(listed as nat), FieldText::Number(found as nat)));
}

/// Every field in which the entry as listed differs from the entry its module makes, in the
/// order of the fields' names; tags are not compared.
pub fn field_differences(listed: &Entry, found: &Entry) -> (problems: Vec<Problem>)
    ensures
        findings(problems@) == differences(listed@, found@),
{
    let mut problems: Vec<Problem> = Vec::new();
    assert(findings(problems@) =~= Seq::<Finding>::empty());
    compare_number(&mut problems, Field::Abi, listed.abi as u64, found.abi as u64);
    compare_text(&mut problems, Field::Id, &listed.id, &found.id);
    compare_text(&mut problems, Field::Key, &listed.key, &found.key);
    compare_text(&mut problems, Field::License, &listed.license, &found.license);
    compare_text(&mut problems, Field::Name, &listed.name, &found.name);
    let ghost before = findings(problems@);
    if !same_list(&listed.rights, &found.rights) {
        problems.push(Problem::Differs {
            field: Field::Rights,
            listed: FieldValue::List(copy_list(&listed.rights)),
            found: FieldValue::List(copy_list(&found.rights)),
        });
    }
    assert(findings(problems@) =~= before + differ(Field::Rights, FieldText::List(listed.rights.deep_view()), FieldText::List(found.rights.deep_view())));
    compare_text(&mut problems, Field::Sha256, &listed.sha256, &found.sha256);
    compare_number(&mut problems, Field::Size, listed.size as u64, found.size as u64);
    compare_text(&mut problems, Field::Source, &listed.source, &found.source);
    compare_text(&mut problems, Field::Summary, &listed.summary, &found.summary);
    compare_text(&mut problems, Field::Url, &listed.url, &found.url);
    compare_text(&mut problems, Field::Version, &listed.version, &found.version);
    problems
}

/// What comes of looking at an entry before its module is fetched.
#[derive(Debug)]
pub enum Listing {
    /// The entry's problems are known; its module is not to be fetched.
    Settled(Vec<Problem>),
    /// The problems so far; the module behind the url, which is https, is to be fetched.
    Fetch(Vec<Problem>),
}

/// A [`Listing`] as findings.
pub enum ListingView {
    Settled(Seq<Finding>),
    Fetch(Seq<Finding>),
}

impl View for Listing {
    type V = ListingView;

    open spec fn view(&self) -> ListingView {
        match self {
            Listing::Settled(p) => ListingView::Settled(findings(p@)),
            Listing::Fetch(p) => ListingView::Fetch(findings(p@)),
        }
    }
}

/// The note on an entry that lacks a name, a source or a license.
pub open spec fn empty_note() -> Seq<char> {
    "name, source and license must not be empty"@
}

/// Whether `bundled` is declared or follows from the url, and the other does not.
pub open spec fn bundled_notes(tags: Seq<Seq<char>>, url: Seq<char>) -> Seq<Seq<char>> {
    let declared = tags.contains(BUNDLED@);
    if declared && !ships(url) {
        seq!["tagged "@ + BUNDLED@ + ", but its url is not among the firmware's modules"@]
    } else if !declared && ships(url) {
        seq!["not tagged "@ + BUNDLED@ + ", but its url is among the firmware's modules"@]
    } else {
        seq![]
    }
}

/// Whether a url is fetched over https.
pub open spec fn is_https(url: Seq<char>) -> bool {
    starts_with(url, "https://"@)
}

/// What an entry breaks by itself, and whether its module is to be fetched.
pub open spec fn listing_of(listed: EntryView) -> ListingView {
    if listed.name.len() == 0 || listed.source.len() == 0 || listed.license.len() == 0 {
        ListingView::Settled(seq![Finding::Note(empty_note())])
    } else {
        let found = noted(tag_notes(listed.tags) + bundled_notes(listed.tags, listed.url));
        if is_https(listed.url) {
            ListingView::Fetch(found)
        } else {
            ListingView::Settled(found.push(Finding::Note(listed.url + ": not https"@)))
        }
    }
}

/// Whether one of `tags` is `bundled`.
pub fn declares_bundled(tags: &[String]) -> (declared: bool)
    ensures
        declared == tags.deep_view().contains(BUNDLED@),
{
    let ghost views = tags.deep_view();
    let mut i: usize = 0;
    while i < tags.len()
        invariant
            views == tags.deep_view(),
            0 <= i <= tags@.len(),
            !views.take(i as int).contains(BUNDLED@),
        decreases tags@.len() - i,
    {
        if same_text(tags[i].as_str(), BUNDLED) {
            assert(views[i as int] == BUNDLED@);
            return true;
        }
        assert(views.take(i + 1) =~= views.take(i as int).push(views[i as int]));
        i += 1;
    }
    assert(views.take(i as int) =~= views);
    false
}

/// `notes` as problems.
fn notes_to_problems(notes: &Vec<String>, problems: &mut Vec<Problem>)
    ensures
        findings(final(problems)@) == findings(old(problems)@) + noted(notes.deep_view()),
{
    let ghost start = findings(problems@);
    let mut i: usize = 0;
    while i < notes.len()
        invariant
            0 <= i <= notes@.len(),
            findings(problems@) == start + noted(notes.deep_view().take(i as int)),
        decreases notes@.len() - i,
    {
        let ghost before = findings(problems@);
        problems.push(Problem::Note(notes[i].clone()));
        assert(findings(problems@) =~= before.push(Finding::Note(notes.deep_view()[i as int])));
        assert(noted(notes.deep_view().take(i + 1)) =~= noted(notes.deep_view().take(i as int)).push(Finding::Note(notes.deep_view()[i as int])));
        i += 1;
    }
    assert(notes.deep_view().take(i as int) =~= notes.deep_view());
}

/// What an entry breaks before its module is looked at: a missing name, source or license;
/// its tags; `bundled` declared where the url does not make it, or the other way round; and a
/// url that is not https. Its module is to be fetched unless one of the first or the last
/// holds.
pub fn listing_problems(listed: &Entry) -> (listing: Listing)
    ensures
        listing@ == listing_of(listed@),
{
    let mut problems: Vec<Problem> = Vec::new();
    if listed.name.as_str().is_empty() || listed.source.as_str().is_empty()
        || listed.license.as_str().is_empty() {
        problems.push(Problem::Note(String::from_str("name, source and license must not be empty")));
        assert(findings(problems@) =~= seq![Finding::Note(empty_note())]);
        return Listing::Settled(problems);
    }
    assert(findings(problems@) =~= Seq::<Finding>::empty());
    let tags = listed.tags.as_slice();
    assert(tags.deep_view() =~= listed@.tags);
    let notes = tag_problems(tags);
    notes_to_problems(&notes, &mut problems);
    let ghost tagged = findings(problems@);
    assert(tagged =~= noted(tag_notes(listed@.tags)));
    let declared = declares_bundled(tags);
    let bundled = ships_with_firmware(listed.url.as_str());
    if declared && !bundled {
        let mut note = String::from_str("tagged ");
        note.append(BUNDLED);
        note.append(", but its url is not among the firmware's modules");
        problems.push(Problem::Note(note));
        assert(findings(problems@) =~= tagged + noted(bundled_notes(listed@.tags, listed@.url)));
    } else if !declared && bundled {
        let mut note = String::from_str("not tagged ");
        note.append(BUNDLED);
        note.append(", but its url is among the firmware's modules");
        problems.push(Problem::Note(note));
        assert(findings(problems@) =~= tagged + noted(bundled_notes(listed@.tags, listed@.url)));
    } else {
        assert(findings(problems@) =~= tagged + noted(bundled_notes(listed@.tags, listed@.url)));
    }
    assert(findings(problems@) =~= noted(tag_notes(listed@.tags) + bundled_notes(listed@.tags, listed@.url)));
    if text_starts_with(&chars_of(listed.url.as_str()), &chars_of("https://")) {
        Listing::Fetch(problems)
    } else {
        let ghost found = findings(problems@);
        let mut note = listed.url.clone();
        note.append(": not https");
        problems.push(Problem::Note(note));
        assert(findings(problems@) =~= found.push(Finding::Note(listed@.url + ": not https"@)));
        Listing::Settled(problems)
    }
}

/// The origin under which an entry's module is described again to check it.
pub open spec fn origin_listed(listed: EntryView) -> OriginView {
    OriginView { url: listed.url, source: listed.source, license: listed.license, tags: seq![] }
}

/// A fetched module, or why it could not be fetched, as bytes and text.
pub open spec fn fetched_view(fetched: Result<Vec<u8>, String>) -> Result<Seq<u8>, Seq<char>> {
    match fetched {
        Ok(wasm) => Ok(wasm@),
        Err(reason) => Err(reason@),
    }
}

/// What the module behind the url says against the entry: why it could not be fetched, why it
/// could not be described, or every field the entry has wrong.
pub open spec fn module_findings(listed: EntryView, fetched: Result<Seq<u8>, Seq<char>>) -> Seq<Finding> {
    match fetched {
        Err(reason) => seq![Finding::Note(listed.url + ": "@ + reason)],
        Ok(wasm) => match module_failure(wasm) {
            Some(refusal) => seq![Finding::Module(refusal)],
            None => differences(listed, described(wasm, origin_listed(listed))->0),
        },
    }
}

/// The problems `so_far`, and after them what the module fetched from the entry's url says
/// against the entry -- or why it could not be fetched, as `fetched` gives the reason.
pub fn problems(listed: &Entry, so_far: Vec<Problem>, fetched: Result<Vec<u8>, String>) -> (all: Vec<Problem>)
    ensures
        findings(all@) == findings(so_far@) + module_findings(listed@, fetched_view(fetched)),
{
    let mut all = so_far;
    let ghost start = findings(all@);
    match fetched {
        Err(reason) => {
            let mut note = listed.url.clone();
            note.append(": ");
            note.append(reason.as_str());
            all.push(Problem::Note(note));
            assert(findings(all@) =~= start.push(Finding::Note(listed@.url + ": "@ + reason@)));
        },
        Ok(wasm) => {
            let origin = Origin {
                url: listed.url.clone(),
                source: listed.source.clone(),
                license: listed.license.clone(),
                tags: Vec::new(),
            };
            assert(origin@.tags =~= Seq::<Seq<char>>::empty());
            assert(origin@ == origin_listed(listed@));
            match Entry::describe(wasm.as_slice(), origin) {
                Err(e) => {
                    all.push(Problem::Module(e));
                    assert(findings(all@) =~= start.push(Finding::Module(module_failure(wasm@)->0)));
                },
                Ok(found) => {
                    let mut differences = field_differences(listed, &found);
                    all.append(&mut differences);
                    assert(findings(all@) =~= start + module_findings(listed@, Ok(wasm@)));
                },
            }
        },
    }
    all
}

/// Whether the entry at `at` has an id that an entry before it has too.
pub open spec fn listed_before(plugins: Seq<Entry>, at: int) -> bool {
    exists|j: int| 0 <= j < at && #[trigger] plugins[j].id@ == plugins[at].id@
}

/// The note on an id listed twice.
pub open spec fn twice_id_note(id: Seq<char>) -> Seq<char> {
    "id "@ + id + " is listed twice"@
}

/// The problem of the entry at `at` if an entry before it has its id.
pub fn repeat_problem(plugins: &[Entry], at: usize) -> (problem: Option<Problem>)
    requires
        at < plugins@.len(),
    ensures
        match problem {
            Some(p) => listed_before(plugins@, at as int) && p@ == Finding::Note(twice_id_note(plugins@[at as int].id@)),
            None => !listed_before(plugins@, at as int),
        },
{
    let mut j: usize = 0;
    while j < at
        invariant
            at < plugins@.len(),
            0 <= j <= at,
            forall|k: int| 0 <= k < j ==> plugins@[k].id@ != plugins@[at as int].id@,
        decreases at - j,
    {
        if plugins[j].id == plugins[at].id {
            let mut note = String::from_str("id ");
            note.append(plugins[at].id.as_str());
            note.append(" is listed twice");
            return Some(Problem::Note(note));
        }
        j += 1;
    }
    None
}

/// The note on an index of another format than [`FORMAT`].
pub open spec fn format_note(format: u32) -> Seq<char> {
    "format "@ + digits_of(format as nat) + ", this tool reads "@ + digits_of(FORMAT as nat)
}

/// The problem with an index of format `format`, if it is not the one this library reads.
pub fn format_problem(format: u32) -> (problem: Option<String>)
    ensures
        match problem {
            Some(note) => format != FORMAT && note@ == format_note(format),
            None => format == FORMAT,
        },
{
    if format == FORMAT {
        return None;
    }
    let mut note = String::from_str("format ");
    note.append(number_text(format as u64).as_str());
    note.append(", this tool reads ");
    note.append(number_text(FORMAT as u64).as_str());
    Some(note)
}

/// A field's name, as the index writes it.
pub open spec fn field_name(field: Field) -> Seq<char> {
    match field {
        Field::Abi => "abi"@,
        Field::Id => "id"@,
        Field::Key => "key"@,
        Field::License => "license"@,
        Field::Name => "name"@,
        Field::Rights => "rights"@,
        Field::Sha256 => "sha256"@,
        Field::Size => "size"@,
        Field::Source => "source"@,
        Field::Summary => "summary"@,
        Field::Url => "url"@,
        Field::Version => "version"@,
    }
}

/// A field's name, as the index writes it.
fn field_name_text(field: Field) -> (name: &'static str)
    ensures
        name@ == field_name(field),
{
    match field {
        Field::Abi => "abi",
        Field::Id => "id",
        Field::Key => "key",
        Field::License => "license",
        Field::Name => "name",
        Field::Rights => "rights",
        Field::Sha256 => "sha256",
        Field::Size => "size",
        Field::Source => "source",
        Field::Summary => "summary",
        Field::Url => "url",
        Field::Version => "version",
    }
}

/// The refusal of `teetotum-pack` that a module error is: a manifest or key that cannot be
/// read is its manifest refusal.
pub open spec fn pack_refusal(e: ModuleError) -> PackRefusal {
    match e {
        ModuleError::Manifest(r) => PackRefusal::Manifest(r),
        ModuleError::Signature(p) => p,
        ModuleError::Key(r) => PackRefusal::Manifest(r),
    }
}

/// Why a module was refused, in the words of `teetotum-pack`.
pub fn refusal_text(e: ModuleError) -> (text: String)
    ensures
        text@ == pack_words(pack_refusal(e)),
{
    let refusal = match e {
        ModuleError::Manifest(r) => PackRefusal::Manifest(r),
        ModuleError::Signature(p) => p,
        ModuleError::Key(r) => PackRefusal::Manifest(r),
    };
    pack_error_text(refusal)
}

/// A problem in words.
pub open spec fn said(finding: Finding) -> Seq<char> {
    match finding {
        Finding::Note(note) => note,
        Finding::Module(e) => "module: "@ + pack_words(pack_refusal(e)),
        Finding::Differs(field, listed, found) => field_name(field) + " is "@ + json_words(listed)
            + ", the module says "@ + json_words(found),
    }
}

/// `problem` in words: a note as it is; a refused module after `module: `; a field that
/// differs with both values in JSON.
pub fn say(problem: &Problem) -> (words: String)
    ensures
        words@ == said(problem@),
{
    match problem {
        Problem::Note(note) => note.clone(),
        Problem::Module(e) => {
            let mut words = String::from_str("module: ");
            words.append(refusal_text(*e).as_str());
            words
        },
        Problem::Differs { field, listed, found } => {
            let mut words = String::from_str(field_name_text(*field));
            words.append(" is ");
            words.append(json_text(listed).as_str());
            words.append(", the module says ");
            words.append(json_text(found).as_str());
            words
        },
    }
}

/// The lines reported of an entry: that it holds, or each of its problems, every line after
/// the entry's name and version.
pub open spec fn report_lines(name: Seq<char>, version: Seq<char>, found: Seq<Finding>) -> Seq<Seq<char>> {
    let head = name + " "@ + version + ": "@;
    if found.len() == 0 {
        seq![head + "holds"@]
    } else {
        found.map_values(|f: Finding| head + said(f))
    }
}

/// The lines reported of `listed` with its `problems`, and whether it holds: it has none.
pub fn report(listed: &Entry, problems: &Vec<Problem>) -> (reported: (Vec<String>, bool))
    ensures
        reported.0.deep_view() == report_lines(listed@.name, listed@.version, findings(problems@)),
        reported.1 == (problems@.len() == 0),
{
    let mut head = listed.name.clone();
    head.append(" ");
    head.append(listed.version.as_str());
    head.append(": ");
    let ghost start = head@;
    let mut lines: Vec<String> = Vec::new();
    if problems.len() == 0 {
        let mut line = head.clone();
        line.append("holds");
        lines.push(line);
        assert(lines.deep_view() =~= report_lines(listed@.name, listed@.version, findings(problems@)));
        return (lines, true);
    }
    let mut i: usize = 0;
    while i < problems.len()
        invariant
            head@ == start,
            start == listed@.name + " "@ + listed@.version + ": "@,
            0 <= i <= problems@.len(),
            lines.deep_view() == findings(problems@).take(i as int).map_values(|f: Finding| start + said(f)),
        decreases problems@.len() - i,
    {
        let mut line = head.clone();
        line.append(say(&problems[i]).as_str());
        let ghost before = lines.deep_view();
        lines.push(line);
        assert(lines.deep_view() =~= before.push(start + said(problems@[i as int]@)));
        assert(findings(problems@).take(i + 1).map_values(|f: Finding| start + said(f)) =~= before.push(start + said(problems@[i as int]@)));
        i += 1;
    }
    assert(findings(problems@).take(i as int) =~= findings(problems@));
    (lines, false)
}

} // verus!
