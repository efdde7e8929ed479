//! The index's tags and the one tag that follows from where a module is published.
use vstd::prelude::*;
use vstd::string::*;
use vstd::utf8::encode_utf8;

use crate::outside::{debug_quoted, debug_text};
use crate::text::{chars_of, digits_of, has_infix, number_text, same_text, starts_with,
    text_contains, text_starts_with};

verus! {

/// The tag of a module the firmware ships.
pub const BUNDLED: &'static str = "bundled";

/// Where the firmware's own modules are published; only the project can write there.
pub const FIRMWARE_RAW: &'static str = "https://raw.githubusercontent.com/teetotum-rs/firmware/";

/// Where below [`FIRMWARE_RAW`] the firmware keeps its modules.
pub const FIRMWARE_PLUGINS: &'static str = "/firmware/assets/plugins/";

/// Tags an author may declare per entry, not counting `bundled`.
pub const TAGS_MAX: usize = 5;

/// The longest tag, in bytes.
pub const TAG_LEN_MAX: usize = 16;

/// A character that ends the path of a url: the start of its query or of its fragment.
pub open spec fn ends_path(c: char) -> bool {
    c == '?' || c == '#'
}

/// The path part of `rest`: everything before its query or fragment.
pub open spec fn path_part(rest: Seq<char>) -> Seq<char>
    decreases rest.len(),
{
    if rest.len() == 0 || ends_path(rest[0]) {
        seq![]
    } else {
        seq![rest[0]] + path_part(rest.drop_first())
    }
}

/// Whether `url` points at a module the firmware ships: below the firmware's published tree,
/// with the plugins directory in the path the url fetches -- not in its query or fragment --
/// and without a step back out of it.
pub open spec fn ships(url: Seq<char>) -> bool {
    let path = path_part(url.skip(FIRMWARE_RAW@.len() as int));
    &&& starts_with(url, FIRMWARE_RAW@)
    &&& has_infix(path, FIRMWARE_PLUGINS@)
    &&& !has_infix(path, ".."@)
}

/// The path part of `rest`, up to its query or fragment.
fn until_query(rest: &Vec<char>) -> (path: Vec<char>)
    ensures
        path@ == path_part(rest@),
{
    let mut path: Vec<char> = Vec::new();
    let mut i: usize = 0;
    assert(rest@.skip(0) =~= rest@);
    while i < rest.len()
        invariant
            0 <= i <= rest@.len(),
            path_part(rest@) == path@ + path_part(rest@.skip(i as int)),
        decreases rest@.len() - i,
    {
        let c = rest[i];
        if c == '?' || c == '#' {
            assert(path_part(rest@.skip(i as int)) =~= Seq::<char>::empty());
            assert(path_part(rest@) =~= path@);
            return path;
        }
        let ghost tail = rest@.skip(i as int);
        assert(tail.drop_first() =~= rest@.skip(i + 1));
        assert(path_part(tail) == seq![c] + path_part(tail.drop_first()));
        path.push(c);
        assert(path_part(rest@) =~= path@ + path_part(rest@.skip(i + 1)));
        i += 1;
    }
    assert(rest@.skip(i as int) =~= Seq::<char>::empty());
    assert(path_part(rest@) =~= path@);
    path
}

/// Whether `url` points at a module the firmware ships.
pub fn ships_with_firmware(url: &str) -> (bundled: bool)
    ensures
        bundled == ships(url@),
{
    let chars = chars_of(url);
    let raw = chars_of(FIRMWARE_RAW);
    if !text_starts_with(&chars, &raw) {
        return false;
    }
    let rest = url.substring_char(raw.len(), chars.len());
    let after = chars_of(rest);
    assert(after@ == url@.skip(FIRMWARE_RAW@.len() as int));
    let path = until_query(&after);
    text_contains(&path, &chars_of(FIRMWARE_PLUGINS)) && !text_contains(&path, &chars_of(".."))
}

/// A character a tag may hold: a lowercase letter, a digit or a dash.
pub open spec fn is_word_char(c: char) -> bool {
    ||| 'a' <= c <= 'z'
    ||| '0' <= c <= '9'
    ||| c == '-'
}

/// A short lowercase word: it begins with a lowercase letter and holds only word characters.
pub open spec fn is_word(tag: Seq<char>) -> bool {
    &&& tag.len() > 0
    &&& 'a' <= tag[0] <= 'z'
    &&& forall|i: int| 0 <= i < tag.len() ==> is_word_char(#[trigger] tag[i])
}

/// Whether a tag breaks the rule on its form: not a word, or longer than [`TAG_LEN_MAX`] bytes.
pub open spec fn malformed(tag: Seq<char>) -> bool {
    !is_word(tag) || encode_utf8(tag).len() > TAG_LEN_MAX
}

/// How many of `tags` the author declared: all but `bundled`.
pub open spec fn declared_count(tags: Seq<Seq<char>>) -> nat
    decreases tags.len(),
{
    if tags.len() == 0 {
        0
    } else {
        declared_count(tags.drop_last()) + if tags.last() == BUNDLED@ { 0nat } else { 1nat }
    }
}

/// The note on more declared tags than [`TAGS_MAX`].
pub open spec fn too_many_note(declared: nat) -> Seq<char> {
    digits_of(declared) + " tags, at most "@ + digits_of(TAGS_MAX as nat)
}

/// The note on a tag of the wrong form.
pub open spec fn malformed_note(tag: Seq<char>) -> Seq<char> {
    "tag "@ + debug_text(tag) + ": a lowercase word of at most "@ + digits_of(TAG_LEN_MAX as nat)
        + " letters, digits and dashes"@
}

/// The note on a tag that came before.
pub open spec fn twice_note(tag: Seq<char>) -> Seq<char> {
    "tag "@ + debug_text(tag) + " is listed twice"@
}

/// The notes on `tag`, after the tags `before` it.
pub open spec fn notes_on(before: Seq<Seq<char>>, tag: Seq<char>) -> Seq<Seq<char>> {
    (if malformed(tag) { seq![malformed_note(tag)] } else { seq![] })
        + (if before.contains(tag) { seq![twice_note(tag)] } else { seq![] })
}

/// The notes on each tag in turn.
pub open spec fn each_tag_notes(tags: Seq<Seq<char>>) -> Seq<Seq<char>>
    decreases tags.len(),
{
    if tags.len() == 0 {
        seq![]
    } else {
        each_tag_notes(tags.drop_last()) + notes_on(tags.drop_last(), tags.last())
    }
}

/// Every way `tags` break the rules, in the order they are found: first their number, then
/// each tag's form and whether it came before.
pub open spec fn tag_notes(tags: Seq<Seq<char>>) -> Seq<Seq<char>> {
    (if declared_count(tags) > TAGS_MAX { seq![too_many_note(declared_count(tags))] } else { seq![] })
        + each_tag_notes(tags)
}

/// Whether `tag` is a short lowercase word.
fn word(tag: &str) -> (is: bool)
    ensures
        is == is_word(tag@),
{
    let chars = chars_of(tag);
    if chars.len() == 0 {
        return false;
    }
    let first = chars[0];
    if !('a' <= first && first <= 'z') {
        return false;
    }
    let mut i: usize = 0;
    while i < chars.len()
        invariant
            chars@ == tag@,
            0 <= i <= chars@.len(),
            forall|k: int| 0 <= k < i ==> is_word_char(#[trigger] chars@[k]),
        decreases chars@.len() - i,
    {
        let c = chars[i];
        if !(('a' <= c && c <= 'z') || ('0' <= c && c <= '9') || c == '-') {
            assert(!is_word_char(chars@[i as int]));
            return false;
        }
        i += 1;
    }
    true
}

/// Whether `tags[at]` stands among the tags before it.
fn seen_before(tags: &[String], at: usize) -> (seen: bool)
    requires
        at < tags@.len(),
    ensures
        seen == tags.deep_view().take(at as int).contains(tags.deep_view()[at as int]),
{
    let ghost views = tags.deep_view();
    let mut i: usize = 0;
    while i < at
        invariant
            views == tags.deep_view(),
            at < tags@.len(),
            0 <= i <= at,
            forall|k: int| 0 <= k < i ==> views[k] != views[at as int],
        decreases at - i,
    {
        if tags[i] == tags[at] {
            assert(views.take(at as int)[i as int] == views[at as int]);
            return true;
        }
        i += 1;
    }
    assert forall|k: int| 0 <= k < at implies views.take(at as int)[k] != views[at as int] by {}
    false
}

/// Every way `tags` break the rules: short lowercase words, few, each once.
pub fn tag_problems(tags: &[String]) -> (problems: Vec<String>)
    ensures
        problems.deep_view() == tag_notes(tags.deep_view()),
{
    let ghost views = tags.deep_view();
    let mut problems: Vec<String> = Vec::new();
    let mut declared: usize = 0;
    let mut i: usize = 0;
    while i < tags.len()
        invariant
            views == tags.deep_view(),
            0 <= i <= tags@.len(),
            declared == declared_count(views.take(i as int)),
            declared <= i,
        decreases tags@.len() - i,
    {
        assert(views.take(i + 1).drop_last() =~= views.take(i as int));
        if !same_text(tags[i].as_str(), BUNDLED) {
            declared += 1;
        }
        i += 1;
    }
    assert(views.take(i as int) =~= views);
    if declared > TAGS_MAX {
        let mut note = number_text(declared as u64);
        note.append(" tags, at most ");
        note.append(number_text(TAGS_MAX as u64).as_str());
        problems.push(note);
    }
    let ghost head = problems.deep_view();
    assert(head == (if declared_count(views) > TAGS_MAX { seq![too_many_note(declared_count(views))] } else { Seq::<Seq<char>>::empty() }));
    let mut i: usize = 0;
    while i < tags.len()
        invariant
            views == tags.deep_view(),
            0 <= i <= tags@.len(),
            problems.deep_view() == head + each_tag_notes(views.take(i as int)),
        decreases tags@.len() - i,
    {
        let tag = tags[i].as_str();
        assert(views.take(i + 1).drop_last() =~= views.take(i as int));
        assert(views.take(i + 1).last() == tag@);
        let ghost so_far = problems.deep_view();
        if !word(tag) || tag.as_bytes().len() > TAG_LEN_MAX {
            let mut note = String::from_str("tag ");
            note.append(debug_quoted(tag).as_str());
            note.append(": a lowercase word of at most ");
            note.append(number_text(TAG_LEN_MAX as u64).as_str());
            note.append(" letters, digits and dashes");
            assert(note@ =~= malformed_note(tag@));
            problems.push(note);
            assert(problems.deep_view() =~= so_far.push(malformed_note(tag@)));
        }
        assert(malformed(tag@) == (!is_word(tag@) || tag.spec_bytes().len() > TAG_LEN_MAX));
        let ghost mid = problems.deep_view();
        assert(mid =~= so_far + (if malformed(tag@) { seq![malformed_note(tag@)] } else { Seq::<Seq<char>>::empty() }));
        if seen_before(tags, i) {
            let mut note = String::from_str("tag ");
            note.append(debug_quoted(tag).as_str());
            note.append(" is listed twice");
            assert(note@ =~= twice_note(tag@));
            problems.push(note);
            assert(problems.deep_view() =~= mid.push(twice_note(tag@)));
        }
        assert(problems.deep_view() =~= so_far + notes_on(views.take(i as int), tag@));
        i += 1;
    }
    assert(views.take(i as int) =~= views);
    problems
}

/// What an entry's declared tags break, before its module is looked at: the rules on tags,
/// and that `bundled` follows from the url and is not the author's to declare.
pub open spec fn declaration_notes(tags: Seq<Seq<char>>) -> Seq<Seq<char>> {
    tag_notes(tags) + if tags.contains(BUNDLED@) {
        seq![BUNDLED@ + " follows from the url and cannot be declared"@]
    } else {
        seq![]
    }
}

/// Every problem with the tags an author declares for a new entry.
pub fn declaration_problems(tags: &[String]) -> (problems: Vec<String>)
    ensures
        problems.deep_view() == declaration_notes(tags.deep_view()),
{
    let ghost views = tags.deep_view();
    let mut problems = tag_problems(tags);
    let mut i: usize = 0;
    while i < tags.len()
        invariant
            views == tags.deep_view(),
            0 <= i <= tags@.len(),
            !views.take(i as int).contains(BUNDLED@),
            problems.deep_view() == tag_notes(views),
        decreases tags@.len() - i,
    {
        if same_text(tags[i].as_str(), BUNDLED) {
            let ghost before = problems.deep_view();
            let mut note = String::from_str(BUNDLED);
            note.append(" follows from the url and cannot be declared");
            problems.push(note);
            assert(views[i as int] == BUNDLED@);
            assert(views.contains(BUNDLED@));
            assert(problems.deep_view() =~= before.push(note@));
            return problems;
        }
        assert(views.take(i + 1) =~= views.take(i as int).push(views[i as int]));
        i += 1;
    }
    assert(views.take(i as int) =~= views);
    assert(!views.contains(BUNDLED@));
    problems
}

} // verus!
