//! What holds across the library's functions.
use vstd::prelude::*;
use vstd::string::*;
use vstd::utf8::*;

use crate::check::{differ, differences, Field, FieldText, listing_of, module_findings, origin_listed, Finding, ListingView,
    is_https, bundled_notes, noted};
use crate::entry::{described, module_failure, EntryView, ManifestFields};
use crate::faces::{count_after, lit_after, Event};
use crate::text::{decimal_text, digit_char, digits_of};
use vstd::multiset::Multiset;
use crate::origin::OriginView;
use crate::outside::{debug_text, manifest_of, plugin_id_of, sha256_of, signing_key};
use crate::entry::{right_name, right_names};
use crate::tags::ships;
use crate::text::hex_text;
use crate::origin::{origin_of, read_flags, no_flags, Flags};
use crate::tags::{declaration_notes, declared_count, each_tag_notes, malformed,
    notes_on, tag_notes, BUNDLED, TAGS_MAX};

verus! {

broadcast use vstd::utf8::is_ascii_chars_encode_utf8;

/// A turn of the knob one way and one back leaves the count as it was, unless the first turn
/// met the end of the range.
pub proof fn lemma_turn_back(count: i32)
    ensures
        count < i32::MAX ==> count_after(count_after(count, Event::Clockwise)->0, Event::Anticlockwise)
            == Some(count),
        count > i32::MIN ==> count_after(count_after(count, Event::Anticlockwise)->0, Event::Clockwise)
            == Some(count),
{
}

/// Two taps leave the template face as it was; any other event leaves it alone.
pub proof fn lemma_two_taps(lit: bool, event: Event)
    ensures
        lit_after(lit_after(lit, Event::Tap), Event::Tap) == lit,
        event != Event::Tap ==> lit_after(lit, event) == lit,
{
}

/// A decimal digit.
pub open spec fn is_digit(c: char) -> bool {
    '0' <= c <= '9'
}

/// The number that decimal digits stand for.
pub open spec fn digits_value(text: Seq<char>) -> int
    decreases text.len(),
{
    if text.len() == 0 {
        0
    } else {
        digits_value(text.drop_last()) * 10 + (text.last() as int - 48)
    }
}

/// The number that decimal text stands for: digits, after a `-` for a negative number.
pub open spec fn decimal_value(text: Seq<char>) -> int {
    if text.len() > 0 && text[0] == '-' {
        -digits_value(text.drop_first())
    } else {
        digits_value(text)
    }
}

/// `n` in decimal is digits, reads back as `n`, and begins with `0` only when `n` is zero.
proof fn lemma_digits_read_back(n: nat)
    ensures
        digits_of(n).len() > 0,
        forall|i: int| 0 <= i < digits_of(n).len() ==> is_digit(#[trigger] digits_of(n)[i]),
        digits_value(digits_of(n)) == n,
        n > 0 ==> digits_of(n)[0] != '0',
    decreases n,
{
    if n < 10 {
        assert(digits_of(n) == seq![digit_char(n)]);
        assert(digits_of(n).drop_last() =~= Seq::<char>::empty());
        assert(digit_char(n) as int == n + 48);
        assert(digits_value(Seq::<char>::empty()) == 0);
        assert(digits_of(n).last() == digit_char(n));
        assert(digits_value(digits_of(n)) == digits_value(digits_of(n).drop_last()) * 10 + (digit_char(n) as int - 48));
    } else {
        let high = n / 10;
        lemma_digits_read_back(high);
        let d = digits_of(n);
        assert(d == digits_of(high).push(digit_char(n % 10)));
        assert(d.drop_last() =~= digits_of(high));
        assert(digit_char(n % 10) as int == n % 10 + 48);
        assert(n == high * 10 + n % 10);
        assert(d.last() == digit_char(n % 10));
        assert(digits_value(d) == digits_value(d.drop_last()) * 10 + (digit_char(n % 10) as int - 48));
        assert(d[0] == digits_of(high)[0]);
        assert forall|i: int| 0 <= i < d.len() implies is_digit(#[trigger] d[i]) by {
            if i < d.len() - 1 {
                assert(d[i] == digits_of(high)[i]);
            }
        }
    }
}

/// The text `decimal` writes reads back as its value: digits after a `-` for a negative value,
/// no `+`, and no leading zero but in `0` itself.
pub proof fn lemma_decimal_reads_back(value: i32)
    ensures
        decimal_value(decimal_text(value as int)) == value,
        decimal_text(value as int).len() > 0,
        decimal_text(value as int)[0] != '+',
        value < 0 ==> decimal_text(value as int)[0] == '-',
        forall|i: int| (if value < 0 { 1int } else { 0int }) <= i < decimal_text(value as int).len()
            ==> is_digit(#[trigger] decimal_text(value as int)[i]),
        decimal_text(value as int)[if value < 0 { 1int } else { 0int }] == '0' ==> value == 0
            && decimal_text(value as int) == seq!['0'],
{
    let t = decimal_text(value as int);
    if value < 0 {
        let n = (-value) as nat;
        lemma_digits_read_back(n);
        assert(t == seq!['-'] + digits_of(n));
        assert(t.drop_first() =~= digits_of(n));
        assert forall|i: int| 1 <= i < t.len() implies is_digit(#[trigger] t[i]) by {
            assert(t[i] == digits_of(n)[i - 1]);
        }
        assert(t[1] == digits_of(n)[0]);
    } else {
        let n = value as nat;
        lemma_digits_read_back(n);
        if n == 0 {
            assert(digits_of(0) == seq![digit_char(0)]);
            assert(t =~= seq!['0']);
        }
    }
}

/// The template face after `events`, one after another, from `lit`.
pub open spec fn lit_after_all(lit: bool, events: Seq<Event>) -> bool
    decreases events.len(),
{
    if events.len() == 0 {
        lit
    } else {
        lit_after(lit_after_all(lit, events.drop_last()), events.last())
    }
}

/// How many of `events` are taps.
pub open spec fn taps(events: Seq<Event>) -> nat
    decreases events.len(),
{
    if events.len() == 0 {
        0
    } else {
        taps(events.drop_last()) + if events.last() == Event::Tap { 1nat } else { 0nat }
    }
}

/// The template face, which comes up unlit, is lit exactly when an odd number of taps has
/// landed since.
pub proof fn lemma_lit_by_taps(events: Seq<Event>)
    ensures
        lit_after_all(false, events) == (taps(events) % 2 == 1),
    decreases events.len(),
{
    if events.len() > 0 {
        lemma_lit_by_taps(events.drop_last());
    }
}

/// An entry differs from another in no field exactly when every field but the tags agrees.
pub proof fn lemma_no_differences(listed: EntryView, found: EntryView)
    ensures
        differences(listed, found) == Seq::<Finding>::empty() <==> {
            &&& listed.abi == found.abi
            &&& listed.id == found.id
            &&& listed.key == found.key
            &&& listed.license == found.license
            &&& listed.name == found.name
            &&& listed.rights == found.rights
            &&& listed.sha256 == found.sha256
            &&& listed.size == found.size
            &&& listed.source == found.source
            &&& listed.summary == found.summary
            &&& listed.url == found.url
            &&& listed.version == found.version
        },
{
    let d = differences(listed, found);
    if d == Seq::<Finding>::empty() {
        assert(d.len() == 0);
    }
}

/// The notes on each tag are none exactly when every tag has the right form and none comes
/// again.
proof fn lemma_each_tag_clean(tags: Seq<Seq<char>>)
    ensures
        each_tag_notes(tags) == Seq::<Seq<char>>::empty() <==> forall|i: int|
            0 <= i < tags.len() ==> notes_on(tags.take(i), #[trigger] tags[i]) == Seq::<Seq<char>>::empty(),
    decreases tags.len(),
{
    if tags.len() > 0 {
        let init = tags.drop_last();
        lemma_each_tag_clean(init);
        assert forall|i: int| 0 <= i < init.len() implies init.take(i) == tags.take(i) && init[i] == tags[i] by {
            assert(init.take(i) =~= tags.take(i));
        }
        assert(tags.take(tags.len() - 1) =~= init);
        let total = each_tag_notes(tags);
        assert(total == each_tag_notes(init) + notes_on(init, tags.last()));
        if total == Seq::<Seq<char>>::empty() {
            assert(each_tag_notes(init).len() == 0);
            assert(each_tag_notes(init) =~= Seq::<Seq<char>>::empty());
            assert(notes_on(init, tags.last()) =~= Seq::<Seq<char>>::empty());
        }
        if forall|i: int| 0 <= i < tags.len() ==> notes_on(tags.take(i), #[trigger] tags[i]) == Seq::<Seq<char>>::empty() {
            assert(notes_on(tags.take(tags.len() - 1), tags[tags.len() - 1]) == Seq::<Seq<char>>::empty());
            assert forall|i: int| 0 <= i < init.len() implies notes_on(init.take(i), #[trigger] init[i]) == Seq::<Seq<char>>::empty() by {
                assert(init.take(i) =~= tags.take(i));
                assert(notes_on(tags.take(i), tags[i]) == Seq::<Seq<char>>::empty());
            }
            assert(total =~= Seq::<Seq<char>>::empty());
        }
    }
}

/// `bundled` counts for nothing among the declared tags.
proof fn lemma_bundled_uncounted(tags: Seq<Seq<char>>)
    ensures
        declared_count(seq![BUNDLED@] + tags) == declared_count(tags),
    decreases tags.len(),
{
    if tags.len() > 0 {
        lemma_bundled_uncounted(tags.drop_last());
        assert((seq![BUNDLED@] + tags).drop_last() =~= seq![BUNDLED@] + tags.drop_last());
        assert((seq![BUNDLED@] + tags).last() == tags.last());
    } else {
        let alone = seq![BUNDLED@] + tags;
        assert(alone =~= seq![BUNDLED@]);
        assert(alone.drop_last() =~= Seq::<Seq<char>>::empty());
        assert(declared_count(alone.drop_last()) == 0);
        assert(alone.last() == BUNDLED@);
    }
}

/// Tags an author may declare stay within the rules with `bundled` put before them.
proof fn lemma_bundled_first(tags: Seq<Seq<char>>)
    requires
        tag_notes(tags) == Seq::<Seq<char>>::empty(),
        !tags.contains(BUNDLED@),
    ensures
        tag_notes(seq![BUNDLED@] + tags) == Seq::<Seq<char>>::empty(),
{
    let all = seq![BUNDLED@] + tags;
    lemma_bundled_uncounted(tags);
    let counted = if declared_count(tags) > TAGS_MAX { seq![crate::tags::too_many_note(declared_count(tags))] } else { Seq::<Seq<char>>::empty() };
    assert(tag_notes(tags) == counted + each_tag_notes(tags));
    assert(counted.len() == 0);
    assert(each_tag_notes(tags) =~= Seq::<Seq<char>>::empty());
    lemma_each_tag_clean(tags);
    lemma_each_tag_clean(all);
    reveal_strlit("bundled");
    assert(is_ascii_chars(BUNDLED@));
    assert(!malformed(BUNDLED@));
    assert forall|i: int| 0 <= i < all.len() implies notes_on(all.take(i), #[trigger] all[i]) == Seq::<Seq<char>>::empty() by {
        if i == 0 {
            assert(all.take(0) =~= Seq::<Seq<char>>::empty());
            assert(notes_on(all.take(i), all[i]) =~= Seq::<Seq<char>>::empty());
        } else {
            assert(all[i] == tags[i - 1]);
            assert(notes_on(tags.take(i - 1), tags[i - 1]) == Seq::<Seq<char>>::empty());
            assert(all.take(i) =~= seq![BUNDLED@] + tags.take(i - 1));
            assert(tags[i - 1] != BUNDLED@);
            if all.take(i).contains(all[i]) {
                let k = choose|k: int| 0 <= k < all.take(i).len() && all.take(i)[k] == all[i];
                assert(k > 0);
                assert(tags.take(i - 1)[k - 1] == tags[i - 1]);
                assert(tags.take(i - 1).contains(tags[i - 1]));
            }
            assert(notes_on(all.take(i), all[i]) =~= Seq::<Seq<char>>::empty());
        }
    }
    assert(tag_notes(all) =~= Seq::<Seq<char>>::empty());
}

/// An entry written for a module holds when it is checked against that module: with tags the
/// author may declare, a source and a license, and an https url, the check fetches the module
/// and finds nothing the entry has wrong. (A manifest always names its face.)
pub proof fn lemma_written_entry_holds(wasm: Seq<u8>, origin: OriginView)
    requires
        declaration_notes(origin.tags) == Seq::<Seq<char>>::empty(),
        module_failure(wasm) is None,
        manifest_of(wasm).unwrap().0.len() > 0,
        origin.source.len() > 0,
        origin.license.len() > 0,
        is_https(origin.url),
    ensures
        listing_of(described(wasm, origin)->0) == ListingView::Fetch(Seq::<Finding>::empty()),
        module_findings(described(wasm, origin)->0, Ok(wasm)) == Seq::<Finding>::empty(),
{
    let entry = described(wasm, origin)->0;
    let tags = origin.tags;
    let bundled_note = seq![BUNDLED@ + " follows from the url and cannot be declared"@];
    if tags.contains(BUNDLED@) {
        assert(declaration_notes(tags) == tag_notes(tags) + bundled_note);
        assert(declaration_notes(tags).len() > 0);
    }
    assert(!tags.contains(BUNDLED@));
    assert(declaration_notes(tags) == tag_notes(tags) + Seq::<Seq<char>>::empty());
    assert(tag_notes(tags) =~= Seq::<Seq<char>>::empty());
    if crate::tags::ships(origin.url) {
        lemma_bundled_first(tags);
        assert(entry.tags == seq![BUNDLED@] + tags);
        assert(entry.tags[0] == BUNDLED@);
        assert(entry.tags.contains(BUNDLED@));
    } else {
        assert(entry.tags == tags);
    }
    assert(tag_notes(entry.tags) == Seq::<Seq<char>>::empty());
    assert(bundled_notes(entry.tags, entry.url) =~= Seq::<Seq<char>>::empty());
    assert(noted(tag_notes(entry.tags) + bundled_notes(entry.tags, entry.url)) =~= Seq::<Finding>::empty());
    let found = described(wasm, origin_listed(entry))->0;
    lemma_no_differences(entry, found);
}

/// Taking out the tag at `j` takes out its notes, and no others, whatever its place.
proof fn lemma_notes_without(s: Seq<Seq<char>>, j: int)
    requires
        0 <= j < s.len(),
    ensures
        each_tag_notes(s).to_multiset() == each_tag_notes(s.remove(j)).to_multiset().add(
            notes_on(s.remove(j), s[j]).to_multiset(),
        ),
    decreases s.len(),
{
    broadcast use vstd::seq_lib::group_to_multiset_ensures, vstd::seq_lib::lemma_multiset_commutative,
        vstd::multiset::group_multiset_axioms;

    let u = s.drop_last();
    let y = s.last();
    assert(each_tag_notes(s) == each_tag_notes(u) + notes_on(u, y));
    if j == s.len() - 1 {
        assert(s.remove(j) =~= u);
    } else {
        let x = s[j];
        lemma_notes_without(u, j);
        let u2 = u.remove(j);
        assert(u[j] == x);
        assert(s.remove(j) =~= u2.push(y));
        assert(s.remove(j).drop_last() =~= u2);
        assert(s.remove(j).last() == y);
        assert(each_tag_notes(s.remove(j)) == each_tag_notes(u2) + notes_on(u2, y));
        assert(u2.to_multiset() == u.to_multiset().remove(x));
        assert(u2.push(y).to_multiset() =~= u2.to_multiset().insert(y));
        assert(u.contains(x)) by {
            assert(u[j] == x);
        }
        if x == y {
            assert(u.contains(y));
            assert(u2.push(y).contains(x)) by {
                assert(u2.push(y)[u2.len() as int] == x);
            }
            assert(notes_on(u, y) == notes_on(u2.push(y), x));
            assert(notes_on(u2, x) == notes_on(u2, y));
        } else {
            assert(u.to_multiset().count(y) == u2.to_multiset().count(y));
            assert(u.contains(y) == u2.contains(y));
            assert(u2.push(y).to_multiset().count(x) == u2.to_multiset().count(x));
            assert(u2.push(y).contains(x) == u2.contains(x));
            assert(notes_on(u, y) == notes_on(u2, y));
            assert(notes_on(u2.push(y), x) == notes_on(u2, x));
        }
        assert(each_tag_notes(s).to_multiset() =~= each_tag_notes(s.remove(j)).to_multiset().add(
            notes_on(s.remove(j), s[j]).to_multiset(),
        ));
    }
}

/// The notes on each tag are the same, taken together, whatever the order of the tags.
proof fn lemma_each_tag_order(p: Seq<Seq<char>>, s: Seq<Seq<char>>)
    requires
        p.to_multiset() == s.to_multiset(),
    ensures
        each_tag_notes(p).to_multiset() == each_tag_notes(s).to_multiset(),
    decreases p.len(),
{
    broadcast use vstd::seq_lib::group_to_multiset_ensures, vstd::seq_lib::lemma_multiset_commutative,
        vstd::multiset::group_multiset_axioms;

    if p.len() == 0 {
        assert(s.to_multiset().len() == 0);
        assert(s =~= Seq::<Seq<char>>::empty());
        assert(p =~= s);
    } else {
        let x = p.last();
        let p2 = p.drop_last();
        assert(p =~= p2.push(x));
        assert(p.to_multiset() == p2.to_multiset().insert(x));
        assert(p.to_multiset().count(x) > 0);
        assert(s.contains(x));
        let j = choose|j: int| 0 <= j < s.len() && s[j] == x;
        let s2 = s.remove(j);
        assert(s2.to_multiset() == s.to_multiset().remove(x));
        assert(p2.to_multiset() =~= s2.to_multiset());
        lemma_each_tag_order(p2, s2);
        lemma_notes_without(s, j);
        assert(p2.to_multiset().count(x) == s2.to_multiset().count(x));
        assert(p2.contains(x) == s2.contains(x));
        assert(notes_on(p2, x) == notes_on(s2, x));
        assert(each_tag_notes(p) == each_tag_notes(p2) + notes_on(p2, x));
        assert(each_tag_notes(p).to_multiset() =~= each_tag_notes(s).to_multiset());
    }
}

/// The declared tags are all but the `bundled` ones, wherever they stand.
proof fn lemma_declared_count(s: Seq<Seq<char>>)
    ensures
        declared_count(s) + s.to_multiset().count(BUNDLED@) == s.len(),
    decreases s.len(),
{
    broadcast use vstd::seq_lib::group_to_multiset_ensures, vstd::multiset::group_multiset_axioms;

    if s.len() == 0 {
        assert(s.to_multiset() =~= Multiset::<Seq<char>>::empty());
    } else {
        lemma_declared_count(s.drop_last());
        assert(s =~= s.drop_last().push(s.last()));
        assert(s.to_multiset() == s.drop_last().to_multiset().insert(s.last()));
    }
}

/// The rules on tags find the same problems, taken together, whatever the order of the tags.
pub proof fn lemma_tag_order(p: Seq<Seq<char>>, tags: Seq<Seq<char>>)
    requires
        p.to_multiset() == tags.to_multiset(),
    ensures
        tag_notes(p).to_multiset() == tag_notes(tags).to_multiset(),
        tag_notes(p).len() == 0 <==> tag_notes(tags).len() == 0,
{
    broadcast use vstd::seq_lib::group_to_multiset_ensures, vstd::seq_lib::lemma_multiset_commutative,
        vstd::multiset::group_multiset_axioms;

    lemma_declared_count(p);
    lemma_declared_count(tags);
    vstd::seq_lib::to_multiset_len(p);
    vstd::seq_lib::to_multiset_len(tags);
    lemma_each_tag_order(p, tags);
    assert(declared_count(p) == declared_count(tags));
    assert(tag_notes(p).to_multiset() =~= tag_notes(tags).to_multiset());
    assert(tag_notes(p).len() == tag_notes(p).to_multiset().len());
    assert(tag_notes(tags).len() == tag_notes(tags).to_multiset().len());
}

/// What an entry holds in `field`.
pub open spec fn value_in(entry: EntryView, field: Field) -> FieldText {
    match field {
        Field::Abi => FieldText::Number(entry.abi as nat),
        Field::Id => FieldText::Text(entry.id),
        Field::Key => FieldText::Text(entry.key),
        Field::License => FieldText::Text(entry.license),
        Field::Name => FieldText::Text(entry.name),
        Field::Rights => FieldText::List(entry.rights),
        Field::Sha256 => FieldText::Text(entry.sha256),
        Field::Size => FieldText::Number(entry.size as nat),
        Field::Source => FieldText::Text(entry.source),
        Field::Summary => FieldText::Text(entry.summary),
        Field::Url => FieldText::Text(entry.url),
        Field::Version => FieldText::Text(entry.version),
    }
}

/// A field's place in the order the fields are compared in: the alphabetical order of their
/// names.
pub open spec fn field_rank(field: Field) -> int {
    match field {
        Field::Abi => 0,
        Field::Id => 1,
        Field::Key => 2,
        Field::License => 3,
        Field::Name => 4,
        Field::Rights => 5,
        Field::Sha256 => 6,
        Field::Size => 7,
        Field::Source => 8,
        Field::Summary => 9,
        Field::Url => 10,
        Field::Version => 11,
    }
}

/// Findings on fields come in the order of the fields, each field at most once.
pub open spec fn in_field_order(found: Seq<Finding>) -> bool {
    forall|i: int, j: int| 0 <= i < j < found.len() ==> field_rank(#[trigger] found[i]->Differs_0)
        < field_rank(#[trigger] found[j]->Differs_0)
}

/// Every finding of `found` names a field and carries the listed and found values of that
/// very field, which differ.
pub open spec fn names_its_field(found: Seq<Finding>, listed: EntryView, module: EntryView) -> bool {
    forall|i: int| 0 <= i < found.len() ==> {
        &&& #[trigger] found[i] is Differs
        &&& found[i]->Differs_1 == value_in(listed, found[i]->Differs_0)
        &&& found[i]->Differs_2 == value_in(module, found[i]->Differs_0)
        &&& found[i]->Differs_1 != found[i]->Differs_2
    }
}

/// Adding the finding on one more field keeps every finding naming its own field.
proof fn lemma_one_more_field(acc: Seq<Finding>, listed: EntryView, module: EntryView, field: Field)
    requires
        names_its_field(acc, listed, module),
        in_field_order(acc),
        forall|i: int| 0 <= i < acc.len() ==> field_rank(#[trigger] acc[i]->Differs_0) < field_rank(field),
    ensures
        in_field_order(acc + differ(field, value_in(listed, field), value_in(module, field))),
        forall|i: int| 0 <= i < (acc + differ(field, value_in(listed, field), value_in(module, field))).len()
            ==> field_rank(#[trigger] (acc + differ(field, value_in(listed, field), value_in(module, field)))[i]->Differs_0)
            <= field_rank(field),
        names_its_field(
            acc + differ(field, value_in(listed, field), value_in(module, field)),
            listed,
            module,
        ),
        value_in(listed, field) != value_in(module, field) ==> (acc + differ(
            field,
            value_in(listed, field),
            value_in(module, field),
        )).contains(Finding::Differs(field, value_in(listed, field), value_in(module, field))),
        forall|x: Finding| acc.contains(x) ==> #[trigger] (acc + differ(
            field,
            value_in(listed, field),
            value_in(module, field),
        )).contains(x),
{
    let next = acc + differ(field, value_in(listed, field), value_in(module, field));
    if value_in(listed, field) != value_in(module, field) {
        assert(next[acc.len() as int] == Finding::Differs(field, value_in(listed, field), value_in(module, field)));
    }
    assert forall|x: Finding| acc.contains(x) implies #[trigger] next.contains(x) by {
        let k = choose|k: int| 0 <= k < acc.len() && acc[k] == x;
        assert(next[k] == x);
    }
}

/// A check names each field that differs under its own name, with the values of that field in
/// the entry and in the module, and names nothing else: a difference in the key is reported as
/// one in `key`, carrying both keys. The fields come in the alphabetical order of their names.
pub proof fn lemma_differences_name_their_fields(listed: EntryView, module: EntryView)
    ensures
        names_its_field(differences(listed, module), listed, module),
        in_field_order(differences(listed, module)),
        forall|field: Field| value_in(listed, field) != value_in(module, field)
            ==> #[trigger] differences(listed, module).contains(
                Finding::Differs(field, value_in(listed, field), value_in(module, field)),
            ),
{
    let (l, m) = (listed, module);
    let d0 = Seq::<Finding>::empty();
    let d1 = d0 + differ(Field::Abi, value_in(l, Field::Abi), value_in(m, Field::Abi));
    lemma_one_more_field(d0, l, m, Field::Abi);
    let d2 = d1 + differ(Field::Id, value_in(l, Field::Id), value_in(m, Field::Id));
    lemma_one_more_field(d1, l, m, Field::Id);
    let d3 = d2 + differ(Field::Key, value_in(l, Field::Key), value_in(m, Field::Key));
    lemma_one_more_field(d2, l, m, Field::Key);
    let d4 = d3 + differ(Field::License, value_in(l, Field::License), value_in(m, Field::License));
    lemma_one_more_field(d3, l, m, Field::License);
    let d5 = d4 + differ(Field::Name, value_in(l, Field::Name), value_in(m, Field::Name));
    lemma_one_more_field(d4, l, m, Field::Name);
    let d6 = d5 + differ(Field::Rights, value_in(l, Field::Rights), value_in(m, Field::Rights));
    lemma_one_more_field(d5, l, m, Field::Rights);
    let d7 = d6 + differ(Field::Sha256, value_in(l, Field::Sha256), value_in(m, Field::Sha256));
    lemma_one_more_field(d6, l, m, Field::Sha256);
    let d8 = d7 + differ(Field::Size, value_in(l, Field::Size), value_in(m, Field::Size));
    lemma_one_more_field(d7, l, m, Field::Size);
    let d9 = d8 + differ(Field::Source, value_in(l, Field::Source), value_in(m, Field::Source));
    lemma_one_more_field(d8, l, m, Field::Source);
    let d10 = d9 + differ(Field::Summary, value_in(l, Field::Summary), value_in(m, Field::Summary));
    lemma_one_more_field(d9, l, m, Field::Summary);
    let d11 = d10 + differ(Field::Url, value_in(l, Field::Url), value_in(m, Field::Url));
    lemma_one_more_field(d10, l, m, Field::Url);
    let d12 = d11 + differ(Field::Version, value_in(l, Field::Version), value_in(m, Field::Version));
    lemma_one_more_field(d11, l, m, Field::Version);
    assert(d0 + differ(Field::Abi, value_in(l, Field::Abi), value_in(m, Field::Abi))
        =~= differ(Field::Abi, value_in(l, Field::Abi), value_in(m, Field::Abi)));
    assert(d12 == differences(l, m));
    assert forall|field: Field| value_in(l, field) != value_in(m, field)
        implies #[trigger] differences(l, m).contains(Finding::Differs(field, value_in(l, field), value_in(m, field))) by {
        match field {
            Field::Abi => {},
            Field::Id => {},
            Field::Key => {},
            Field::License => {},
            Field::Name => {},
            Field::Rights => {},
            Field::Sha256 => {},
            Field::Size => {},
            Field::Source => {},
            Field::Summary => {},
            Field::Url => {},
            Field::Version => {},
        }
    }
}

/// The entry made of a module says what its manifest says: its name, summary and host ABI as
/// the manifest has them, its version as the manifest's three numbers with dots between, its
/// rights by name; its key and its id -- made of the key and the manifest's name -- in hex, and
/// its digest in hex; its size as the module's length; and what the origin adds, with
/// `bundled` first where the url is among the firmware's modules.
pub proof fn lemma_described_from_manifest(wasm: Seq<u8>, origin: OriginView, manifest: ManifestFields, key: Seq<u8>)
    requires
        module_failure(wasm) is None,
        manifest_of(wasm) == Ok::<_, crate::entry::ManifestRefusal>(manifest@),
        signing_key(wasm) == Ok::<_, crate::entry::ManifestRefusal>(key),
    ensures
        described(wasm, origin)->0.key == hex_text(key),
        described(wasm, origin)->0.id == hex_text(plugin_id_of(key, manifest.name@)),
        described(wasm, origin)->0.sha256 == hex_text(sha256_of(wasm)),
        described(wasm, origin)->0.rights == right_names(manifest.rights),
        described(wasm, origin)->0.tags == if ships(origin.url) {
            seq!["bundled"@] + origin.tags
        } else {
            origin.tags
        },
        described(wasm, origin)->0.name == manifest.name@,
        described(wasm, origin)->0.summary == manifest.summary@,
        described(wasm, origin)->0.abi == manifest.abi,
        described(wasm, origin)->0.version == digits_of(manifest.major as nat) + seq!['.']
            + digits_of(manifest.minor as nat) + seq!['.'] + digits_of(manifest.patch as nat),
        described(wasm, origin)->0.size == wasm.len() as usize,
        described(wasm, origin)->0.url == origin.url,
        described(wasm, origin)->0.source == origin.source,
        described(wasm, origin)->0.license == origin.license,
{
    reveal_strlit(".");
    reveal_strlit("bundled");
}

/// An entry without a name, a source or a license is settled with the one note that says so,
/// and its module is not fetched; and a module is fetched only for an entry with all three
/// and an https url.
pub proof fn lemma_empty_fields_settle(listed: EntryView)
    ensures
        listed.name.len() == 0 || listed.source.len() == 0 || listed.license.len() == 0
            ==> listing_of(listed) == ListingView::Settled(
                seq![Finding::Note("name, source and license must not be empty"@)],
            ),
        listing_of(listed) is Fetch ==> {
            &&& listed.name.len() > 0
            &&& listed.source.len() > 0
            &&& listed.license.len() > 0
            &&& listed.url.len() >= 8
            &&& listed.url.take(8) == "https://"@
        },
{
    reveal_strlit("https://");
}

/// A tag alone is refused, with the one note on its form, exactly when it is not a short
/// lowercase word: it is empty, does not begin with a lowercase ASCII letter, holds a character
/// other than a lowercase ASCII letter, a digit or a dash, or is longer than sixteen bytes.
pub proof fn lemma_one_tag(tag: Seq<char>)
    ensures
        tag_notes(seq![tag]) == if {
            ||| tag.len() == 0
            ||| !('a' <= tag[0] <= 'z')
            ||| exists|i: int| 0 <= i < tag.len()
                && !('a' <= #[trigger] tag[i] <= 'z' || '0' <= tag[i] <= '9' || tag[i] == '-')
            ||| encode_utf8(tag).len() > 16
        } {
            seq!["tag "@ + debug_text(tag) + ": a lowercase word of at most 16 letters, digits and dashes"@]
        } else {
            Seq::<Seq<char>>::empty()
        },
{
    let one = seq![tag];
    assert(one.drop_last() =~= Seq::<Seq<char>>::empty());
    assert(one.last() == tag);
    assert(declared_count(Seq::<Seq<char>>::empty()) == 0);
    assert(declared_count(one) <= 1);
    assert(each_tag_notes(Seq::<Seq<char>>::empty()) == Seq::<Seq<char>>::empty());
    assert(!Seq::<Seq<char>>::empty().contains(tag));
    assert(each_tag_notes(one) =~= notes_on(Seq::<Seq<char>>::empty(), tag));
    reveal_strlit(": a lowercase word of at most ");
    reveal_strlit(" letters, digits and dashes");
    reveal_strlit(": a lowercase word of at most 16 letters, digits and dashes");
    assert(digits_of(1) == seq![digit_char(1)]);
    assert(digits_of(16) == digits_of(1).push(digit_char(6)));
    assert(digit_char(1) == '1');
    assert(digit_char(6) == '6');
    assert(": a lowercase word of at most "@ + digits_of(16) + " letters, digits and dashes"@
        =~= ": a lowercase word of at most 16 letters, digits and dashes"@);
    let note = "tag "@ + debug_text(tag) + ": a lowercase word of at most "@ + digits_of(16)
        + " letters, digits and dashes"@;
    assert(note =~= "tag "@ + debug_text(tag) + ": a lowercase word of at most 16 letters, digits and dashes"@);
    let notes = tag_notes(one);
    if malformed(tag) {
        assert(notes =~= seq![note]);
    } else {
        assert(notes =~= Seq::<Seq<char>>::empty());
    }
}

/// The counter hears the knob and a tap and nothing else: a detent clockwise adds one and one
/// the other way takes one, short of the end of the range, where the count stays; a tap makes
/// it zero; any other event leaves it as it was.
pub proof fn lemma_counter_hears(count: i32, event: Event)
    ensures
        event != Event::Clockwise && event != Event::Anticlockwise && event != Event::Tap
            ==> count_after(count, event) is None,
        event == Event::Tap ==> count_after(count, event) == Some(0i32),
        event == Event::Clockwise ==> count_after(count, event) == Some(
            if count < i32::MAX { (count + 1) as i32 } else { count },
        ),
        event == Event::Anticlockwise ==> count_after(count, event) == Some(
            if count > i32::MIN { (count - 1) as i32 } else { count },
        ),
{
}

/// A hexadecimal digit.
pub open spec fn is_hex_digit(c: char) -> bool {
    '0' <= c <= '9' || 'a' <= c <= 'f'
}

/// The number a hexadecimal digit stands for.
pub open spec fn hex_value(c: char) -> int {
    if '0' <= c <= '9' { c as int - 48 } else { c as int - 87 }
}

/// Hex is two lowercase hexadecimal digits to a byte, high half first, that read back as the
/// byte.
pub proof fn lemma_hex_reads_back(bytes: Seq<u8>)
    ensures
        hex_text(bytes).len() == 2 * bytes.len(),
        forall|i: int| 0 <= i < bytes.len() ==> {
            &&& is_hex_digit(#[trigger] hex_text(bytes)[2 * i])
            &&& is_hex_digit(hex_text(bytes)[2 * i + 1])
            &&& hex_value(hex_text(bytes)[2 * i]) * 16 + hex_value(hex_text(bytes)[2 * i + 1]) == bytes[i]
        },
    decreases bytes.len(),
{
    if bytes.len() > 0 {
        let init = bytes.drop_last();
        let b = bytes.last();
        lemma_hex_reads_back(init);
        let t = hex_text(bytes);
        let hi = (b / 16) as nat;
        let lo = (b % 16) as nat;
        assert(t == hex_text(init) + seq![digit_char(hi), digit_char(lo)]);
        assert(hi < 16 && lo < 16);
        assert(digit_char(hi) as int == if hi < 10 { hi + 48 } else { hi + 87 });
        assert(digit_char(lo) as int == if lo < 10 { lo + 48 } else { lo + 87 });
        assert(hex_value(digit_char(hi)) == hi);
        assert(hex_value(digit_char(lo)) == lo);
        assert(hi * 16 + lo == b);
        assert forall|i: int| 0 <= i < bytes.len() implies {
            &&& is_hex_digit(#[trigger] t[2 * i])
            &&& is_hex_digit(t[2 * i + 1])
            &&& hex_value(t[2 * i]) * 16 + hex_value(t[2 * i + 1]) == bytes[i]
        } by {
            if i < init.len() {
                assert(t[2 * i] == hex_text(init)[2 * i]);
                assert(t[2 * i + 1] == hex_text(init)[2 * i + 1]);
                assert(bytes[i] == init[i]);
            } else {
                assert(t[2 * i] == digit_char(hi));
                assert(t[2 * i + 1] == digit_char(lo));
            }
        }
    }
}

/// Something is in two sequences put together exactly when it is in one of them.
proof fn lemma_in_either<A>(a: Seq<A>, b: Seq<A>, x: A)
    ensures
        (a + b).contains(x) <==> a.contains(x) || b.contains(x),
{
    if (a + b).contains(x) {
        let k = choose|k: int| 0 <= k < (a + b).len() && (a + b)[k] == x;
        if k < a.len() {
            assert(a[k] == x);
        } else {
            assert(b[k - a.len()] == x);
        }
    }
    if a.contains(x) {
        let k = choose|k: int| 0 <= k < a.len() && a[k] == x;
        assert((a + b)[k] == x);
    }
    if b.contains(x) {
        let k = choose|k: int| 0 <= k < b.len() && b[k] == x;
        assert((a + b)[k + a.len()] == x);
    }
}

/// Each right is named exactly when its bit is set: `HID` for bit 0, `KNOB` for bit 1,
/// `RANDOM` for bit 2, `RADIO` for bit 3 and `HAPTIC` for bit 4; no other name comes up.
pub proof fn lemma_right_names(bits: u32)
    ensures
        right_names(bits).contains("HID"@) <==> bits & 1 != 0,
        right_names(bits).contains("KNOB"@) <==> bits & 2 != 0,
        right_names(bits).contains("RANDOM"@) <==> bits & 4 != 0,
        right_names(bits).contains("RADIO"@) <==> bits & 8 != 0,
        right_names(bits).contains("HAPTIC"@) <==> bits & 16 != 0,
        forall|name: Seq<char>| #[trigger] right_names(bits).contains(name) ==> {
            ||| name == "HID"@
            ||| name == "KNOB"@
            ||| name == "RANDOM"@
            ||| name == "RADIO"@
            ||| name == "HAPTIC"@
        },
{
    reveal_strlit("HID");
    reveal_strlit("KNOB");
    reveal_strlit("RANDOM");
    reveal_strlit("RADIO");
    reveal_strlit("HAPTIC");
    assert((bits & 1 == 1) == (bits & 1 != 0)) by (bit_vector);
    assert((bits & 2 == 2) == (bits & 2 != 0)) by (bit_vector);
    assert((bits & 4 == 4) == (bits & 4 != 0)) by (bit_vector);
    assert((bits & 8 == 8) == (bits & 8 != 0)) by (bit_vector);
    assert((bits & 16 == 16) == (bits & 16 != 0)) by (bit_vector);
    let (hid, knob, random, radio, haptic) = ("HID"@, "KNOB"@, "RANDOM"@, "RADIO"@, "HAPTIC"@);
    assert(hid.len() == 3 && knob.len() == 4 && radio.len() == 5 && random.len() == 6);
    assert(haptic.len() == 6 && random[0] != haptic[0]);
    let p1 = right_name(bits, 1, hid);
    let p2 = right_name(bits, 2, knob);
    let p3 = right_name(bits, 4, random);
    let p4 = right_name(bits, 8, radio);
    let p5 = right_name(bits, 16, haptic);
    assert forall|x: Seq<char>| #[trigger] right_names(bits).contains(x) <==> {
        ||| p1.contains(x)
        ||| p2.contains(x)
        ||| p3.contains(x)
        ||| p4.contains(x)
        ||| p5.contains(x)
    } by {
        lemma_in_either(p1, p2, x);
        lemma_in_either(p1 + p2, p3, x);
        lemma_in_either(p1 + p2 + p3, p4, x);
        lemma_in_either(p1 + p2 + p3 + p4, p5, x);
    }
    assert forall|x: Seq<char>, bit: u32, name: Seq<char>| #[trigger] right_name(bits, bit, name).contains(x)
        <==> (bits & bit == bit && x == name) by {
        if right_name(bits, bit, name).contains(x) {
            let k = choose|k: int| 0 <= k < right_name(bits, bit, name).len()
                && right_name(bits, bit, name)[k] == x;
        }
        if bits & bit == bit && x == name {
            assert(right_name(bits, bit, name)[0] == x);
        }
    }
    assert(right_names(bits).contains(hid) <==> p1.contains(hid));
    assert(right_names(bits).contains(knob) <==> p2.contains(knob));
    assert(right_names(bits).contains(random) <==> p3.contains(random));
    assert(right_names(bits).contains(radio) <==> p4.contains(radio));
    assert(right_names(bits).contains(haptic) <==> p5.contains(haptic));
}

/// Reading the flags a pair further reads the pair onto what was read before.
proof fn lemma_read_one_more(args: Seq<Seq<char>>, flag: Seq<char>, value: Seq<char>, flags: Flags)
    requires
        args.len() % 2 == 0,
    ensures
        read_flags(args + seq![flag, value], flags) == match read_flags(args, flags) {
            Some(read) => read_flags(seq![flag, value], read),
            None => None,
        },
    decreases args.len(),
{
    let more = args + seq![flag, value];
    if args.len() == 0 {
        assert(more =~= seq![flag, value]);
    } else {
        assert(more[0] == args[0] && more[1] == args[1]);
        assert(more.skip(2) =~= args.skip(2) + seq![flag, value]);
        let (f, v) = (args[0], args[1]);
        if f == "--url"@ {
            lemma_read_one_more(args.skip(2), flag, value, Flags { url: Some(v), ..flags });
        } else if f == "--source"@ {
            lemma_read_one_more(args.skip(2), flag, value, Flags { source: Some(v), ..flags });
        } else if f == "--license"@ {
            lemma_read_one_more(args.skip(2), flag, value, Flags { license: v, ..flags });
        } else if f == "--tag"@ {
            lemma_read_one_more(args.skip(2), flag, value, Flags { tags: flags.tags.push(v), ..flags });
        }
    }
}

/// One flag and its value, read onto `flags`.
proof fn lemma_read_pair(flag: Seq<char>, value: Seq<char>, flags: Flags)
    ensures
        read_flags(seq![flag, value], flags) == if flag == "--url"@ {
            Some(Flags { url: Some(value), ..flags })
        } else if flag == "--source"@ {
            Some(Flags { source: Some(value), ..flags })
        } else if flag == "--license"@ {
            Some(Flags { license: value, ..flags })
        } else if flag == "--tag"@ {
            Some(Flags { tags: flags.tags.push(value), ..flags })
        } else {
            None
        },
{
    let pair = seq![flag, value];
    let none = Seq::<Seq<char>>::empty();
    assert(pair.skip(2) =~= none);
    assert(read_flags(none, Flags { url: Some(value), ..flags }) == Some(Flags { url: Some(value), ..flags }));
    assert(read_flags(none, Flags { source: Some(value), ..flags }) == Some(Flags { source: Some(value), ..flags }));
    assert(read_flags(none, Flags { license: value, ..flags }) == Some(Flags { license: value, ..flags }));
    assert(read_flags(none, Flags { tags: flags.tags.push(value), ..flags }) == Some(
        Flags { tags: flags.tags.push(value), ..flags },
    ));
}

/// A flag read after others sets its own field and nothing else: `--url` the url, `--source`
/// the source, `--license` the license, `--tag` adds one tag at the end; a flag of any other
/// name, or one without its value, leaves nothing read. With no flags the license is
/// `MIT OR Apache-2.0` and there are no tags.
pub proof fn lemma_flags_read(args: Seq<Seq<char>>, value: Seq<char>, other: Seq<char>)
    requires
        args.len() % 2 == 0,
    ensures
        no_flags().license == "MIT OR Apache-2.0"@,
        no_flags().tags.len() == 0,
        read_flags(args, no_flags()) matches Some(read) ==> {
            &&& read_flags(args + seq!["--url"@, value], no_flags()) == Some(Flags { url: Some(value), ..read })
            &&& read_flags(args + seq!["--source"@, value], no_flags()) == Some(Flags { source: Some(value), ..read })
            &&& read_flags(args + seq!["--license"@, value], no_flags()) == Some(Flags { license: value, ..read })
            &&& read_flags(args + seq!["--tag"@, value], no_flags()) == Some(Flags { tags: read.tags.push(value), ..read })
        },
        other != "--url"@ && other != "--source"@ && other != "--license"@ && other != "--tag"@
            ==> read_flags(args + seq![other, value], no_flags()) is None,
        read_flags(args + seq![other], no_flags()) is None,
        origin_of(seq!["--url"@, value, "--source"@, other]) == Some(crate::origin::OriginView {
            url: value,
            source: other,
            license: "MIT OR Apache-2.0"@,
            tags: seq![],
        }),
{
    reveal_strlit("--url");
    reveal_strlit("--source");
    reveal_strlit("--license");
    reveal_strlit("--tag");
    let (url, source, license, tag) = ("--url"@, "--source"@, "--license"@, "--tag"@);
    assert(url.len() == 5 && tag.len() == 5 && source.len() == 8 && license.len() == 9);
    assert(url[2] != tag[2]);
    lemma_read_one_more(args, url, value, no_flags());
    lemma_read_one_more(args, source, value, no_flags());
    lemma_read_one_more(args, license, value, no_flags());
    lemma_read_one_more(args, tag, value, no_flags());
    lemma_read_one_more(args, other, value, no_flags());
    lemma_odd_flags(args, other, no_flags());
    if read_flags(args, no_flags()) is Some {
        let read = read_flags(args, no_flags())->Some_0;
        lemma_read_pair(url, value, read);
        lemma_read_pair(source, value, read);
        lemma_read_pair(license, value, read);
        lemma_read_pair(tag, value, read);
        lemma_read_pair(other, value, read);
    }
    let four = seq![url, value, source, other];
    assert(four.skip(2) =~= seq![source, other]);
    let after_url = Flags { url: Some(value), ..no_flags() };
    lemma_read_pair(source, other, after_url);
    assert(read_flags(four, no_flags()) == read_flags(seq![source, other], after_url));
}

/// A flag without its value reads as nothing, after any flags.
proof fn lemma_odd_flags(args: Seq<Seq<char>>, flag: Seq<char>, flags: Flags)
    requires
        args.len() % 2 == 0,
    ensures
        read_flags(args + seq![flag], flags) is None,
    decreases args.len(),
{
    let more = args + seq![flag];
    if args.len() == 0 {
        assert(more =~= seq![flag]);
    } else {
        assert(more[0] == args[0] && more[1] == args[1]);
        assert(more.skip(2) =~= args.skip(2) + seq![flag]);
        let (f, v) = (args[0], args[1]);
        lemma_odd_flags(args.skip(2), flag, Flags { url: Some(v), ..flags });
        lemma_odd_flags(args.skip(2), flag, Flags { source: Some(v), ..flags });
        lemma_odd_flags(args.skip(2), flag, Flags { license: v, ..flags });
        lemma_odd_flags(args.skip(2), flag, Flags { tags: flags.tags.push(v), ..flags });
    }
}

/// More than five declared tags are one problem, named first, with their number; `bundled`
/// is not among the declared: put after tags that lack it, it changes nothing found.
pub proof fn lemma_tag_count(tags: Seq<Seq<char>>)
    requires
        !tags.contains(BUNDLED@),
    ensures
        tags.len() > 5 ==> tag_notes(tags).len() > 0 && tag_notes(tags)[0] == digits_of(tags.len())
            + " tags, at most 5"@,
        tags.len() <= 5 ==> tag_notes(tags) == each_tag_notes(tags),
        tag_notes(tags.push(BUNDLED@)) == tag_notes(tags),
{
    broadcast use vstd::seq_lib::group_to_multiset_ensures, vstd::multiset::group_multiset_axioms;

    lemma_declared_count(tags);
    assert(tags.to_multiset().count(BUNDLED@) == 0);
    assert(declared_count(tags) == tags.len());
    reveal_strlit(" tags, at most ");
    reveal_strlit(" tags, at most 5");
    assert(digits_of(5) == seq![digit_char(5)]);
    assert(digit_char(5) == '5');
    assert(" tags, at most "@ + digits_of(5) =~= " tags, at most 5"@);
    let more = tags.push(BUNDLED@);
    assert(more.drop_last() =~= tags);
    assert(declared_count(more) == declared_count(tags));
    reveal_strlit("bundled");
    assert(is_ascii_chars(BUNDLED@));
    assert(!malformed(BUNDLED@));
    assert(notes_on(tags, BUNDLED@) =~= Seq::<Seq<char>>::empty());
    assert(each_tag_notes(more) =~= each_tag_notes(tags));
    if tags.len() > 5 {
        let note = crate::tags::too_many_note(declared_count(tags));
        assert(note =~= digits_of(tags.len()) + " tags, at most 5"@);
        assert(tag_notes(tags)[0] == note);
    } else {
        assert(tag_notes(tags) =~= each_tag_notes(tags));
    }
}

} // verus!
