//! Markup extraction: stream a document's parse events and keep only the
//! character data, concatenated in document order with no separator. Tags,
//! attributes, comments and processing instructions are discarded, and a
//! malformed event is skipped rather than aborting the pass.

use vstd::prelude::*;
use vstd::string::StringExecFns;

verus! {

/// The parse events of a markup document, one entry per event in document
/// order: the payload of a character-data event, or `None` for any other
/// event (structure, comments, whitespace-only regions, or a per-event parse
/// failure).
pub uninterp spec fn markup_events(bytes: Seq<u8>) -> Seq<Option<Seq<char>>>;

/// Relies on `xml::reader::EventReader` (crate `xml`): pulling events is a
/// pure function of the input bytes, and `Characters` events carry the
/// character data between tags. Everything else — structure, comments,
/// whitespace-only text, a parse error — maps to `None`.
#[verifier::external_body]
fn read_markup_events(bytes: &[u8]) -> (r: Vec<Option<String>>)
    ensures
        r.deep_view() == markup_events(bytes@),
{
    xml::reader::EventReader::new(bytes)
        .into_iter()
        .map(|event| match event {
            Ok(xml::reader::XmlEvent::Characters(text)) => Some(text),
            _ => None,
        })
        .collect()
}

/// The concatenation, in order, of every character-data payload in `events`.
pub open spec fn concat_character_data(events: Seq<Option<Seq<char>>>) -> Seq<char>
    decreases events.len(),
{
    if events.len() == 0 {
        Seq::empty()
    } else {
        concat_character_data(events.drop_last()) + match events.last() {
            Some(text) => text,
            None => Seq::empty(),
        }
    }
}

/// Whether any character-data event occurs in `events` at all.
pub open spec fn has_character_data(events: Seq<Option<Seq<char>>>) -> bool {
    exists|i: int| 0 <= i < events.len() && events[i] is Some
}

/// Folds an event sequence into its character data: the concatenated
/// payloads, present exactly when at least one character-data event occurred
/// (so a document with none yields the distinct absent result, even though
/// the concatenation is then also empty).
pub fn extract_character_data(events: &Vec<Option<String>>) -> (r: Option<String>)
    ensures
        r is Some <==> has_character_data(events.deep_view()),
        r matches Some(s) ==> s@ == concat_character_data(events.deep_view()),
{
    let ghost all: Seq<Option<Seq<char>>> = events.deep_view();
    let mut text = String::new();
    let mut found = false;
    let n = events.len();
    let mut i: usize = 0;
    while i < n
        invariant
            i <= n,
            n == all.len(),
            all == events.deep_view(),
            found == has_character_data(all.take(i as int)),
            text@ == concat_character_data(all.take(i as int)),
        decreases n - i,
    {
        proof {
            assert(all.take(i + 1).drop_last() =~= all.take(i as int));
            assert(all.take(i + 1).last() == all[i as int]);
        }
        match &events[i] {
            Some(payload) => {
                text.append(payload.as_str());
                found = true;
                proof {
                    assert(has_character_data(all.take(i + 1)));
                }
            },
            None => {
                proof {
                    lemma_has_character_data_step(all, i as int);
                }
            },
        }
        i = i + 1;
    }
    proof {
        assert(all.take(n as int) =~= all);
    }
    if found {
        Some(text)
    } else {
        None
    }
}

/// Appending an event without character data changes nothing about whether
/// any character data was seen.
proof fn lemma_has_character_data_step(events: Seq<Option<Seq<char>>>, i: int)
    requires
        0 <= i < events.len(),
        events[i] is None,
    ensures
        has_character_data(events.take(i + 1)) == has_character_data(events.take(i)),
{
    if has_character_data(events.take(i + 1)) {
        let k = choose|k: int| 0 <= k < i + 1 && #[trigger] events.take(i + 1)[k] is Some;
        assert(k < i);
        assert(events.take(i)[k] is Some);
    }
    if has_character_data(events.take(i)) {
        let k = choose|k: int| 0 <= k < i && #[trigger] events.take(i)[k] is Some;
        assert(events.take(i + 1)[k] is Some);
    }
}

/// The character-data payloads of an event sequence, in order, with every
/// other event dropped.
pub open spec fn character_payloads(events: Seq<Option<Seq<char>>>) -> Seq<Seq<char>>
    decreases events.len(),
{
    if events.len() == 0 {
        Seq::empty()
    } else {
        character_payloads(events.drop_last()) + match events.last() {
            Some(text) => seq![text],
            None => Seq::empty(),
        }
    }
}

/// The concatenation of a sequence of payloads, in order.
pub open spec fn concat_payloads(payloads: Seq<Seq<char>>) -> Seq<char>
    decreases payloads.len(),
{
    if payloads.len() == 0 {
        Seq::empty()
    } else {
        concat_payloads(payloads.drop_last()) + payloads.last()
    }
}

/// The concatenated character data of an event sequence is the concatenation
/// of its payloads alone.
proof fn lemma_concat_from_payloads(events: Seq<Option<Seq<char>>>)
    ensures
        concat_character_data(events) == concat_payloads(character_payloads(events)),
    decreases events.len(),
{
    if events.len() == 0 {
    } else {
        let dl = events.drop_last();
        lemma_concat_from_payloads(dl);
        match events.last() {
            Some(text) => {
                let p = character_payloads(dl) + seq![text];
                assert(p.drop_last() =~= character_payloads(dl));
                assert(p.last() == text);
            },
            None => {
                assert(character_payloads(events) =~= character_payloads(dl));
                assert(concat_character_data(events) =~= concat_character_data(dl));
            },
        }
    }
}

/// An event sequence holds character data exactly when it has at least one
/// payload.
proof fn lemma_has_iff_payloads(events: Seq<Option<Seq<char>>>)
    ensures
        has_character_data(events) <==> character_payloads(events).len() > 0,
    decreases events.len(),
{
    if events.len() == 0 {
    } else {
        let dl = events.drop_last();
        lemma_has_iff_payloads(dl);
        match events.last() {
            Some(text) => {
                assert(events[events.len() - 1] is Some);
            },
            None => {
                assert(character_payloads(events) =~= character_payloads(dl));
                lemma_has_character_data_step(events, events.len() - 1);
                assert(events.take(events.len() as int) =~= events);
                assert(events.take(events.len() - 1) =~= dl);
            },
        }
    }
}

/// Extraction depends only on the character-data payloads of the event
/// stream: two documents whose events carry the same payloads in the same
/// order extract identically, however their element structure, attributes,
/// comments or malformed regions differ — none of those ever contributes to
/// the output.
pub proof fn lemma_extraction_ignores_markup(
    e1: Seq<Option<Seq<char>>>,
    e2: Seq<Option<Seq<char>>>,
)
    requires
        character_payloads(e1) == character_payloads(e2),
    ensures
        has_character_data(e1) == has_character_data(e2),
        concat_character_data(e1) == concat_character_data(e2),
{
    lemma_concat_from_payloads(e1);
    lemma_concat_from_payloads(e2);
    lemma_has_iff_payloads(e1);
    lemma_has_iff_payloads(e2);
}

/// Extracts the character data of a markup document: parses `content` as a
/// stream of events and keeps only the character-data payloads, concatenated
/// in document order; absent when the document has no character-data event.
pub fn extract_markup(content: &[u8]) -> (r: Option<String>)
    ensures
        r is Some <==> has_character_data(markup_events(content@)),
        r matches Some(s) ==> s@ == concat_character_data(markup_events(content@)),
{
    let events = read_markup_events(content);
    extract_character_data(&events)
}

} // verus!
