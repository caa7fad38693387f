//! What holds of the transcription in a response, in terms of what the endpoint
//! sent.

use vstd::prelude::*;

use crate::remote::engine;
use crate::remote::engine::{
    DiarizedText, Grouping, TranscriptionBody, UpstreamSegment, UpstreamText,
};
use crate::remote::provider::{Diarization, DurationSource, EndpointProfile};
use crate::text;
use crate::SegmentText;

verus! {

// ---------------------------------------------------------------------------
// Entries
// ---------------------------------------------------------------------------

/// An entry says its text, or its word where the text is empty, and has the
/// times, the kind and the speaker that were sent with it. Speakers are called
/// by their name, or by their number.
pub proof fn law_entries_are_read_as_sent<T>(e: UpstreamSegment<T>)
    ensures
        e.text@.len() == 0 ==> e@.text == e.word@,
        e.text@.len() > 0 ==> e@.text == e.text@,
        e@.start == e.start,
        e@.end == e.end,
        e@.attached == e.attached,
        e.kind is None <==> e@.kind is None,
        e.kind is Some ==> e@.kind == Some(e.kind->0@),
        match e.speaker {
            None => e@.speaker is None,
            Some(engine::SpeakerLabel::Name(name)) => e@.speaker == Some(name@),
            Some(engine::SpeakerLabel::Index(index)) => e@.speaker == Some(
                "speaker_"@ + text::signed_decimal(index as int),
            ),
        },
{
}

/// Entries without a kind and entries of the kind `word` are words; they keep
/// their order, their texts, their times and their speakers. A word of that
/// kind is attached to the one before it where the last entry with a kind was a
/// word too; nothing else changes that.
pub proof fn law_words_are_kept<T>(entries: Seq<UpstreamText<T>>) -> (from: Seq<int>)
    ensures
        from.len() == engine::spoken(entries).0.len(),
        forall|k: int|
            0 <= k < from.len() ==> {
                &&& 0 <= #[trigger] from[k] < entries.len()
                &&& engine::spoken(entries).0[k].text == entries[from[k]].text
                &&& engine::spoken(entries).0[k].start == entries[from[k]].start
                &&& engine::spoken(entries).0[k].end == entries[from[k]].end
                &&& engine::spoken(entries).0[k].speaker == entries[from[k]].speaker
                &&& entries[from[k]].kind is None || entries[from[k]].kind == Some("word"@)
                &&& entries[from[k]].kind is None ==> engine::spoken(entries).0[k].attached
                    == entries[from[k]].attached
                &&& entries[from[k]].kind is Some ==> engine::spoken(entries).0[k].attached
                    == word_before(entries, from[k])
            },
        forall|k: int, l: int| 0 <= k < l < from.len() ==> #[trigger] from[k] < #[trigger] from[l],
        forall|i: int|
            0 <= i < entries.len() && ((#[trigger] entries[i]).kind is None || entries[i].kind
                == Some("word"@)) ==> from.contains(i),
        engine::spoken(entries).1 == !word_before(entries, entries.len() as int),
    decreases entries.len(),
{
    if entries.len() == 0 {
        seq![]
    } else {
        let init = entries.drop_last();
        let m = init.len() as int;
        let before = law_words_are_kept(init);
        let entry = entries.last();
        let from = if entry.kind is None || entry.kind == Some("word"@) {
            before.push(m)
        } else {
            before
        };
        lemma_word_before(entries, init, m);
        assert forall|k: int| 0 <= k < before.len() implies word_before(
            entries,
            #[trigger] before[k],
        ) == word_before(init, before[k]) by {
            lemma_word_before(entries, init, before[k]);
        }
        assert forall|i: int|
            0 <= i < entries.len() && ((#[trigger] entries[i]).kind is None || entries[i].kind
                == Some("word"@)) implies from.contains(i) by {
            if i < m {
                assert(init[i] == entries[i]);
                let k = choose|k: int| 0 <= k < before.len() && before[k] == i;
                assert(from[k] == i);
            } else {
                assert(from[before.len() as int] == i);
            }
        }
        from
    }
}

/// Whether the last entry with a kind before a place is a word.
pub open spec fn word_before<T>(entries: Seq<UpstreamText<T>>, i: int) -> bool
    decreases i,
{
    if i <= 0 {
        false
    } else if entries[i - 1].kind is None {
        word_before(entries, i - 1)
    } else {
        entries[i - 1].kind == Some("word"@)
    }
}

proof fn lemma_word_before<T>(a: Seq<UpstreamText<T>>, b: Seq<UpstreamText<T>>, i: int)
    requires
        0 <= i <= b.len() <= a.len(),
        forall|j: int| 0 <= j < b.len() ==> a[j] == #[trigger] b[j],
    ensures
        word_before(a, i) == word_before(b, i),
    decreases i,
{
    if i > 0 {
        assert(a[i - 1] == b[i - 1]);
        lemma_word_before(a, b, i - 1);
    }
}

// ---------------------------------------------------------------------------
// Segments made of words
// ---------------------------------------------------------------------------

/// The text of the words at several places, from one to another: trimmed, with
/// a space before each that is not attached.
pub open spec fn linked<T>(words: Seq<UpstreamText<T>>, at: Seq<int>, from: int, to: int) -> Seq<char>
    decreases to - from,
{
    if to - from <= 1 {
        text::trimmed(words[at[from]].text)
    } else {
        linked(words, at, from, to - 1) + (if words[at[to - 1]].attached {
            seq![]
        } else {
            seq![' ']
        }) + text::trimmed(words[at[to - 1]].text)
    }
}

/// Whether a text ends in a full stop, a question mark or an exclamation mark,
/// narrow or wide.
pub open spec fn ends_with_stop(s: Seq<char>) -> bool {
    s.len() > 0 && (s.last() == '.' || s.last() == '?' || s.last() == '!' || s.last()
        == '\u{3002}' || s.last() == '\u{ff1f}' || s.last() == '\u{ff01}')
}

/// Whether the words at two neighbouring places belong to different segments.
pub open spec fn parted<T>(words: Seq<UpstreamText<T>>, grouping: Grouping, before: int, i: int) -> bool {
    match grouping {
        Grouping::Speaker => words[before].speaker != words[i].speaker,
        Grouping::Sentence(pauses) => ends_with_stop(text::trimmed(words[before].text)) || (i
            < pauses@.len() && pauses@[i]),
    }
}

spec fn is_run<T>(
    words: Seq<UpstreamText<T>>,
    at: Seq<int>,
    grouping: Grouping,
    s: DiarizedText<T>,
    from: int,
    to: int,
) -> bool {
    &&& 0 <= from < to <= at.len()
    &&& s.start == words[at[from]].start
    &&& s.end == words[at[to - 1]].end
    &&& s.speaker == words[at[from]].speaker
    &&& s.text == linked(words, at, from, to)
    &&& grouping is Speaker ==> words[at[to - 1]].speaker == s.speaker
    &&& from > 0 ==> parted(words, grouping, at[from - 1], at[from])
    &&& forall|j: int|
        from < j < to ==> !parted(words, grouping, at[j - 1], #[trigger] at[j])
}

proof fn lemma_linked_end<T>(words: Seq<UpstreamText<T>>, at: Seq<int>, from: int, to: int)
    requires
        0 <= from < to <= at.len(),
        text::trimmed(words[at[to - 1]].text).len() > 0,
    ensures
        linked(words, at, from, to).len() > 0,
        linked(words, at, from, to).last() == text::trimmed(words[at[to - 1]].text).last(),
{
}

proof fn lemma_linked_same<T>(
    words: Seq<UpstreamText<T>>,
    longer: Seq<UpstreamText<T>>,
    at: Seq<int>,
    more: Seq<int>,
    from: int,
    to: int,
)
    requires
        0 <= from < to <= at.len() <= more.len(),
        words.len() <= longer.len(),
        forall|i: int| 0 <= i < words.len() ==> longer[i] == #[trigger] words[i],
        forall|k: int| 0 <= k < at.len() ==> more[k] == #[trigger] at[k],
        forall|k: int| 0 <= k < at.len() ==> 0 <= #[trigger] at[k] < words.len(),
    ensures
        linked(words, at, from, to) == linked(longer, more, from, to),
    decreases to - from,
{
    assert(more[from] == at[from]);
    assert(longer[at[from]] == words[at[from]]);
    assert(more[to - 1] == at[to - 1]);
    assert(longer[at[to - 1]] == words[at[to - 1]]);
    if to - from > 1 {
        lemma_linked_same(words, longer, at, more, from, to - 1);
    }
}

/// Whether a list of segments is made of runs between cuts.
spec fn are_runs<T>(
    words: Seq<UpstreamText<T>>,
    grouping: Grouping,
    list: Seq<DiarizedText<T>>,
    at: Seq<int>,
    cuts: Seq<int>,
) -> bool {
    &&& spoken_places(words, at)
    &&& cuts.len() == list.len() + 1
    &&& cuts[0] == 0
    &&& cuts.last() == at.len()
    &&& forall|g: int|
        0 <= g < list.len() ==> is_run(
            words,
            at,
            grouping,
            #[trigger] list[g],
            cuts[g],
            cuts[g + 1],
        )
}

/// The places after one more word.
proof fn lemma_places<T>(words: Seq<UpstreamText<T>>, at: Seq<int>)
    requires
        words.len() > 0,
        spoken_places(words.drop_last(), at),
    ensures
        text::trimmed(words.last().text).len() == 0 ==> spoken_places(words, at),
        text::trimmed(words.last().text).len() > 0 ==> spoken_places(
            words,
            at.push(words.len() - 1),
        ),
{
    let init = words.drop_last();
    let m = init.len() as int;
    let places = at.push(m);
    assert forall|i: int|
        0 <= i < m && text::trimmed((#[trigger] words[i]).text).len() > 0 implies at.contains(i)
        && places.contains(i) by {
        assert(init[i] == words[i]);
        let j = choose|j: int| 0 <= j < at.len() && at[j] == i;
        assert(places[j] == i);
    }
    assert(places[at.len() as int] == m);
}

/// The segments after one more word, but for the last.
proof fn lemma_runs_stay<T>(
    words: Seq<UpstreamText<T>>,
    grouping: Grouping,
    list: Seq<DiarizedText<T>>,
    at: Seq<int>,
    cuts: Seq<int>,
    places: Seq<int>,
    g: int,
)
    requires
        words.len() > 0,
        are_runs(words.drop_last(), grouping, list, at, cuts),
        places == at || places == at.push(words.len() - 1),
        0 <= g < list.len(),
    ensures
        is_run(words, places, grouping, list[g], cuts[g], cuts[g + 1]),
{
    let init = words.drop_last();
    assert(is_run(init, at, grouping, list[g], cuts[g], cuts[g + 1]));
    lemma_run_stays(init, words, at, places, grouping, list[g], cuts[g], cuts[g + 1]);
}

/// A word that goes on with the last segment.
proof fn lemma_extended_run<T>(
    words: Seq<UpstreamText<T>>,
    grouping: Grouping,
    list: Seq<DiarizedText<T>>,
    at: Seq<int>,
    cuts: Seq<int>,
)
    requires
        words.len() > 0,
        are_runs(words.drop_last(), grouping, list, at, cuts),
        list == engine::joined_words(words.drop_last(), grouping),
        text::trimmed(words.last().text).len() > 0,
        list.len() > 0,
        !engine::starts_segment(grouping, list.last(), words.len() - 1, words.last().speaker),
    ensures
        is_run(
            words,
            at.push(words.len() - 1),
            grouping,
            engine::joined_words(words, grouping).last(),
            cuts[list.len() - 1],
            at.len() as int + 1,
        ),
{
    let init = words.drop_last();
    let m = init.len() as int;
    let n = list.len() as int;
    let k = at.len() as int;
    let places = at.push(m);
    let from = cuts[n - 1];
    let last = list[n - 1];
    let now = engine::joined_words(words, grouping).last();
    assert(is_run(init, at, grouping, last, from, cuts[n]));
    lemma_runs_stay(words, grouping, list, at, cuts, places, n - 1);
    assert(text::trimmed(init[at[k - 1]].text).len() > 0);
    lemma_linked_end(init, at, from, k);
    assert(init[at[k - 1]] == words[at[k - 1]]);
    lemma_linked_same(init, words, at, places, from, k);
    reveal_strlit("");
    reveal_strlit(" ");
    assert(""@ =~= Seq::<char>::empty());
    assert(" "@ =~= seq![' ']);
    assert(now.text == linked(words, places, from, k + 1));
    assert(!parted(words, grouping, places[k - 1], places[k]));
    assert forall|j: int| from < j < k + 1 implies !parted(
        words,
        grouping,
        places[j - 1],
        #[trigger] places[j],
    ) by {}
}

/// A word that starts a segment.
proof fn lemma_new_run<T>(
    words: Seq<UpstreamText<T>>,
    grouping: Grouping,
    list: Seq<DiarizedText<T>>,
    at: Seq<int>,
    cuts: Seq<int>,
)
    requires
        words.len() > 0,
        are_runs(words.drop_last(), grouping, list, at, cuts),
        list == engine::joined_words(words.drop_last(), grouping),
        text::trimmed(words.last().text).len() > 0,
        list.len() > 0 ==> engine::starts_segment(
            grouping,
            list.last(),
            words.len() - 1,
            words.last().speaker,
        ),
    ensures
        is_run(
            words,
            at.push(words.len() - 1),
            grouping,
            engine::joined_words(words, grouping).last(),
            at.len() as int,
            at.len() as int + 1,
        ),
{
    let init = words.drop_last();
    let m = init.len() as int;
    let n = list.len() as int;
    let k = at.len() as int;
    let places = at.push(m);
    if n > 0 {
        let last = list[n - 1];
        assert(is_run(init, at, grouping, last, cuts[n - 1], cuts[n]));
        assert(text::trimmed(init[at[k - 1]].text).len() > 0);
        lemma_linked_end(init, at, cuts[n - 1], k);
        assert(init[at[k - 1]] == words[at[k - 1]]);
        assert(parted(words, grouping, places[k - 1], places[k]));
    }
}

proof fn lemma_runs<T>(words: Seq<UpstreamText<T>>, grouping: Grouping) -> (r: (
    Seq<int>,
    Seq<int>,
))
    ensures
        are_runs(words, grouping, engine::joined_words(words, grouping), r.0, r.1),
    decreases words.len(),
{
    if words.len() == 0 {
        (seq![], seq![0int])
    } else {
        let init = words.drop_last();
        let m = init.len() as int;
        let (at, cuts) = lemma_runs(init, grouping);
        let before = engine::joined_words(init, grouping);
        let now = engine::joined_words(words, grouping);
        let n = before.len() as int;
        let k = at.len() as int;
        lemma_places(words, at);
        if text::trimmed(words.last().text).len() == 0 {
            assert forall|g: int| 0 <= g < n implies is_run(
                words,
                at,
                grouping,
                #[trigger] now[g],
                cuts[g],
                cuts[g + 1],
            ) by {
                lemma_runs_stay(words, grouping, before, at, cuts, at, g);
            }
            (at, cuts)
        } else {
            let places = at.push(m);
            let extends = n > 0 && !engine::starts_segment(
                grouping,
                before.last(),
                m,
                words.last().speaker,
            );
            let longer = if extends {
                cuts.drop_last().push(k + 1)
            } else {
                cuts.push(k + 1)
            };
            if extends {
                lemma_extended_run(words, grouping, before, at, cuts);
            } else {
                lemma_new_run(words, grouping, before, at, cuts);
            }
            assert forall|g: int| 0 <= g < now.len() implies is_run(
                words,
                places,
                grouping,
                #[trigger] now[g],
                longer[g],
                longer[g + 1],
            ) by {
                if g < now.len() - 1 {
                    assert(now[g] == before[g]);
                    lemma_runs_stay(words, grouping, before, at, cuts, places, g);
                }
            }
            (places, longer)
        }
    }
}

proof fn lemma_run_stays<T>(
    words: Seq<UpstreamText<T>>,
    longer: Seq<UpstreamText<T>>,
    at: Seq<int>,
    more: Seq<int>,
    grouping: Grouping,
    s: DiarizedText<T>,
    from: int,
    to: int,
)
    requires
        is_run(words, at, grouping, s, from, to),
        at.len() <= more.len(),
        words.len() <= longer.len(),
        forall|i: int| 0 <= i < words.len() ==> longer[i] == #[trigger] words[i],
        forall|k: int| 0 <= k < at.len() ==> more[k] == #[trigger] at[k],
        forall|k: int| 0 <= k < at.len() ==> 0 <= #[trigger] at[k] < words.len(),
    ensures
        is_run(longer, more, grouping, s, from, to),
{
    lemma_linked_same(words, longer, at, more, from, to);
    assert(more[from] == at[from]);
    assert(longer[at[from]] == words[at[from]]);
    assert(more[to - 1] == at[to - 1]);
    assert(longer[at[to - 1]] == words[at[to - 1]]);
    if from > 0 {
        assert(more[from - 1] == at[from - 1]);
        assert(longer[at[from - 1]] == words[at[from - 1]]);
    }
    assert forall|j: int| from < j < to implies !parted(
        longer,
        grouping,
        more[j - 1],
        #[trigger] more[j],
    ) by {
        assert(more[j - 1] == at[j - 1]);
        assert(more[j] == at[j]);
        assert(longer[at[j - 1]] == words[at[j - 1]]);
        assert(longer[at[j]] == words[at[j]]);
        assert(!parted(words, grouping, at[j - 1], at[j]));
    }
}

/// Whether a list holds the places of the words that are not blank, in order.
pub open spec fn spoken_places<T>(words: Seq<UpstreamText<T>>, at: Seq<int>) -> bool {
    &&& forall|k: int|
        0 <= k < at.len() ==> 0 <= #[trigger] at[k] < words.len() && text::trimmed(
            words[at[k]].text,
        ).len() > 0
    &&& forall|k: int, l: int| 0 <= k < l < at.len() ==> #[trigger] at[k] < #[trigger] at[l]
    &&& forall|i: int|
        0 <= i < words.len() && text::trimmed((#[trigger] words[i]).text).len() > 0
            ==> at.contains(i)
}

/// Segments are runs of the words that are not blank, one after the other. Each
/// starts when its first word starts, ends when its last word ends, is spoken
/// by its first speaker and joins the trimmed texts, with spaces unless words
/// are attached. A new one starts where another speaker speaks or, grouped by
/// sentences, after a word that ends one and after a pause, and nowhere else.
pub proof fn law_segments_are_runs_of_words<T>(words: Seq<UpstreamText<T>>, grouping: Grouping) -> (r: (
    Seq<int>,
    Seq<int>,
))
    ensures
        ({
            let (at, cuts) = r;
            let all = engine::joined_words(words, grouping);
            &&& spoken_places(words, at)
            &&& cuts.len() == all.len() + 1
            &&& cuts[0] == 0
            &&& cuts.last() == at.len()
            &&& forall|g: int| 0 <= g < all.len() ==> 0 <= #[trigger] cuts[g] < cuts[g + 1] <= at.len()
            &&& forall|g: int|
                0 <= g < all.len() ==> {
                    &&& (#[trigger] all[g]).start == words[at[cuts[g]]].start
                    &&& all[g].end == words[at[cuts[g + 1] - 1]].end
                    &&& all[g].speaker == words[at[cuts[g]]].speaker
                    &&& all[g].text == linked(words, at, cuts[g], cuts[g + 1])
                }
            &&& forall|g: int, j: int|
                0 <= g < all.len() && cuts[g] <= j < cuts[g + 1] && j > 0 ==> (
                #[trigger] all[g]).text.len() >= 0 && ((j == cuts[g]) <==> parted(
                    words,
                    grouping,
                    at[j - 1],
                    #[trigger] at[j],
                ))
        }),
{
    let (at, cuts) = lemma_runs(words, grouping);
    let all = engine::joined_words(words, grouping);
    assert forall|g: int| 0 <= g < all.len() implies 0 <= #[trigger] cuts[g] < cuts[g + 1]
        <= at.len() by {
        assert(is_run(words, at, grouping, all[g], cuts[g], cuts[g + 1]));
    }
    assert forall|g: int, j: int|
        0 <= g < all.len() && cuts[g] <= j < cuts[g + 1] && j > 0 implies (
    #[trigger] all[g]).text.len() >= 0 && ((j == cuts[g]) <==> parted(
        words,
        grouping,
        at[j - 1],
        #[trigger] at[j],
    )) by {
        assert(is_run(words, at, grouping, all[g], cuts[g], cuts[g + 1]));
    }
    assert forall|g: int| 0 <= g < all.len() implies ({
        &&& (#[trigger] all[g]).start == words[at[cuts[g]]].start
        &&& all[g].end == words[at[cuts[g + 1] - 1]].end
        &&& all[g].speaker == words[at[cuts[g]]].speaker
        &&& all[g].text == linked(words, at, cuts[g], cuts[g + 1])
    }) by {
        assert(is_run(words, at, grouping, all[g], cuts[g], cuts[g + 1]));
    }
    (at, cuts)
}

/// Words are grouped by speaker as soon as one of them has a speaker.
pub proof fn law_speakers_are_grouped_where_there_are_any<T>(words: Seq<UpstreamText<T>>, i: int)
    ensures
        0 <= i < words.len() && words[i].speaker is Some ==> engine::speaker_groups(words) == Some(
            engine::joined_words(words, Grouping::Speaker),
        ),
        engine::speaker_groups(words) is Some ==> exists|j: int|
            0 <= j < words.len() && (#[trigger] words[j]).speaker is Some,
{
}

// ---------------------------------------------------------------------------
// Whole responses
// ---------------------------------------------------------------------------

/// The words of a response are its entries that are words: each has the times
/// that were sent and the text that was sent, or the word where the text is
/// empty. They are reported by profiles that know the times of words.
pub proof fn law_response_words_are_as_sent<T>(
    body: TranscriptionBody<T>,
    pauses: &[bool],
    model: Seq<char>,
    p: EndpointProfile,
    include_speakers: bool,
) -> (from: Seq<int>)
    requires
        body.results is None,
        body.words is Some,
        p.supports_word_timestamps,
    ensures
        ({
            let r = engine::transcribed(
                engine::flattened(body),
                pauses,
                model,
                p,
                include_speakers,
            );
            let sent = body.words->0@;
            let words = r.transcription.words->0;
            &&& r.transcription.words is Some
            &&& words.len() == from.len()
            &&& forall|k: int|
                0 <= k < from.len() ==> {
                    &&& 0 <= #[trigger] from[k] < sent.len()
                    &&& words[k].start == sent[from[k]].start
                    &&& words[k].end == sent[from[k]].end
                    &&& sent[from[k]].text@.len() == 0 ==> words[k].text == sent[from[k]].word@
                    &&& sent[from[k]].text@.len() > 0 ==> words[k].text == sent[from[k]].text@
                }
            &&& forall|k: int, l: int|
                0 <= k < l < from.len() ==> #[trigger] from[k] < #[trigger] from[l]
            &&& forall|i: int|
                0 <= i < sent.len() && ((#[trigger] sent[i]).kind is None || sent[i].kind->0@
                    == "word"@) ==> from.contains(i)
            &&& forall|k: int|
                0 <= k < from.len() ==> sent[#[trigger] from[k]].kind is None
                    || sent[from[k]].kind->0@ == "word"@
        }),
{
    let sent = body.words->0@;
    let entries = engine::upstream_texts(sent);
    let from = law_words_are_kept(entries);
    assert forall|k: int| 0 <= k < from.len() implies entries[#[trigger] from[k]]
        == sent[from[k]]@ by {}
    assert forall|i: int|
        0 <= i < sent.len() && ((#[trigger] sent[i]).kind is None || sent[i].kind->0@ == "word"@)
        implies from.contains(i) by {
        assert(entries[i] == sent[i]@);
    }
    from
}

/// The segments of a response are those that were sent, one for one: each has
/// its times and its text, or its word where the text is empty, and its speaker
/// where speakers are asked for. Only without any are they made of the words.
pub proof fn law_response_segments_are_as_sent<T>(
    body: TranscriptionBody<T>,
    pauses: &[bool],
    model: Seq<char>,
    p: EndpointProfile,
    include_speakers: bool,
)
    requires
        body.results is None,
    ensures
        ({
            let r = engine::transcribed(
                engine::flattened(body),
                pauses,
                model,
                p,
                include_speakers,
            );
            &&& body.segments is Some && body.segments->0@.len() > 0 ==> {
                let sent = body.segments->0@;
                let v = r.transcription.segments->0;
                &&& r.transcription.segments is Some
                &&& v.len() == sent.len()
                &&& forall|i: int|
                    0 <= i < v.len() ==> {
                        &&& (#[trigger] v[i]).start == sent[i].start
                        &&& v[i].end == sent[i].end
                        &&& sent[i].text@.len() == 0 ==> v[i].text == sent[i].word@
                        &&& sent[i].text@.len() > 0 ==> v[i].text == sent[i].text@
                    }
            }
            &&& (body.segments is None || body.segments->0@.len() == 0) && body.words is Some ==> {
                let words = engine::spoken(engine::upstream_texts(body.words->0@)).0;
                let runs = engine::joined_words(words, Grouping::Sentence(pauses));
                let v = r.transcription.segments->0;
                &&& r.transcription.segments is Some <==> words.len() > 0
                &&& words.len() > 0 ==> v.len() == runs.len() && forall|i: int|
                    0 <= i < v.len() ==> (#[trigger] v[i]).start == runs[i].start && v[i].end
                        == runs[i].end && v[i].text == runs[i].text
            }
            &&& include_speakers && p.diarization != Diarization::WordSpeakers
                && body.segments is Some ==> {
                let sent = body.segments->0@;
                let v = r.segments->0;
                &&& r.segments is Some
                &&& v.len() == sent.len()
                &&& forall|i: int|
                    0 <= i < v.len() ==> {
                        &&& (#[trigger] v[i]).start == sent[i].start
                        &&& v[i].end == sent[i].end
                        &&& sent[i].text@.len() == 0 ==> v[i].text == sent[i].word@
                        &&& sent[i].text@.len() > 0 ==> v[i].text == sent[i].text@
                        &&& v[i].speaker == sent[i]@.speaker
                    }
            }
            &&& include_speakers && p.diarization == Diarization::WordSpeakers
                && body.words is Some ==> r.segments == engine::speaker_groups(
                engine::spoken(engine::upstream_texts(body.words->0@)).0,
            )
            &&& !include_speakers ==> r.segments is None
        }),
{
    if body.segments is Some {
        let sent = body.segments->0@;
        let entries = engine::upstream_texts(sent);
        assert forall|i: int| 0 <= i < sent.len() implies #[trigger] entries[i] == sent[i]@ by {}
    }
}

/// A response has the text and the language that were sent, the model that was
/// asked, and the duration that the profile reads: at the top level, or in the
/// usage report; without one it is zero.
pub proof fn law_response_texts_are_as_sent<T>(
    body: TranscriptionBody<T>,
    pauses: &[bool],
    model: Seq<char>,
    p: EndpointProfile,
    include_speakers: bool,
)
    requires
        body.results is None,
    ensures
        ({
            let r = engine::transcribed(
                engine::flattened(body),
                pauses,
                model,
                p,
                include_speakers,
            ).transcription;
            let duration = match p.duration_source {
                DurationSource::TopLevel => body.duration_ms,
                DurationSource::UsagePromptAudioSeconds => body.usage_ms,
            };
            &&& r.text == body.text@
            &&& r.model_id == model
            &&& body.language is None <==> r.language is None
            &&& body.language is Some ==> r.language == Some(body.language->0@)
            &&& duration is Some ==> r.duration_ms == duration->0
            &&& duration is None ==> r.duration_ms == 0
            &&& body.words is None || !p.supports_word_timestamps ==> r.words is None
        }),
{
}

/// Deepgram nests its transcript: text and words are those of the first
/// alternative of the first channel, the segments are the utterances unless
/// segments were sent, the language is the one detected unless one was sent,
/// and the duration is that of the metadata unless one was sent.
pub proof fn law_nested_transcripts_are_found<T>(body: TranscriptionBody<T>)
    requires
        body.results is Some,
    ensures
        ({
            let flat = engine::flattened(body);
            let results = body.results->0;
            let channel = results.channels@[0];
            let found = results.channels@.len() > 0 && channel.alternatives@.len() > 0;
            &&& found ==> flat.text == channel.alternatives@[0].transcript@
            &&& found ==> flat.words == Some(
                engine::upstream_texts(channel.alternatives@[0].words@),
            )
            &&& !found ==> flat.text == body.text@
            &&& !found && body.words is Some ==> flat.words == Some(
                engine::upstream_texts(body.words->0@),
            )
            &&& !found && body.words is None ==> flat.words is None
            &&& body.language is None && (results.channels@.len() == 0
                || channel.detected_language is None) ==> flat.language is None
            &&& body.segments is Some ==> flat.segments == Some(
                engine::upstream_texts(body.segments->0@),
            )
            &&& body.segments is None && results.utterances is Some ==> flat.segments == Some(
                engine::upstream_texts(results.utterances->0@),
            )
            &&& body.segments is None && results.utterances is None ==> flat.segments is None
            &&& body.language is Some ==> flat.language == Some(body.language->0@)
            &&& body.language is None && results.channels@.len() > 0
                && channel.detected_language is Some ==> flat.language == Some(
                channel.detected_language->0@,
            )
            &&& body.duration_ms is Some ==> flat.duration_ms == body.duration_ms
            &&& body.duration_ms is None ==> flat.duration_ms == body.metadata_ms
            &&& flat.usage_ms == body.usage_ms
        }),
{
}

/// What attempts and segments with speakers hold is what their fields hold.
pub proof fn law_results_hold_their_fields<T>(
    a: engine::UploadAttempt,
    s: engine::DiarizedSegment<T>,
    d: engine::DiarizedTranscription<T>,
)
    ensures
        a@.response_format == a.response_format && a@.use_flac == a.use_flac && a@.diarize
            == a.diarize,
        a@.timestamp_granularities == text::strs(a.timestamp_granularities@),
        s@.start == s.start && s@.end == s.end && s@.text == s.text@,
        s.speaker is Some ==> s@.speaker == Some(s.speaker->0@),
        s.speaker is None ==> s@.speaker is None,
        d@.transcription == d.transcription@,
        d.segments is None <==> d@.segments is None,
        d.segments is Some ==> d@.segments->0.len() == d.segments->0@.len() && forall|i: int|
            0 <= i < d.segments->0@.len() ==> d@.segments->0[i] == (#[trigger] d.segments->0@[i])@,
{
}

/// The word that a word follows is the last one before it that is not blank.
pub proof fn law_words_follow_spoken_words<T>(words: Seq<UpstreamText<T>>, i: int)
    requires
        0 <= i <= words.len(),
    ensures
        match engine::spoken_before(words, i) {
            Some(j) => 0 <= j < i && text::trimmed(words[j].text).len() > 0 && forall|k: int|
                j < k < i ==> text::trimmed((#[trigger] words[k]).text).len() == 0,
            None => forall|k: int|
                0 <= k < i ==> text::trimmed((#[trigger] words[k]).text).len() == 0,
        },
    decreases i,
{
    if i > 0 {
        law_words_follow_spoken_words(words, i - 1);
    }
}

/// The models of a list are those it names, in order; of a list by Deepgram,
/// those for recordings, each once, in the order in which they first come.
pub proof fn law_listed_models(response: engine::ModelsResponse, i: int)
    ensures
        response matches engine::ModelsResponse::Wrapped { data } ==> engine::listed_ids(
            response,
        ).len() == data@.len() && (0 <= i < data@.len() ==> engine::listed_ids(response)[i]
            == data@[i].id@),
        response matches engine::ModelsResponse::List(data) ==> engine::listed_ids(response).len()
            == data@.len() && (0 <= i < data@.len() ==> engine::listed_ids(response)[i]
            == data@[i].id@),
        response matches engine::ModelsResponse::Deepgram { stt } ==> engine::listed_ids(response)
            == engine::batch_names(stt@),
{
}

/// A recording is uploaded by its own name, or as `recording.wav` where its path
/// leads to no file; encoded, its extension is that of FLAC.
pub proof fn law_upload_names(style: crate::paths::PathStyle, path: Seq<char>)
    ensures
        match crate::paths::file_name_of(style, path) {
            Some(name) => engine::upload_name_of(style, path, false) == name
                && engine::upload_name_of(style, path, true) == crate::paths::stem_of(name)
                + ".flac"@,
            None => engine::upload_name_of(style, path, false) == "recording.wav"@
                && engine::upload_name_of(style, path, true) == "recording.flac"@,
        },
{
    reveal_strlit("recording");
    reveal_strlit(".flac");
    reveal_strlit("recording.flac");
    assert("recording"@ + ".flac"@ =~= "recording.flac"@);
}

/// Recordings travel under the media type of their extension.
pub proof fn law_media_types(e: Seq<char>)
    ensures
        engine::mime_of(None) == "application/octet-stream"@,
        e == "wav"@ ==> engine::mime_of(Some(e)) == "audio/wav"@,
        e == "flac"@ ==> engine::mime_of(Some(e)) == "audio/flac"@,
        e == "mp3"@ || e == "mpga"@ || e == "mpeg"@ ==> engine::mime_of(Some(e)) == "audio/mpeg"@,
        e == "ogg"@ || e == "oga"@ ==> engine::mime_of(Some(e)) == "audio/ogg"@,
        e == "m4a"@ || e == "mp4"@ ==> engine::mime_of(Some(e)) == "audio/mp4"@,
        e == "aac"@ ==> engine::mime_of(Some(e)) == "audio/aac"@,
        e == "opus"@ ==> engine::mime_of(Some(e)) == "audio/opus"@,
        e == "webm"@ ==> engine::mime_of(Some(e)) == "audio/webm"@,
{
    reveal_strlit("wav");
    reveal_strlit("flac");
    reveal_strlit("mp3");
    reveal_strlit("mpga");
    reveal_strlit("mpeg");
    reveal_strlit("ogg");
    reveal_strlit("oga");
    reveal_strlit("webm");
    reveal_strlit("m4a");
    reveal_strlit("mp4");
    reveal_strlit("aac");
    reveal_strlit("opus");
    assert("aac"@[0] == 'a' && "aac"@.len() == 3 && "opus"@[0] == 'o' && "opus"@.len() == 4);
    assert("m4a"@[0] == 'm' && "m4a"@.len() == 3 && "mp4"@[0] == 'm' && "mp4"@.len() == 3);
    assert("mp4"@[1] == 'p' && "mp3"@[1] == 'p' && "mpga"@.len() == 4 && "mpeg"@.len() == 4);
    assert("mpga"@[0] == 'm' && "mpeg"@[0] == 'm');
    assert("wav"@[0] == 'w' && "wav"@.len() == 3);
    assert("flac"@[0] == 'f' && "flac"@.len() == 4);
    assert("mp3"@[0] == 'm' && "mp3"@[2] == '3' && "mp3"@.len() == 3);
    assert("mp4"@[2] == '4' && "m4a"@[1] == '4');
    assert("mpga"@[2] == 'g' && "mpeg"@[2] == 'e');
    assert("ogg"@[0] == 'o' && "oga"@[0] == 'o' && "ogg"@.len() == 3 && "oga"@.len() == 3);
    assert("webm"@[0] == 'w' && "webm"@.len() == 4);
}

/// The extension of a recording is that of its file, in lower case.
pub proof fn law_audio_extensions(style: crate::paths::PathStyle, path: Seq<char>)
    ensures
        match crate::paths::file_name_of(style, path) {
            None => engine::audio_extension_of(style, path) is None,
            Some(name) => match crate::paths::extension_of(name) {
                None => engine::audio_extension_of(style, path) is None,
                Some(e) => engine::audio_extension_of(style, path) == Some(text::ascii_lower(e)),
            },
        },
{
}

/// Of a list by Deepgram the models for recordings are named, in order, each
/// once.
pub proof fn law_batch_models(stt: Seq<engine::DeepgramModel>, name: Seq<char>)
    ensures
        engine::batch_names(stt).contains(name) ==> exists|i: int|
            0 <= i < stt.len() && (#[trigger] stt[i]).batch && stt[i].canonical_name@ == name,
        (exists|i: int|
            0 <= i < stt.len() && (#[trigger] stt[i]).batch && stt[i].canonical_name@ == name)
            ==> engine::batch_names(stt).contains(name),
        engine::batch_names(stt).no_duplicates(),
    decreases stt.len(),
{
    if stt.len() > 0 {
        let init = stt.drop_last();
        law_batch_models(init, name);
        law_batch_models(init, stt.last().canonical_name@);
        let before = engine::batch_names(init);
        let now = engine::batch_names(stt);
        assert forall|i: int| 0 <= i < init.len() implies init[i] == #[trigger] stt[i] by {}
        assert(stt[stt.len() - 1] == stt.last());
        if now.contains(name) {
            let k = choose|k: int| 0 <= k < now.len() && now[k] == name;
            if k < before.len() && now[k] == before[k] {
                assert(before.contains(name));
                let i = choose|i: int|
                    0 <= i < init.len() && (#[trigger] init[i]).batch && init[i].canonical_name@
                        == name;
                assert(stt[i].batch);
            }
        }
        if exists|i: int|
            0 <= i < stt.len() && (#[trigger] stt[i]).batch && stt[i].canonical_name@ == name {
            let i = choose|i: int|
                0 <= i < stt.len() && (#[trigger] stt[i]).batch && stt[i].canonical_name@ == name;
            if i < init.len() {
                assert(init[i].batch);
                let k = choose|k: int| 0 <= k < before.len() && before[k] == name;
                assert(now[k] == name);
            } else if before.contains(name) {
                let k = choose|k: int| 0 <= k < before.len() && before[k] == name;
                assert(now[k] == name);
            } else {
                assert(now[before.len() as int] == name);
            }
        }
    }
}

} // verus!
