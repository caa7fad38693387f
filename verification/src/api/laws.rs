//! What holds of responses and of what requests ask for.

use vstd::prelude::*;

use crate::api;
use crate::text;
use crate::text::laws;
use crate::{SegmentText, TimestampGranularity};

verus! {

// ---------------------------------------------------------------------------
// Captions
// ---------------------------------------------------------------------------

proof fn lemma_zeros(k: nat)
    ensures
        text::number(Seq::new(k, |i: int| '0')) == 0,
    decreases k,
{
    let zeros = Seq::new(k, |i: int| '0');
    if k > 0 {
        lemma_zeros((k - 1) as nat);
        assert(zeros.drop_last() =~= Seq::new((k - 1) as nat, |i: int| '0'));
        assert(zeros.last() == '0');
    }
}

/// Zeros in front do not change a number, and fill it up to its width.
pub proof fn law_padding_keeps_the_number(n: nat, width: nat)
    ensures
        text::number(api::zero_padded(n, width)) == n,
        api::zero_padded(n, width).len() >= width,
        forall|i: int|
            0 <= i < api::zero_padded(n, width).len() ==> '0' <= #[trigger] api::zero_padded(
                n,
                width,
            )[i] <= '9',
        api::zero_padded(n, width).len() > width && width > 0 ==> api::zero_padded(n, width)[0]
            != '0',
{
    laws::law_decimal_notation(n);
    let digits = text::decimal(n);
    if digits.len() < width {
        let k = (width - digits.len()) as nat;
        let zeros = Seq::new(k, |i: int| '0');
        assert(forall|i: int| 0 <= i < zeros.len() ==> '0' <= #[trigger] zeros[i] <= '9');
        lemma_zeros(k);
        laws::law_digits_count_tens(zeros, digits, '0');
        assert(0 * vstd::arithmetic::power::pow(10, digits.len()) == 0);
    }
}

proof fn lemma_short(n: nat)
    ensures
        n < 100 ==> api::zero_padded(n, 2).len() == 2,
        n < 1000 ==> api::zero_padded(n, 3).len() == 3,
{
    reveal_with_fuel(text::decimal, 4);
}

/// A caption time can be read back: it ends with three digits of milliseconds,
/// before them stand the separator, two digits of seconds, a colon, two digits
/// of minutes, a colon, and at least two digits of hours. Together they are the
/// time, and no field exceeds what it counts up to.
pub proof fn law_caption_times_add_up(millis: nat, separator: char)
    ensures
        ({
            let t = api::timestamp(millis, separator);
            let n = t.len() as int;
            let hours = text::number(t.take(n - 10));
            let minutes = text::number(t.subrange(n - 9, n - 7));
            let seconds = text::number(t.subrange(n - 6, n - 4));
            let thousandths = text::number(t.skip(n - 3));
            &&& n >= 12
            &&& t[n - 10] == ':' && t[n - 7] == ':' && t[n - 4] == separator
            &&& hours * 3_600_000 + minutes * 60_000 + seconds * 1000 + thousandths == millis
            &&& minutes < 60 && seconds < 60 && thousandths < 1000
            &&& forall|i: int|
                0 <= i < n && i != n - 10 && i != n - 7 && i != n - 4 ==> '0' <= #[trigger] t[i]
                    <= '9'
        }),
{
    let h = api::zero_padded(millis / 3_600_000, 2);
    let m = api::zero_padded(millis % 3_600_000 / 60_000, 2);
    let s = api::zero_padded(millis % 60_000 / 1000, 2);
    let f = api::zero_padded(millis % 1000, 3);
    law_padding_keeps_the_number(millis / 3_600_000, 2);
    law_padding_keeps_the_number(millis % 3_600_000 / 60_000, 2);
    law_padding_keeps_the_number(millis % 60_000 / 1000, 2);
    law_padding_keeps_the_number(millis % 1000, 3);
    lemma_short(millis % 3_600_000 / 60_000);
    lemma_short(millis % 60_000 / 1000);
    lemma_short(millis % 1000);
    reveal_strlit(":");
    let t = api::timestamp(millis, separator);
    let n = t.len() as int;
    assert(n == h.len() + 10);
    assert(t.take(n - 10) =~= h);
    assert(t.subrange(n - 9, n - 7) =~= m);
    assert(t.subrange(n - 6, n - 4) =~= s);
    assert(t.skip(n - 3) =~= f);
    assert forall|i: int|
        0 <= i < n && i != n - 10 && i != n - 7 && i != n - 4 implies '0' <= #[trigger] t[i]
        <= '9' by {
        if i < n - 10 {
            assert(t[i] == h[i]);
        } else if i < n - 7 {
            assert(t[i] == m[i - (n - 9)]);
        } else if i < n - 4 {
            assert(t[i] == s[i - (n - 6)]);
        } else {
            assert(t[i] == f[i - (n - 3)]);
        }
    }
}

/// Different times are shown differently.
pub proof fn law_caption_times_differ(a: nat, b: nat, separator: char)
    requires
        api::timestamp(a, separator) == api::timestamp(b, separator),
    ensures
        a == b,
{
    law_caption_times_add_up(a, separator);
    law_caption_times_add_up(b, separator);
}

/// A SubRip file is numbered from one: a further caption follows after an empty
/// line, with its number, its times with commas and its trimmed text on lines of
/// their own, and the captions before it stay as they are.
pub proof fn law_subrip_grows_by_captions(
    before: Seq<SegmentText<u64>>,
    s: SegmentText<u64>,
)
    ensures
        api::srt_text(seq![]) == ""@,
        api::srt_text(before.push(s)) == api::srt_text(before) + (if before.len() > 0 {
            "\n"@
        } else {
            ""@
        }) + text::decimal(before.len() + 1) + "\n"@ + api::timestamp(s.start as nat, ',')
            + " --> "@ + api::timestamp(s.end as nat, ',') + "\n"@ + text::trimmed(s.text) + "\n"@,
{
    reveal_strlit("");
    let none = Seq::<SegmentText<u64>>::empty();
    assert(Seq::new(none.len(), |i: int| api::srt_caption((i + 1) as nat, none[i])) =~= Seq::<
        Seq<char>,
    >::empty());
    assert(api::srt_text(none) =~= ""@);
    let all = before.push(s);
    let a = Seq::new(all.len(), |i: int| api::srt_caption((i + 1) as nat, all[i]));
    let b = Seq::new(before.len(), |i: int| api::srt_caption((i + 1) as nat, before[i]));
    assert(a.drop_last() =~= b);
    assert(a.last() == api::srt_caption((before.len() + 1) as nat, s));
    if before.len() == 0 {
        assert(a =~= seq![a.last()]);
        assert(b =~= Seq::<Seq<char>>::empty());
        assert(api::srt_text(before) =~= ""@);
    }
    assert(api::srt_text(all) =~= api::srt_text(before) + (if before.len() > 0 {
        "\n"@
    } else {
        ""@
    }) + text::decimal(before.len() + 1) + "\n"@ + api::timestamp(s.start as nat, ',') + " --> "@
        + api::timestamp(s.end as nat, ',') + "\n"@ + text::trimmed(s.text) + "\n"@);
}

/// A WebVTT file begins with its name and an empty line, has an empty line
/// between cues and ends its last line: a further cue follows after that, with
/// its times with points and its trimmed text on lines of their own.
pub proof fn law_webvtt_grows_by_cues(before: Seq<SegmentText<u64>>, s: SegmentText<u64>)
    ensures
        api::vtt_text(seq![]) == "WEBVTT\n\n\n"@,
        before.len() == 0 ==> api::vtt_text(before.push(s)) == "WEBVTT\n\n"@ + api::timestamp(
            s.start as nat,
            '.',
        ) + " --> "@ + api::timestamp(s.end as nat, '.') + "\n"@ + text::trimmed(s.text) + "\n"@,
        before.len() > 0 ==> api::vtt_text(before.push(s)) == api::vtt_text(before) + "\n"@
            + api::timestamp(s.start as nat, '.') + " --> "@ + api::timestamp(s.end as nat, '.')
            + "\n"@ + text::trimmed(s.text) + "\n"@,
{
    reveal_strlit("\n");
    reveal_strlit("\n\n");
    reveal_strlit("WEBVTT\n\n");
    reveal_strlit("WEBVTT\n\n\n");
    assert("\n\n"@ =~= "\n"@ + "\n"@);
    let none = Seq::<SegmentText<u64>>::empty();
    assert(Seq::new(none.len(), |i: int| api::vtt_cue(none[i])) =~= Seq::<Seq<char>>::empty());
    assert(api::vtt_text(none) =~= "WEBVTT\n\n\n"@);
    let all = before.push(s);
    let a = Seq::new(all.len(), |i: int| api::vtt_cue(all[i]));
    let b = Seq::new(before.len(), |i: int| api::vtt_cue(before[i]));
    assert(a.drop_last() =~= b);
    assert(a.last() == api::vtt_cue(s));
    let head = "WEBVTT\n\n"@;
    let start = api::timestamp(s.start as nat, '.');
    let end = api::timestamp(s.end as nat, '.');
    let words = text::trimmed(s.text);
    let cue = api::vtt_cue(s);
    if before.len() == 0 {
        assert(a =~= seq![cue]);
        lemma_regroup(head, start, " --> "@, end, "\n"@, words);
    } else {
        let body = text::joined(b, "\n\n"@);
        assert(text::joined(a, "\n\n"@) == body + "\n\n"@ + cue);
        lemma_next_cue(head, body, "\n"@, cue);
        lemma_regroup(api::vtt_text(before) + "\n"@, start, " --> "@, end, "\n"@, words);
    }
}

proof fn lemma_next_cue(head: Seq<char>, body: Seq<char>, line: Seq<char>, cue: Seq<char>)
    ensures
        head + (body + (line + line) + cue) + line == (head + body + line) + line + cue + line,
{
    assert(head + (body + (line + line) + cue) + line =~= (head + body + line) + line + cue + line);
}

proof fn lemma_regroup(
    x: Seq<char>,
    a: Seq<char>,
    b: Seq<char>,
    c: Seq<char>,
    d: Seq<char>,
    e: Seq<char>,
)
    ensures
        x + (a + b + c + d + e) == x + a + b + c + d + e,
{
    assert(x + (a + b + c + d + e) =~= x + a + b + c + d + e);
}

/// Captions are the segments of a transcription. One without segments has a
/// single caption with its whole text, or none where it has no text either.
pub proof fn law_captions_are_segments<T>(
    segments: Option<Seq<SegmentText<T>>>,
    full: Seq<char>,
    zero: T,
    whole: T,
)
    ensures
        segments is Some && segments->0.len() > 0 ==> api::captions(segments, full, zero, whole)
            == segments->0,
        (segments is None || segments->0.len() == 0) && full.len() > 0 ==> {
            let c = api::captions(segments, full, zero, whole);
            c.len() == 1 && c[0].start == zero && c[0].end == whole && c[0].text == full
        },
        (segments is None || segments->0.len() == 0) && full.len() == 0 ==> api::captions(
            segments,
            full,
            zero,
            whole,
        ).len() == 0,
{
}

/// The words of a segment are all of its text but the white space, in order.
/// Each starts at its time, ends when the next one starts, and the last ends
/// with the segment.
pub proof fn law_segment_words_follow_each_other<T>(s: SegmentText<T>, times: Seq<T>)
    requires
        times.len() == text::words(s.text).len(),
    ensures
        api::timed_words(s, times).len() == times.len(),
        laws::run_together(Seq::new(times.len(), |i: int| api::timed_words(s, times)[i].text))
            == s.text.filter(|c: char| !text::white_space(c)),
        forall|i: int|
            0 <= i < times.len() ==> (#[trigger] api::timed_words(s, times)[i]).start == times[i],
        forall|i: int, j: int|
            0 <= i && j == i + 1 && j < times.len() ==> (#[trigger] api::timed_words(
                s,
                times,
            )[i]).end == (#[trigger] api::timed_words(s, times)[j]).start,
        times.len() > 0 ==> api::timed_words(s, times).last().end == s.end,
{
    laws::law_words_are_all_but_white_space(s.text);
    assert(Seq::new(times.len(), |i: int| api::timed_words(s, times)[i].text) =~= text::words(
        s.text,
    ));
}

/// The words of a response are those that the engine aligned, where there are
/// any. Otherwise every caption gives its own, in order.
pub proof fn law_response_words<T>(
    aligned: Option<Seq<SegmentText<T>>>,
    captions: Seq<SegmentText<T>>,
    last: SegmentText<T>,
    times: Seq<Vec<T>>,
)
    ensures
        aligned is Some && aligned->0.len() > 0 ==> api::response_words(aligned, captions, times)
            == aligned->0,
        aligned is None || aligned->0.len() == 0 ==> {
            &&& api::response_words(aligned, seq![], times).len() == 0
            &&& api::response_words(aligned, captions.push(last), times) == api::response_words(
                aligned,
                captions,
                times,
            ) + api::timed_words(last, times[captions.len() as int]@)
        },
{
    assert(captions.push(last).drop_last() =~= captions);
}

// ---------------------------------------------------------------------------
// What requests ask for
// ---------------------------------------------------------------------------

proof fn lemma_real_pieces_concat(a: Seq<Seq<char>>, b: Seq<Seq<char>>)
    ensures
        api::real_pieces(a + b) == api::real_pieces(a) + api::real_pieces(b),
    decreases b.len(),
{
    if b.len() == 0 {
        assert(a + b =~= a);
        assert(api::real_pieces(a) + api::real_pieces(b) =~= api::real_pieces(a));
    } else {
        assert((a + b).drop_last() =~= a + b.drop_last());
        lemma_real_pieces_concat(a, b.drop_last());
        assert(api::real_pieces(a + b) =~= api::real_pieces(a) + api::real_pieces(b));
    }
}

/// A comma separates the values of a field: what stands before it and what
/// stands after it give their values, in order. Without a comma a field has one
/// value, its trimmed text, or none where it is blank.
pub proof fn law_commas_separate_values(a: Seq<char>, b: Seq<char>)
    ensures
        api::field_values(a.push(',') + b) == api::field_values(a) + api::field_values(b),
        !a.contains(',') ==> api::field_values(a) == (if text::trimmed(a).len() == 0 {
            Seq::empty()
        } else {
            seq![text::trimmed(a)]
        }),
{
    text::lemma_split_concat(a, b, ',');
    lemma_real_pieces_concat(text::split_on(a, ','), text::split_on(b, ','));
    if !a.contains(',') {
        assert forall|i: int| 0 <= i < a.len() implies #[trigger] a[i] != ',' by {
            assert(a.contains(a[i]));
        }
        text::lemma_split_none(a, ',');
        let one = seq![a];
        assert(one.drop_last() =~= Seq::<Seq<char>>::empty());
        assert(api::real_pieces(one.drop_last()) == Seq::<Seq<char>>::empty());
        assert(api::field_values(a) =~= (if text::trimmed(a).len() == 0 {
            Seq::empty()
        } else {
            seq![text::trimmed(a)]
        }));
    }
}

/// The granularities that a list names are those whose names it holds, each
/// once. A list with another name is refused, for the first such name.
pub proof fn law_named_granularities(names: Seq<Seq<char>>)
    ensures
        match api::granularities_named(names) {
            Ok(v) => {
                &&& forall|i: int|
                    0 <= i < names.len() ==> (#[trigger] names[i]) == "segment"@ || names[i]
                        == "word"@
                &&& v.contains(TimestampGranularity::Segment) <==> names.contains("segment"@)
                &&& v.contains(TimestampGranularity::Word) <==> names.contains("word"@)
                &&& v.no_duplicates()
            },
            Err(name) => exists|i: int|
                0 <= i < names.len() && name == names[i] && names[i] != "segment"@ && names[i]
                    != "word"@ && forall|j: int|
                    0 <= j < i ==> (#[trigger] names[j]) == "segment"@ || names[j] == "word"@,
        },
    decreases names.len(),
{
    reveal_strlit("segment");
    reveal_strlit("word");
    assert("segment"@.len() != "word"@.len());
    if names.len() > 0 {
        let init = names.drop_last();
        law_named_granularities(init);
        assert(names[names.len() - 1] == names.last());
        match api::granularities_named(init) {
            Ok(before) => {
                assert(forall|x: Seq<char>|
                    names.contains(x) <==> init.contains(x) || x == names.last()) by {
                    assert(names =~= init.push(names.last()));
                    assert forall|x: Seq<char>| names.contains(x) <==> init.contains(x) || x
                        == names.last() by {
                        if init.contains(x) {
                            let i = choose|i: int| 0 <= i < init.len() && init[i] == x;
                            assert(names[i] == x);
                        }
                    }
                }
                assert forall|i: int| 0 <= i < init.len() implies (#[trigger] names[i])
                    == "segment"@ || names[i] == "word"@ by {
                    assert(init[i] == names[i]);
                }
                let segment = TimestampGranularity::Segment;
                let word = TimestampGranularity::Word;
                assert(before.push(segment).contains(segment)) by {
                    assert(before.push(segment)[before.len() as int] == segment);
                }
                assert(before.push(word).contains(word)) by {
                    assert(before.push(word)[before.len() as int] == word);
                }
                lemma_push_contains(before, segment, word);
                lemma_push_contains(before, word, segment);
            },
            Err(name) => {
                let i = choose|i: int|
                    0 <= i < init.len() && name == init[i] && init[i] != "segment"@ && init[i]
                        != "word"@ && forall|j: int|
                        0 <= j < i ==> (#[trigger] init[j]) == "segment"@ || init[j] == "word"@;
                assert(names[i] == name);
                assert forall|j: int| 0 <= j < i implies (#[trigger] names[j]) == "segment"@
                    || names[j] == "word"@ by {
                    assert(init[j] == names[j]);
                }
            },
        }
    }
}

proof fn lemma_push_contains<A>(v: Seq<A>, a: A, b: A)
    requires
        a != b,
    ensures
        v.push(a).contains(b) <==> v.contains(b),
{
    if v.contains(b) {
        let i = choose|i: int| 0 <= i < v.len() && v[i] == b;
        assert(v.push(a)[i] == b);
    }
}

/// The finest of several granularities is one of them, and a segment only
/// where no word is asked for.
pub proof fn law_words_are_finer(values: Seq<TimestampGranularity>)
    ensures
        api::finest(values) is None <==> values.len() == 0,
        api::finest(values) matches Some(g) ==> values.contains(g),
        values.contains(TimestampGranularity::Word) ==> api::finest(values) == Some(
            TimestampGranularity::Word,
        ),
{
    if values.len() > 0 {
        assert(values.contains(values[0]));
    }
}

/// A text says yes where it is `true`, `1`, `yes` or `on`, white space aside.
pub proof fn law_what_says_yes(value: Seq<char>)
    ensures
        api::says_yes(value) <==> text::trimmed(value) == "true"@ || text::trimmed(value) == "1"@
            || text::trimmed(value) == "yes"@ || text::trimmed(value) == "on"@,
{
}

/// Formats are known by their names and by no others.
pub proof fn law_formats_by_name(name: Seq<char>)
    ensures
        ({
            let f = api::format_named(name);
            &&& f == Some(api::ResponseFormat::Json) ==> name == "json"@
            &&& f == Some(api::ResponseFormat::Text) ==> name == "text"@
            &&& f == Some(api::ResponseFormat::VerboseJson) ==> name == "verbose_json"@
            &&& f == Some(api::ResponseFormat::Srt) ==> name == "srt"@
            &&& f == Some(api::ResponseFormat::Vtt) ==> name == "vtt"@
            &&& f is None <==> name != "json"@ && name != "text"@ && name != "verbose_json"@ && name
                != "srt"@ && name != "vtt"@
        }),
{
}

/// The fields of a form are known by their names, some by several; others are
/// not read.
pub proof fn law_fields_by_name(name: Seq<char>)
    ensures
        ({
            let k = api::field_named(name);
            &&& k == api::FieldKind::File ==> name == "file"@ || name == "audio"@
            &&& k == api::FieldKind::Model ==> name == "model"@
            &&& k == api::FieldKind::Language ==> name == "language"@
            &&& k == api::FieldKind::Prompt ==> name == "prompt"@
            &&& k == api::FieldKind::ResponseFormat ==> name == "response_format"@
            &&& k == api::FieldKind::Dictionary ==> name == "dictionary"@ || name
                == "dictionary[]"@ || name == "glimpse_dictionary"@
            &&& k == api::FieldKind::Granularities ==> name == "timestamp_granularities"@ || name
                == "timestamp_granularities[]"@
            &&& k == api::FieldKind::Timestamps ==> name == "timestamps"@
            &&& k == api::FieldKind::Stream ==> name == "stream"@
            &&& k == api::FieldKind::Temperature ==> name == "temperature"@
            &&& k == api::FieldKind::Other ==> name != "file"@ && name != "audio"@ && name
                != "model"@ && name != "language"@ && name != "prompt"@ && name
                != "response_format"@ && name != "dictionary"@ && name != "dictionary[]"@ && name
                != "glimpse_dictionary"@ && name != "timestamp_granularities"@ && name
                != "timestamp_granularities[]"@ && name != "timestamps"@ && name != "stream"@
                && name != "temperature"@
        }),
{
}

/// A field changes what it names and nothing else: the last model and the last
/// format count, the last language and the last prompt that are not blank, and
/// lists grow.
pub proof fn law_fields_change_what_they_name(
    form: api::FormText,
    kind: api::FieldKind,
    value: Seq<char>,
)
    ensures
        ({
            let after = api::form_after(form, kind, value);
            let given = text::trimmed(value).len() > 0;
            &&& after.model == (if kind == api::FieldKind::Model {
                Some(value)
            } else {
                form.model
            })
            &&& after.response_format == (if kind == api::FieldKind::ResponseFormat {
                Some(value)
            } else {
                form.response_format
            })
            &&& after.language == (if kind == api::FieldKind::Language && given {
                Some(value)
            } else {
                form.language
            })
            &&& after.prompt == (if kind == api::FieldKind::Prompt && given {
                Some(value)
            } else {
                form.prompt
            })
            &&& after.dictionary == (if kind == api::FieldKind::Dictionary {
                form.dictionary + api::field_values(value)
            } else {
                form.dictionary
            })
            &&& after.timestamp_granularities == (if kind == api::FieldKind::Granularities {
                form.timestamp_granularities + api::field_values(value)
            } else {
                form.timestamp_granularities
            })
            &&& after.timestamps == (if kind == api::FieldKind::Timestamps {
                api::says_yes(value)
            } else {
                form.timestamps
            })
            &&& after.stream == (if kind == api::FieldKind::Stream {
                api::says_yes(value)
            } else {
                form.stream
            })
        }),
{
}

/// What a form holds is what its fields hold.
pub proof fn law_forms_hold_their_fields(f: api::UploadForm)
    ensures
        f@.model == text::opt_text(f.model) && f@.language == text::opt_text(f.language)
            && f@.prompt == text::opt_text(f.prompt) && f@.response_format == text::opt_text(
            f.response_format,
        ),
        f@.dictionary == text::texts(f.dictionary@),
        f@.timestamp_granularities == text::texts(f.timestamp_granularities@),
        f@.timestamps == f.timestamps && f@.stream == f.stream,
{
}

/// A request is refused for streaming, for a model that is not known, for a
/// format or a granularity that does not exist, and for granularities in another
/// format than verbose JSON; in this order, and for nothing else.
pub proof fn law_refused_requests<S>(parts: api::TranscriptionRequestParts<S>, model_known: bool)
    ensures
        ({
            let e = api::request_error(parts, model_known);
            let format = if parts.response_format is Some {
                parts.response_format->0@
            } else {
                "json"@
            };
            let asked = api::granularities_named(
                api::all_field_values(text::texts(parts.timestamp_granularities@)),
            );
            let served = !parts.stream && model_known;
            &&& parts.stream ==> e == Some(
                "Streaming transcription responses are not supported"@,
            )
            &&& !parts.stream && !model_known ==> e == Some("Unknown model: "@ + parts.model@)
            &&& served && api::format_named(format) is None ==> e == Some(
                "Unsupported response_format `"@ + format + "`"@,
            )
            &&& served && api::format_named(format) is Some && asked is Err ==> e == Some(
                "Unsupported timestamp granularity `"@ + asked->Err_0 + "`"@,
            )
            &&& served && api::format_named(format) is Some && asked is Ok && asked->Ok_0.len() > 0
                && api::format_named(format) != Some(api::ResponseFormat::VerboseJson) ==> e == Some(
                "`timestamp_granularities` requires response_format `verbose_json`"@,
            )
            &&& e is None <==> served && api::format_named(format) is Some && asked is Ok && (
            asked->Ok_0.len() == 0 || api::format_named(format) == Some(
                api::ResponseFormat::VerboseJson,
            ))
        }),
{
}

/// A request that is served asks for what its parts ask for.
pub proof fn law_served_requests<S>(
    parsed: api::ParsedTranscriptionRequest<S>,
    parts: api::TranscriptionRequestParts<S>,
)
    requires
        api::is_request_of(parsed, parts),
        api::asked_granularities(parts) is Ok,
    ensures
        parsed.request.audio == parts.audio && parsed.request.model_id == parts.model
            && parsed.request.language == parts.language && parsed.request.prompt == parts.prompt
            && parsed.request.dictionary == parts.dictionary && parsed.uploaded_file
            == parts.uploaded_file,
        parsed.request.timestamps <==> parts.timestamps || parsed.timestamp_granularities@.len() > 0,
        parsed.timestamp_granularities@.contains(TimestampGranularity::Word) <==>
            parsed.request.timestamp_granularity == Some(TimestampGranularity::Word),
        parsed.request.timestamp_granularity is None <==> parsed.timestamp_granularities@.len()
            == 0,
{
    law_words_are_finer(parsed.timestamp_granularities@);
}

/// The values of several fields are those of each, in order.
pub proof fn law_values_of_several_fields(values: Seq<Seq<char>>, last: Seq<char>)
    ensures
        api::all_field_values(Seq::<Seq<char>>::empty()).len() == 0,
        api::all_field_values(values.push(last)) == api::all_field_values(values)
            + api::field_values(last),
{
    assert(values.push(last).drop_last() =~= values);
}

/// An error body says its message and its type; a refused request has status
/// 400.
pub proof fn law_error_bodies(e: api::ApiFailure, message: Seq<char>)
    ensures
        api::is_bad_request(e, message) <==> e.status == 400 && e.body.error.message@ == message
            && e.body.error.error_type@ == "invalid_request_error"@ && e.body.error.param is None
            && e.body.error.code is None,
{
}

/// Verbose segments are the captions, numbered from zero, and verbose words hold
/// what their fields hold.
pub proof fn law_verbose_segments<T>(
    v: Seq<api::VerboseSegment<T>>,
    from: Seq<SegmentText<T>>,
    w: Seq<api::VerboseWord<T>>,
    i: int,
)
    ensures
        api::segments_are(v, from) && 0 <= i < v.len() ==> v.len() == from.len() && v[i].id == i
            && v[i].start == from[i].start && v[i].end == from[i].end && v[i].text@ == from[i].text,
        api::word_texts(w).len() == w.len(),
        0 <= i < w.len() ==> api::word_texts(w)[i].start == w[i].start && api::word_texts(w)[i].end
            == w[i].end && api::word_texts(w)[i].text == w[i].word@,
{
}

/// A caller is let in where the expected key, as it is, stands after `Bearer` in
/// one header or alone in the other, white space around it aside, and where no
/// key is expected.
pub proof fn law_who_is_let_in(
    expected: Option<Seq<char>>,
    authorization: Option<Seq<char>>,
    x_api_key: Option<Seq<char>>,
)
    ensures
        api::authorized(expected, authorization, x_api_key) <==> {
            ||| expected is None
            ||| x_api_key is Some && text::trimmed(x_api_key->0) == expected->0
            ||| authorization is Some && authorization->0.len() >= 7 && authorization->0.take(7)
                == seq!['B', 'e', 'a', 'r', 'e', 'r', ' '] && text::trimmed(
                authorization->0.skip(7),
            ) == expected->0
        },
{
    reveal_strlit("Bearer ");
    assert("Bearer "@ =~= seq!['B', 'e', 'a', 'r', 'e', 'r', ' ']);
    if authorization is Some && authorization->0.len() >= 7 {
        assert(authorization->0.subrange(0, 7) =~= authorization->0.take(7));
    }
}

/// Formats are called by their names.
pub proof fn law_names_of_response_formats(f: api::ResponseFormat)
    ensures
        f == api::ResponseFormat::Json ==> f.name() == "json"@,
        f == api::ResponseFormat::Text ==> f.name() == "text"@,
        f == api::ResponseFormat::VerboseJson ==> f.name() == "verbose_json"@,
        f == api::ResponseFormat::Srt ==> f.name() == "srt"@,
        f == api::ResponseFormat::Vtt ==> f.name() == "vtt"@,
{
}

} // verus!
