//! What holds of endpoints and of the requests that are made of them.

use vstd::prelude::*;

use crate::dictionary;
use crate::dictionary::MAX_DICTIONARY_ENTRIES;
use crate::remote::provider;
use crate::remote::provider::{
    AuthScheme, Diarization, DictionaryMode, EndpointProfile, KeyTermRules, TimestampMode,
    TranscriptionFormParams,
};
use crate::remote::ResponseFormat;
use crate::text;
use crate::TimestampGranularity;

verus! {

// ---------------------------------------------------------------------------
// Hosts
// ---------------------------------------------------------------------------

/// A host belongs to a domain where it is the domain, or a name and a dot stand
/// before it. A host that merely ends with the same letters does not.
pub proof fn law_hosts_of_a_domain(name: Seq<char>, domain: Seq<char>, c: char)
    ensures
        provider::host_under(domain, domain),
        provider::host_under(name.push('.') + domain, domain),
        c != '.' && domain.len() > 0 && (name.push(c) + domain) != domain
            ==> !provider::host_under(name.push(c) + domain, domain),
        provider::host_under(name, domain) && name != domain ==> name.len() > domain.len()
            && name.skip(name.len() - domain.len()) == domain && name[name.len() - domain.len()
            - 1] == '.',
{
    let n = domain.len() as int;
    let under = name.push('.') + domain;
    assert(under.subrange(under.len() - n, under.len() as int) =~= domain);
    assert(under[under.len() - n - 1] == '.');
    let other = name.push(c) + domain;
    assert(other[other.len() - n - 1] == c);
    if provider::host_under(name, domain) && name != domain {
        assert(name.subrange(name.len() - n, name.len() as int) =~= name.skip(name.len() - n));
    }
}

/// Speakers are told apart by Mistral and Deepgram on segments, by xAI, Fireworks
/// and ElevenLabs on words, by OpenAI for models that say so in their names, and
/// by no one else.
pub proof fn law_who_tells_speakers_apart(host: Option<Seq<char>>, p: EndpointProfile, model: Seq<char>)
    requires
        provider::is_profile_of(host, p),
    ensures
        p.diarization == provider::diarization_of(host),
        p.diarization == Diarization::Unsupported ==> !provider::diarizes(p.diarization, model),
        p.diarization == Diarization::SegmentSpeakers || p.diarization == Diarization::WordSpeakers
            ==> provider::diarizes(p.diarization, model),
        p.diarization == Diarization::DiarizedJson ==> (provider::diarizes(p.diarization, model)
            <==> text::contains_text(text::ascii_lower(model), "diarize"@)),
        host is None ==> p.diarization == Diarization::Unsupported,
        host is Some && p.diarization != Diarization::Unsupported ==> {
            let h = host->0;
            ||| provider::host_under(h, "mistral.ai"@) && p.diarization
                == Diarization::SegmentSpeakers
            ||| provider::host_under(h, "deepgram.com"@) && p.diarization
                == Diarization::SegmentSpeakers
            ||| provider::host_under(h, "x.ai"@) && p.diarization == Diarization::WordSpeakers
            ||| provider::host_under(h, "fireworks.ai"@) && p.diarization
                == Diarization::WordSpeakers
            ||| provider::host_under(h, "elevenlabs.io"@) && p.diarization
                == Diarization::WordSpeakers
            ||| provider::host_under(h, "openai.com"@) && p.diarization
                == Diarization::DiarizedJson
        },
{
}

/// Requests go to the path of the endpoint, with the key in the header that it
/// reads, the recording in the form that it takes, and the fields by the names
/// that it knows.
pub proof fn law_where_requests_go(h: Seq<char>, p: EndpointProfile)
    requires
        provider::is_profile_of(Some(h), p),
    ensures
        ({
            let mistral = provider::host_under(h, "mistral.ai"@);
            let openrouter = provider::host_under(h, "openrouter.ai"@) && !mistral;
            let xai = provider::host_under(h, "x.ai"@) && !mistral && !openrouter;
            let plain = provider::host_under(h, "openai.com"@) || provider::host_under(
                h,
                "fireworks.ai"@,
            );
            let elevenlabs = provider::host_under(h, "elevenlabs.io"@) && !mistral && !openrouter
                && !xai && !plain;
            let deepgram = provider::host_under(h, "deepgram.com"@) && !mistral && !openrouter
                && !xai && !plain && !elevenlabs;
            &&& xai ==> p.transcriptions_path@ == "/stt"@
            &&& elevenlabs ==> p.transcriptions_path@ == "/speech-to-text"@
            &&& deepgram ==> p.transcriptions_path@ == "/listen"@
            &&& !xai && !elevenlabs && !deepgram ==> p.transcriptions_path@
                == "/audio/transcriptions"@
            &&& p.auth == AuthScheme::XiApiKey <==> elevenlabs
            &&& p.auth == AuthScheme::Token <==> deepgram
            &&& p.audio_request is RawBody <==> deepgram
            &&& p.audio_request is Base64Json <==> openrouter
            &&& elevenlabs ==> p.model_field@ == "model_id"@ && p.language_field@
                == "language_code"@
            &&& !elevenlabs ==> p.model_field@ == "model"@ && p.language_field@ == "language"@
            &&& p.dictionary_mode is ContextBias <==> mistral
            &&& p.dictionary_mode is KeyTerms <==> xai || elevenlabs || deepgram
        }),
{
}

/// A key travels as a bearer token, as a Deepgram token or in the header of
/// ElevenLabs; without a key nothing travels.
pub proof fn law_keys_travel_in_headers(scheme: AuthScheme, key: Seq<char>)
    ensures
        provider::auth_field(scheme, key) is None <==> key.len() == 0,
        key.len() > 0 && scheme == AuthScheme::Bearer ==> provider::auth_field(scheme, key) == Some(
            ("Authorization"@, "Bearer "@ + key),
        ),
        key.len() > 0 && scheme == AuthScheme::Token ==> provider::auth_field(scheme, key) == Some(
            ("Authorization"@, "Token "@ + key),
        ),
        key.len() > 0 && scheme == AuthScheme::XiApiKey ==> provider::auth_field(scheme, key)
            == Some(("xi-api-key"@, key)),
{
}

// ---------------------------------------------------------------------------
// Plans
// ---------------------------------------------------------------------------

/// Times are asked for where the caller wants them and the endpoint has them:
/// of words only where the caller wants words and the endpoint knows them.
/// Verbose JSON is asked for where that is how the endpoint tells times.
pub proof fn law_times_are_asked_for(
    p: EndpointProfile,
    granularity: Option<TimestampGranularity>,
)
    ensures
        ({
            let asked = provider::planned_granularities(p, true, granularity, false);
            let format = provider::planned_format(p, true, granularity, false);
            &&& p.timestamp_mode == TimestampMode::Unsupported ==> asked.len() == 0 && format
                == ResponseFormat::Json
            &&& p.timestamp_mode != TimestampMode::Unsupported ==> asked == (if granularity == Some(
                TimestampGranularity::Word,
            ) && p.supports_word_timestamps {
                seq!["segment"@, "word"@]
            } else {
                seq!["segment"@]
            })
            &&& p.timestamp_mode == TimestampMode::OpenAiVerboseJson && p.sends_response_format
                ==> format == ResponseFormat::VerboseJson
            &&& p.timestamp_mode != TimestampMode::OpenAiVerboseJson || !p.sends_response_format
                ==> format == ResponseFormat::Json
        }),
{
}

/// Speakers on segments need the times of segments, speakers on words those of
/// words, and the diarized format of OpenAI brings its own.
pub proof fn law_speakers_need_times(
    p: EndpointProfile,
    wants_timestamps: bool,
    granularity: Option<TimestampGranularity>,
)
    ensures
        p.diarization == Diarization::WordSpeakers ==> provider::planned_granularities(
            p,
            wants_timestamps,
            granularity,
            true,
        ) == provider::planned_granularities(p, true, Some(TimestampGranularity::Word), false),
        p.diarization == Diarization::SegmentSpeakers ==> provider::planned_granularities(
            p,
            wants_timestamps,
            granularity,
            true,
        ) == provider::planned_granularities(
            p,
            true,
            if granularity is Some {
                granularity
            } else {
                Some(TimestampGranularity::Segment)
            },
            false,
        ),
        p.diarization == Diarization::DiarizedJson ==> provider::planned_granularities(
            p,
            wants_timestamps,
            granularity,
            true,
        ).len() == 0,
        p.diarization == Diarization::Unsupported ==> provider::planned_granularities(
            p,
            wants_timestamps,
            granularity,
            true,
        ) == provider::planned_granularities(p, wants_timestamps, granularity, false),
{
}

// ---------------------------------------------------------------------------
// Terms
// ---------------------------------------------------------------------------

/// Key terms are kept in order, each that is short enough, has few enough words
/// and holds no rejected character, up to the first that would exceed the limit
/// on all of them; a term after that is not sent.
pub proof fn law_key_terms_are_kept_in_order(rules: KeyTermRules, terms: Seq<Seq<char>>) -> (from: Seq<int>)
    ensures
        from.len() == provider::kept_terms(rules, terms).0.len(),
        forall|k: int|
            0 <= k < from.len() ==> {
                &&& 0 <= #[trigger] from[k] < terms.len()
                &&& provider::kept_terms(rules, terms).0[k] == terms[from[k]]
                &&& terms[from[k]].len() <= rules.max_chars
                &&& text::words(terms[from[k]]).len() <= rules.max_words
                &&& forall|i: int|
                    0 <= i < terms[from[k]].len() ==> !rules.rejected_chars@.contains(
                        #[trigger] terms[from[k]][i],
                    )
            },
        forall|k: int, l: int| 0 <= k < l < from.len() ==> #[trigger] from[k] < #[trigger] from[l],
        !provider::kept_terms(rules, terms).1 ==> forall|i: int|
            0 <= i < terms.len() && provider::term_allowed(rules, #[trigger] terms[i])
                ==> from.contains(i),
        provider::kept_terms(rules, terms).1 ==> exists|i: int|
            #![trigger terms[i]]
            0 <= i < terms.len() && !from.contains(i) && provider::term_allowed(rules, terms[i])
                && provider::total_chars(provider::kept_terms(rules, terms).0) + terms[i].len()
                > rules.max_total_chars && forall|j: int|
                0 <= j < i && provider::term_allowed(rules, #[trigger] terms[j])
                    ==> from.contains(j),
    decreases terms.len(),
{
    if terms.len() == 0 {
        seq![]
    } else {
        let init = terms.drop_last();
        let m = init.len() as int;
        let before = law_key_terms_are_kept_in_order(rules, init);
        let (kept, full) = provider::kept_terms(rules, init);
        let last = terms.last();
        if full {
            let i = choose|i: int|
                #![trigger init[i]]
                0 <= i < init.len() && !before.contains(i) && provider::term_allowed(rules, init[i])
                    && provider::total_chars(kept) + init[i].len() > rules.max_total_chars
                    && forall|j: int|
                    0 <= j < i && provider::term_allowed(rules, #[trigger] init[j])
                        ==> before.contains(j);
            assert(terms[i] == init[i]);
            assert forall|j: int|
                0 <= j < i && provider::term_allowed(rules, #[trigger] terms[j])
                implies before.contains(j) by {
                assert(init[j] == terms[j]);
            }
            before
        } else if !provider::term_allowed(rules, last) {
            assert forall|i: int|
                0 <= i < terms.len() && provider::term_allowed(rules, #[trigger] terms[i])
                implies before.contains(i) by {
                assert(i < m);
                assert(init[i] == terms[i]);
            }
            before
        } else if provider::total_chars(kept) + last.len() > rules.max_total_chars {
            assert(terms[m] == last);
            assert(!before.contains(m));
            assert forall|j: int|
                0 <= j < m && provider::term_allowed(rules, #[trigger] terms[j])
                implies before.contains(j) by {
                assert(init[j] == terms[j]);
            }
            before
        } else {
            let from = before.push(m);
            assert forall|i: int|
                0 <= i < terms.len() && provider::term_allowed(rules, #[trigger] terms[i])
                implies from.contains(i) by {
                if i < m {
                    assert(init[i] == terms[i]);
                    let k = choose|k: int| 0 <= k < before.len() && before[k] == i;
                    assert(from[k] == i);
                } else {
                    assert(from[before.len() as int] == i);
                }
            }
            from
        }
    }
}

/// Key terms are sent to models whose names begin as the endpoint says, in any
/// letter case, and to no others.
pub proof fn law_key_terms_are_for_some_models(
    rules: KeyTermRules,
    model: Seq<char>,
    entries: Seq<Seq<char>>,
)
    ensures
        text::begins_with(text::ascii_lower(model), rules.model_prefix@) ==> provider::key_terms(
            rules,
            model,
            entries,
        ) == provider::kept_terms(rules, dictionary::sanitized(entries)).0,
        !text::begins_with(text::ascii_lower(model), rules.model_prefix@) ==> provider::key_terms(
            rules,
            model,
            entries,
        ).len() == 0,
{
}

/// Bias words keep their order and differ by more than letter case, and there
/// are no more of them than a dictionary may have entries.
pub proof fn law_bias_words_are_distinct(words: Seq<Seq<char>>) -> (from: Seq<int>)
    ensures
        from.len() == provider::distinct_words(words).len(),
        from.len() <= MAX_DICTIONARY_ENTRIES,
        forall|k: int|
            0 <= k < from.len() ==> 0 <= #[trigger] from[k] < words.len()
                && provider::distinct_words(words)[k] == words[from[k]],
        forall|k: int, l: int| 0 <= k < l < from.len() ==> #[trigger] from[k] < #[trigger] from[l],
        forall|k: int, l: int|
            0 <= k < l < from.len() ==> text::lowercase(
                #[trigger] provider::distinct_words(words)[k],
            ) != text::lowercase(#[trigger] provider::distinct_words(words)[l]),
    decreases words.len(),
{
    if words.len() == 0 {
        seq![]
    } else {
        let init = words.drop_last();
        let m = init.len() as int;
        let before = law_bias_words_are_distinct(init);
        let was = provider::distinct_words(init);
        let now = provider::distinct_words(words);
        if now.len() > was.len() {
            let from = before.push(m);
            assert forall|k: int| 0 <= k < from.len() implies 0 <= #[trigger] from[k] < words.len()
                && now[k] == words[from[k]] by {
                if k < before.len() {
                    assert(from[k] == before[k]);
                    assert(now[k] == was[k]);
                }
            }
            assert forall|k: int, l: int| 0 <= k < l < from.len() implies text::lowercase(
                #[trigger] now[k],
            ) != text::lowercase(#[trigger] now[l]) by {
                assert(now[k] == was[k]);
                assert(now[k] == words[before[k]]);
                if l < before.len() {
                    assert(now[l] == was[l]);
                }
            }
            from
        } else {
            assert(now == was);
            before
        }
    }
}

/// Every word is among the bias words, in some letter case, unless there are as
/// many as a dictionary may have entries.
pub proof fn law_bias_words_hold_every_word(words: Seq<Seq<char>>, i: int) -> (k: int)
    requires
        0 <= i < words.len(),
        provider::distinct_words(words).len() < MAX_DICTIONARY_ENTRIES,
    ensures
        0 <= k < provider::distinct_words(words).len(),
        text::lowercase(provider::distinct_words(words)[k]) == text::lowercase(words[i]),
    decreases words.len(),
{
    let init = words.drop_last();
    let m = init.len() as int;
    let was = provider::distinct_words(init);
    let now = provider::distinct_words(words);
    if i < m {
        let k = law_bias_words_hold_every_word(init, i);
        assert(now[k] == was[k]);
        k
    } else if now.len() > was.len() {
        was.len() as int
    } else {
        let j = choose|j: int|
            0 <= j < words.len() - 1 && text::lowercase(#[trigger] words[j]) == text::lowercase(
                words.last(),
            );
        assert(init[j] == words[j]);
        law_bias_words_hold_every_word(init, j)
    }
}

/// A prompt holds the caller's own words first and the terms after an empty
/// line; each stands alone where the other is missing.
pub proof fn law_prompts_hold_both(extra: Seq<char>, terms: Seq<char>)
    ensures
        provider::composed_prompt(None, None) is None,
        provider::composed_prompt(Some(extra), None) == Some(extra),
        provider::composed_prompt(None, Some(terms)) == Some(
            "Prefer these names, product terms, and spellings when they are spoken: "@ + terms,
        ),
        provider::composed_prompt(Some(extra), Some(terms)) == Some(
            extra + "\n\n"@ + provider::composed_prompt(None, Some(terms))->0,
        ),
{
}

// ---------------------------------------------------------------------------
// Fields
// ---------------------------------------------------------------------------

/// What every form holds: the model under the name that the endpoint knows, the
/// language where there is one, the temperature where it is sent, the request
/// for speakers where they are asked for and a field asks, what is sent always,
/// and the format and the times as planned.
pub proof fn law_forms_hold_what_is_asked_for(p: EndpointProfile, params: TranscriptionFormParams)
    ensures
        ({
            let form = provider::form_texts(p, params);
            &&& form.len() > 0 && form[0] == (p.model_field@, params.model@)
            &&& params.language is Some ==> form.contains((p.language_field@, params.language->0@))
            &&& p.sends_itn_format && params.language is Some ==> form.contains(
                ("format"@, "true"@),
            )
            &&& p.sends_temperature ==> form.contains(("temperature"@, "0"@))
            &&& params.diarize && (p.diarization == Diarization::SegmentSpeakers || p.diarization
                == Diarization::WordSpeakers) ==> form.contains(("diarize"@, "true"@))
            &&& params.diarize && p.diarization == Diarization::DiarizedJson ==> form.contains(
                ("response_format"@, "diarized_json"@),
            ) && form.contains(("chunking_strategy"@, "auto"@))
            &&& p.sends_response_format && !(params.diarize && p.diarization
                == Diarization::DiarizedJson) ==> form.contains(
                (
                    "response_format"@,
                    if params.response_format == ResponseFormat::VerboseJson && p.timestamp_mode
                        == TimestampMode::OpenAiVerboseJson {
                        "verbose_json"@
                    } else {
                        "json"@
                    },
                ),
            )
            &&& forall|i: int|
                0 <= i < p.fixed_params@.len() ==> form.contains(
                    ((#[trigger] p.fixed_params@[i]).0@, p.fixed_params@[i].1@),
                )
            &&& p.timestamp_mode == TimestampMode::WordTimings ==> form.contains(
                (
                    "timestamps_granularity"@,
                    if params.timestamp_granularities@.len() > 0 {
                        "word"@
                    } else {
                        "none"@
                    },
                ),
            )
        }),
{
    let form = provider::form_texts(p, params);
    let named = seq![(p.model_field@, params.model@)];
    let format = provider::format_fields(p, params.response_format, params.diarize);
    let heat = provider::temperature_fields(p);
    let times = provider::timestamp_fields(
        p,
        params.response_format,
        text::strs(params.timestamp_granularities@),
    );
    let language = provider::language_fields(p, text::opt_str(params.language));
    let speakers = provider::speaker_fields(p, params.diarize);
    let fixed = provider::fixed_pairs(p.fixed_params@);
    let terms = form.skip(
        (named + format + heat + times + language + speakers + fixed).len() as int,
    );
    assert(form =~= named + format + heat + times + language + speakers + fixed + terms);
    assert forall|x: (Seq<char>, Seq<char>)|
        format.contains(x) || heat.contains(x) || times.contains(x) || language.contains(x)
            || speakers.contains(x) || fixed.contains(x) implies #[trigger] form.contains(x) by {
        lemma_in_one_of(named, format, heat, times, language, speakers, fixed, terms, x);
    }
    assert(form[0] == named[0]);
    if params.language is Some {
        assert(language.contains(language[0]));
        if p.sends_itn_format {
            assert(language.contains(language[1]));
        }
    }
    if p.sends_temperature {
        assert(heat.contains(heat[0]));
    }
    if speakers.len() > 0 {
        assert(speakers.contains(speakers[0]));
    }
    if format.len() > 0 {
        assert(format.contains(format[0]));
        if format.len() > 1 {
            assert(format.contains(format[1]));
        }
    }
    assert forall|i: int| 0 <= i < p.fixed_params@.len() implies form.contains(
        ((#[trigger] p.fixed_params@[i]).0@, p.fixed_params@[i].1@),
    ) by {
        assert(fixed.contains(fixed[i]));
    }
    if p.timestamp_mode == TimestampMode::WordTimings {
        assert(times.contains(times[0]));
    }
}

proof fn lemma_in_one_of<A>(
    a: Seq<A>,
    b: Seq<A>,
    c: Seq<A>,
    d: Seq<A>,
    e: Seq<A>,
    f: Seq<A>,
    g: Seq<A>,
    h: Seq<A>,
    x: A,
)
    requires
        b.contains(x) || c.contains(x) || d.contains(x) || e.contains(x) || f.contains(x)
            || g.contains(x),
    ensures
        (a + b + c + d + e + f + g + h).contains(x),
{
    lemma_in_either(a, b, x);
    lemma_in_either(a + b, c, x);
    lemma_in_either(a + b + c, d, x);
    lemma_in_either(a + b + c + d, e, x);
    lemma_in_either(a + b + c + d + e, f, x);
    lemma_in_either(a + b + c + d + e + f, g, x);
    lemma_in_either(a + b + c + d + e + f + g, h, x);
}

proof fn lemma_in_either<A>(a: Seq<A>, b: Seq<A>, x: A)
    ensures
        a.contains(x) || b.contains(x) ==> (a + b).contains(x),
{
    if a.contains(x) {
        let i = choose|i: int| 0 <= i < a.len() && a[i] == x;
        assert((a + b)[i] == x);
    } else if b.contains(x) {
        let i = choose|i: int| 0 <= i < b.len() && b[i] == x;
        assert((a + b)[a.len() + i] == x);
    }
}

/// The terms of a dictionary stand in a form as the endpoint takes them: in the
/// prompt after the caller's own, as key terms, or as bias words beside it. A
/// request for the diarized format of OpenAI carries none, since its models
/// refuse them.
pub proof fn law_forms_hold_the_dictionary(p: EndpointProfile, params: TranscriptionFormParams)
    ensures
        ({
            let form = provider::form_texts(p, params);
            let entries = text::texts(params.dictionary@);
            let own = if params.prompt is Some && text::trimmed(params.prompt->0@).len() > 0 {
                Some(text::trimmed(params.prompt->0@))
            } else {
                None
            };
            let open = !(params.diarize && p.diarization == Diarization::DiarizedJson);
            &&& open && p.dictionary_mode is Prompt && provider::composed_prompt(
                own,
                dictionary::dictionary_prompt(entries),
            ) is Some ==> form.last() == (
                "prompt"@,
                provider::composed_prompt(own, dictionary::dictionary_prompt(entries))->0,
            )
            &&& open && p.dictionary_mode is ContextBias && own is Some ==> form.last() == (
                "prompt"@,
                own->0,
            )
            &&& open && p.dictionary_mode is ContextBias ==> forall|i: int|
                0 <= i < provider::bias_words(entries).len() ==> form.contains(
                    ("context_bias"@, #[trigger] provider::bias_words(entries)[i]),
                )
            &&& open && p.dictionary_mode is KeyTerms ==> {
                let rules = p.dictionary_mode->KeyTerms_0;
                let terms = provider::key_terms(rules, params.model@, entries);
                forall|i: int|
                    0 <= i < terms.len() ==> form.contains((rules.field@, #[trigger] terms[i]))
            }
        }),
{
    let form = provider::form_texts(p, params);
    let entries = text::texts(params.dictionary@);
    let open = !(params.diarize && p.diarization == Diarization::DiarizedJson);
    if open {
        let terms = provider::dictionary_fields(
            p.dictionary_mode,
            params.model@,
            entries,
            text::opt_str(params.prompt),
        );
        let n = form.len() - terms.len();
        assert(forall|i: int| 0 <= i < terms.len() ==> form[n + i] == #[trigger] terms[i]);
        if terms.len() > 0 {
            assert(form[n + (terms.len() - 1)] == terms[terms.len() - 1]);
        }
        if p.dictionary_mode is ContextBias {
            let words = provider::bias_words(entries);
            assert forall|i: int| 0 <= i < words.len() implies form.contains(
                ("context_bias"@, #[trigger] words[i]),
            ) by {
                assert(form[n + i] == terms[i]);
            }
        }
        if p.dictionary_mode is KeyTerms {
            let rules = p.dictionary_mode->KeyTerms_0;
            let kept = provider::key_terms(rules, params.model@, entries);
            assert forall|i: int| 0 <= i < kept.len() implies form.contains(
                (rules.field@, #[trigger] kept[i]),
            ) by {
                assert(form[n + i] == terms[i]);
            }
        }
    }
}

/// What every query holds: the model, what is sent always, the language or the
/// request to detect it, and the requests for speakers and for times.
pub proof fn law_queries_hold_what_is_asked_for(p: EndpointProfile, params: TranscriptionFormParams)
    ensures
        ({
            let query = provider::query_texts(p, params);
            &&& query.len() > 0 && query[0] == (p.model_field@, params.model@)
            &&& forall|i: int|
                0 <= i < p.fixed_params@.len() ==> query[1 + i] == (
                    (#[trigger] p.fixed_params@[i]).0@,
                    p.fixed_params@[i].1@,
                )
            &&& params.language is Some ==> query.contains(
                (p.language_field@, params.language->0@),
            )
            &&& params.language is None ==> query.contains(("detect_language"@, "true"@))
            &&& params.diarize && p.diarization != Diarization::Unsupported ==> query.contains(
                ("diarize_model"@, "latest"@),
            )
            &&& params.timestamp_granularities@.len() > 0 ==> query.contains(
                ("utterances"@, "true"@),
            )
        }),
{
    let query = provider::query_texts(p, params);
    let fixed = provider::fixed_pairs(p.fixed_params@);
    let a = 1 + fixed.len() as int;
    let b = a + 1;
    let speakers = params.diarize && p.diarization != Diarization::Unsupported;
    let c: int = if speakers {
        b + 1
    } else {
        b
    };
    assert(forall|i: int| 0 <= i < fixed.len() ==> query[1 + i] == #[trigger] fixed[i]);
    assert forall|i: int| 0 <= i < p.fixed_params@.len() implies query[1 + i] == (
        (#[trigger] p.fixed_params@[i]).0@,
        p.fixed_params@[i].1@,
    ) by {
        assert(query[1 + i] == fixed[i]);
    }
    if params.language is Some {
        assert(query[a] == (p.language_field@, params.language->0@));
    } else {
        assert(query[a] == ("detect_language"@, "true"@));
    }
    if speakers {
        assert(query[b] == ("diarize_model"@, "latest"@));
    }
    if params.timestamp_granularities@.len() > 0 {
        assert(query[c] == ("utterances"@, "true"@));
    }
}

/// What the endpoints can do: who tells times, and of words; who takes a
/// temperature, a response format and FLAC; and where durations are found.
pub proof fn law_what_endpoints_can_do(h: Seq<char>, p: EndpointProfile)
    requires
        provider::is_profile_of(Some(h), p),
    ensures
        ({
            let mistral = provider::host_under(h, "mistral.ai"@);
            let openrouter = provider::host_under(h, "openrouter.ai"@) && !mistral;
            let xai = provider::host_under(h, "x.ai"@) && !mistral && !openrouter;
            let plain = provider::host_under(h, "openai.com"@) || provider::host_under(
                h,
                "fireworks.ai"@,
            );
            let elevenlabs = provider::host_under(h, "elevenlabs.io"@) && !mistral && !openrouter
                && !xai && !plain;
            let deepgram = provider::host_under(h, "deepgram.com"@) && !mistral && !openrouter
                && !xai && !plain && !elevenlabs;
            let local = crate::remote::address::self_hosted(h) && !mistral && !openrouter && !xai
                && !plain && !elevenlabs && !deepgram;
            let openai = !mistral && !openrouter && !xai && !elevenlabs && !deepgram;
            &&& p.timestamp_mode == (if openai {
                TimestampMode::OpenAiVerboseJson
            } else if mistral {
                TimestampMode::NativeGranularities
            } else if elevenlabs || deepgram {
                TimestampMode::WordTimings
            } else {
                TimestampMode::Unsupported
            })
            &&& p.supports_word_timestamps <==> !mistral && !openrouter && !local
            &&& p.sends_response_format <==> openai
            &&& p.sends_temperature <==> openai
            &&& p.uploads_flac <==> !openrouter && !local
            &&& p.keep_timestamps_on_format_fallback <==> mistral || local
            &&& p.duration_source is UsagePromptAudioSeconds <==> mistral
            &&& p.sends_itn_format <==> xai
            &&& openrouter ==> p.models_query@ == "?output_modalities=transcription"@
            &&& !openrouter ==> p.models_query@ == ""@
            &&& p.fixed_params@.len() == (if elevenlabs {
                1int
            } else if deepgram {
                2
            } else {
                0
            })
        }),
{
    let fixed = provider::fixed_pairs(p.fixed_params@);
    assert(fixed.len() == p.fixed_params@.len());
}

/// The granularities that are not blank are asked for one by one, in order,
/// trimmed, under the name that is given.
pub proof fn law_granularities_are_asked_for_one_by_one(
    name: Seq<char>,
    granularities: Seq<Seq<char>>,
    last: Seq<char>,
)
    ensures
        provider::granularity_fields(name, seq![]).len() == 0,
        provider::granularity_fields(name, granularities.push(last))
            == provider::granularity_fields(name, granularities) + (if text::trimmed(last).len()
            > 0 {
            seq![(name, text::trimmed(last))]
        } else {
            seq![]
        }),
{
    assert(granularities.push(last).drop_last() =~= granularities);
    let before = provider::granularity_fields(name, granularities);
    assert(provider::granularity_fields(name, granularities.push(last)) =~= before + (
    if text::trimmed(last).len() > 0 {
        seq![(name, text::trimmed(last))]
    } else {
        seq![]
    }));
}

/// Times are asked for in the fields that the endpoint reads.
pub proof fn law_times_are_asked_for_in_fields(
    p: EndpointProfile,
    format: ResponseFormat,
    granularities: Seq<Seq<char>>,
)
    ensures
        p.timestamp_mode == TimestampMode::Unsupported ==> provider::timestamp_fields(
            p,
            format,
            granularities,
        ).len() == 0,
        p.timestamp_mode == TimestampMode::NativeGranularities ==> provider::timestamp_fields(
            p,
            format,
            granularities,
        ) == provider::granularity_fields("timestamp_granularities"@, granularities),
        p.timestamp_mode == TimestampMode::OpenAiVerboseJson && p.sends_response_format && format
            == ResponseFormat::VerboseJson ==> provider::timestamp_fields(p, format, granularities)
            == provider::granularity_fields("timestamp_granularities[]"@, granularities),
        p.timestamp_mode == TimestampMode::OpenAiVerboseJson && format != ResponseFormat::VerboseJson
            && !p.keep_timestamps_on_format_fallback ==> provider::timestamp_fields(
            p,
            format,
            granularities,
        ).len() == 0,
{
}

/// The host of an endpoint is read from its trimmed text in lower case, as a URL,
/// or as one after `https://` where it is none by itself.
pub proof fn law_hosts_of_endpoints(endpoint: Seq<char>)
    ensures
        ({
            let e = text::ascii_lower(text::trimmed(endpoint));
            let read = provider::url_host(e);
            let schemed = provider::url_host("https://"@ + e);
            let host = provider::endpoint_host(endpoint);
            &&& read is Some && read->0 is Some ==> host == Some(text::ascii_lower(read->0->0))
            &&& read is Some && read->0 is None ==> host is None
            &&& read is None && schemed is Some && schemed->0 is Some ==> host == Some(
                text::ascii_lower(schemed->0->0),
            )
            &&& read is None && (schemed is None || schemed->0 is None) ==> host is None
        }),
{
}

/// Each part of a form has as many fields as it needs.
pub proof fn law_parts_of_a_form(
    p: EndpointProfile,
    format: ResponseFormat,
    language: Option<Seq<char>>,
    diarize: bool,
)
    ensures
        provider::temperature_fields(p).len() == (if p.sends_temperature {
            1int
        } else {
            0
        }),
        diarize && p.diarization == Diarization::DiarizedJson ==> provider::format_fields(
            p,
            format,
            diarize,
        ).len() == 2,
        !(diarize && p.diarization == Diarization::DiarizedJson) ==> provider::format_fields(
            p,
            format,
            diarize,
        ).len() == (if p.sends_response_format {
            1int
        } else {
            0
        }),
        provider::speaker_fields(p, diarize).len() == (if diarize && (p.diarization
            == Diarization::SegmentSpeakers || p.diarization == Diarization::WordSpeakers) {
            1int
        } else {
            0
        }),
        language is None ==> provider::language_fields(p, language).len() == 0,
        language is Some ==> provider::language_fields(p, language).len() == (
        if p.sends_itn_format {
            2int
        } else {
            1
        }),
{
}

/// A form holds its parts and nothing else; without a dictionary and a prompt
/// nothing follows what is sent always.
pub proof fn law_forms_hold_nothing_else(p: EndpointProfile, params: TranscriptionFormParams)
    ensures
        ({
            let openai_speakers = params.diarize && p.diarization == Diarization::DiarizedJson;
            let without = 1 + provider::format_fields(p, params.response_format, params.diarize).len()
                + provider::temperature_fields(p).len() + provider::timestamp_fields(
                p,
                params.response_format,
                text::strs(params.timestamp_granularities@),
            ).len() + provider::language_fields(p, text::opt_str(params.language)).len()
                + provider::speaker_fields(p, params.diarize).len() + p.fixed_params@.len();
            &&& openai_speakers ==> provider::form_texts(p, params).len() == without
            &&& !openai_speakers ==> provider::form_texts(p, params).len() == without
                + provider::dictionary_fields(
                p.dictionary_mode,
                params.model@,
                text::texts(params.dictionary@),
                text::opt_str(params.prompt),
            ).len()
        }),
{
    let named = seq![(p.model_field@, params.model@)];
    let format = provider::format_fields(p, params.response_format, params.diarize);
    let heat = provider::temperature_fields(p);
    let times = provider::timestamp_fields(
        p,
        params.response_format,
        text::strs(params.timestamp_granularities@),
    );
    let language = provider::language_fields(p, text::opt_str(params.language));
    let speakers = provider::speaker_fields(p, params.diarize);
    let fixed = provider::fixed_pairs(p.fixed_params@);
    let terms = if provider::asks_diarized_json(p, params.diarize) {
        seq![]
    } else {
        provider::dictionary_fields(
            p.dictionary_mode,
            params.model@,
            text::texts(params.dictionary@),
            text::opt_str(params.prompt),
        )
    };
    lemma_lengths(named, format, heat, times, language, speakers, fixed, terms);
    assert(fixed.len() == p.fixed_params@.len());
}

proof fn lemma_lengths<A>(
    a: Seq<A>,
    b: Seq<A>,
    c: Seq<A>,
    d: Seq<A>,
    e: Seq<A>,
    f: Seq<A>,
    g: Seq<A>,
    h: Seq<A>,
)
    ensures
        (a + b + c + d + e + f + g + h).len() == a.len() + b.len() + c.len() + d.len() + e.len()
            + f.len() + g.len() + h.len(),
{
}

/// The fields of a dictionary are the prompt alone, the key terms alone, or the
/// bias words and the caller's prompt.
pub proof fn law_fields_of_a_dictionary(
    mode: DictionaryMode,
    model: Seq<char>,
    entries: Seq<Seq<char>>,
    prompt: Option<Seq<char>>,
)
    ensures
        ({
            let fields = provider::dictionary_fields(mode, model, entries, prompt);
            let own = if prompt is Some && text::trimmed(prompt->0).len() > 0 {
                Some(text::trimmed(prompt->0))
            } else {
                None
            };
            &&& mode is Prompt ==> fields.len() == (if provider::composed_prompt(
                own,
                dictionary::dictionary_prompt(entries),
            ) is Some {
                1int
            } else {
                0
            })
            &&& mode matches DictionaryMode::KeyTerms(rules) ==> fields.len()
                == provider::key_terms(rules, model, entries).len()
            &&& mode is ContextBias ==> fields.len() == provider::bias_words(entries).len() + (
            if own is Some {
                1int
            } else {
                0
            })
        }),
{
}

/// A query holds the key terms last, and nothing but what is asked for.
pub proof fn law_queries_hold_nothing_else(p: EndpointProfile, params: TranscriptionFormParams)
    ensures
        ({
            let query = provider::query_texts(p, params);
            let without = 2 + p.fixed_params@.len() + (if params.diarize && p.diarization
                != Diarization::Unsupported {
                1int
            } else {
                0
            }) + (if params.timestamp_granularities@.len() > 0 {
                1int
            } else {
                0
            });
            &&& !(p.dictionary_mode is KeyTerms) ==> query.len() == without
            &&& p.dictionary_mode is KeyTerms ==> query.len() == without + provider::key_terms(
                p.dictionary_mode->KeyTerms_0,
                params.model@,
                text::texts(params.dictionary@),
            ).len()
        }),
{
}

/// The key terms end a query, in order.
pub proof fn law_queries_end_with_terms(
    p: EndpointProfile,
    params: TranscriptionFormParams,
    rules: KeyTermRules,
    i: int,
)
    requires
        p.dictionary_mode == DictionaryMode::KeyTerms(rules),
        0 <= i < provider::key_terms(rules, params.model@, text::texts(params.dictionary@)).len(),
    ensures
        ({
            let query = provider::query_texts(p, params);
            let terms = provider::key_terms(rules, params.model@, text::texts(params.dictionary@));
            query[query.len() - terms.len() + i] == (rules.field@, terms[i])
        }),
{
    let terms = provider::key_terms(rules, params.model@, text::texts(params.dictionary@));
    let fields = provider::repeated_field(rules.field@, terms);
    assert(fields[i] == (rules.field@, terms[i]));
}

/// Speakers change the format as they change the times.
pub proof fn law_speakers_change_the_format(
    p: EndpointProfile,
    wants_timestamps: bool,
    granularity: Option<TimestampGranularity>,
)
    ensures
        p.diarization == Diarization::WordSpeakers || p.diarization == Diarization::SegmentSpeakers
            ==> provider::planned_format(p, wants_timestamps, granularity, true)
            == provider::planned_format(p, true, granularity, false),
        p.diarization == Diarization::DiarizedJson ==> provider::planned_format(
            p,
            wants_timestamps,
            granularity,
            true,
        ) == ResponseFormat::Json,
        p.diarization == Diarization::Unsupported ==> provider::planned_format(
            p,
            wants_timestamps,
            granularity,
            true,
        ) == provider::planned_format(p, wants_timestamps, granularity, false),
{
}

} // verus!
