//! The user's dictionary: names and spellings that a transcription should prefer.

use vstd::prelude::*;

use crate::text;

verus! {

/// The most terms that are kept.
pub const MAX_DICTIONARY_ENTRIES: usize = 64;

/// The most characters of a term that are kept.
pub const MAX_DICTIONARY_TERM_CHARS: usize = 160;

/// The most bytes of a prompt made of terms.
pub const MAX_PROMPT_BYTES: usize = 600;

/// Under this key two spellings count as one term.
pub open spec fn term_key(entry: Seq<char>) -> Seq<char> {
    text::lowercase(text::trimmed(entry))
}

/// The term that stands for an entry.
pub open spec fn capped(entry: Seq<char>) -> Seq<char> {
    let t = text::trimmed(entry);
    text::trim_end(
        if t.len() <= MAX_DICTIONARY_TERM_CHARS {
            t
        } else {
            t.take(MAX_DICTIONARY_TERM_CHARS as int)
        },
    )
}

/// Whether the last entry is a term that no earlier entry names.
pub open spec fn last_is_new(entries: Seq<Seq<char>>) -> bool {
    &&& !text::blank(entries.last())
    &&& forall|j: int|
        0 <= j < entries.len() - 1 && !text::blank(#[trigger] entries[j]) ==> term_key(entries[j])
            != term_key(entries.last())
}

/// The terms of a dictionary: blank and repeated entries are dropped, and no
/// more than [`MAX_DICTIONARY_ENTRIES`] are kept.
pub open spec fn sanitized(entries: Seq<Seq<char>>) -> Seq<Seq<char>>
    decreases entries.len(),
{
    if entries.len() == 0 {
        seq![]
    } else {
        let before = sanitized(entries.drop_last());
        if before.len() < MAX_DICTIONARY_ENTRIES && last_is_new(entries) {
            before.push(capped(entries.last()))
        } else {
            before
        }
    }
}

proof fn lemma_sanitized_full(entries: Seq<Seq<char>>, k: int)
    requires
        0 <= k <= entries.len(),
        sanitized(entries.take(k)).len() >= MAX_DICTIONARY_ENTRIES,
    ensures
        sanitized(entries) == sanitized(entries.take(k)),
    decreases entries.len() - k,
{
    if k == entries.len() {
        assert(entries.take(k) =~= entries);
    } else {
        assert(entries.take(k + 1).drop_last() =~= entries.take(k));
        lemma_sanitized_full(entries, k + 1);
    }
}

fn capped_term(trimmed: &str) -> (r: String)
    ensures
        r@ == text::trim_end(
            if trimmed@.len() <= MAX_DICTIONARY_TERM_CHARS {
                trimmed@
            } else {
                trimmed@.take(MAX_DICTIONARY_TERM_CHARS as int)
            },
        ),
{
    let chars = text::chars_of(trimmed);
    let len: usize = if chars.len() <= MAX_DICTIONARY_TERM_CHARS {
        chars.len()
    } else {
        MAX_DICTIONARY_TERM_CHARS
    };
    let head = text::string_between(chars.as_slice(), 0, len);
    proof {
        assert(trimmed@.take(trimmed@.len() as int) =~= trimmed@);
        assert(head@ =~= trimmed@.take(len as int));
    }
    let kept = text::chars_of(head.as_str());
    let end: usize = text::trim_end_of(kept.as_slice());
    let r = text::string_between(kept.as_slice(), 0, end);
    assert(r@ =~= head@.take(end as int));
    r
}

/// The keys of the entries that are not blank.
spec fn keys(entries: Seq<Seq<char>>) -> Seq<Seq<char>>
    decreases entries.len(),
{
    if entries.len() == 0 {
        seq![]
    } else if text::blank(entries.last()) {
        keys(entries.drop_last())
    } else {
        keys(entries.drop_last()).push(term_key(entries.last()))
    }
}

proof fn lemma_keys(entries: Seq<Seq<char>>, key: Seq<char>)
    ensures
        keys(entries).contains(key) <==> exists|j: int|
            0 <= j < entries.len() && !text::blank(#[trigger] entries[j]) && term_key(entries[j])
                == key,
    decreases entries.len(),
{
    if entries.len() > 0 {
        let init = entries.drop_last();
        lemma_keys(init, key);
        let n = entries.len() - 1;
        if keys(init).contains(key) {
            let j = choose|j: int|
                0 <= j < init.len() && !text::blank(#[trigger] init[j]) && term_key(init[j]) == key;
            assert(entries[j] == init[j]);
            let i = choose|i: int| 0 <= i < keys(init).len() && keys(init)[i] == key;
            assert(keys(entries)[i] == key);
        }
        if !text::blank(entries.last()) && term_key(entries.last()) == key {
            assert(keys(entries)[keys(init).len() as int] == key);
            assert(entries[n] == entries.last());
        }
        if exists|j: int|
            0 <= j < entries.len() && !text::blank(#[trigger] entries[j]) && term_key(entries[j])
                == key {
            let j = choose|j: int|
                0 <= j < entries.len() && !text::blank(#[trigger] entries[j]) && term_key(
                    entries[j],
                ) == key;
            if j < n {
                assert(init[j] == entries[j]);
            }
        }
        if keys(entries).contains(key) && !keys(init).contains(key) {
            let i = choose|i: int| 0 <= i < keys(entries).len() && keys(entries)[i] == key;
            if i < keys(init).len() {
                assert(keys(init)[i] == key);
            }
        }
    }
}

/// Trims entries, drops blank ones and those that differ from an earlier one
/// in letter case only, and caps the length of each and their number.
pub fn sanitize_dictionary_entries(entries: &[String]) -> (r: Vec<String>)
    ensures
        text::texts(r@) == sanitized(text::texts(entries@)),
{
    broadcast use text::lemma_texts_push;

    let ghost all = text::texts(entries@);
    let mut seen: Vec<String> = Vec::new();
    let mut cleaned: Vec<String> = Vec::new();
    let mut i: usize = 0;
    while i < entries.len()
        invariant
            all == text::texts(entries@),
            i <= entries@.len(),
            text::texts(seen@) == keys(all.take(i as int)),
            text::texts(cleaned@) == sanitized(all.take(i as int)),
            cleaned@.len() < MAX_DICTIONARY_ENTRIES,
        decreases entries@.len() - i,
    {
        let ghost so_far = all.take(i + 1);
        proof {
            assert(so_far.drop_last() =~= all.take(i as int));
            assert(so_far.last() == entries@[i as int]@);
            assert(text::texts(cleaned@).len() == cleaned@.len());
        }
        let trimmed = text::trim(entries[i].as_str());
        if trimmed.as_str().is_empty() {
            i += 1;
            continue;
        }
        let normalized = trimmed.as_str().to_lowercase();
        let known = text::list_contains(seen.as_slice(), normalized.as_str());
        proof {
            lemma_keys(so_far.drop_last(), normalized@);
            assert(known <==> text::texts(seen@).contains(normalized@));
            assert forall|j: int| 0 <= j < i implies so_far.drop_last()[j] == so_far[j] by {}
            if known {
                let j = choose|j: int|
                    0 <= j < so_far.drop_last().len() && !text::blank(
                        #[trigger] so_far.drop_last()[j],
                    ) && term_key(so_far.drop_last()[j]) == normalized@;
                assert(so_far[j] == so_far.drop_last()[j]);
                assert(!last_is_new(so_far));
            } else {
                assert forall|j: int| 0 <= j < i && !text::blank(#[trigger] so_far[j]) implies term_key(
                    so_far[j],
                ) != normalized@ by {
                    assert(so_far.drop_last()[j] == so_far[j]);
                }
                assert(last_is_new(so_far));
            }
        }
        seen.push(normalized);
        if known {
            i += 1;
            continue;
        }
        cleaned.push(capped_term(trimmed.as_str()));
        if cleaned.len() >= MAX_DICTIONARY_ENTRIES {
            proof {
                lemma_sanitized_full(all, i + 1);
            }
            return cleaned;
        }
        i += 1;
    }
    assert(all.take(i as int) =~= all);
    cleaned
}

/// How many terms fit a prompt, when the first `k` do: terms are taken in
/// order, up to the first that would make the prompt too long.
pub open spec fn fitting_terms(terms: Seq<Seq<char>>, k: nat) -> nat
    decreases terms.len() - k,
{
    if k < terms.len() && text::utf8_len(text::joined(terms.take(k as int + 1), ", "@)) + 1
        <= MAX_PROMPT_BYTES {
        fitting_terms(terms, k + 1)
    } else {
        k
    }
}

/// The prompt made of a dictionary, if any term fits.
pub open spec fn dictionary_prompt(entries: Seq<Seq<char>>) -> Option<Seq<char>> {
    let terms = sanitized(entries);
    let n = fitting_terms(terms, 0);
    if n == 0 {
        None
    } else {
        Some(text::joined(terms.take(n as int), ", "@).push('.'))
    }
}

/// Joins the terms of a dictionary to a prompt of at most
/// [`MAX_PROMPT_BYTES`] bytes. `None` when no term fits.
pub fn build_dictionary_prompt(entries: &[String]) -> (r: Option<String>)
    ensures
        text::opt_text(r) == dictionary_prompt(text::texts(entries@)),
{
    let cleaned = sanitize_dictionary_entries(entries);
    let ghost terms = text::texts(cleaned@);
    let mut prompt = String::new();
    let mut i: usize = 0;
    let mut fits = true;
    while i < cleaned.len() && fits
        invariant
            terms == text::texts(cleaned@),
            i <= cleaned@.len(),
            prompt@ == text::joined(terms.take(i as int), ", "@),
            fits ==> fitting_terms(terms, 0) == fitting_terms(terms, i as nat),
            !fits ==> fitting_terms(terms, 0) == i,
        decreases cleaned@.len() - i, fits as int,
    {
        let candidate = if i > 0 {
            text::concat3(prompt.as_str(), ", ", cleaned[i].as_str())
        } else {
            cleaned[i].clone()
        };
        proof {
            let next = terms.take(i + 1);
            assert(next.drop_last() =~= terms.take(i as int));
            assert(next.last() == cleaned@[i as int]@);
            assert(candidate@ =~= text::joined(next, ", "@));
        }
        if text::utf8_length(candidate.as_str()) >= MAX_PROMPT_BYTES as u128 {
            fits = false;
        } else {
            prompt = candidate;
            i += 1;
        }
    }
    if i == 0 {
        return None;
    }
    prompt.push('.');
    Some(prompt)
}

/// No more terms are kept than the limit, and each is non-empty, within the
/// length limit and without white space at either end.
pub proof fn law_terms_are_bounded(entries: Seq<Seq<char>>)
    ensures
        sanitized(entries).len() <= MAX_DICTIONARY_ENTRIES,
        forall|i: int|
            0 <= i < sanitized(entries).len() ==> {
                let term = #[trigger] sanitized(entries)[i];
                0 < term.len() <= MAX_DICTIONARY_TERM_CHARS && text::trimmed(term) == term
            },
    decreases entries.len(),
{
    if entries.len() > 0 {
        law_terms_are_bounded(entries.drop_last());
        let t = text::trimmed(entries.last());
        if t.len() > 0 {
            text::lemma_trimmed_ends(entries.last());
            let head = if t.len() <= MAX_DICTIONARY_TERM_CHARS {
                t
            } else {
                t.take(MAX_DICTIONARY_TERM_CHARS as int)
            };
            assert(head[0] == t[0]);
            text::lemma_trim_end_bounds(head);
        }
    }
}

/// Entries that differ in letter case or surrounding white space only give
/// one term: adding such an entry again changes nothing.
pub proof fn law_repeated_entries_are_dropped(entries: Seq<Seq<char>>, again: Seq<char>, i: int)
    requires
        0 <= i < entries.len(),
        !text::blank(entries[i]),
        term_key(again) == term_key(entries[i]),
    ensures
        sanitized(entries.push(again)) == sanitized(entries),
{
    let longer = entries.push(again);
    assert(longer.drop_last() =~= entries);
    assert(longer[i] == entries[i]);
    assert(!last_is_new(longer));
}

/// More entries leave the terms of the earlier ones as they are.
proof fn lemma_sanitized_grows(entries: Seq<Seq<char>>, k: int)
    requires
        0 <= k <= entries.len(),
    ensures
        sanitized(entries.take(k)).is_prefix_of(sanitized(entries)),
    decreases entries.len() - k,
{
    if k == entries.len() {
        assert(entries.take(k) =~= entries);
    } else {
        let next = entries.take(k + 1);
        assert(next.drop_last() =~= entries.take(k));
        lemma_sanitized_grows(entries, k + 1);
        assert(sanitized(entries.take(k)).is_prefix_of(sanitized(next)));
    }
}

/// The first spelling of a term is the one that is kept, and later entries do
/// not change it: an entry that no earlier one names gives the next term, as
/// long as there is room.
pub proof fn law_first_spelling_wins(entries: Seq<Seq<char>>, i: int)
    requires
        0 <= i < entries.len(),
        !text::blank(entries[i]),
        forall|j: int|
            0 <= j < i && !text::blank(#[trigger] entries[j]) ==> term_key(entries[j]) != term_key(
                entries[i],
            ),
        sanitized(entries.take(i)).len() < MAX_DICTIONARY_ENTRIES,
    ensures
        sanitized(entries.take(i)).push(capped(entries[i])).is_prefix_of(sanitized(entries)),
{
    let upto = entries.take(i + 1);
    assert(upto.drop_last() =~= entries.take(i));
    assert(upto.last() == entries[i]);
    assert(last_is_new(upto));
    lemma_sanitized_grows(entries, i + 1);
}

/// A prompt made of a dictionary is no longer than the limit.
pub proof fn law_prompt_fits(entries: Seq<Seq<char>>)
    ensures
        dictionary_prompt(entries) matches Some(p) ==> text::utf8_len(p) <= MAX_PROMPT_BYTES,
{
    let terms = sanitized(entries);
    let n = fitting_terms(terms, 0);
    lemma_fitting_terms(terms, 0);
    if n > 0 {
        let body = text::joined(terms.take(n as int), ", "@);
        assert(body.push('.').drop_last() =~= body);
    }
}

proof fn lemma_fitting_terms(terms: Seq<Seq<char>>, k: nat)
    requires
        k <= terms.len(),
    ensures
        k <= fitting_terms(terms, k) <= terms.len(),
        fitting_terms(terms, k) > k ==> text::utf8_len(
            text::joined(terms.take(fitting_terms(terms, k) as int), ", "@),
        ) + 1 <= MAX_PROMPT_BYTES,
    decreases terms.len() - k,
{
    if k < terms.len() && text::utf8_len(text::joined(terms.take(k as int + 1), ", "@)) + 1
        <= MAX_PROMPT_BYTES {
        lemma_fitting_terms(terms, k + 1);
    }
}

/// The term of an entry is its trimmed text, cut after 160 characters and
/// trimmed again at the end.
pub proof fn law_terms_are_the_entries(entry: Seq<char>)
    ensures
        text::trimmed(entry).len() <= 160 ==> capped(entry) == text::trimmed(entry),
        text::trimmed(entry).len() > 160 ==> capped(entry) == text::trim_end(
            text::trimmed(entry).take(160),
        ),
        term_key(entry) == text::lowercase(text::trimmed(entry)),
{
    text::lemma_trim_end_bounds(text::trim_start(entry));
    text::lemma_trimmed_ends(entry);
}

/// Terms come from entries in order, and from entries that are not blank and
/// that no earlier one names; there are no more than 64.
pub proof fn law_terms_keep_their_order(entries: Seq<Seq<char>>) -> (from: Seq<int>)
    ensures
        from.len() == sanitized(entries).len(),
        from.len() <= 64,
        forall|k: int|
            0 <= k < from.len() ==> 0 <= #[trigger] from[k] < entries.len() && sanitized(entries)[k]
                == capped(entries[from[k]]) && text::trimmed(entries[from[k]]).len() > 0,
        forall|k: int, l: int| 0 <= k < l < from.len() ==> #[trigger] from[k] < #[trigger] from[l],
        forall|k: int, l: int|
            0 <= k < l < from.len() ==> term_key(entries[#[trigger] from[k]]) != term_key(
                entries[#[trigger] from[l]],
            ),
    decreases entries.len(),
{
    if entries.len() == 0 {
        seq![]
    } else {
        let init = entries.drop_last();
        let m = init.len() as int;
        let before = law_terms_keep_their_order(init);
        if sanitized(entries).len() > sanitized(init).len() {
            let from = before.push(m);
            assert forall|k: int, l: int| 0 <= k < l < from.len() implies term_key(
                entries[#[trigger] from[k]],
            ) != term_key(entries[#[trigger] from[l]]) by {
                assert(entries[from[k]] == init[before[k]]);
                if l < before.len() {
                    assert(entries[from[l]] == init[before[l]]);
                    assert(from[k] == before[k] && from[l] == before[l]);
                } else {
                    assert(!text::blank(entries[from[k]]));
                }
            }
            from
        } else {
            before
        }
    }
}

/// A prompt lists the first terms of a dictionary, with commas between them and
/// a full stop behind, as many as fit 600 bytes. There is none only where not
/// even the first term fits, or there is no term.
pub proof fn law_prompts_list_the_first_terms(entries: Seq<Seq<char>>) -> (n: nat)
    ensures
        n <= sanitized(entries).len(),
        dictionary_prompt(entries) is None <==> n == 0,
        n > 0 ==> dictionary_prompt(entries) == Some(
            text::joined(sanitized(entries).take(n as int), ", "@) + seq!['.'],
        ),
        n > 0 ==> text::utf8_len(text::joined(sanitized(entries).take(n as int), ", "@)) + 1 <= 600,
        n < sanitized(entries).len() ==> text::utf8_len(
            text::joined(sanitized(entries).take(n as int + 1), ", "@),
        ) + 1 > 600,
{
    let terms = sanitized(entries);
    let n = fitting_terms(terms, 0);
    lemma_fitting_terms(terms, 0);
    lemma_fitting_most(terms, 0);
    if n > 0 {
        let body = text::joined(terms.take(n as int), ", "@);
        assert(body.push('.') =~= body + seq!['.']);
    }
    n
}

proof fn lemma_fitting_most(terms: Seq<Seq<char>>, k: nat)
    requires
        k <= terms.len(),
    ensures
        fitting_terms(terms, k) < terms.len() ==> text::utf8_len(
            text::joined(terms.take(fitting_terms(terms, k) as int + 1), ", "@),
        ) + 1 > MAX_PROMPT_BYTES,
    decreases terms.len() - k,
{
    if k < terms.len() && text::utf8_len(text::joined(terms.take(k as int + 1), ", "@)) + 1
        <= MAX_PROMPT_BYTES {
        lemma_fitting_most(terms, k + 1);
    }
}

} // verus!
