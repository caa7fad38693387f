//! Rewriting numbers a second time changes nothing.
//!
//! A number that was rewritten consists of digits, which are no number words.
//! So it stops the reading of a phrase just as the first word of its own phrase
//! did, or else it would have been part of the phrase before it.

use vstd::prelude::*;

use crate::itn;
use crate::itn::{PhraseText, Reading, Tally, TokenText};
use crate::text;

verus! {

// ---------------------------------------------------------------------------
// Words
// ---------------------------------------------------------------------------

/// The words with a part in number phrases are made of letters.
proof fn lemma_digits_are_no_words(w: Seq<char>)
    requires
        w.len() > 0,
        text::is_digit(w[0]),
    ensures
        !itn::number_word(w),
        w != "and"@,
        w != "point"@,
        w != "minus"@,
        w != "negative"@,
{
    lemma_first_letters(w);
}

proof fn lemma_first_letters(w: Seq<char>)
    ensures
        itn::number_word(w) || w == "and"@ || w == "point"@ || w == "minus"@ || w == "negative"@
            ==> w.len() > 0 && 'a' <= w[0] <= 'z',
        itn::number_word(w) ==> w != "and"@ && w != "point"@ && w != "minus"@ && w != "negative"@,
{
    reveal_strlit("zero");
    reveal_strlit("oh");
    reveal_strlit("one");
    reveal_strlit("two");
    reveal_strlit("three");
    reveal_strlit("four");
    reveal_strlit("five");
    reveal_strlit("six");
    reveal_strlit("seven");
    reveal_strlit("eight");
    reveal_strlit("nine");
    reveal_strlit("ten");
    reveal_strlit("eleven");
    reveal_strlit("twelve");
    reveal_strlit("thirteen");
    reveal_strlit("fourteen");
    reveal_strlit("fifteen");
    reveal_strlit("sixteen");
    reveal_strlit("seventeen");
    reveal_strlit("eighteen");
    reveal_strlit("nineteen");
    reveal_strlit("twenty");
    reveal_strlit("thirty");
    reveal_strlit("forty");
    reveal_strlit("fifty");
    reveal_strlit("sixty");
    reveal_strlit("seventy");
    reveal_strlit("eighty");
    reveal_strlit("ninety");
    reveal_strlit("hundred");
    reveal_strlit("thousand");
    reveal_strlit("million");
    reveal_strlit("billion");
    reveal_strlit("and");
    reveal_strlit("point");
    reveal_strlit("minus");
    reveal_strlit("negative");
    assert("and"@[0] == 'a' && "point"@[0] == 'p');
    assert("minus"@.len() == 5 && "million"@.len() == 7 && "minus"@[0] == 'm');
    assert("negative"@[0] == 'n' && "negative"@[1] == 'e');
    assert("nine"@[1] == 'i' && "nineteen"@[1] == 'i' && "ninety"@[1] == 'i');
}

/// A word stops the reading of a phrase if and only if it is no number word.
proof fn lemma_read_word_stops(t: Tally, w: Seq<char>)
    ensures
        itn::read_word(t, w) is Stopped <==> !itn::number_word(w),
        itn::read_word(t, w) matches Reading::Stopped(u) ==> u == t,
{
}

/// Whether the sums of a phrase are no less than zero.
spec fn natural(t: Tally) -> bool {
    t.total >= 0 && t.group >= 0
}

/// What reading a word leaves as it was.
proof fn lemma_read_word_grows(t: Tally, w: Seq<char>)
    ensures
        itn::read_word(t, w) matches Reading::Advanced(u) ==> u.numeric && u.count == t.count + 1
            && (t.complex ==> u.complex) && (natural(t) ==> natural(u)),
{
    if natural(t) {
        let g = itn::multiplied_group(t.group);
        assert(g >= 1);
        assert(g * 100 >= 0);
        if itn::magnitude_word(w) is Some {
            let m = itn::magnitude_word(w)->0 as int;
            assert(m >= 0);
            assert(g * m >= 0) by (nonlinear_arith)
                requires
                    g >= 1,
                    m >= 0,
            ;
        }
    }
}

/// What reading words leaves as it was.
proof fn lemma_read_words_grow(t: Tally, ws: Seq<Seq<char>>)
    ensures
        match itn::read_words(t, ws) {
            Reading::OutOfRange => true,
            Reading::Stopped(u) => (t.numeric ==> u.numeric) && (t.complex ==> u.complex) && u.count
                >= t.count && (natural(t) ==> natural(u)),
            Reading::Advanced(u) => (t.numeric || ws.len() > 0 ==> u.numeric) && (t.complex
                ==> u.complex) && u.count == t.count + ws.len() && (natural(t) ==> natural(u)),
        },
    decreases ws.len(),
{
    if ws.len() > 0 {
        lemma_read_words_grow(t, ws.drop_last());
        if itn::read_words(t, ws.drop_last()) is Advanced {
            let u = itn::read_words(t, ws.drop_last())->Advanced_0;
            lemma_read_word_grows(u, ws.last());
            lemma_read_word_stops(u, ws.last());
        }
    }
}

/// Words that were read to the end are number words.
proof fn lemma_all_read(t: Tally, ws: Seq<Seq<char>>)
    requires
        itn::read_words(t, ws) is Advanced,
    ensures
        forall|i: int| 0 <= i < ws.len() ==> itn::number_word(#[trigger] ws[i]),
    decreases ws.len(),
{
    if ws.len() > 0 {
        let init = ws.drop_last();
        lemma_all_read(t, init);
        lemma_read_word_stops(itn::read_words(t, init)->Advanced_0, ws.last());
        assert forall|i: int| 0 <= i < ws.len() implies itn::number_word(#[trigger] ws[i]) by {
            if i < init.len() {
                assert(ws[i] == init[i]);
            }
        }
    }
}

/// Number words are read to the end, unless a value leaves its range.
proof fn lemma_number_words_read(t: Tally, ws: Seq<Seq<char>>)
    requires
        forall|i: int| 0 <= i < ws.len() ==> itn::number_word(#[trigger] ws[i]),
    ensures
        !(itn::read_words(t, ws) is Stopped),
    decreases ws.len(),
{
    if ws.len() > 0 {
        let init = ws.drop_last();
        assert forall|i: int| 0 <= i < init.len() implies itn::number_word(#[trigger] init[i]) by {
            assert(ws[i] == init[i]);
        }
        lemma_number_words_read(t, init);
        assert(itn::number_word(ws[ws.len() - 1]));
        if itn::read_words(t, init) is Advanced {
            lemma_read_word_stops(itn::read_words(t, init)->Advanced_0, ws.last());
        }
    }
}

/// A single word that is no number word stops the reading at once.
proof fn lemma_sole_word_stops(t: Tally, w: Seq<char>)
    requires
        !itn::number_word(w),
    ensures
        itn::read_words(t, seq![w]) == Reading::Stopped(t),
{
    let ws = seq![w];
    assert(ws.drop_last() =~= Seq::<Seq<char>>::empty());
    assert(itn::read_words(t, ws.drop_last()) == Reading::Advanced(t));
    lemma_read_word_stops(t, w);
}

// ---------------------------------------------------------------------------
// Phrases
// ---------------------------------------------------------------------------

/// Whether a phrase changes the text, or cannot be rewritten.
spec fn converts(p: PhraseText) -> bool {
    match p {
        PhraseText::Plain => false,
        PhraseText::OutOfRange => true,
        PhraseText::Number(consumed, _) => consumed > 0,
    }
}

/// Whether a number is worth rewriting once it has been read so far.
spec fn worth(t: Tally, negative: bool) -> bool {
    t.numeric && (t.complex || t.count >= 2 || negative)
}

/// A number that is worth rewriting stays so, however the text goes on.
proof fn lemma_will_convert(
    tokens: Seq<TokenText>,
    idx: nat,
    consumed: nat,
    t: Tally,
    negative: bool,
)
    requires
        worth(t, negative),
        consumed > 0,
    ensures
        converts(itn::phrase_from(tokens, idx, consumed, t, negative)),
    decreases tokens.len() - idx,
{
    if idx < tokens.len() {
        let ws = itn::token_words(tokens[idx as int]);
        lemma_read_words_grow(t, ws);
        if ws.len() > 0 {
            if ws.len() == 1 && ws[0] == "and"@ {
                lemma_will_convert(tokens, idx + 1, idx + 1, t, negative);
            } else if itn::read_words(t, ws) is Advanced {
                let u = itn::read_words(t, ws)->Advanced_0;
                lemma_will_convert(tokens, idx + 1, idx + 1, u, negative);
            }
        }
    }
}

proof fn lemma_decimal_run(tokens: Seq<TokenText>)
    ensures
        text::all_digits(itn::decimal_run(tokens)),
        itn::decimal_run(tokens).len() <= tokens.len(),
    decreases tokens.len(),
{
    let run = itn::decimal_run(tokens);
    if run.len() > 0 {
        lemma_decimal_run(tokens.drop_first());
        let rest = itn::decimal_run(tokens.drop_first());
        let v = itn::digit_word(itn::sole_word(tokens[0])->0)->0 as int;
        assert(0 <= v <= 9);
        assert(run == seq![text::digit(v)] + rest);
        assert(text::is_digit(text::digit(v)));
        assert forall|i: int| 0 <= i < run.len() implies text::is_digit(#[trigger] run[i]) by {
            if i > 0 {
                assert(run[i] == rest[i - 1]);
            }
        }
    }
}

proof fn lemma_decimal_digits(n: nat)
    ensures
        text::decimal(n).len() > 0,
        text::all_digits(text::decimal(n)),
    decreases n,
{
    let d = text::decimal(n);
    assert(text::is_digit(text::digit((n % 10) as int)));
    if n >= 10 {
        lemma_decimal_digits(n / 10);
        let front = text::decimal(n / 10);
        assert forall|i: int| 0 <= i < d.len() implies text::is_digit(#[trigger] d[i]) by {
            if i < front.len() {
                assert(d[i] == front[i]);
            }
        }
    } else {
        assert(text::is_digit(text::digit(n as int)));
    }
}

/// Whether a text is a number as it is written, without its sign.
spec fn magnitude(d: Seq<char>) -> bool {
    &&& d.len() > 0
    &&& text::is_digit(d[0])
    &&& text::is_digit(d.last())
    &&& forall|i: int| 0 <= i < d.len() ==> text::is_digit(#[trigger] d[i]) || d[i] == '.'
}

/// A written number without its sign.
spec fn unsigned(n: Seq<char>) -> Seq<char> {
    if n.len() > 0 && n[0] == '-' {
        n.drop_first()
    } else {
        n
    }
}

proof fn lemma_written(negative: bool, d: Seq<char>)
    requires
        magnitude(d),
    ensures
        unsigned(itn::sign(negative) + d) == d,
{
    let n = itn::sign(negative) + d;
    if negative {
        assert(n.drop_first() =~= d);
    } else {
        assert(n =~= d);
    }
}

/// What a phrase is rewritten to is a number, and it takes up tokens that are
/// there.
proof fn lemma_phrase_from_number(
    tokens: Seq<TokenText>,
    idx: nat,
    consumed: nat,
    t: Tally,
    negative: bool,
)
    requires
        natural(t),
        idx <= tokens.len(),
        consumed <= tokens.len(),
    ensures
        itn::phrase_from(tokens, idx, consumed, t, negative) matches PhraseText::Number(c, n)
            ==> magnitude(unsigned(n)) && c <= tokens.len(),
    decreases tokens.len() - idx,
{
    lemma_concluded(t, consumed, negative);
    if idx < tokens.len() {
        let ws = itn::token_words(tokens[idx as int]);
        lemma_read_words_grow(t, ws);
        if ws.len() == 0 {
        } else if ws.len() == 1 && ws[0] == "and"@ && t.numeric {
            lemma_phrase_from_number(tokens, idx + 1, idx + 1, t, negative);
        } else if ws.len() == 1 && ws[0] == "point"@ && t.numeric {
            let rest = tokens.skip((idx + 1) as int);
            let decimals = itn::decimal_run(rest);
            lemma_decimal_run(rest);
            if decimals.len() > 0 {
                let whole = text::decimal((t.total + t.group) as nat);
                lemma_decimal_digits((t.total + t.group) as nat);
                let d = whole + seq!['.'] + decimals;
                assert(text::is_digit(decimals[decimals.len() - 1]));
                assert(d.last() == decimals.last());
                assert(d[0] == whole[0]);
                assert(text::is_digit(whole[0]));
                assert forall|i: int| 0 <= i < d.len() implies text::is_digit(#[trigger] d[i])
                    || d[i] == '.' by {
                    if i < whole.len() {
                        assert(d[i] == whole[i]);
                    } else if i > whole.len() {
                        assert(d[i] == decimals[i - whole.len() - 1]);
                    }
                }
                lemma_written(negative, d);
                assert(itn::sign(negative) + whole + seq!['.'] + decimals =~= itn::sign(negative)
                    + d);
            }
        } else if itn::read_words(t, ws) is Advanced {
            let u = itn::read_words(t, ws)->Advanced_0;
            lemma_phrase_from_number(tokens, idx + 1, idx + 1, u, negative);
        } else if itn::read_words(t, ws) is Stopped {
            lemma_concluded(itn::read_words(t, ws)->Stopped_0, consumed, negative);
        }
    }
}

proof fn lemma_concluded(t: Tally, consumed: nat, negative: bool)
    requires
        natural(t),
    ensures
        itn::concluded(t, consumed, negative) matches PhraseText::Number(c, n) ==> magnitude(
            unsigned(n),
        ) && c == consumed,
{
    let d = text::decimal((t.total + t.group) as nat);
    lemma_decimal_digits((t.total + t.group) as nat);
    assert(text::is_digit(d[0]));
    assert(text::is_digit(d[d.len() - 1]));
    lemma_written(negative, d);
}

proof fn lemma_phrase_number(tokens: Seq<TokenText>)
    ensures
        itn::phrase(tokens) matches PhraseText::Number(c, n) ==> magnitude(unsigned(n)) && c
            <= tokens.len(),
{
    if tokens.len() > 0 {
        lemma_phrase_from_number(tokens, 1, 1, itn::nothing_read(), true);
        lemma_phrase_from_number(tokens, 0, 0, itn::nothing_read(), false);
    }
}

/// The first token of a number that is rewritten is a sign or made of number
/// words.
proof fn lemma_number_start(tokens: Seq<TokenText>)
    requires
        itn::phrase(tokens) matches PhraseText::Number(c, _) && c > 0,
    ensures
        tokens.len() > 0,
        !itn::says_negative(tokens[0]) ==> {
            let ws = itn::token_words(tokens[0]);
            &&& ws.len() > 0
            &&& forall|i: int| 0 <= i < ws.len() ==> itn::number_word(#[trigger] ws[i])
        },
{
    if !itn::says_negative(tokens[0]) {
        let ws = itn::token_words(tokens[0]);
        let none = itn::nothing_read();
        assert(ws.len() > 0);
        lemma_read_words_grow(none, ws);
        assert(itn::read_words(none, ws) is Advanced);
        lemma_all_read(none, ws);
    }
}

// ---------------------------------------------------------------------------
// Rewritten words
// ---------------------------------------------------------------------------

/// Whether a token is one word that begins with a digit.
spec fn stopper(token: TokenText) -> bool {
    let ws = itn::token_words(token);
    ws.len() == 1 && ws[0].len() > 0 && text::is_digit(ws[0][0])
}

/// A text without letters and digits.
spec fn bare(s: Seq<char>) -> bool {
    forall|i: int| 0 <= i < s.len() ==> !text::alphanumeric(#[trigger] s[i])
}

proof fn lemma_lead_bare(s: Seq<char>)
    ensures
        itn::lead_len(s) <= s.len(),
        bare(s.take(itn::lead_len(s) as int)),
    decreases s.len(),
{
    if s.len() > 0 && !text::alphanumeric(s[0]) {
        lemma_lead_bare(s.drop_first());
        let k = itn::lead_len(s) as int;
        assert forall|i: int| 0 <= i < k implies !text::alphanumeric(
            #[trigger] s.take(k)[i],
        ) by {
            if i > 0 {
                assert(s.take(k)[i] == s.drop_first().take(k - 1)[i - 1]);
            }
        }
    }
}

proof fn lemma_trail_bare(s: Seq<char>)
    ensures
        itn::core_end(s) <= s.len(),
        bare(s.skip(itn::core_end(s) as int)),
    decreases s.len(),
{
    if s.len() > 0 && !text::alphanumeric(s.last()) {
        let init = s.drop_last();
        lemma_trail_bare(init);
        let k = itn::core_end(s) as int;
        assert forall|i: int| 0 <= i < s.skip(k).len() implies !text::alphanumeric(
            #[trigger] s.skip(k)[i],
        ) by {
            if i < init.skip(k).len() {
                assert(s.skip(k)[i] == init.skip(k)[i]);
            } else {
                assert(s.skip(k)[i] == s.last());
            }
        }
    }
}

/// The punctuation around a word holds no letters and no digits, and no white
/// space where the word holds none.
proof fn lemma_punctuation(raw: Seq<char>)
    ensures
        bare(itn::token_of(raw).leading),
        bare(itn::token_of(raw).trailing),
        text::solid(raw) ==> {
            let t = itn::token_of(raw);
            &&& forall|i: int| 0 <= i < t.leading.len() ==> !text::white_space(#[trigger] t.leading[i])
            &&& forall|i: int|
                0 <= i < t.trailing.len() ==> !text::white_space(#[trigger] t.trailing[i])
        },
{
    let t = itn::token_of(raw);
    lemma_lead_bare(raw);
    lemma_trail_bare(raw);
    if itn::core_end(raw) == 0 {
        assert(raw.skip(0) =~= raw);
    } else {
        if text::solid(raw) {
            assert forall|i: int| 0 <= i < t.leading.len() implies !text::white_space(
                #[trigger] t.leading[i],
            ) by {
                assert(t.leading[i] == raw[i]);
            }
            assert forall|i: int| 0 <= i < t.trailing.len() implies !text::white_space(
                #[trigger] t.trailing[i],
            ) by {
                assert(t.trailing[i] == raw[itn::core_end(raw) + i]);
            }
        }
    }
}

/// A rewritten number is a token of its own that stops the reading of a
/// phrase.
proof fn lemma_rewritten_word(leading: Seq<char>, n: Seq<char>, trailing: Seq<char>)
    requires
        bare(leading),
        bare(trailing),
        magnitude(unsigned(n)),
    ensures
        stopper(itn::token_of(leading + n + trailing)),
        itn::separable(leading + n + trailing),
{
    let raw = leading + n + trailing;
    let d = unsigned(n);
    let from = leading.len() + (n.len() - d.len());
    let to = leading.len() + n.len();
    assert(n.len() - d.len() == 0 || n.len() - d.len() == 1);
    assert(raw.subrange(from, to as int) =~= d);
    assert(raw[from] == d[0]);
    assert(raw[to - 1] == d.last());
    assert(text::alphanumeric(raw[from]));
    assert(text::alphanumeric(raw[to - 1]));
    assert forall|j: int| 0 <= j < from implies !text::alphanumeric(#[trigger] raw[j]) by {
        if j < leading.len() {
            assert(raw[j] == leading[j]);
        } else {
            assert(raw[j] == '-');
        }
    }
    assert forall|j: int| to <= j < raw.len() implies !text::alphanumeric(#[trigger] raw[j]) by {
        assert(raw[j] == trailing[j - to]);
    }
    itn::lemma_lead_len(raw, from);
    itn::lemma_core_end(raw, to as int);
    let t = itn::token_of(raw);
    assert(t.core == d);
    assert forall|i: int| 0 <= i < d.len() implies #[trigger] d[i] != '-' by {}
    text::lemma_split_none(d, '-');
    text::lemma_trimmed_fixed(d);
    assert(text::ascii_lower(d) =~= d);
    let pieces = seq![d];
    assert(pieces.drop_last() =~= Seq::<Seq<char>>::empty());
    assert(itn::lowered_pieces(pieces.drop_last()) =~= Seq::<Seq<char>>::empty());
    assert(itn::token_words(t) =~= seq![d]);
}

proof fn lemma_rewritten_solid(leading: Seq<char>, n: Seq<char>, trailing: Seq<char>)
    requires
        magnitude(unsigned(n)),
        forall|i: int| 0 <= i < leading.len() ==> !text::white_space(#[trigger] leading[i]),
        forall|i: int| 0 <= i < trailing.len() ==> !text::white_space(#[trigger] trailing[i]),
    ensures
        text::solid(leading + n + trailing),
{
    let raw = leading + n + trailing;
    let d = unsigned(n);
    assert forall|i: int| 0 <= i < raw.len() implies !text::white_space(#[trigger] raw[i]) by {
        if i < leading.len() {
            assert(raw[i] == leading[i]);
        } else if i < leading.len() + n.len() {
            let k = i - leading.len();
            assert(raw[i] == n[k]);
            if n[0] == '-' && k > 0 {
                assert(n[k] == d[k - 1]);
            } else if n[0] != '-' {
                assert(n[k] == d[k]);
            }
        } else {
            assert(raw[i] == trailing[i - leading.len() - n.len()]);
        }
    }
}

/// How many words the beginning of a list is rewritten from: those of a number,
/// or one.
spec fn taken(ws: Seq<Seq<char>>) -> int {
    match itn::phrase(itn::tokens_of(ws)) {
        PhraseText::Number(c, _) if c > 0 => c as int,
        _ => 1,
    }
}

/// Whether a list begins with a number that is rewritten.
spec fn begins_with_number(ws: Seq<Seq<char>>) -> bool {
    itn::phrase(itn::tokens_of(ws)) matches PhraseText::Number(c, _) && c > 0
}

/// The words that a list is rewritten to.
spec fn output(ws: Seq<Seq<char>>) -> Seq<Seq<char>> {
    itn::rewritten(itn::tokens_of(ws))->0
}

/// Whether a list can be rewritten.
spec fn rewritable(ws: Seq<Seq<char>>) -> bool {
    itn::rewritten(itn::tokens_of(ws)) is Some
}

proof fn lemma_skip_tokens(ws: Seq<Seq<char>>, k: int)
    requires
        0 <= k <= ws.len(),
    ensures
        itn::tokens_of(ws).skip(k) == itn::tokens_of(ws.skip(k)),
{
    assert(itn::tokens_of(ws).skip(k) =~= itn::tokens_of(ws.skip(k)));
}

/// A list is rewritten from its beginning on.
proof fn lemma_output_head(ws: Seq<Seq<char>>)
    requires
        ws.len() > 0,
        rewritable(ws),
    ensures
        0 < taken(ws) <= ws.len(),
        rewritable(ws.skip(taken(ws))),
        output(ws).len() > 0,
        output(ws).drop_first() == output(ws.skip(taken(ws))),
        begins_with_number(ws) ==> stopper(itn::token_of(output(ws)[0])) && itn::separable(
            output(ws)[0],
        ),
        !begins_with_number(ws) ==> output(ws)[0] == ws[0] && !converts(
            itn::phrase(itn::tokens_of(ws)),
        ),
        (forall|i: int| 0 <= i < ws.len() ==> text::solid(#[trigger] ws[i])) ==> text::solid(
            output(ws)[0],
        ),
{
    let tokens = itn::tokens_of(ws);
    let k = taken(ws);
    lemma_phrase_number(tokens);
    lemma_skip_tokens(ws, 1);
    assert(tokens.drop_first() =~= tokens.skip(1));
    let rest = itn::rewritten(tokens.skip(k));
    if begins_with_number(ws) {
        let n = itn::phrase(tokens)->Number_1;
        lemma_skip_tokens(ws, k);
        let leading = tokens[0].leading;
        let trailing = tokens[k - 1].trailing;
        lemma_punctuation(ws[0]);
        lemma_punctuation(ws[k - 1]);
        lemma_rewritten_word(leading, n, trailing);
        assert(output(ws) == seq![leading + n + trailing] + rest->0);
        assert(output(ws).drop_first() =~= rest->0);
        if forall|i: int| 0 <= i < ws.len() ==> text::solid(#[trigger] ws[i]) {
            assert(text::solid(ws[0]));
            assert(text::solid(ws[k - 1]));
            lemma_rewritten_solid(leading, n, trailing);
        }
    } else {
        itn::law_token_recomposes(ws[0]);
        assert(output(ws) == seq![ws[0]] + rest->0);
        assert(output(ws).drop_first() =~= rest->0);
        if forall|i: int| 0 <= i < ws.len() ==> text::solid(#[trigger] ws[i]) {
            assert(text::solid(ws[0]));
        }
    }
}

/// A phrase that a rewritten number follows is no more a number than it was
/// before the rewriting.
proof fn lemma_stays_plain(
    ws: Seq<Seq<char>>,
    after: Seq<TokenText>,
    p: nat,
    consumed: nat,
    t: Tally,
    negative: bool,
)
    requires
        p <= ws.len(),
        rewritable(ws.skip(p as int)),
        after.len() >= p,
        after.skip(p as int) == itn::tokens_of(output(ws.skip(p as int))),
        (t.numeric && t.count >= 1) || negative,
        !converts(itn::phrase_from(itn::tokens_of(ws), p, consumed, t, negative)),
    ensures
        !converts(itn::phrase_from(after, p, consumed, t, negative)),
    decreases ws.len() - p,
{
    let before = itn::tokens_of(ws);
    let rest = ws.skip(p as int);
    let tail = after.skip(p as int);
    lemma_skip_tokens(ws, p as int);
    if p == ws.len() {
        assert(rest =~= Seq::<Seq<char>>::empty());
        assert(itn::tokens_of(rest) =~= Seq::<TokenText>::empty());
        assert(output(rest) =~= Seq::<Seq<char>>::empty());
        assert(tail.len() == 0);
        assert(after.len() == p);
    } else {
        lemma_output_head(rest);
        let here = before[p as int];
        assert(here == itn::tokens_of(rest)[0]);
        assert(after[p as int] == tail[0]);
        assert(tail[0] == itn::token_of(output(rest)[0]));
        let words = itn::token_words(here);
        lemma_read_words_grow(t, words);
        if begins_with_number(rest) {
            lemma_stopped_by_number(ws, after, p, consumed, t, negative);
        } else {
            assert(after[p as int] == here);
            let next = ws.skip(p as int + 1);
            assert(rest.skip(1) =~= next);
            assert(after.skip(p as int + 1) =~= tail.drop_first());
            assert(tail.drop_first() =~= itn::tokens_of(output(next)));
            if words.len() == 0 {
            } else if words.len() == 1 && words[0] == "and"@ && t.numeric {
                lemma_stays_plain(ws, after, p + 1, p + 1, t, negative);
            } else if words.len() == 1 && words[0] == "point"@ && t.numeric {
                lemma_no_decimals(next, after.skip(p as int + 1));
                lemma_skip_tokens(ws, p as int + 1);
            } else if itn::read_words(t, words) is Advanced {
                let u = itn::read_words(t, words)->Advanced_0;
                lemma_stays_plain(ws, after, p + 1, p + 1, u, negative);
            }
        }
    }
}

/// Where a rewritten number stands, the phrase before it ended already.
proof fn lemma_stopped_by_number(
    ws: Seq<Seq<char>>,
    after: Seq<TokenText>,
    p: nat,
    consumed: nat,
    t: Tally,
    negative: bool,
)
    requires
        p < ws.len(),
        p < after.len(),
        begins_with_number(ws.skip(p as int)),
        stopper(after[p as int]),
        (t.numeric && t.count >= 1) || negative,
        !converts(itn::phrase_from(itn::tokens_of(ws), p, consumed, t, negative)),
    ensures
        !converts(itn::phrase_from(after, p, consumed, t, negative)),
{
    let before = itn::tokens_of(ws);
    let here = before[p as int];
    let words = itn::token_words(here);
    lemma_skip_tokens(ws, p as int);
    assert(before.skip(p as int)[0] == here);
    lemma_number_start(before.skip(p as int));
    lemma_read_words_grow(t, words);
    let now = itn::token_words(after[p as int]);
    lemma_digits_are_no_words(now[0]);
    assert(now =~= seq![now[0]]);
    lemma_sole_word_stops(t, now[0]);
    assert(itn::phrase_from(after, p, consumed, t, negative) == itn::concluded(
        t,
        consumed,
        negative,
    ));
    if itn::says_negative(here) {
        let w = words[0];
        lemma_first_letters(w);
        assert(words =~= seq![w]);
        lemma_signs_differ();
        lemma_sole_word_stops(t, w);
    } else {
        lemma_first_letters(words[0]);
        lemma_number_words_read(t, words);
        if itn::read_words(t, words) is Advanced {
            let u = itn::read_words(t, words)->Advanced_0;
            lemma_will_convert(before, p + 1, p + 1, u, negative);
        }
    }
}

proof fn lemma_signs_differ()
    ensures
        "minus"@ != "and"@,
        "minus"@ != "point"@,
        "negative"@ != "and"@,
        "negative"@ != "point"@,
{
    reveal_strlit("and");
    reveal_strlit("point");
    reveal_strlit("minus");
    reveal_strlit("negative");
    assert("minus"@[0] == 'm' && "negative"@[0] == 'n');
    assert("and"@[0] == 'a' && "point"@[0] == 'p');
}

/// Digit words after a point do not come up by rewriting.
proof fn lemma_no_decimals(ws: Seq<Seq<char>>, after: Seq<TokenText>)
    requires
        rewritable(ws),
        after == itn::tokens_of(output(ws)),
        itn::decimal_run(itn::tokens_of(ws)).len() == 0,
    ensures
        itn::decimal_run(after).len() == 0,
{
    if ws.len() == 0 {
        assert(itn::tokens_of(ws) =~= Seq::<TokenText>::empty());
        assert(output(ws) =~= Seq::<Seq<char>>::empty());
    } else {
        lemma_output_head(ws);
        if begins_with_number(ws) {
            lemma_digits_are_no_words(itn::token_words(after[0])[0]);
        } else {
            assert(after[0] == itn::tokens_of(ws)[0]);
        }
    }
}

/// What a list is rewritten to is not rewritten again.
proof fn lemma_output_stays(ws: Seq<Seq<char>>)
    requires
        rewritable(ws),
    ensures
        itn::rewritten(itn::tokens_of(output(ws))) == Some(output(ws)),
    decreases ws.len(),
{
    let out = output(ws);
    let after = itn::tokens_of(out);
    if ws.len() == 0 {
        assert(itn::tokens_of(ws) =~= Seq::<TokenText>::empty());
        assert(out =~= Seq::<Seq<char>>::empty());
        assert(after =~= Seq::<TokenText>::empty());
    } else {
        lemma_output_head(ws);
        let next = ws.skip(taken(ws));
        lemma_output_stays(next);
        assert(after.drop_first() =~= itn::tokens_of(out.drop_first()));
        if begins_with_number(ws) {
            lemma_stopper_is_plain(after);
        } else {
            lemma_head_stays_plain(ws, after);
        }
        assert(!converts(itn::phrase(after)));
        itn::law_token_recomposes(out[0]);
        assert(after[0] == itn::token_of(out[0]));
        assert(seq![out[0]] + out.drop_first() =~= out);
    }
}

proof fn lemma_stopper_is_plain(after: Seq<TokenText>)
    requires
        after.len() > 0,
        stopper(after[0]),
    ensures
        !converts(itn::phrase(after)),
{
    let ws = itn::token_words(after[0]);
    lemma_digits_are_no_words(ws[0]);
    assert(ws =~= seq![ws[0]]);
    lemma_sole_word_stops(itn::nothing_read(), ws[0]);
}

proof fn lemma_head_stays_plain(ws: Seq<Seq<char>>, after: Seq<TokenText>)
    requires
        ws.len() > 0,
        rewritable(ws),
        !begins_with_number(ws),
        after == itn::tokens_of(output(ws)),
    ensures
        !converts(itn::phrase(after)),
{
    lemma_output_head(ws);
    let before = itn::tokens_of(ws);
    let none = itn::nothing_read();
    assert(after[0] == before[0]);
    assert(after.skip(1) =~= itn::tokens_of(output(ws).drop_first()));
    if itn::says_negative(before[0]) {
        lemma_stays_plain(ws, after, 1, 1, none, true);
    } else {
        let words = itn::token_words(before[0]);
        lemma_read_words_grow(none, words);
        if words.len() > 0 && itn::read_words(none, words) is Advanced {
            let u = itn::read_words(none, words)->Advanced_0;
            lemma_stays_plain(ws, after, 1, 1, u, false);
        }
    }
}

/// What words are rewritten to are words that can be cut into parts.
proof fn lemma_output_words(ws: Seq<Seq<char>>)
    requires
        rewritable(ws),
        forall|i: int| 0 <= i < ws.len() ==> text::solid(#[trigger] ws[i]),
        forall|i: int| 0 <= i < ws.len() ==> itn::separable(#[trigger] ws[i]),
    ensures
        forall|i: int| 0 <= i < output(ws).len() ==> text::solid(#[trigger] output(ws)[i]),
        forall|i: int| 0 <= i < output(ws).len() ==> itn::separable(#[trigger] output(ws)[i]),
    decreases ws.len(),
{
    if ws.len() == 0 {
        assert(itn::tokens_of(ws) =~= Seq::<TokenText>::empty());
        assert(output(ws) =~= Seq::<Seq<char>>::empty());
    } else {
        lemma_output_head(ws);
        assert(itn::separable(ws[0]));
        let k = taken(ws);
        let next = ws.skip(k);
        assert forall|i: int| 0 <= i < next.len() implies text::solid(#[trigger] next[i])
            && itn::separable(next[i]) by {
            assert(next[i] == ws[i + k]);
            assert(text::solid(ws[i + k]));
        }
        lemma_output_words(next);
        assert forall|i: int| 0 <= i < output(ws).len() implies text::solid(
            #[trigger] output(ws)[i],
        ) && itn::separable(output(ws)[i]) by {
            if i > 0 {
                assert(output(ws)[i] == output(next)[i - 1]);
            }
        }
    }
}

/// Rewriting the numbers of a text twice gives what rewriting them once gives.
pub proof fn law_rewriting_twice_changes_nothing(s: Seq<char>)
    requires
        itn::convertible(s),
    ensures
        itn::convertible(itn::normalised(s)),
        itn::normalised(itn::normalised(s)) == itn::normalised(s),
{
    let ws = text::words(s);
    text::lemma_words_are_solid(s);
    lemma_output_words(ws);
    text::lemma_words_of_joined(output(ws));
    lemma_output_stays(ws);
}

proof fn lemma_ascii_words(s: Seq<char>)
    requires
        text::ascii(s),
    ensures
        forall|i: int| 0 <= i < text::words(s).len() ==> text::ascii(#[trigger] text::words(s)[i]),
        s.len() > 0 && !text::white_space(s.last()) ==> text::words(s).len() > 0,
    decreases s.len(),
{
    if s.len() > 0 {
        let init = s.drop_last();
        let c = s.last();
        assert((s[s.len() - 1] as u32) < 128);
        assert forall|i: int| 0 <= i < init.len() implies (#[trigger] init[i] as u32) < 128 by {
            assert(init[i] == s[i]);
        }
        lemma_ascii_words(init);
        let before = text::words(init);
        if !text::white_space(c) {
            if s.len() >= 2 && !text::white_space(s[s.len() - 2]) {
                assert(init.last() == s[s.len() - 2]);
                let last = before[before.len() - 1];
                let longer = last.push(c);
                assert(text::ascii(last));
                assert forall|i: int| 0 <= i < longer.len() implies (#[trigger] longer[i] as u32)
                    < 128 by {
                    if i < last.len() {
                        assert(longer[i] == last[i]);
                    }
                }
            } else {
                assert(text::ascii(seq![c]));
            }
        }
    }
}

/// ASCII text can be rewritten as long as its numbers are in range.
pub proof fn law_ascii_text_needs_only_the_range(s: Seq<char>)
    requires
        text::ascii(s),
    ensures
        itn::convertible(s) <==> itn::rewritten(itn::tokens_of(text::words(s))) is Some,
{
    lemma_ascii_words(s);
    assert forall|i: int| 0 <= i < text::words(s).len() implies itn::separable(
        #[trigger] text::words(s)[i],
    ) by {
        let w = text::words(s)[i];
        assert(text::ascii(w));
        lemma_trail_bare(w);
    }
}

} // verus!
