//! Inverse text normalisation for English: spoken number words become digits.

pub mod laws;
pub mod stability;

use vstd::prelude::*;
use vstd::slice::slice_subrange;

use crate::text;

verus! {

broadcast use text::lemma_texts_push;

/// A word of the input: punctuation, what it surrounds, punctuation.
#[derive(Debug, Clone)]
pub struct TokenPart {
    pub leading: String,
    pub core: String,
    pub trailing: String,
}

/// The texts of a [`TokenPart`].
#[verifier::ext_equal]
pub struct TokenText {
    pub leading: Seq<char>,
    pub core: Seq<char>,
    pub trailing: Seq<char>,
}

impl View for TokenPart {
    type V = TokenText;

    open spec fn view(&self) -> TokenText {
        TokenText { leading: self.leading@, core: self.core@, trailing: self.trailing@ }
    }
}

/// The texts of a list of tokens.
pub open spec fn token_texts(v: Seq<TokenPart>) -> Seq<TokenText> {
    Seq::new(v.len(), |i: int| v[i]@)
}

// ---------------------------------------------------------------------------
// Tokens
// ---------------------------------------------------------------------------

/// The number of characters of `s` before its first alphanumeric one.
pub open spec fn lead_len(s: Seq<char>) -> nat
    decreases s.len(),
{
    if s.len() == 0 || text::alphanumeric(s[0]) {
        0
    } else {
        1 + lead_len(s.drop_first())
    }
}

/// The number of characters of `s` up to its last alphanumeric one, inclusive.
pub open spec fn core_end(s: Seq<char>) -> nat
    decreases s.len(),
{
    if s.len() == 0 || text::alphanumeric(s.last()) {
        s.len()
    } else {
        core_end(s.drop_last())
    }
}

/// Whether the core of a word can be cut out: a word ends its core with an
/// ASCII character, if it has a core.
pub open spec fn separable(raw: Seq<char>) -> bool {
    core_end(raw) > 0 ==> (raw[core_end(raw) - 1] as u32) < 0x80
}

/// A word cut at its first and after its last alphanumeric character. All of
/// a word without alphanumeric characters is leading.
pub open spec fn token_of(raw: Seq<char>) -> TokenText {
    if core_end(raw) == 0 {
        TokenText { leading: raw, core: seq![], trailing: seq![] }
    } else {
        TokenText {
            leading: raw.take(lead_len(raw) as int),
            core: raw.subrange(lead_len(raw) as int, core_end(raw) as int),
            trailing: raw.skip(core_end(raw) as int),
        }
    }
}

proof fn lemma_lead_len(s: Seq<char>, k: int)
    requires
        0 <= k < s.len(),
        text::alphanumeric(s[k]),
        forall|j: int| 0 <= j < k ==> !text::alphanumeric(#[trigger] s[j]),
    ensures
        lead_len(s) == k,
    decreases k,
{
    if k > 0 {
        assert(!text::alphanumeric(s[0]));
        assert forall|j: int| 0 <= j < k - 1 implies !text::alphanumeric(#[trigger] s.drop_first()[j]) by {
            assert(!text::alphanumeric(s[j + 1]));
        }
        lemma_lead_len(s.drop_first(), k - 1);
    }
}

proof fn lemma_core_end(s: Seq<char>, k: int)
    requires
        0 <= k <= s.len(),
        k > 0 ==> text::alphanumeric(s[k - 1]),
        forall|j: int| k <= j < s.len() ==> !text::alphanumeric(#[trigger] s[j]),
    ensures
        core_end(s) == k,
    decreases s.len() - k,
{
    if k < s.len() {
        assert(!text::alphanumeric(s[s.len() - 1]));
        assert forall|j: int| k <= j < s.drop_last().len() implies !text::alphanumeric(
            #[trigger] s.drop_last()[j],
        ) by {
            assert(!text::alphanumeric(s[j]));
        }
        lemma_core_end(s.drop_last(), k);
    }
}

/// Cuts a word into leading punctuation, core and trailing punctuation.
/// `None` when the core ends in a character outside ASCII.
pub fn split_token(raw: &str) -> (r: Option<TokenPart>)
    ensures
        r is Some <==> separable(raw@),
        r matches Some(token) ==> token@ == token_of(raw@),
{
    let x = text::chars_of(raw);
    let mut end: usize = x.len();
    while end > 0 && !x[end - 1].is_alphanumeric()
        invariant
            end <= x@.len(),
            forall|j: int| end <= j < x@.len() ==> !text::alphanumeric(#[trigger] x@[j]),
        decreases end,
    {
        end -= 1;
    }
    proof {
        lemma_core_end(raw@, end as int);
    }
    if end == 0 {
        let token = TokenPart {
            leading: text::string_of(x.as_slice()),
            core: String::new(),
            trailing: String::new(),
        };
        assert(token@ =~= token_of(raw@));
        return Some(token);
    }
    if (x[end - 1] as u32) >= 0x80 {
        return None;
    }
    let mut start: usize = 0;
    while !x[start].is_alphanumeric()
        invariant
            start < end <= x@.len(),
            text::alphanumeric(x@[end - 1]),
            forall|j: int| 0 <= j < start ==> !text::alphanumeric(#[trigger] x@[j]),
        decreases end - start,
    {
        start += 1;
    }
    proof {
        lemma_lead_len(raw@, start as int);
    }
    let token = TokenPart {
        leading: text::string_between(x.as_slice(), 0, start),
        core: text::string_between(x.as_slice(), start, end),
        trailing: text::string_between(x.as_slice(), end, x.len()),
    };
    assert(token@ =~= token_of(raw@));
    Some(token)
}

/// The parts of a split word make up the word again.
pub proof fn law_token_recomposes(raw: Seq<char>)
    ensures
        token_of(raw).leading + token_of(raw).core + token_of(raw).trailing == raw,
{
    lemma_core_end_bound(raw);
    let t = token_of(raw);
    if core_end(raw) > 0 {
        lemma_lead_before_end(raw);
    }
    assert(t.leading + t.core + t.trailing =~= raw);
}

proof fn lemma_core_end_bound(s: Seq<char>)
    ensures
        core_end(s) <= s.len(),
        core_end(s) > 0 ==> text::alphanumeric(s[core_end(s) - 1]),
    decreases s.len(),
{
    if s.len() > 0 && !text::alphanumeric(s.last()) {
        lemma_core_end_bound(s.drop_last());
    }
}

proof fn lemma_lead_before_end(s: Seq<char>)
    requires
        core_end(s) > 0,
    ensures
        lead_len(s) < core_end(s) <= s.len(),
{
    lemma_core_end_bound(s);
    lemma_lead_below(s, core_end(s) - 1);
}

proof fn lemma_lead_below(s: Seq<char>, k: int)
    requires
        0 <= k < s.len(),
        text::alphanumeric(s[k]),
    ensures
        lead_len(s) <= k,
    decreases s.len(),
{
    if !text::alphanumeric(s[0]) {
        lemma_lead_below(s.drop_first(), k - 1);
    }
}

// ---------------------------------------------------------------------------
// Number words
// ---------------------------------------------------------------------------

/// The non-blank pieces of a list, trimmed and in ASCII lower case.
pub open spec fn lowered_pieces(pieces: Seq<Seq<char>>) -> Seq<Seq<char>>
    decreases pieces.len(),
{
    if pieces.len() == 0 {
        seq![]
    } else {
        let before = lowered_pieces(pieces.drop_last());
        let piece = text::trimmed(pieces.last());
        if piece.len() == 0 {
            before
        } else {
            before.push(text::ascii_lower(piece))
        }
    }
}

/// The words of a token: what hyphens separate in its core.
pub open spec fn token_words(token: TokenText) -> Seq<Seq<char>> {
    lowered_pieces(text::split_on(token.core, '-'))
}

/// The words that hyphens separate in a token, in lower case.
pub fn normalized_words(token: &TokenPart) -> (r: Vec<String>)
    ensures
        text::texts(r@) == token_words(token@),
{
    let pieces = text::split(token.core.as_str(), '-');
    let mut out: Vec<String> = Vec::new();
    let mut i: usize = 0;
    while i < pieces.len()
        invariant
            i <= pieces@.len(),
            text::texts(out@) == lowered_pieces(text::texts(pieces@).take(i as int)),
        decreases pieces@.len() - i,
    {
        proof {
            let next = text::texts(pieces@).take(i + 1);
            assert(next.drop_last() =~= text::texts(pieces@).take(i as int));
            assert(next.last() == pieces@[i as int]@);
        }
        let piece = text::trim(pieces[i].as_str());
        if !piece.as_str().is_empty() {
            out.push(text::to_ascii_lowercase(piece.as_str()));
        }
        i += 1;
    }
    assert(text::texts(pieces@).take(i as int) =~= text::texts(pieces@));
    out
}

/// The word of a token that has exactly one.
pub open spec fn sole_word(token: TokenText) -> Option<Seq<char>> {
    if token_words(token).len() == 1 {
        Some(token_words(token)[0])
    } else {
        None
    }
}

/// The word of a token that has exactly one.
pub fn normalized_single_word(token: &TokenPart) -> (r: Option<String>)
    ensures
        text::opt_text(r) == sole_word(token@),
{
    let words = normalized_words(token);
    assert(text::texts(words@).len() == words@.len());
    if words.len() == 1 {
        assert(text::texts(words@)[0] == words@[0]@);
        Some(words[0].clone())
    } else {
        None
    }
}

/// The value of a digit word.
pub open spec fn digit_word(w: Seq<char>) -> Option<u32> {
    if w == "zero"@ || w == "oh"@ {
        Some(0)
    } else if w == "one"@ {
        Some(1)
    } else if w == "two"@ {
        Some(2)
    } else if w == "three"@ {
        Some(3)
    } else if w == "four"@ {
        Some(4)
    } else if w == "five"@ {
        Some(5)
    } else if w == "six"@ {
        Some(6)
    } else if w == "seven"@ {
        Some(7)
    } else if w == "eight"@ {
        Some(8)
    } else if w == "nine"@ {
        Some(9)
    } else {
        None
    }
}

/// The value of a word for ten to nineteen, or for a multiple of ten.
pub open spec fn teen_or_tens_word(w: Seq<char>) -> Option<u32> {
    if w == "ten"@ {
        Some(10)
    } else if w == "eleven"@ {
        Some(11)
    } else if w == "twelve"@ {
        Some(12)
    } else if w == "thirteen"@ {
        Some(13)
    } else if w == "fourteen"@ {
        Some(14)
    } else if w == "fifteen"@ {
        Some(15)
    } else if w == "sixteen"@ {
        Some(16)
    } else if w == "seventeen"@ {
        Some(17)
    } else if w == "eighteen"@ {
        Some(18)
    } else if w == "nineteen"@ {
        Some(19)
    } else if w == "twenty"@ {
        Some(20)
    } else if w == "thirty"@ {
        Some(30)
    } else if w == "forty"@ {
        Some(40)
    } else if w == "fifty"@ {
        Some(50)
    } else if w == "sixty"@ {
        Some(60)
    } else if w == "seventy"@ {
        Some(70)
    } else if w == "eighty"@ {
        Some(80)
    } else if w == "ninety"@ {
        Some(90)
    } else {
        None
    }
}

/// The factor of a magnitude word.
pub open spec fn magnitude_word(w: Seq<char>) -> Option<i64> {
    if w == "thousand"@ {
        Some(1_000)
    } else if w == "million"@ {
        Some(1_000_000)
    } else if w == "billion"@ {
        Some(1_000_000_000)
    } else {
        None
    }
}

/// The value of a digit word.
pub fn digit_value(word: &str) -> (r: Option<u32>)
    ensures
        r == digit_word(word@),
{
    if text::same(word, "zero") || text::same(word, "oh") {
        Some(0)
    } else if text::same(word, "one") {
        Some(1)
    } else if text::same(word, "two") {
        Some(2)
    } else if text::same(word, "three") {
        Some(3)
    } else if text::same(word, "four") {
        Some(4)
    } else if text::same(word, "five") {
        Some(5)
    } else if text::same(word, "six") {
        Some(6)
    } else if text::same(word, "seven") {
        Some(7)
    } else if text::same(word, "eight") {
        Some(8)
    } else if text::same(word, "nine") {
        Some(9)
    } else {
        None
    }
}

/// The value of a word for ten to nineteen, or for a multiple of ten.
pub fn teen_or_tens_value(word: &str) -> (r: Option<u32>)
    ensures
        r == teen_or_tens_word(word@),
{
    if text::same(word, "ten") {
        Some(10)
    } else if text::same(word, "eleven") {
        Some(11)
    } else if text::same(word, "twelve") {
        Some(12)
    } else if text::same(word, "thirteen") {
        Some(13)
    } else if text::same(word, "fourteen") {
        Some(14)
    } else if text::same(word, "fifteen") {
        Some(15)
    } else if text::same(word, "sixteen") {
        Some(16)
    } else if text::same(word, "seventeen") {
        Some(17)
    } else if text::same(word, "eighteen") {
        Some(18)
    } else if text::same(word, "nineteen") {
        Some(19)
    } else if text::same(word, "twenty") {
        Some(20)
    } else if text::same(word, "thirty") {
        Some(30)
    } else if text::same(word, "forty") {
        Some(40)
    } else if text::same(word, "fifty") {
        Some(50)
    } else if text::same(word, "sixty") {
        Some(60)
    } else if text::same(word, "seventy") {
        Some(70)
    } else if text::same(word, "eighty") {
        Some(80)
    } else if text::same(word, "ninety") {
        Some(90)
    } else {
        None
    }
}

/// The factor of a magnitude word.
pub fn magnitude_value(word: &str) -> (r: Option<i64>)
    ensures
        r == magnitude_word(word@),
{
    if text::same(word, "thousand") {
        Some(1_000)
    } else if text::same(word, "million") {
        Some(1_000_000)
    } else if text::same(word, "billion") {
        Some(1_000_000_000)
    } else {
        None
    }
}

/// The value of a word that may stand after the decimal point.
pub fn decimal_digit_value(word: &str) -> (r: Option<u32>)
    ensures
        r == digit_word(word@),
{
    digit_value(word)
}

// ---------------------------------------------------------------------------
// Number phrases
// ---------------------------------------------------------------------------

/// What has been read of a number phrase: the value is `total + group`, where
/// `group` is what no magnitude word has closed yet.
pub struct Tally {
    pub total: int,
    pub group: int,
    /// A number word has been read.
    pub numeric: bool,
    /// A number word other than a digit has been read.
    pub complex: bool,
    /// The number of number words read.
    pub count: nat,
}

/// The outcome of reading words into a [`Tally`].
pub enum Reading {
    /// A value left the range of 64-bit integers.
    OutOfRange,
    /// The last word read is no number word.
    Stopped(Tally),
    /// All words were number words.
    Advanced(Tally),
}

/// Whether a value fits the integers that phrases are computed in.
pub open spec fn in_range(v: int) -> bool {
    i64::MIN <= v <= i64::MAX
}

/// The tally after another number word.
pub open spec fn counted(t: Tally, total: int, group: int, complex: bool) -> Tally {
    Tally { total, group, numeric: true, complex: t.complex || complex, count: t.count + 1 }
}

/// What a group counts as in front of a word that multiplies it.
pub open spec fn multiplied_group(group: int) -> int {
    if group == 0 {
        1
    } else {
        group
    }
}

/// Reads one word.
pub open spec fn read_word(t: Tally, w: Seq<char>) -> Reading {
    if digit_word(w) is Some {
        let group = t.group + digit_word(w)->0;
        if in_range(group) {
            Reading::Advanced(counted(t, t.total, group, false))
        } else {
            Reading::OutOfRange
        }
    } else if teen_or_tens_word(w) is Some {
        let group = t.group + teen_or_tens_word(w)->0;
        if in_range(group) {
            Reading::Advanced(counted(t, t.total, group, true))
        } else {
            Reading::OutOfRange
        }
    } else if w == "hundred"@ {
        let group = multiplied_group(t.group) * 100;
        if in_range(group) {
            Reading::Advanced(counted(t, t.total, group, true))
        } else {
            Reading::OutOfRange
        }
    } else if magnitude_word(w) is Some {
        let closed = multiplied_group(t.group) * magnitude_word(w)->0;
        let total = t.total + closed;
        if in_range(closed) && in_range(total) {
            Reading::Advanced(counted(t, total, 0, true))
        } else {
            Reading::OutOfRange
        }
    } else {
        Reading::Stopped(t)
    }
}

/// Reads words from the first on, up to one that is no number word.
pub open spec fn read_words(t: Tally, ws: Seq<Seq<char>>) -> Reading
    decreases ws.len(),
{
    if ws.len() == 0 {
        Reading::Advanced(t)
    } else {
        match read_words(t, ws.drop_last()) {
            Reading::Advanced(u) => read_word(u, ws.last()),
            other => other,
        }
    }
}

/// What stands at the beginning of a list of tokens.
pub enum PhraseText {
    /// No number to rewrite.
    Plain,
    /// A number whose value leaves the range of 64-bit integers.
    OutOfRange,
    /// A number: the tokens it takes up, and its digits.
    Number(nat, Seq<char>),
}

/// The sign of a rendered number.
pub open spec fn sign(negative: bool) -> Seq<char> {
    if negative {
        seq!['-']
    } else {
        seq![]
    }
}

/// The phrase that ends after `consumed` tokens with tally `t`. A lone digit
/// word stays a word, unless it is negative.
pub open spec fn concluded(t: Tally, consumed: nat, negative: bool) -> PhraseText {
    if !t.numeric || !(t.complex || t.count >= 2 || negative) {
        PhraseText::Plain
    } else if !in_range(t.total + t.group) {
        PhraseText::OutOfRange
    } else {
        PhraseText::Number(consumed, sign(negative) + text::signed_decimal(t.total + t.group))
    }
}

/// The digits that the digit words at the beginning of `tokens` spell.
pub open spec fn decimal_run(tokens: Seq<TokenText>) -> Seq<char>
    decreases tokens.len(),
{
    if tokens.len() > 0 && sole_word(tokens[0]) is Some && digit_word(sole_word(tokens[0])->0) is Some {
        seq![text::digit(digit_word(sole_word(tokens[0])->0)->0 as int)] + decimal_run(
            tokens.drop_first(),
        )
    } else {
        seq![]
    }
}

/// The phrase that goes on at `tokens[idx]`, with `consumed` tokens taken up.
pub open spec fn phrase_from(
    tokens: Seq<TokenText>,
    idx: nat,
    consumed: nat,
    t: Tally,
    negative: bool,
) -> PhraseText
    decreases tokens.len() - idx,
{
    if idx >= tokens.len() {
        concluded(t, consumed, negative)
    } else {
        let ws = token_words(tokens[idx as int]);
        if ws.len() == 0 {
            concluded(t, consumed, negative)
        } else if ws.len() == 1 && ws[0] == "and"@ && t.numeric {
            phrase_from(tokens, idx + 1, idx + 1, t, negative)
        } else if ws.len() == 1 && ws[0] == "point"@ && t.numeric {
            let decimals = decimal_run(tokens.skip((idx + 1) as int));
            if decimals.len() == 0 {
                concluded(t, consumed, negative)
            } else if !in_range(t.total + t.group) {
                PhraseText::OutOfRange
            } else {
                PhraseText::Number(
                    idx + 1 + decimals.len(),
                    sign(negative) + text::signed_decimal(t.total + t.group) + seq!['.'] + decimals,
                )
            }
        } else {
            match read_words(t, ws) {
                Reading::OutOfRange => PhraseText::OutOfRange,
                Reading::Stopped(u) => concluded(u, consumed, negative),
                Reading::Advanced(u) => phrase_from(tokens, idx + 1, idx + 1, u, negative),
            }
        }
    }
}

/// The tally before anything has been read.
pub open spec fn nothing_read() -> Tally {
    Tally { total: 0, group: 0, numeric: false, complex: false, count: 0 }
}

/// Whether a token says that the number after it is negative.
pub open spec fn says_negative(token: TokenText) -> bool {
    sole_word(token) == Some("minus"@) || sole_word(token) == Some("negative"@)
}

/// The number phrase at the beginning of `tokens`.
pub open spec fn phrase(tokens: Seq<TokenText>) -> PhraseText {
    if tokens.len() == 0 {
        PhraseText::Plain
    } else if says_negative(tokens[0]) {
        phrase_from(tokens, 1, 1, nothing_read(), true)
    } else {
        phrase_from(tokens, 0, 0, nothing_read(), false)
    }
}

/// What stands at the beginning of a list of tokens.
#[derive(Debug)]
pub enum NumberPhrase {
    /// No number to rewrite.
    Plain,
    /// A number whose value leaves the range of 64-bit integers.
    OutOfRange,
    /// A number: the tokens it takes up, and its digits.
    Number(usize, String),
}

impl View for NumberPhrase {
    type V = PhraseText;

    open spec fn view(&self) -> PhraseText {
        match self {
            NumberPhrase::Plain => PhraseText::Plain,
            NumberPhrase::OutOfRange => PhraseText::OutOfRange,
            NumberPhrase::Number(consumed, digits) => PhraseText::Number(*consumed as nat, digits@),
        }
    }
}

/// The digits that the digit words at the beginning of `tokens` spell, and the
/// number of tokens they take up. `None` when there is no such word.
pub fn parse_decimal_part(tokens: &[TokenPart]) -> (r: Option<(usize, String)>)
    ensures
        r is None <==> decimal_run(token_texts(tokens@)).len() == 0,
        r matches Some((consumed, digits)) ==> {
            &&& digits@ == decimal_run(token_texts(tokens@))
            &&& consumed == digits@.len()
            &&& consumed <= tokens@.len()
        },
{
    let mut digits = String::new();
    let mut consumed: usize = 0;
    let ghost all = token_texts(tokens@);
    assert(all.skip(0) =~= all);
    assert(decimal_run(all) =~= digits@ + decimal_run(all.skip(0)));
    while consumed < tokens.len()
        invariant_except_break
            decimal_run(all) == digits@ + decimal_run(all.skip(consumed as int)),
        invariant
            all == token_texts(tokens@),
            consumed <= tokens@.len(),
            consumed == digits@.len(),
        ensures
            decimal_run(all) == digits@,
        decreases tokens@.len() - consumed,
    {
        let ghost rest = all.skip(consumed as int);
        assert(rest[0] == tokens@[consumed as int]@);
        assert(rest.drop_first() =~= all.skip(consumed + 1));
        let word = normalized_single_word(&tokens[consumed]);
        match word {
            None => {
                assert(decimal_run(all) =~= digits@);
                break;
            },
            Some(word) => {
                match decimal_digit_value(word.as_str()) {
                    None => {
                        assert(decimal_run(all) =~= digits@);
                        break;
                    },
                    Some(value) => {
                        let ghost before = digits@;
                        digits.push((48 + value as u8) as char);
                        proof {
                            assert(decimal_run(rest) == seq![text::digit(value as int)] + decimal_run(
                                rest.drop_first(),
                            ));
                            assert(decimal_run(all) =~= digits@ + decimal_run(rest.drop_first()));
                        }
                        consumed += 1;
                    },
                }
            },
        }
        proof {
            if consumed == tokens@.len() {
                assert(decimal_run(all.skip(consumed as int)) =~= seq![]);
                assert(decimal_run(all) =~= digits@);
            }
        }
    }
    if digits.as_str().is_empty() {
        None
    } else {
        Some((consumed, digits))
    }
}

/// A [`Tally`] in machine integers. Word counts beyond two are not told apart.
#[derive(Debug, Clone, Copy)]
pub struct RunningTally {
    total: i64,
    group: i64,
    numeric: bool,
    complex: bool,
    count: usize,
}

impl RunningTally {
    /// Whether this is the tally `t`.
    pub closed spec fn holds(self, t: Tally) -> bool {
        &&& self.total == t.total
        &&& self.group == t.group
        &&& self.numeric == t.numeric
        &&& self.complex == t.complex
        &&& self.count == (if t.count < 2 {
            t.count
        } else {
            2
        })
    }

    fn new() -> (r: Self)
        ensures
            r.holds(nothing_read()),
    {
        RunningTally { total: 0, group: 0, numeric: false, complex: false, count: 0 }
    }

    fn counted(self, total: i64, group: i64, complex: bool, t: Ghost<Tally>) -> (r: Self)
        requires
            self.holds(t@),
        ensures
            r.holds(counted(t@, total as int, group as int, complex)),
    {
        RunningTally {
            total,
            group,
            numeric: true,
            complex: self.complex || complex,
            count: if self.count < 2 {
                self.count + 1
            } else {
                2
            },
        }
    }
}

/// What became of reading words: see [`Reading`].
enum Outcome {
    OutOfRange,
    Stopped(RunningTally),
    Advanced(RunningTally),
}

impl Outcome {
    spec fn holds(self, r: Reading) -> bool {
        match r {
            Reading::OutOfRange => self is OutOfRange,
            Reading::Stopped(t) => self matches Outcome::Stopped(u) && u.holds(t),
            Reading::Advanced(t) => self matches Outcome::Advanced(u) && u.holds(t),
        }
    }
}

fn read_one_word(tally: RunningTally, word: &str, t: Ghost<Tally>) -> (r: Outcome)
    requires
        tally.holds(t@),
    ensures
        r.holds(read_word(t@, word@)),
{
    if let Some(value) = digit_value(word) {
        return match tally.group.checked_add(value as i64) {
            Some(group) => Outcome::Advanced(tally.counted(tally.total, group, false, t)),
            None => Outcome::OutOfRange,
        };
    }
    if let Some(value) = teen_or_tens_value(word) {
        return match tally.group.checked_add(value as i64) {
            Some(group) => Outcome::Advanced(tally.counted(tally.total, group, true, t)),
            None => Outcome::OutOfRange,
        };
    }
    let multiplied: i64 = if tally.group == 0 {
        1
    } else {
        tally.group
    };
    if text::same(word, "hundred") {
        return match multiplied.checked_mul(100) {
            Some(group) => Outcome::Advanced(tally.counted(tally.total, group, true, t)),
            None => Outcome::OutOfRange,
        };
    }
    if let Some(factor) = magnitude_value(word) {
        return match multiplied.checked_mul(factor) {
            Some(closed) => match tally.total.checked_add(closed) {
                Some(total) => Outcome::Advanced(tally.counted(total, 0, true, t)),
                None => Outcome::OutOfRange,
            },
            None => Outcome::OutOfRange,
        };
    }
    Outcome::Stopped(tally)
}

fn read_all_words(tally: RunningTally, words: &[String], t: Ghost<Tally>) -> (r: Outcome)
    requires
        tally.holds(t@),
    ensures
        r.holds(read_words(t@, text::texts(words@))),
{
    let mut current = tally;
    let mut i: usize = 0;
    let ghost all = text::texts(words@);
    let mut read: Ghost<Tally> = Ghost(t@);
    while i < words.len()
        invariant
            i <= words@.len(),
            all == text::texts(words@),
            current.holds(read@),
            read_words(t@, all.take(i as int)) == Reading::Advanced(read@),
        decreases words@.len() - i,
    {
        proof {
            assert(all.take(i + 1).drop_last() =~= all.take(i as int));
            assert(all.take(i + 1).last() == words@[i as int]@);
        }
        match read_one_word(current, words[i].as_str(), read) {
            Outcome::Advanced(next) => {
                current = next;
                proof {
                    read@ = read_word(read@, words@[i as int]@)->Advanced_0;
                }
            },
            other => {
                proof {
                    lemma_read_words_stuck(t@, all, i + 1);
                }
                return other;
            },
        }
        i += 1;
    }
    assert(all.take(i as int) =~= all);
    Outcome::Advanced(current)
}

/// Words after one that stopped the reading change nothing.
proof fn lemma_read_words_stuck(t: Tally, ws: Seq<Seq<char>>, k: int)
    requires
        0 <= k <= ws.len(),
        !(read_words(t, ws.take(k)) is Advanced),
    ensures
        read_words(t, ws) == read_words(t, ws.take(k)),
    decreases ws.len() - k,
{
    if k == ws.len() {
        assert(ws.take(k) =~= ws);
    } else {
        assert(ws.take(k + 1).drop_last() =~= ws.take(k));
        lemma_read_words_stuck(t, ws, k + 1);
    }
}

/// The phrase that ends here.
fn conclude(tally: RunningTally, consumed: usize, negative: bool, t: Ghost<Tally>) -> (r: NumberPhrase)
    requires
        tally.holds(t@),
    ensures
        r@ == concluded(t@, consumed as nat, negative),
{
    if !tally.numeric || !(tally.complex || tally.count >= 2 || negative) {
        return NumberPhrase::Plain;
    }
    match tally.total.checked_add(tally.group) {
        None => NumberPhrase::OutOfRange,
        Some(value) => NumberPhrase::Number(consumed, rendered(value, negative)),
    }
}

fn rendered(value: i64, negative: bool) -> (r: String)
    ensures
        r@ == sign(negative) + text::signed_decimal(value as int),
{
    let mut out = String::new();
    if negative {
        out.push('-');
    }
    let digits = text::signed_decimal_of(value);
    out.append(digits.as_str());
    assert(out@ =~= sign(negative) + text::signed_decimal(value as int));
    out
}

/// Reads the number phrase at the beginning of `tokens`: an optional `minus`
/// or `negative`, number words with `and` between them, and an optional
/// `point` with digit words after it.
pub fn parse_number_phrase(tokens: &[TokenPart]) -> (r: NumberPhrase)
    ensures
        r@ == phrase(token_texts(tokens@)),
        r matches NumberPhrase::Number(consumed, _) ==> consumed <= tokens@.len(),
{
    if tokens.len() == 0 {
        return NumberPhrase::Plain;
    }
    let ghost all = token_texts(tokens@);
    let mut idx: usize = 0;
    let mut negative = false;
    if let Some(word) = normalized_single_word(&tokens[0]) {
        if text::same(word.as_str(), "minus") || text::same(word.as_str(), "negative") {
            negative = true;
            idx = 1;
        }
    }
    let mut consumed: usize = idx;
    let mut tally = RunningTally::new();
    let mut t: Ghost<Tally> = Ghost(nothing_read());
    while idx < tokens.len()
        invariant
            all == token_texts(tokens@),
            idx <= tokens@.len(),
            consumed <= tokens@.len(),
            tally.holds(t@),
            phrase(all) == phrase_from(all, idx as nat, consumed as nat, t@, negative),
        decreases tokens@.len() - idx,
    {
        let words = normalized_words(&tokens[idx]);
        let ghost ws = text::texts(words@);
        assert(ws == token_words(all[idx as int]));
        assert(ws.len() == words@.len());
        if words.len() == 0 {
            return conclude(tally, consumed, negative, t);
        }
        assert(ws[0] == words@[0]@);
        if words.len() == 1 && tally.numeric && text::same(words[0].as_str(), "and") {
            idx += 1;
            consumed = idx;
            continue;
        }
        assert(!(ws.len() == 1 && ws[0] == "and"@ && t@.numeric));
        if words.len() == 1 && tally.numeric && text::same(words[0].as_str(), "point") {
            let rest = slice_subrange(tokens, idx + 1, tokens.len());
            assert(token_texts(rest@) =~= all.skip(idx + 1));
            return match parse_decimal_part(rest) {
                Some((taken, digits)) => match tally.total.checked_add(tally.group) {
                    None => NumberPhrase::OutOfRange,
                    Some(value) => {
                        let mut number = rendered(value, negative);
                        number.push('.');
                        number.append(digits.as_str());
                        assert(number@ =~= sign(negative) + text::signed_decimal(value as int)
                            + seq!['.'] + digits@);
                        NumberPhrase::Number(idx + 1 + taken, number)
                    },
                },
                None => conclude(tally, consumed, negative, t),
            };
        }
        match read_all_words(tally, words.as_slice(), t) {
            Outcome::OutOfRange => {
                return NumberPhrase::OutOfRange;
            },
            Outcome::Stopped(stopped) => {
                let ghost u = read_words(t@, ws)->Stopped_0;
                return conclude(stopped, consumed, negative, Ghost(u));
            },
            Outcome::Advanced(next) => {
                tally = next;
                proof {
                    t@ = read_words(t@, ws)->Advanced_0;
                }
            },
        }
        idx += 1;
        consumed = idx;
    }
    conclude(tally, consumed, negative, t)
}

// ---------------------------------------------------------------------------
// Whole texts
// ---------------------------------------------------------------------------

/// The words of the rewritten text. `None` when a number is out of range.
pub open spec fn rewritten(tokens: Seq<TokenText>) -> Option<Seq<Seq<char>>>
    decreases tokens.len(),
{
    if tokens.len() == 0 {
        Some(seq![])
    } else {
        match phrase(tokens) {
            PhraseText::OutOfRange => None,
            PhraseText::Number(consumed, number) if 0 < consumed <= tokens.len() => match rewritten(
                tokens.skip(consumed as int),
            ) {
                Some(rest) => Some(
                    seq![tokens[0].leading + number + tokens[consumed - 1].trailing] + rest,
                ),
                None => None,
            },
            _ => match rewritten(tokens.drop_first()) {
                Some(rest) => Some(
                    seq![tokens[0].leading + tokens[0].core + tokens[0].trailing] + rest,
                ),
                None => None,
            },
        }
    }
}

/// The tokens of a list of words.
pub open spec fn tokens_of(ws: Seq<Seq<char>>) -> Seq<TokenText> {
    Seq::new(ws.len(), |i: int| token_of(ws[i]))
}

/// Whether every word can be cut into parts, and every number is in range.
pub open spec fn convertible(s: Seq<char>) -> bool {
    &&& forall|i: int| 0 <= i < text::words(s).len() ==> separable(#[trigger] text::words(s)[i])
    &&& rewritten(tokens_of(text::words(s))) is Some
}

/// The text with its number phrases in digits, words separated by one space.
pub open spec fn normalised(s: Seq<char>) -> Seq<char> {
    text::joined(rewritten(tokens_of(text::words(s)))->0, seq![' '])
}

/// Rewrites the number phrases of a list of tokens.
fn rewrite_tokens(tokens: &[TokenPart]) -> (r: Option<Vec<String>>)
    ensures
        r is Some <==> rewritten(token_texts(tokens@)) is Some,
        r matches Some(out) ==> Some(text::texts(out@)) == rewritten(token_texts(tokens@)),
{
    let ghost all = token_texts(tokens@);
    let mut output: Vec<String> = Vec::new();
    let mut idx: usize = 0;
    proof {
        assert(all.skip(0) =~= all);
        if rewritten(all) is Some {
            assert(text::texts(output@) + rewritten(all)->0 =~= rewritten(all)->0);
        }
    }
    while idx < tokens.len()
        invariant
            all == token_texts(tokens@),
            idx <= tokens@.len(),
            rewritten(all) == (match rewritten(all.skip(idx as int)) {
                Some(rest) => Some(text::texts(output@) + rest),
                None => None,
            }),
        decreases tokens@.len() - idx,
    {
        let rest = slice_subrange(tokens, idx, tokens.len());
        let ghost before = text::texts(output@);
        let ghost here = all.skip(idx as int);
        assert(token_texts(rest@) =~= here);
        assert(here[0] == tokens@[idx as int]@);
        match parse_number_phrase(rest) {
            NumberPhrase::OutOfRange => {
                return None;
            },
            NumberPhrase::Number(consumed, number) => {
                if consumed > 0 {
                    let last = idx + consumed - 1;
                    assert(here[consumed - 1] == tokens@[last as int]@);
                    let word = text::concat3(
                        tokens[idx].leading.as_str(),
                        number.as_str(),
                        tokens[last].trailing.as_str(),
                    );
                    output.push(word);
                    proof {
                        let tail = here.skip(consumed as int);
                        assert(tail =~= all.skip(idx + consumed));
                        if rewritten(tail) is Some {
                            assert(before + (seq![word@] + rewritten(tail)->0) =~= before.push(word@)
                                + rewritten(tail)->0);
                        }
                    }
                    idx += consumed;
                    continue;
                }
            },
            NumberPhrase::Plain => {},
        }
        let word = text::concat3(
            tokens[idx].leading.as_str(),
            tokens[idx].core.as_str(),
            tokens[idx].trailing.as_str(),
        );
        output.push(word);
        proof {
            let tail = here.drop_first();
            assert(tail =~= all.skip(idx + 1));
            if rewritten(tail) is Some {
                assert(before + (seq![word@] + rewritten(tail)->0) =~= before.push(word@)
                    + rewritten(tail)->0);
            }
        }
        idx += 1;
    }
    proof {
        let tail = all.skip(idx as int);
        assert(tail.len() == 0);
        assert(text::texts(output@) + rewritten(tail)->0 =~= text::texts(output@));
    }
    Some(output)
}

/// Cuts every word of a text. `None` when one of them cannot be cut.
fn tokenize(s: &str) -> (r: Option<Vec<TokenPart>>)
    ensures
        r is Some <==> forall|i: int|
            0 <= i < text::words(s@).len() ==> separable(#[trigger] text::words(s@)[i]),
        r matches Some(tokens) ==> token_texts(tokens@) == tokens_of(text::words(s@)),
{
    let words = text::split_whitespace(s);
    let ghost ws = text::words(s@);
    let mut tokens: Vec<TokenPart> = Vec::new();
    let mut i: usize = 0;
    while i < words.len()
        invariant
            ws == text::texts(words@),
            ws == text::words(s@),
            i <= words@.len(),
            tokens@.len() == i,
            forall|j: int| 0 <= j < i ==> separable(#[trigger] ws[j]),
            forall|j: int| 0 <= j < i ==> (#[trigger] tokens@[j])@ == token_of(ws[j]),
        decreases words@.len() - i,
    {
        assert(ws[i as int] == words@[i as int]@);
        match split_token(words[i].as_str()) {
            Some(token) => {
                tokens.push(token);
            },
            None => {
                return None;
            },
        }
        i += 1;
    }
    assert(token_texts(tokens@) =~= tokens_of(ws));
    Some(tokens)
}

/// Rewrites spoken English numbers in digits, and separates words by single
/// spaces. Blank text gives empty text.
pub fn apply_simple_english_itn(text: &str) -> (r: String)
    requires
        convertible(text@),
    ensures
        r@ == normalised(text@),
{
    let tokens = tokenize(text).unwrap();
    let words = rewrite_tokens(tokens.as_slice()).unwrap();
    let r = text::join(words.as_slice(), " ");
    proof {
        reveal_strlit(" ");
        assert(" "@ =~= seq![' ']);
    }
    r
}

/// Whether [`apply_simple_english_itn`] accepts a text.
pub fn is_convertible(text: &str) -> (r: bool)
    ensures
        r == convertible(text@),
{
    match tokenize(text) {
        Some(tokens) => rewrite_tokens(tokens.as_slice()).is_some(),
        None => false,
    }
}

/// [`apply_simple_english_itn`] for any text: `None` when a word ends its core
/// in a character outside ASCII or a number leaves the range of 64-bit
/// integers.
pub fn try_simple_english_itn(text: &str) -> (r: Option<String>)
    ensures
        r is Some <==> convertible(text@),
        r matches Some(out) ==> out@ == normalised(text@),
{
    if is_convertible(text) {
        Some(apply_simple_english_itn(text))
    } else {
        None
    }
}

/// A text in which no number phrase begins at any word keeps its words: only
/// the white space between them changes.
pub proof fn law_text_without_numbers_keeps_its_words(s: Seq<char>)
    requires
        forall|i: int|
            0 <= i < text::words(s).len() ==> #[trigger] phrase(
                tokens_of(text::words(s)).skip(i),
            ) is Plain,
    ensures
        normalised(s) == text::joined(text::words(s), seq![' ']),
{
    let ws = text::words(s);
    lemma_plain_words(ws, 0);
    assert(tokens_of(ws).skip(0) =~= tokens_of(ws));
    assert(ws.skip(0) =~= ws);
}

proof fn lemma_plain_words(ws: Seq<Seq<char>>, i: int)
    requires
        0 <= i <= ws.len(),
        forall|k: int|
            0 <= k < ws.len() ==> #[trigger] phrase(tokens_of(ws).skip(k)) is Plain,
    ensures
        rewritten(tokens_of(ws).skip(i)) == Some(ws.skip(i)),
    decreases ws.len() - i,
{
    let here = tokens_of(ws).skip(i);
    if i == ws.len() {
        assert(ws.skip(i) =~= Seq::<Seq<char>>::empty());
    } else {
        lemma_plain_words(ws, i + 1);
        assert(phrase(here) is Plain);
        assert(here.drop_first() =~= tokens_of(ws).skip(i + 1));
        assert(here[0] == token_of(ws[i]));
        law_token_recomposes(ws[i]);
        assert(seq![ws[i]] + ws.skip(i + 1) =~= ws.skip(i));
    }
}

/// Whether a word has a value of its own or multiplies others.
pub open spec fn number_word(w: Seq<char>) -> bool {
    digit_word(w) is Some || teen_or_tens_word(w) is Some || w == "hundred"@ || magnitude_word(
        w,
    ) is Some
}

/// A digit word stays a word where it stands alone: the text ends there, or
/// goes on with something other than a number word, `and` or `point`.
pub proof fn law_lone_digit_words_stay(tokens: Seq<TokenText>)
    requires
        tokens.len() > 0,
        sole_word(tokens[0]) is Some,
        digit_word(sole_word(tokens[0])->0) is Some,
        tokens.len() > 1 && token_words(tokens[1]).len() > 0 ==> {
            &&& !number_word(token_words(tokens[1])[0])
            &&& sole_word(tokens[1]) != Some("and"@)
            &&& sole_word(tokens[1]) != Some("point"@)
        },
    ensures
        phrase(tokens) is Plain,
{
    let w = sole_word(tokens[0])->0;
    lemma_digit_words_are_no_signs(w);
    let ws = token_words(tokens[0]);
    assert(ws =~= seq![w]);
    assert(ws.drop_last() =~= Seq::<Seq<char>>::empty());
    assert(read_words(nothing_read(), ws.drop_last()) == Reading::Advanced(nothing_read()));
    let t = read_word(nothing_read(), w)->Advanced_0;
    assert(read_words(nothing_read(), ws) == Reading::Advanced(t));
    assert(phrase(tokens) == phrase_from(tokens, 1, 1, t, false));
    if tokens.len() > 1 {
        let next = token_words(tokens[1]);
        if next.len() > 0 {
            assert(next.take(1).drop_last() =~= Seq::<Seq<char>>::empty());
            assert(read_words(t, next.take(1).drop_last()) == Reading::Advanced(t));
            assert(next.take(1).last() == next[0]);
            lemma_read_words_stuck(t, next, 1);
        }
    }
}

proof fn lemma_digit_words_are_no_signs(w: Seq<char>)
    requires
        digit_word(w) is Some,
    ensures
        w != "minus"@,
        w != "negative"@,
{
    reveal_strlit("zero");
    reveal_strlit("oh");
    reveal_strlit("one");
    reveal_strlit("two");
    reveal_strlit("three");
    reveal_strlit("four");
    reveal_strlit("five");
    reveal_strlit("six");
    reveal_strlit("seven");
    reveal_strlit("eight");
    reveal_strlit("nine");
    reveal_strlit("minus");
    reveal_strlit("negative");
    assert("negative"@.len() == 8);
    assert(w.len() <= 5);
    assert("minus"@[0] == 'm');
    assert("three"@[0] == 't');
    assert("seven"@[0] == 's');
    assert("eight"@[0] == 'e');
}

} // verus!
