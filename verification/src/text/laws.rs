//! What holds of texts, whatever they hold.

use vstd::arithmetic::power::pow;
use vstd::arithmetic::power::{lemma_pow0, lemma_pow1, lemma_pow_adds};
use vstd::prelude::*;

use crate::text;

verus! {

// ---------------------------------------------------------------------------
// White space
// ---------------------------------------------------------------------------

/// Among the ASCII characters the space and the five control characters from
/// the tab to the carriage return are white space. A no-break space is too, and
/// neither a letter with an accent nor an ideograph is.
pub proof fn law_white_space(c: char)
    ensures
        (c as u32) < 0x80 ==> (text::white_space(c) <==> c == ' ' || 9 <= c as u32 <= 13),
        c as u32 == 0xa0 || c as u32 == 0x85 || c as u32 == 0x3000 || 0x2000 <= c as u32 <= 0x200a
            ==> text::white_space(c),
        0xc0 <= c as u32 <= 0x167f || 0x3001 <= c as u32 ==> !text::white_space(c),
{
}

/// Trimming cuts white space off both ends and nothing else, up to the first
/// and the last character that is none.
pub proof fn law_trimming_cuts_the_ends(s: Seq<char>) -> (from: int)
    ensures
        0 <= from <= from + text::trimmed(s).len() <= s.len(),
        text::trimmed(s) == s.subrange(from, from + text::trimmed(s).len()),
        forall|i: int|
            0 <= i < s.len() && !(from <= i < from + text::trimmed(s).len()) ==> text::white_space(
                #[trigger] s[i],
            ),
        text::trimmed(s).len() > 0 ==> !text::white_space(s[from]) && !text::white_space(
            s[from + text::trimmed(s).len() - 1],
        ),
        text::blank(s) <==> forall|i: int| 0 <= i < s.len() ==> text::white_space(#[trigger] s[i]),
{
    let from = lemma_trim_start(s);
    let rest = text::trim_start(s);
    lemma_trim_end(rest);
    let n = text::trimmed(s).len() as int;
    assert(text::trimmed(s) =~= s.subrange(from, from + n));
    assert forall|i: int| 0 <= i < s.len() && !(from <= i < from + n) implies text::white_space(
        #[trigger] s[i],
    ) by {
        if i >= from + n {
            assert(rest[i - from] == s[i]);
        }
    }
    if n > 0 {
        assert(rest[0] == s[from]);
        assert(text::trimmed(s)[n - 1] == s[from + n - 1]);
        assert(text::trimmed(s)[0] == s[from]);
    }
    from
}

proof fn lemma_trim_start(s: Seq<char>) -> (from: int)
    ensures
        0 <= from <= s.len(),
        text::trim_start(s) == s.skip(from),
        forall|i: int| 0 <= i < from ==> text::white_space(#[trigger] s[i]),
        from < s.len() ==> !text::white_space(s[from]),
    decreases s.len(),
{
    if s.len() > 0 && text::white_space(s[0]) {
        let tail = s.drop_first();
        let k = lemma_trim_start(tail);
        assert(tail.skip(k) =~= s.skip(k + 1));
        assert forall|i: int| 0 <= i < k + 1 implies text::white_space(#[trigger] s[i]) by {
            if i > 0 {
                assert(tail[i - 1] == s[i]);
            }
        }
        k + 1
    } else {
        assert(s.skip(0) =~= s);
        0
    }
}

proof fn lemma_trim_end(s: Seq<char>)
    ensures
        text::trim_end(s).len() <= s.len(),
        text::trim_end(s) == s.take(text::trim_end(s).len() as int),
        forall|i: int|
            text::trim_end(s).len() <= i < s.len() ==> text::white_space(#[trigger] s[i]),
        text::trim_end(s).len() > 0 ==> !text::white_space(text::trim_end(s).last()),
        s.len() > 0 && !text::white_space(s[0]) ==> text::trim_end(s).len() > 0,
    decreases s.len(),
{
    text::lemma_trim_end_bounds(s);
    if s.len() > 0 && text::white_space(s.last()) {
        lemma_trim_end(s.drop_last());
        assert forall|i: int| text::trim_end(s).len() <= i < s.len() implies text::white_space(
            #[trigger] s[i],
        ) by {
            if i < s.len() - 1 {
                assert(s.drop_last()[i] == s[i]);
            }
        }
    }
}

/// Trimming at one end only cuts that end: what is cut off is white space, and
/// what stays does not begin, or end, with it.
pub proof fn law_trimming_one_end(s: Seq<char>)
    ensures
        text::trim_start(s).len() <= s.len(),
        text::trim_start(s) == s.skip(s.len() - text::trim_start(s).len()),
        forall|i: int|
            0 <= i < s.len() - text::trim_start(s).len() ==> text::white_space(#[trigger] s[i]),
        text::trim_start(s).len() > 0 ==> !text::white_space(text::trim_start(s)[0]),
        text::trim_end(s).len() <= s.len(),
        text::trim_end(s) == s.take(text::trim_end(s).len() as int),
        forall|i: int|
            text::trim_end(s).len() <= i < s.len() ==> text::white_space(#[trigger] s[i]),
        text::trim_end(s).len() > 0 ==> !text::white_space(text::trim_end(s).last()),
{
    let from = lemma_trim_start(s);
    if from < s.len() {
        assert(text::trim_start(s)[0] == s[from]);
    }
    lemma_trim_end(s);
}

/// The characters of several texts in a row.
pub open spec fn run_together(parts: Seq<Seq<char>>) -> Seq<char>
    decreases parts.len(),
{
    if parts.len() == 0 {
        seq![]
    } else {
        run_together(parts.drop_last()) + parts.last()
    }
}

/// The words of a text are what is left of it without white space, cut where
/// that stood: none is empty or holds white space, and no character is lost or
/// moved.
pub proof fn law_words_are_all_but_white_space(s: Seq<char>)
    ensures
        run_together(text::words(s)) == s.filter(|c: char| !text::white_space(c)),
        forall|i: int, j: int|
            0 <= i < text::words(s).len() && 0 <= j < text::words(s)[i].len()
                ==> !text::white_space(#[trigger] text::words(s)[i][j]),
        forall|i: int| 0 <= i < text::words(s).len() ==> (#[trigger] text::words(s)[i]).len() > 0,
    decreases s.len(),
{
    let keep = |c: char| !text::white_space(c);
    reveal(Seq::filter);
    text::lemma_words_are_solid(s);
    assert forall|i: int, j: int|
        0 <= i < text::words(s).len() && 0 <= j < text::words(s)[i].len()
        implies !text::white_space(#[trigger] text::words(s)[i][j]) by {
        assert(text::solid(text::words(s)[i]));
    }
    assert forall|i: int| 0 <= i < text::words(s).len() implies (#[trigger] text::words(
        s,
    )[i]).len() > 0 by {
        assert(text::solid(text::words(s)[i]));
    }
    if s.len() == 0 {
        assert(run_together(text::words(s)) =~= s.filter(keep));
    } else {
        let init = s.drop_last();
        law_words_are_all_but_white_space(init);
        text::lemma_words_are_solid(init);
        let before = text::words(init);
        let c = s.last();
        if !text::white_space(c) {
            if s.len() >= 2 && !text::white_space(s[s.len() - 2]) {
                assert(init.last() == s[s.len() - 2]);
                let longer = before.drop_last().push(before.last().push(c));
                assert(longer.drop_last() =~= before.drop_last());
                assert(run_together(longer) =~= run_together(before).push(c));
            } else {
                assert(before.push(seq![c]).drop_last() =~= before);
                assert(run_together(before.push(seq![c])) =~= run_together(before).push(c));
            }
        }
    }
}

/// A text without white space is one word.
pub proof fn law_text_without_white_space_is_a_word(w: Seq<char>)
    requires
        w.len() > 0,
        forall|i: int| 0 <= i < w.len() ==> !text::white_space(#[trigger] w[i]),
    ensures
        text::words(w) == seq![w],
{
    assert(text::solid(w));
    assert(Seq::<char>::empty() + w =~= w);
    text::lemma_words_append(Seq::empty(), w);
    assert(text::words(Seq::<char>::empty()) =~= Seq::<Seq<char>>::empty());
    assert(Seq::<Seq<char>>::empty().push(w) =~= seq![w]);
}

/// White space separates words: a text before it and a text after it have the
/// words of both.
pub proof fn law_white_space_separates(a: Seq<char>, c: char, b: Seq<char>)
    requires
        text::white_space(c),
    ensures
        text::words(a.push(c) + b) == text::words(a) + text::words(b),
    decreases b.len(),
{
    let whole = a.push(c) + b;
    if b.len() == 0 {
        assert(whole =~= a.push(c));
        assert(a.push(c).drop_last() =~= a);
        assert(text::words(b) =~= Seq::<Seq<char>>::empty());
        assert(text::words(a) + text::words(b) =~= text::words(a));
    } else {
        let init = b.drop_last();
        law_white_space_separates(a, c, init);
        assert(whole.drop_last() =~= a.push(c) + init);
        let front = text::words(a);
        let back = text::words(init);
        let last = b.last();
        if !text::white_space(last) {
            if b.len() >= 2 {
                assert(whole[whole.len() - 2] == b[b.len() - 2]);
                if !text::white_space(b[b.len() - 2]) {
                    text::lemma_words_are_solid(init);
                    assert(init.last() == b[b.len() - 2]);
                    assert((front + back).last() == back.last());
                    assert((front + back).drop_last().push(back.last().push(last)) =~= front
                        + back.drop_last().push(back.last().push(last)));
                } else {
                    assert((front + back).push(seq![last]) =~= front + back.push(seq![last]));
                }
            } else {
                assert(whole[whole.len() - 2] == c);
                assert((front + back).push(seq![last]) =~= front + back.push(seq![last]));
            }
        }
    }
}

// ---------------------------------------------------------------------------
// Splitting and joining
// ---------------------------------------------------------------------------

/// Joining texts puts the separator between neighbours and nowhere else: one
/// text stays as it is, and two lists joined are the two results with the
/// separator between them.
pub proof fn law_joining(a: Seq<Seq<char>>, b: Seq<Seq<char>>, one: Seq<char>, sep: Seq<char>)
    ensures
        text::joined(seq![], sep) == Seq::<char>::empty(),
        text::joined(seq![one], sep) == one,
        a.len() > 0 && b.len() > 0 ==> text::joined(a + b, sep) == text::joined(a, sep) + sep
            + text::joined(b, sep),
    decreases b.len(),
{
    if a.len() > 0 && b.len() > 0 {
        assert((a + b).drop_last() =~= a + b.drop_last());
        assert((a + b).last() == b.last());
        if b.len() == 1 {
            assert(a + b.drop_last() =~= a);
        } else {
            law_joining(a, b.drop_last(), one, sep);
            assert(text::joined(a, sep) + sep + (text::joined(b.drop_last(), sep) + sep + b.last())
                =~= text::joined(a, sep) + sep + text::joined(b.drop_last(), sep) + sep + b.last());
        }
    }
}

/// Splitting a text at a character cuts it at every occurrence: no piece holds
/// the character, and joined with it the pieces are the text again.
pub proof fn law_splitting_and_joining(s: Seq<char>, sep: char)
    ensures
        text::joined(text::split_on(s, sep), seq![sep]) == s,
        text::split_on(s, sep).len() > 0,
        forall|i: int, j: int|
            0 <= i < text::split_on(s, sep).len() && 0 <= j < text::split_on(s, sep)[i].len()
                ==> #[trigger] text::split_on(s, sep)[i][j] != sep,
    decreases s.len(),
{
    text::lemma_split_chars(s, sep);
    let parts = text::split_on(s, sep);
    if s.len() > 0 {
        let init = s.drop_last();
        law_splitting_and_joining(init, sep);
        let before = text::split_on(init, sep);
        if s.last() == sep {
            assert(parts.drop_last() =~= before);
            assert(text::joined(parts, seq![sep]) =~= s);
        } else {
            assert(parts.drop_last() =~= before.drop_last());
            assert(parts.last() == before.last().push(s.last()));
            assert(text::joined(parts, seq![sep]) =~= text::joined(before, seq![sep]).push(
                s.last(),
            ));
        }
    }
}

/// A text is split in two at the first occurrence of another: what stands
/// before it, it, and what stands after it make up the text, and it does not
/// occur any earlier. It is not split where the other does not occur.
pub proof fn law_splitting_at_the_first(s: Seq<char>, sep: Seq<char>)
    ensures
        match text::split_first(s, sep) {
            Some((before, after)) => before + sep + after == s && forall|j: int|
                #![trigger s.subrange(j, j + sep.len())]
                0 <= j < before.len() ==> s.subrange(j, j + sep.len()) != sep,
            None => forall|a: Seq<char>, b: Seq<char>| s != #[trigger] ((a + sep) + b),
        },
{
    lemma_first(s, sep, 0);
    match text::split_first(s, sep) {
        Some((before, after)) => {
            let i = before.len() as int;
            assert(text::occurs_at(s, sep, i));
            assert(before + sep + after =~= s) by {
                assert(s.subrange(i, i + sep.len()) == sep);
                assert(s =~= s.take(i) + s.subrange(i, i + sep.len()) + s.skip(i + sep.len()));
            }
        },
        None => {
            assert forall|a: Seq<char>, b: Seq<char>| s != #[trigger] ((a + sep) + b) by {
                if s == (a + sep) + b {
                    assert(s.subrange(a.len() as int, a.len() as int + sep.len()) =~= sep);
                    assert(text::occurs_at(s, sep, a.len() as int));
                }
            }
        },
    }
}

proof fn lemma_first(s: Seq<char>, needle: Seq<char>, i: nat)
    ensures
        match text::first_from(s, needle, i) {
            Some(k) => i <= k && text::occurs_at(s, needle, k as int) && forall|j: int|
                #![trigger s.subrange(j, j + needle.len())]
                i <= j < k ==> s.subrange(j, j + needle.len()) != needle,
            None => forall|j: int| i <= j ==> !#[trigger] text::occurs_at(s, needle, j),
        },
    decreases s.len() - i,
{
    if i + needle.len() <= s.len() && !text::occurs_at(s, needle, i as int) && i < s.len() {
        lemma_first(s, needle, i + 1);
    }
}

/// A text holds another where it is made of something, the other and something;
/// it begins, or ends, with it where the first, or the last, of these is empty.
pub proof fn law_holding(a: Seq<char>, needle: Seq<char>, b: Seq<char>, s: Seq<char>)
    ensures
        text::contains_text(a + needle + b, needle),
        text::begins_with(needle + b, needle),
        text::finishes_with(a + needle, needle),
        text::contains_text(s, needle) ==> exists|x: Seq<char>, y: Seq<char>|
            s == #[trigger] ((x + needle) + y),
        text::begins_with(s, needle) ==> s.len() >= needle.len() && s.take(needle.len() as int)
            == needle,
        text::finishes_with(s, needle) ==> s.len() >= needle.len() && s.skip(
            s.len() - needle.len(),
        ) == needle,
{
    let n = needle.len() as int;
    let whole = a + needle + b;
    assert(whole.subrange(a.len() as int, a.len() + n) =~= needle);
    assert(text::occurs_at(whole, needle, a.len() as int));
    assert((needle + b).subrange(0, n) =~= needle);
    assert((a + needle).subrange(a.len() as int, a.len() + n) =~= needle);
    if text::contains_text(s, needle) {
        let i = choose|i: int| text::occurs_at(s, needle, i);
        assert(s =~= (s.take(i) + needle) + s.skip(i + n)) by {
            assert(s.subrange(i, i + n) == needle);
            assert(s =~= s.take(i) + s.subrange(i, i + n) + s.skip(i + n));
        }
    }
    if text::begins_with(s, needle) {
        assert(s.subrange(0, n) =~= s.take(n));
    }
    if text::finishes_with(s, needle) {
        assert(s.subrange(s.len() - n, s.len() as int) =~= s.skip(s.len() - n));
    }
}

/// Characters are taken off the end of a text as long as they are the given
/// one.
pub proof fn law_stripping_the_end(s: Seq<char>, c: char)
    ensures
        text::strip_end(s, c).len() <= s.len(),
        text::strip_end(s, c) == s.take(text::strip_end(s, c).len() as int),
        forall|i: int| text::strip_end(s, c).len() <= i < s.len() ==> #[trigger] s[i] == c,
        text::strip_end(s, c).len() > 0 ==> text::strip_end(s, c).last() != c,
    decreases s.len(),
{
    text::lemma_strip_end_prefix(s, c);
    if s.len() > 0 && s.last() == c {
        law_stripping_the_end(s.drop_last(), c);
        assert forall|i: int| text::strip_end(s, c).len() <= i < s.len() implies #[trigger] s[i]
            == c by {
            if i < s.len() - 1 {
                assert(s.drop_last()[i] == s[i]);
            }
        }
    }
}

// ---------------------------------------------------------------------------
// Letter case
// ---------------------------------------------------------------------------

/// ASCII lower case turns each capital into the letter that stands 32 places
/// after it, and leaves everything else alone.
pub proof fn law_ascii_lower_case(s: Seq<char>, i: int)
    requires
        0 <= i < s.len(),
    ensures
        text::ascii_lower(s).len() == s.len(),
        'A' <= s[i] <= 'Z' ==> text::ascii_lower(s)[i] as u32 == s[i] as u32 + 32,
        !('A' <= s[i] <= 'Z') ==> text::ascii_lower(s)[i] == s[i],
{
}

// ---------------------------------------------------------------------------
// Numbers
// ---------------------------------------------------------------------------

/// A digit stands for its place after zero, and digits in a row count tens:
/// what stands in front of a text of digits counts by the power of ten that has
/// as many places.
pub proof fn law_digits_count_tens(a: Seq<char>, b: Seq<char>, d: char)
    requires
        forall|i: int| 0 <= i < a.len() ==> '0' <= #[trigger] a[i] <= '9',
        forall|i: int| 0 <= i < b.len() ==> '0' <= #[trigger] b[i] <= '9',
        '0' <= d <= '9',
    ensures
        text::number(seq![d]) == d as int - 48,
        text::number(a + b) == text::number(a) * pow(10, b.len()) + text::number(b),
    decreases b.len(),
{
    assert(seq![d].drop_last() =~= Seq::<char>::empty());
    assert(text::number(Seq::<char>::empty()) == 0);
    lemma_pow0(10);
    if b.len() == 0 {
        assert(a + b =~= a);
    } else {
        let init = b.drop_last();
        assert forall|i: int| 0 <= i < init.len() implies '0' <= #[trigger] init[i] <= '9' by {
            assert(init[i] == b[i]);
        }
        law_digits_count_tens(a, init, d);
        assert((a + b).drop_last() =~= a + init);
        let n = text::number(a) as int;
        let m = text::number(init) as int;
        let p = pow(10, init.len());
        lemma_pow_adds(10, init.len(), 1);
        lemma_pow1(10);
        assert(pow(10, b.len()) == p * 10);
        assert(b[b.len() - 1] == b.last());
        assert(10 * (n * p + m) == n * (p * 10) + 10 * m) by (nonlinear_arith);
    }
}

/// The decimal notation of a number is made of digits that stand for it, and
/// begins with a zero only where the number is zero.
pub proof fn law_decimal_notation(n: nat)
    ensures
        text::decimal(n).len() > 0,
        forall|i: int| 0 <= i < text::decimal(n).len() ==> '0' <= #[trigger] text::decimal(n)[i]
            <= '9',
        text::number(text::decimal(n)) == n,
        text::decimal(n)[0] == '0' ==> n == 0 && text::decimal(n).len() == 1,
    decreases n,
{
    if n < 10 {
        assert(text::decimal(n).drop_last() =~= Seq::<char>::empty());
        assert(text::number(Seq::<char>::empty()) == 0);
    } else {
        law_decimal_notation(n / 10);
        let front = text::decimal(n / 10);
        assert(text::decimal(n).drop_last() =~= front);
        assert(text::decimal(n)[0] == front[0]);
        assert forall|i: int| 0 <= i < text::decimal(n).len() implies '0' <= #[trigger] text::decimal(
            n,
        )[i] <= '9' by {
            if i < front.len() {
                assert(text::decimal(n)[i] == front[i]);
            }
        }
    }
}

/// A negative number is written as what it is below zero, with a minus sign in
/// front; any other as it is.
pub proof fn law_signed_notation(n: int)
    ensures
        n >= 0 ==> text::number(text::signed_decimal(n)) == n && text::signed_decimal(n)[0] != '-',
        n < 0 ==> text::signed_decimal(n)[0] == '-' && text::number(
            text::signed_decimal(n).skip(1),
        ) == -n,
{
    law_decimal_notation(
        if n < 0 {
            (-n) as nat
        } else {
            n as nat
        },
    );
    if n < 0 {
        assert(text::signed_decimal(n).skip(1) =~= text::decimal((-n) as nat));
    } else {
        assert('0' <= text::decimal(n as nat)[0]);
    }
}

/// An unsigned literal is digits, a plus sign in front or not, that stand for a
/// number of 64 bits; its value is that number.
pub proof fn law_unsigned_literals(s: Seq<char>)
    ensures
        s.len() > 0 && (forall|i: int| 0 <= i < s.len() ==> '0' <= #[trigger] s[i] <= '9') ==> {
            &&& text::unsigned(s) is Some <==> text::number(s) < 0x1_0000_0000_0000_0000
            &&& text::unsigned(s) is Some ==> text::unsigned(s)->0 == text::number(s)
            &&& text::unsigned(seq!['+'] + s) == text::unsigned(s)
        },
        text::unsigned(s) is Some ==> s.len() > 0 && (s[0] == '+' || '0' <= s[0] <= '9')
            && forall|i: int| 1 <= i < s.len() ==> '0' <= #[trigger] s[i] <= '9',
{
    if s.len() > 0 && (forall|i: int| 0 <= i < s.len() ==> '0' <= #[trigger] s[i] <= '9') {
        assert('0' <= s[0] <= '9');
        assert(s[0] != '+');
        assert(text::all_digits(s));
        let signed = seq!['+'] + s;
        assert(signed.drop_first() =~= s);
    }
    if text::unsigned(s) is Some {
        let digits = text::unsigned_digits(s);
        assert(text::is_digit(digits[0]));
        assert forall|i: int| 1 <= i < s.len() implies '0' <= #[trigger] s[i] <= '9' by {
            if s[0] == '+' {
                assert(text::is_digit(digits[i - 1]));
            } else {
                assert(text::is_digit(digits[i]));
            }
        }
    }
}

// ---------------------------------------------------------------------------
// UTF-8 length
// ---------------------------------------------------------------------------

/// A character takes up one byte in ASCII and four outside the basic plane, and
/// the bytes of texts in a row add up.
pub proof fn law_utf8_lengths(a: Seq<char>, b: Seq<char>, c: char)
    ensures
        text::utf8_len(a + b) == text::utf8_len(a) + text::utf8_len(b),
        text::utf8_len(seq![c]) == (if (c as u32) <= 0x7f {
            1int
        } else if (c as u32) <= 0x7ff {
            2
        } else if (c as u32) <= 0xffff {
            3
        } else {
            4
        }),
{
    text::lemma_utf8_len_concat(a, b);
    assert(seq![c].drop_last() =~= Seq::<char>::empty());
    assert(text::utf8_len(Seq::<char>::empty()) == 0);
}

// ---------------------------------------------------------------------------
// What values hold
// ---------------------------------------------------------------------------

/// Lists and optional values of strings hold the texts of their strings, one for
/// one.
pub proof fn law_strings_hold_their_texts(
    v: Seq<String>,
    w: Seq<&str>,
    o: Option<String>,
    p: Option<&str>,
    i: int,
)
    ensures
        text::texts(v).len() == v.len(),
        0 <= i < v.len() ==> text::texts(v)[i] == v[i]@,
        text::strs(w).len() == w.len(),
        0 <= i < w.len() ==> text::strs(w)[i] == w[i]@,
        text::opt_text(o) is Some <==> o is Some,
        o is Some ==> text::opt_text(o) == Some(o->0@),
        text::opt_str(p) is Some <==> p is Some,
        p is Some ==> text::opt_str(p) == Some(p->0@),
{
}

/// A text is one of several where it is equal to one of them, and holds one of
/// several where it holds one of them.
pub proof fn law_alternatives(s: Seq<char>, list: Seq<Seq<char>>, i: int)
    ensures
        0 <= i < list.len() && s == list[i] ==> text::one_of(s, list),
        0 <= i < list.len() && text::contains_text(s, list[i]) ==> text::contains_one_of(s, list),
        text::one_of(s, list) ==> list.contains(s),
        text::contains_one_of(s, list) ==> exists|j: int|
            0 <= j < list.len() && text::contains_text(s, #[trigger] list[j]),
{
}

/// Among the ASCII characters the letters and the digits are alphanumeric.
pub proof fn law_ascii_alphanumeric(c: char)
    requires
        (c as u32) < 0x80,
    ensures
        text::alphanumeric(c) <==> ('a' <= c <= 'z') || ('A' <= c <= 'Z') || ('0' <= c <= '9'),
{
}

/// Texts in a row follow each other with nothing between them.
pub proof fn law_texts_in_a_row(a: Seq<Seq<char>>, b: Seq<Seq<char>>, one: Seq<char>)
    ensures
        run_together(seq![]) == Seq::<char>::empty(),
        run_together(seq![one]) == one,
        run_together(a + b) == run_together(a) + run_together(b),
    decreases b.len(),
{
    assert(seq![one].drop_last() =~= Seq::<Seq<char>>::empty());
    assert(run_together(Seq::<Seq<char>>::empty()) == Seq::<char>::empty());
    assert(run_together(seq![one]) =~= one);
    if b.len() == 0 {
        assert(a + b =~= a);
        assert(run_together(a) + run_together(b) =~= run_together(a));
    } else {
        assert((a + b).drop_last() =~= a + b.drop_last());
        law_texts_in_a_row(a, b.drop_last(), one);
        assert(run_together(a) + run_together(b.drop_last()) + b.last() =~= run_together(a) + (
        run_together(b.drop_last()) + b.last()));
    }
}

} // verus!
