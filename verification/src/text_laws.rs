//! What reading and writing text promises: numerals read back as the
//! numbers they were written for, texts trimmed, cut into words and lines
//! lose nothing but what separates them, and texts order by their first
//! difference.
use vstd::prelude::*;

verus! {

use crate::chars::{
    after_token, all_digits, first_of, is_digit, is_space, lemma_first_of, lines, number, parsed_u64,
    plain_number, run_len, text_less, token, trim, trim_end, trim_start,
};
use crate::table::interleaved;
use crate::text::{dec, escaped, grouped, hex, lemma_dec_digits, sdec};

// ---------------------------------------------------------------------------
// Numerals
// ---------------------------------------------------------------------------

/// One more digit multiplies by ten and adds.
pub proof fn lemma_digits_add_places(s: Seq<char>, c: char)
    requires
        '0' <= c <= '9',
    ensures
        number(Seq::empty()) == 0,
        number(s.push(c)) == 10 * number(s) + (c as int - 48),
{
    assert(s.push(c).drop_last() =~= s);
}

/// A decimal numeral is made of digits, starts with no zero unless it is
/// that of zero, and denotes its number.
pub proof fn lemma_numerals_denote_their_numbers(n: nat)
    ensures
        dec(n).len() > 0,
        all_digits(dec(n)),
        n > 0 ==> dec(n)[0] != '0',
        n == 0 ==> dec(n) == seq!['0'],
        number(dec(n)) == n,
    decreases n,
{
    lemma_dec_digits(n);
    assert forall|i: int| 0 <= i < dec(n).len() implies is_digit(#[trigger] dec(n)[i]) by {}
    if n >= 10 {
        lemma_numerals_denote_their_numbers(n / 10);
        assert(dec(n).drop_last() =~= dec(n / 10));
        assert(dec(n)[0] == dec(n / 10)[0]);
        let c = (48 + n % 10) as char;
        assert(dec(n).last() == c);
        assert(c as int == 48 + n % 10);
        assert(n == 10 * (n / 10) + n % 10);
    } else {
        let c = (48 + n) as char;
        assert(dec(n) =~= seq![c]);
        assert(c as int == 48 + n);
        assert(dec(n).drop_last() =~= Seq::<char>::empty());
        assert(number(Seq::<char>::empty()) == 0);
    }
}

/// A numeral of 64 bits reads back as the number it was written for, with
/// or without a plus sign.
pub proof fn lemma_numerals_read_back(n: u64)
    ensures
        parsed_u64(dec(n as nat)) == Some(n),
        parsed_u64(seq!['+'] + dec(n as nat)) == Some(n),
{
    lemma_numerals_denote_their_numbers(n as nat);
    let d = dec(n as nat);
    assert(is_digit(d[0]));
    let p = seq!['+'] + d;
    assert(p[0] == '+');
    assert(p.drop_first() =~= d);
}

/// What is empty, holds anything but digits behind its sign, or denotes
/// too large a number is no numeral.
pub proof fn lemma_other_texts_are_no_numerals(s: Seq<char>, i: int)
    ensures
        s.len() == 0 ==> parsed_u64(s) is None,
        1 <= i < s.len() && !('0' <= s[i] <= '9') ==> parsed_u64(s) is None,
        s.len() > 0 && s[0] != '+' && !('0' <= s[0] <= '9') ==> parsed_u64(s) is None,
        s == seq!['+'] ==> parsed_u64(s) is None,
        all_digits(s) && number(s) > u64::MAX ==> parsed_u64(s) is None,
{
    let d = crate::chars::digits_of(s);
    if 1 <= i < s.len() && !('0' <= s[i] <= '9') {
        if s[0] == '+' {
            assert(d[i - 1] == s[i]);
            assert(!is_digit(d[i - 1]));
        } else {
            assert(!is_digit(d[i]));
        }
    }
    if s.len() > 0 && s[0] != '+' && !('0' <= s[0] <= '9') {
        assert(!is_digit(d[0]));
    }
    if s == seq!['+'] {
        assert(s.len() == 1);
        assert(!is_digit(d[0]));
    }
    if all_digits(s) && number(s) > u64::MAX {
        if s.len() > 0 {
            assert(is_digit(s[0]));
        }
        assert(d == s);
    }
}

/// A run of digits alone reads back as the number it was written for; a
/// sign, any other character, or too large a number makes it none.
pub proof fn lemma_digit_runs_take_no_sign(n: nat, s: Seq<char>, i: int)
    ensures
        n <= u64::MAX ==> plain_number(dec(n)) == Some(n as u64),
        n > u64::MAX ==> plain_number(dec(n)) is None,
        plain_number(Seq::empty()) is None,
        0 <= i < s.len() && !('0' <= s[i] <= '9') ==> plain_number(s) is None,
{
    lemma_numerals_denote_their_numbers(n);
    if 0 <= i < s.len() && !('0' <= s[i] <= '9') {
        assert(!is_digit(s[i]));
    }
}

/// A signed numeral is the numeral of the magnitude, behind a minus sign
/// where the number is below zero.
pub proof fn lemma_signed_numerals_carry_their_sign(v: int)
    ensures
        v >= 0 ==> sdec(v) == dec(v as nat),
        v < 0 ==> sdec(v) == "-"@ + dec((-v) as nat),
{
    reveal_strlit("-");
    assert("-"@ =~= seq!['-']);
}

/// Of the hexadecimal digits of a number the last is its remainder by
/// sixteen, in lower case, and those before are the digits of its
/// quotient.
pub proof fn lemma_hexadecimal_digits_stand_in_order(v: nat, n: nat)
    requires
        n > 0,
    ensures
        hex(v, n).len() == n,
        hex(v, n).drop_last() == hex(v / 16, (n - 1) as nat),
        v % 16 < 10 ==> hex(v, n).last() as int == 48 + v % 16,
        v % 16 >= 10 ==> hex(v, n).last() as int == 97 + (v % 16 - 10),
    decreases n,
{
    assert(hex(v, n).drop_last() =~= hex(v / 16, (n - 1) as nat));
    if n > 1 {
        lemma_hexadecimal_digits_stand_in_order(v / 16, (n - 1) as nat);
    }
}

/// A grouped numeral has a comma in every fourth place from the right,
/// and nowhere else.
pub proof fn lemma_commas_stand_every_fourth_place(n: nat, j: int)
    requires
        0 <= j < grouped(n).len(),
    ensures
        grouped(n)[grouped(n).len() - 1 - j] == ',' <==> j % 4 == 3,
        grouped(n).len() > 0,
    decreases n,
{
    let g = grouped(n);
    if n < 1000 {
        lemma_short_numerals(n);
        lemma_dec_digits(n);
        assert('0' <= dec(n)[g.len() - 1 - j] <= '9');
    } else {
        let front = grouped(n / 1000);
        let (a, b, c) = (
            (48 + n % 1000 / 100 % 10) as char,
            (48 + n % 1000 / 10 % 10) as char,
            (48 + n % 1000 % 10) as char,
        );
        assert(g =~= front + seq![',', a, b, c]);
        assert(a as int == 48 + n % 1000 / 100 % 10);
        assert(b as int == 48 + n % 1000 / 10 % 10);
        assert(c as int == 48 + n % 1000 % 10);
        assert(a != ',' && b != ',' && c != ',');
        if j >= 4 {
            lemma_commas_stand_every_fourth_place(n / 1000, j - 4);
            assert(g[g.len() - 1 - j] == front[front.len() - 1 - (j - 4)]);
            assert(j % 4 == (j - 4) % 4);
        }
    }
}

proof fn lemma_short_numerals(n: nat)
    requires
        n < 1000,
    ensures
        1 <= dec(n).len() <= 3,
{
    reveal_with_fuel(dec, 4);
}

// ---------------------------------------------------------------------------
// Markup
// ---------------------------------------------------------------------------

/// Text becomes markup a character at a time: ampersands and angle
/// brackets as entities, all else as it is.
pub proof fn lemma_markup_escapes_each_character(s: Seq<char>, c: char)
    ensures
        escaped(Seq::empty()) == Seq::<char>::empty(),
        escaped(s.push(c)) == escaped(s) + if c == '&' {
            "&amp;"@
        } else if c == '<' {
            "&lt;"@
        } else if c == '>' {
            "&gt;"@
        } else {
            seq![c]
        },
{
    assert(s.push(c).drop_last() =~= s);
}

// ---------------------------------------------------------------------------
// White space
// ---------------------------------------------------------------------------

/// Among the plain characters the white space is the space and those from
/// the tab to the carriage return.
pub proof fn lemma_plain_white_space(c: char)
    requires
        (c as int) < 0x80,
    ensures
        is_space(c) <==> c == ' ' || '\t' <= c <= '\r',
{
}

/// Every character is white space.
pub open spec fn blank(s: Seq<char>) -> bool {
    forall|i: int| 0 <= i < s.len() ==> is_space(#[trigger] s[i])
}

proof fn lemma_trim_start_splits(s: Seq<char>) -> (lead: Seq<char>)
    ensures
        s == lead + trim_start(s),
        blank(lead),
        trim_start(s).len() > 0 ==> !is_space(trim_start(s)[0]),
    decreases s.len(),
{
    if s.len() > 0 && is_space(s[0]) {
        let rest = lemma_trim_start_splits(s.drop_first());
        let lead = seq![s[0]] + rest;
        assert(s =~= seq![s[0]] + s.drop_first());
        assert(seq![s[0]] + (rest + trim_start(s)) =~= lead + trim_start(s));
        assert forall|i: int| 0 <= i < lead.len() implies is_space(#[trigger] lead[i]) by {
            if i > 0 {
                assert(is_space(rest[i - 1]));
            }
        }
        lead
    } else {
        assert(s =~= Seq::<char>::empty() + s);
        Seq::empty()
    }
}

proof fn lemma_trim_end_splits(s: Seq<char>) -> (trail: Seq<char>)
    ensures
        s == trim_end(s) + trail,
        blank(trail),
        trim_end(s).len() > 0 ==> !is_space(trim_end(s).last()) && trim_end(s)[0] == s[0],
    decreases s.len(),
{
    if s.len() > 0 && is_space(s.last()) {
        let rest = lemma_trim_end_splits(s.drop_last());
        let trail = rest.push(s.last());
        assert(s =~= s.drop_last().push(s.last()));
        assert((trim_end(s) + rest).push(s.last()) =~= trim_end(s) + trail);
        assert forall|i: int| 0 <= i < trail.len() implies is_space(#[trigger] trail[i]) by {
            if i < rest.len() {
                assert(is_space(rest[i]));
            }
        }
        trail
    } else {
        assert(s =~= s + Seq::<char>::empty());
        Seq::empty()
    }
}

/// Trimming takes white space off both ends and nothing else.
pub proof fn lemma_trimming_takes_off_the_ends(s: Seq<char>)
    ensures
        exists|lead: Seq<char>, trail: Seq<char>| #[trigger]
            (lead + trim(s) + trail) == s && blank(lead) && blank(trail),
        trim(s).len() > 0 ==> !is_space(trim(s)[0]) && !is_space(trim(s).last()),
{
    let lead = lemma_trim_start_splits(s);
    let trail = lemma_trim_end_splits(trim_start(s));
    assert(lead + trim(s) + trail =~= s);
}

proof fn lemma_run(s: Seq<char>)
    ensures
        0 <= run_len(s) <= s.len(),
        forall|i: int| 0 <= i < run_len(s) ==> !is_space(#[trigger] s[i]),
        run_len(s) < s.len() ==> is_space(s[run_len(s)]),
    decreases s.len(),
{
    if s.len() > 0 && !is_space(s[0]) {
        let t = s.drop_first();
        lemma_run(t);
        assert forall|i: int| 0 <= i < run_len(s) implies !is_space(#[trigger] s[i]) by {
            if i > 0 {
                assert(t[i - 1] == s[i]);
            }
        }
    }
}

/// The first word of a text stands behind white space alone, holds none,
/// and ends where the text does or before white space; only a blank text
/// has none.
pub proof fn lemma_words_stand_between_white_space(s: Seq<char>)
    ensures
        exists|lead: Seq<char>| #[trigger]
            (lead + token(s) + after_token(s)) == s && blank(lead),
        forall|i: int| 0 <= i < token(s).len() ==> !is_space(#[trigger] token(s)[i]),
        after_token(s).len() > 0 ==> is_space(after_token(s)[0]),
        token(s).len() == 0 ==> blank(s),
{
    let lead = lemma_trim_start_splits(s);
    let t = trim_start(s);
    lemma_run(t);
    assert(lead + token(s) + after_token(s) =~= s);
    if token(s).len() == 0 {
        assert(t.len() == 0);
        assert(s =~= lead);
    }
}

// ---------------------------------------------------------------------------
// Lines
// ---------------------------------------------------------------------------

/// A newline ends a line, with the carriage return before it if there is
/// one; what follows it is further lines.
pub proof fn lemma_newlines_end_lines(line: Seq<char>, rest: Seq<char>)
    requires
        !line.contains('\n'),
    ensures
        line.len() > 0 && line.last() == '\r' ==> lines(line + seq!['\n'] + rest) == seq![
            line.drop_last(),
        ] + lines(rest),
        !(line.len() > 0 && line.last() == '\r') ==> lines(line + seq!['\n'] + rest) == seq![line]
            + lines(rest),
{
    let s = line + seq!['\n'] + rest;
    lemma_first_of(s, '\n');
    let n = line.len() as int;
    assert(s[n] == '\n');
    let i = first_of(s, '\n');
    if i < n {
        assert(s[i] == line[i]);
        assert(line.contains('\n'));
    }
    assert(i == n);
    assert(s.take(n) =~= line);
    assert(s.skip(n + 1) =~= rest);
}

/// The last line needs no newline, and an empty text has no line.
pub proof fn lemma_last_lines_need_no_newline(line: Seq<char>)
    requires
        !line.contains('\n'),
    ensures
        line.len() > 0 ==> lines(line) == seq![line],
        line.len() == 0 ==> lines(line).len() == 0,
{
    if line.len() > 0 {
        lemma_first_of(line, '\n');
        let i = first_of(line, '\n');
        if i < line.len() {
            assert(line.contains('\n'));
        }
    }
}

// ---------------------------------------------------------------------------
// Order and lists
// ---------------------------------------------------------------------------

/// Texts order by their first difference.
pub proof fn lemma_the_first_difference_decides(
    start: Seq<char>,
    x: char,
    y: char,
    a: Seq<char>,
    b: Seq<char>,
)
    requires
        x != y,
    ensures
        text_less(start + seq![x] + a, start + seq![y] + b) <==> x < y,
    decreases start.len(),
{
    let (s, t) = (start + seq![x] + a, start + seq![y] + b);
    if start.len() > 0 {
        let rest = start.drop_first();
        assert(s.drop_first() =~= rest + seq![x] + a);
        assert(t.drop_first() =~= rest + seq![y] + b);
        lemma_the_first_difference_decides(rest, x, y, a, b);
    }
}

/// A text comes before its continuations.
pub proof fn lemma_starts_come_first(start: Seq<char>, rest: Seq<char>)
    requires
        rest.len() > 0,
    ensures
        text_less(start, start + rest),
        !text_less(start + rest, start),
    decreases start.len(),
{
    if start.len() > 0 {
        lemma_starts_come_first(start.drop_first(), rest);
        assert((start + rest).drop_first() =~= start.drop_first() + rest);
    } else {
        assert(start + rest =~= rest);
    }
}

/// A list has its separator between any two neighbors, and neither before
/// the first nor behind the last.
pub proof fn lemma_separators_stand_between(parts: Seq<Seq<char>>, last: Seq<char>, sep: Seq<char>)
    ensures
        interleaved(Seq::empty(), sep) == Seq::<char>::empty(),
        interleaved(seq![last], sep) == last,
        parts.len() > 0 ==> interleaved(parts.push(last), sep) == interleaved(parts, sep) + sep
            + last,
{
    assert(parts.push(last).drop_last() =~= parts);
}

} // verus!
