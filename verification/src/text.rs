//! Exact text: decimal and hexadecimal numerals, markup escaping, and
//! the small string operations the documents and reports are built from.
use vstd::prelude::*;
use vstd::string::*;

verus! {

/// Trusted: `String::push` appends one character and nothing else.
pub assume_specification[ String::push ](s: &mut String, c: char)
    ensures
        final(s)@ == old(s)@.push(c),
;

/// The character of a decimal digit.
pub open spec fn digit(d: nat) -> char {
    (48 + d) as char
}

/// The decimal numeral of a number, without leading zeros.
pub open spec fn dec(n: nat) -> Seq<char>
    decreases n,
{
    if n < 10 {
        seq![digit(n)]
    } else {
        dec(n / 10).push(digit(n % 10))
    }
}

/// The decimal numeral of a signed number.
pub open spec fn sdec(v: int) -> Seq<char> {
    if v < 0 {
        seq!['-'] + dec((-v) as nat)
    } else {
        dec(v as nat)
    }
}

/// The character of a hexadecimal digit, lower case.
pub open spec fn hex_digit(d: nat) -> char {
    if d < 10 {
        (48 + d) as char
    } else {
        (87 + d) as char
    }
}

/// The last `n` hexadecimal digits of a number.
pub open spec fn hex(v: nat, n: nat) -> Seq<char>
    decreases n,
{
    if n == 0 {
        Seq::empty()
    } else {
        hex(v / 16, (n - 1) as nat).push(hex_digit(v % 16))
    }
}

/// A character as markup text.
pub open spec fn escaped_char(c: char) -> Seq<char> {
    if c == '&' {
        "&amp;"@
    } else if c == '<' {
        "&lt;"@
    } else if c == '>' {
        "&gt;"@
    } else {
        seq![c]
    }
}

/// A string as markup text: ampersands and angle brackets become
/// entities, everything else stays.
pub open spec fn escaped(s: Seq<char>) -> Seq<char>
    decreases s.len(),
{
    if s.len() == 0 {
        Seq::empty()
    } else {
        escaped(s.drop_last()) + escaped_char(s.last())
    }
}

/// A decimal digit's character.
pub fn digit_char(d: u8) -> (c: char)
    requires
        d < 10,
    ensures
        c == digit(d as nat),
{
    match d {
        0 => '0',
        1 => '1',
        2 => '2',
        3 => '3',
        4 => '4',
        5 => '5',
        6 => '6',
        7 => '7',
        8 => '8',
        _ => '9',
    }
}

/// A hexadecimal digit's character.
fn hex_char(d: u8) -> (c: char)
    requires
        d < 16,
    ensures
        c == hex_digit(d as nat),
{
    match d {
        10 => 'a',
        11 => 'b',
        12 => 'c',
        13 => 'd',
        14 => 'e',
        15 => 'f',
        _ => digit_char(d),
    }
}

/// Append a decimal numeral.
pub fn push_dec(out: &mut String, v: u64)
    ensures
        final(out)@ == old(out)@ + dec(v as nat),
    decreases v,
{
    if v >= 10 {
        push_dec(out, v / 10);
    }
    out.push(digit_char((v % 10) as u8));
    proof {
        if v >= 10 {
            assert(old(out)@ + dec((v / 10) as nat).push(digit((v % 10) as nat)) =~= (old(out)@
                + dec((v / 10) as nat)).push(digit((v % 10) as nat)));
        } else {
            assert(old(out)@ + seq![digit(v as nat)] =~= old(out)@.push(digit(v as nat)));
        }
    }
}

/// Append a signed decimal numeral.
pub fn push_int(out: &mut String, v: i64)
    ensures
        final(out)@ == old(out)@ + sdec(v as int),
{
    if v < 0 {
        out.push('-');
        let m: u64 = if v == i64::MIN {
            0x8000_0000_0000_0000
        } else {
            (-v) as u64
        };
        push_dec(out, m);
        proof {
            assert(old(out)@.push('-') + dec((-v) as nat) =~= old(out)@ + (seq!['-'] + dec(
                (-v) as nat,
            )));
        }
    } else {
        push_dec(out, v as u64);
    }
}

/// Append the last `n` hexadecimal digits.
fn push_hex_digits(out: &mut String, v: u64, n: u8)
    ensures
        final(out)@ == old(out)@ + hex(v as nat, n as nat),
    decreases n,
{
    if n > 0 {
        push_hex_digits(out, v / 16, n - 1);
        out.push(hex_char((v % 16) as u8));
        proof {
            assert((old(out)@ + hex((v / 16) as nat, (n - 1) as nat)).push(
                hex_digit((v % 16) as nat),
            ) =~= old(out)@ + hex((v / 16) as nat, (n - 1) as nat).push(
                hex_digit((v % 16) as nat),
            ));
        }
    } else {
        proof {
            assert(old(out)@ + Seq::<char>::empty() =~= old(out)@);
        }
    }
}

/// Append a 64-bit digest as 16 hexadecimal digits.
pub fn push_hex16(out: &mut String, v: u64)
    ensures
        final(out)@ == old(out)@ + hex(v as nat, 16),
{
    push_hex_digits(out, v, 16);
}

/// Append a byte as two hexadecimal digits.
pub fn hex_pair(out: &mut String, v: u8)
    ensures
        final(out)@ == old(out)@ + hex(v as nat, 2),
{
    push_hex_digits(out, v as u64, 2);
}

/// A 64-bit digest as 16 hexadecimal digits.
pub fn hex16(v: u64) -> (r: String)
    ensures
        r@ == hex(v as nat, 16),
{
    let mut out = String::new();
    push_hex16(&mut out, v);
    proof {
        assert(Seq::<char>::empty() + hex(v as nat, 16) =~= hex(v as nat, 16));
    }
    out
}

/// A decimal numeral.
pub fn decimal(v: u64) -> (r: String)
    ensures
        r@ == dec(v as nat),
{
    let mut out = String::new();
    push_dec(&mut out, v);
    proof {
        assert(Seq::<char>::empty() + dec(v as nat) =~= dec(v as nat));
    }
    out
}

/// The characters of a string.
pub fn chars_of(s: &str) -> (r: Vec<char>)
    ensures
        r@ == s@,
{
    let mut v: Vec<char> = Vec::new();
    for c in it: s.chars()
        invariant
            v@ == it.seq().take(it.index() as int),
            it.seq() == s@,
    {
        v.push(c);
        proof {
            assert(it.seq().take(it.index() + 1) =~= it.seq().take(it.index() as int).push(c));
        }
    }
    proof {
        assert(s@.take(s@.len() as int) =~= s@);
    }
    v
}

/// The string of a run of characters.
pub fn string_of(v: &[char], from: usize, to: usize) -> (r: String)
    requires
        from <= to <= v@.len(),
    ensures
        r@ == v@.subrange(from as int, to as int),
{
    let mut out = String::new();
    let mut i: usize = from;
    while i < to
        invariant
            from <= i <= to <= v@.len(),
            out@ == v@.subrange(from as int, i as int),
        decreases to - i,
    {
        out.push(v[i]);
        proof {
            assert(v@.subrange(from as int, i + 1) =~= v@.subrange(from as int, i as int).push(
                v@[i as int],
            ));
        }
        i = i + 1;
    }
    out
}

/// Whether two strings are the same text.
pub fn same(a: &str, b: &str) -> (r: bool)
    ensures
        r == (a@ == b@),
{
    a.to_owned() == b.to_owned()
}

/// Escape the characters that markup reserves.
pub fn xml_escape(s: &str) -> (r: String)
    ensures
        r@ == escaped(s@),
{
    let v: Vec<char> = chars_of(s);
    let mut out = String::new();
    let mut i: usize = 0;
    while i < v.len()
        invariant
            i <= v@.len(),
            out@ == escaped(v@.take(i as int)),
        decreases v@.len() - i,
    {
        let c: char = v[i];
        if c == '&' {
            out.append("&amp;");
        } else if c == '<' {
            out.append("&lt;");
        } else if c == '>' {
            out.append("&gt;");
        } else {
            out.push(c);
        }
        proof {
            let next = v@.take(i + 1);
            assert(next.drop_last() =~= v@.take(i as int));
            assert(next.last() == c);
            assert(escaped(next) =~= escaped(v@.take(i as int)) + escaped_char(c));
        }
        i = i + 1;
    }
    proof {
        assert(v@.take(i as int) =~= v@);
    }
    out
}

/// A group of three digits, leading zeros kept.
pub open spec fn three_digits(n: nat) -> Seq<char> {
    seq![digit(n / 100 % 10), digit(n / 10 % 10), digit(n % 10)]
}

/// A decimal numeral with a comma before every group of three digits.
pub open spec fn grouped(n: nat) -> Seq<char>
    decreases n,
{
    if n < 1000 {
        dec(n)
    } else {
        grouped(n / 1000).push(',') + three_digits(n % 1000)
    }
}

/// Append a numeral with thousands separators.
fn push_grouped(out: &mut String, n: u64)
    ensures
        final(out)@ == old(out)@ + grouped(n as nat),
    decreases n,
{
    if n < 1000 {
        push_dec(out, n);
    } else {
        push_grouped(out, n / 1000);
        let low: u64 = n % 1000;
        out.push(',');
        out.push(digit_char((low / 100 % 10) as u8));
        out.push(digit_char((low / 10 % 10) as u8));
        out.push(digit_char((low % 10) as u8));
        proof {
            assert(out@ =~= old(out)@ + (grouped((n / 1000) as nat).push(',') + three_digits(
                low as nat,
            )));
        }
    }
}

/// A number with thousands separators: 390104 is `390,104`.
pub fn fmt_num(n: u64) -> (r: String)
    ensures
        r@ == grouped(n as nat),
{
    let mut out = String::new();
    push_grouped(&mut out, n);
    proof {
        assert(Seq::<char>::empty() + grouped(n as nat) =~= grouped(n as nat));
    }
    out
}

/// A text without its commas.
pub open spec fn without_commas(s: Seq<char>) -> Seq<char>
    decreases s.len(),
{
    if s.len() == 0 {
        Seq::empty()
    } else if s.last() == ',' {
        without_commas(s.drop_last())
    } else {
        without_commas(s.drop_last()).push(s.last())
    }
}

/// Dropping commas piece by piece.
proof fn lemma_without_commas_append(a: Seq<char>, b: Seq<char>)
    ensures
        without_commas(a + b) == without_commas(a) + without_commas(b),
    decreases b.len(),
{
    if b.len() == 0 {
        assert(a + b =~= a);
        assert(without_commas(a) + Seq::<char>::empty() =~= without_commas(a));
    } else {
        lemma_without_commas_append(a, b.drop_last());
        assert((a + b).drop_last() =~= a + b.drop_last());
        assert((a + b).last() == b.last());
        if b.last() != ',' {
            assert((without_commas(a) + without_commas(b.drop_last())).push(b.last())
                =~= without_commas(a) + without_commas(b.drop_last()).push(b.last()));
        }
    }
}

/// Numerals hold digits only.
pub proof fn lemma_dec_digits(n: nat)
    ensures
        dec(n).len() > 0,
        forall|i: int| 0 <= i < dec(n).len() ==> '0' <= #[trigger] dec(n)[i] <= '9',
        without_commas(dec(n)) == dec(n),
    decreases n,
{
    if n >= 10 {
        lemma_dec_digits(n / 10);
        assert(dec(n).drop_last() =~= dec(n / 10));
    } else {
        assert(dec(n).drop_last() =~= Seq::<char>::empty());
        assert(without_commas(Seq::<char>::empty()) == Seq::<char>::empty());
        assert(without_commas(dec(n)) =~= dec(n));
    }
}

/// Groups of three digits hold no comma.
proof fn lemma_three_digits_hold_no_comma(n: nat)
    ensures
        without_commas(three_digits(n)) == three_digits(n),
{
    let t = three_digits(n);
    let t2 = t.drop_last();
    let t1 = t2.drop_last();
    assert(t1.drop_last() =~= Seq::<char>::empty());
    assert(without_commas(t1.drop_last()) =~= Seq::<char>::empty());
    assert(t1.last() != ',');
    assert(t2.last() != ',');
    assert(t.last() != ',');
    assert(without_commas(t1) =~= t1);
    assert(without_commas(t2) =~= t2);
    assert(without_commas(t) =~= t);
}

/// The last three digits of a number.
proof fn lemma_last_digits(n: nat)
    ensures
        n % 10 == n % 1000 % 10,
        n / 10 % 10 == n % 1000 / 10 % 10,
        n / 100 % 10 == n % 1000 / 100 % 10,
        n / 10 / 10 == n / 100,
        n / 100 / 10 == n / 1000,
{
    let (a, b, c, d) = (n / 10 / 10 / 10, n / 10 / 10 % 10, n / 10 % 10, n % 10);
    assert(n == 1000 * a + 100 * b + 10 * c + d);
    lemma_digits_apart(a, b, c, d);
}

/// A number written by its thousands and its last three digits.
proof fn lemma_digits_apart(a: nat, b: nat, c: nat, d: nat)
    requires
        b < 10,
        c < 10,
        d < 10,
    ensures
        (1000 * a + 100 * b + 10 * c + d) % 1000 == 100 * b + 10 * c + d,
        (1000 * a + 100 * b + 10 * c + d) / 1000 == a,
        (1000 * a + 100 * b + 10 * c + d) / 100 == 10 * a + b,
        (100 * b + 10 * c + d) / 100 == b,
        (100 * b + 10 * c + d) / 10 == 10 * b + c,
        (10 * b + c) % 10 == c,
        (10 * a + b) % 10 == b,
        (10 * a + b) / 10 == a,
        (100 * b + 10 * c + d) % 10 == d,
{
}

/// A number of four digits or more ends in a group of three.
proof fn lemma_dec_ends_in_a_group(n: nat)
    requires
        n >= 1000,
    ensures
        dec(n) == dec(n / 1000) + three_digits(n % 1000),
{
    lemma_last_digits(n);
    assert(dec(n) == dec(n / 10).push(digit(n % 10)));
    assert(dec(n / 10) == dec(n / 100).push(digit(n / 10 % 10)));
    assert(dec(n / 100) == dec(n / 1000).push(digit(n / 100 % 10)));
    assert(dec(n) =~= dec(n / 1000) + three_digits(n % 1000));
}

/// The thousands separators are the only thing `fmt_num` adds: without
/// them the numeral is the plain one.
pub proof fn lemma_grouped_is_dec_with_commas(n: nat)
    ensures
        without_commas(grouped(n)) == dec(n),
    decreases n,
{
    if n < 1000 {
        lemma_dec_digits(n);
    } else {
        lemma_grouped_is_dec_with_commas(n / 1000);
        lemma_without_commas_append(grouped(n / 1000).push(','), three_digits(n % 1000));
        assert(grouped(n / 1000).push(',').drop_last() =~= grouped(n / 1000));
        lemma_three_digits_hold_no_comma(n % 1000);
        lemma_dec_ends_in_a_group(n);
    }
}

} // verus!
