//! Text: splitting fields, reading unsigned numbers and writing them.

use vstd::prelude::*;
use vstd::string::*;

verus! {

/// Index of the first `b` in `s`, or the length of `s` when there is none.
pub open spec fn position(s: Seq<u8>, b: u8) -> nat
    decreases s.len(),
{
    if s.len() == 0 || s[0] == b {
        0
    } else {
        1 + position(s.drop_first(), b)
    }
}

/// The pieces of `s` between the occurrences of `sep`.
pub open spec fn split(s: Seq<u8>, sep: u8) -> Seq<Seq<u8>>
    decreases s.len(),
{
    let p = position(s, sep);
    if p >= s.len() {
        seq![s]
    } else {
        seq![s.take(p as int)] + split(s.skip(p as int + 1), sep)
    }
}

/// What [`position`] finds: `s` does not hold `b` before that index, and holds
/// it there.
pub proof fn lemma_position(s: Seq<u8>, b: u8)
    ensures
        position(s, b) <= s.len(),
        forall|i: int| 0 <= i < position(s, b) ==> s[i] != b,
        position(s, b) < s.len() ==> s[position(s, b) as int] == b,
    decreases s.len(),
{
    if s.len() != 0 && s[0] != b {
        let rest = s.drop_first();
        lemma_position(rest, b);
        assert forall|i: int| 0 <= i < position(s, b) implies s[i] != b by {
            if i > 0 {
                assert(s[i] == rest[i - 1]);
            }
        }
    }
}

/// An index with `b` there and none before is the one that [`position`] finds.
pub proof fn lemma_position_is(s: Seq<u8>, b: u8, p: int)
    requires
        0 <= p <= s.len(),
        forall|i: int| 0 <= i < p ==> s[i] != b,
        p < s.len() ==> s[p] == b,
    ensures
        position(s, b) == p,
{
    lemma_position(s, b);
    let q = position(s, b) as int;
    if q < p {
        assert(s[q] != b);
    }
    if p < q {
        assert(s[p] != b);
    }
}

/// Index of the first `b` in `s`, or the length of `s` when there is none.
pub fn find(s: &[u8], b: u8) -> (p: usize)
    ensures
        p == position(s@, b),
        p <= s@.len(),
{
    let mut p: usize = 0;
    while p < s.len() && s[p] != b
        invariant
            p <= s@.len(),
            forall|i: int| 0 <= i < p ==> s@[i] != b,
        decreases s@.len() - p,
    {
        p = p + 1;
    }
    proof {
        lemma_position_is(s@, b, p as int);
    }
    p
}

/// The UTF-8 bytes of each string.
pub open spec fn bytes_of(parts: Seq<&str>) -> Seq<Seq<u8>> {
    Seq::new(parts.len(), |i: int| parts[i].spec_bytes())
}

/// An index where a valid string holds an ASCII byte starts a character, and
/// so does the one behind it.
pub proof fn lemma_ascii_boundary(s: Seq<u8>, p: int)
    requires
        vstd::utf8::valid_utf8(s),
        0 <= p < s.len(),
        s[p] < 0x80,
    ensures
        vstd::utf8::is_char_boundary(s, p),
        vstd::utf8::valid_utf8(s.skip(p)),
        vstd::utf8::is_char_boundary(s.skip(p), 1),
{
    vstd::utf8::is_char_boundary_iff_is_leading_byte(s, p);
    assert(vstd::utf8::is_leading_byte_width_1(s[p]));
    vstd::utf8::valid_utf8_split(s, p);
    assert(s.subrange(p, s.len() as int) =~= s.skip(p));
    let t = s.skip(p);
    assert(vstd::utf8::is_leading_byte_width_1(t[0]));
    reveal_with_fuel(vstd::utf8::is_char_boundary, 2);
}

/// The pieces of `s` between the occurrences of `sep`.
pub fn split_str<'a>(s: &'a str, sep: u8) -> (parts: Vec<&'a str>)
    requires
        sep < 0x80,
    ensures
        bytes_of(parts@) == split(s.spec_bytes(), sep),
{
    let mut parts: Vec<&'a str> = Vec::new();
    let mut rest: &'a str = s;
    let mut p: usize = find(rest.as_bytes(), sep);
    assert(bytes_of(parts@) =~= Seq::empty());
    while p < rest.as_bytes().len()
        invariant
            sep < 0x80,
            p == position(rest.spec_bytes(), sep),
            p <= rest.spec_bytes().len(),
            split(s.spec_bytes(), sep) =~= bytes_of(parts@) + split(rest.spec_bytes(), sep),
        decreases rest.spec_bytes().len(),
    {
        let ghost before = rest.spec_bytes();
        proof {
            vstd::utf8::encode_utf8_valid_utf8(rest@);
            lemma_position(before, sep);
            lemma_ascii_boundary(before, p as int);
        }
        let (head, tail) = rest.split_at(p);
        assert(tail.spec_bytes() =~= before.skip(p as int));
        let (_, next) = tail.split_at(1);
        assert(next.spec_bytes() =~= before.skip(p + 1));
        let ghost prev = bytes_of(parts@);
        parts.push(head);
        assert(head.spec_bytes() =~= before.take(p as int));
        assert(bytes_of(parts@) =~= prev.push(before.take(p as int)));
        rest = next;
        p = find(rest.as_bytes(), sep);
    }
    let ghost prev = bytes_of(parts@);
    parts.push(rest);
    assert(bytes_of(parts@) =~= prev.push(rest.spec_bytes()));
    parts
}

/// The value of a digit character, up to base 16.
pub open spec fn digit_value(b: u8) -> nat {
    if 0x30 <= b <= 0x39 {
        (b - 0x30) as nat
    } else if 0x41 <= b <= 0x46 {
        (b - 0x41 + 10) as nat
    } else if 0x61 <= b <= 0x66 {
        (b - 0x61 + 10) as nat
    } else {
        16
    }
}

/// Whether `s` is one or more digits in base `radix`.
pub open spec fn is_number(s: Seq<u8>, radix: nat) -> bool {
    &&& s.len() > 0
    &&& forall|i: int| 0 <= i < s.len() ==> digit_value(#[trigger] s[i]) < radix
}

/// What a run of digits is worth in base `radix`.
pub open spec fn number_value(s: Seq<u8>, radix: nat) -> nat
    decreases s.len(),
{
    if s.len() == 0 {
        0
    } else {
        number_value(s.drop_last(), radix) * radix + digit_value(s.last())
    }
}

/// `s` without one leading `+`.
pub open spec fn unsigned_part(s: Seq<u8>) -> Seq<u8> {
    if s.len() > 0 && s[0] == 0x2B {
        s.skip(1)
    } else {
        s
    }
}

/// The unsigned number that `s` writes out: an optional `+`, then digits only,
/// worth no more than `max`.
pub open spec fn unsigned(s: Seq<u8>, radix: nat, max: nat) -> Option<nat> {
    let d = unsigned_part(s);
    if is_number(d, radix) && number_value(d, radix) <= max {
        Some(number_value(d, radix))
    } else {
        None
    }
}

/// The decimal number that `s` writes out, or zero.
pub open spec fn decimal_or_zero(s: Seq<u8>, max: nat) -> nat {
    match unsigned(s, 10, max) {
        Some(v) => v,
        None => 0,
    }
}

/// More digits never make a number smaller.
proof fn lemma_number_grows(s: Seq<u8>, radix: nat, n: int)
    requires
        radix >= 1,
        0 <= n <= s.len(),
    ensures
        number_value(s.take(n), radix) <= number_value(s, radix),
    decreases s.len() - n,
{
    if n == s.len() {
        assert(s.take(n) =~= s);
    } else {
        lemma_number_grows(s, radix, n + 1);
        let longer = s.take(n + 1);
        assert(longer.drop_last() =~= s.take(n));
        let v = number_value(s.take(n), radix);
        assert(v * radix >= v) by (nonlinear_arith)
            requires
                radix >= 1,
        ;
    }
}

fn digit(b: u8) -> (d: u64)
    ensures
        d == digit_value(b),
        d <= 16,
{
    if 0x30 <= b && b <= 0x39 {
        (b - 0x30) as u64
    } else if 0x41 <= b && b <= 0x46 {
        (b - 0x41 + 10) as u64
    } else if 0x61 <= b && b <= 0x66 {
        (b - 0x61 + 10) as u64
    } else {
        16
    }
}

/// Reads an unsigned number in base `radix`, no larger than `max`.
pub fn parse_unsigned(s: &[u8], radix: u64, max: u64) -> (out: Option<u64>)
    requires
        2 <= radix <= 16,
    ensures
        match out {
            Some(v) => unsigned(s@, radix as nat, max as nat) == Some(v as nat),
            None => unsigned(s@, radix as nat, max as nat) is None,
        },
{
    let start: usize = if s.len() > 0 && s[0] == 0x2B {
        1
    } else {
        0
    };
    let ghost d = unsigned_part(s@);
    assert(d =~= s@.skip(start as int));
    if start == s.len() {
        return None;
    }
    let mut v: u64 = 0;
    let mut i: usize = start;
    assert(d.take(0) =~= Seq::empty());
    while i < s.len()
        invariant
            2 <= radix <= 16,
            start <= i <= s@.len(),
            d == s@.skip(start as int),
            d == unsigned_part(s@),
            v == number_value(d.take(i - start), radix as nat),
            v <= max,
            forall|j: int| 0 <= j < i - start ==> digit_value(#[trigger] d[j]) < radix,
        decreases s@.len() - i,
    {
        let x: u64 = digit(s[i]);
        assert(s@[i as int] == d[i - start]);
        if x >= radix {
            return None;
        }
        assert(v as nat * radix as nat <= 0xFFFF_FFFF_FFFF_FFFF * 16) by (nonlinear_arith)
            requires
                v <= 0xFFFF_FFFF_FFFF_FFFF,
                radix <= 16,
        ;
        let next: u128 = v as u128 * radix as u128 + x as u128;
        assert(d.take(i - start + 1).drop_last() =~= d.take(i - start));
        if next > max as u128 {
            proof {
                lemma_number_grows(d, radix as nat, i - start + 1);
            }
            return None;
        }
        v = next as u64;
        i = i + 1;
    }
    assert(d.take(i - start) =~= d);
    Some(v)
}

/// Reads a decimal number no larger than `max`; anything else counts as zero.
pub fn parse_or_zero(s: &[u8], max: u64) -> (v: u64)
    ensures
        v == decimal_or_zero(s@, max as nat),
        v <= max,
{
    match parse_unsigned(s, 10, max) {
        Some(v) => v,
        None => 0,
    }
}

/// The character of a decimal digit.
pub open spec fn digit_char(d: nat) -> char {
    (0x30 + d) as char
}

/// The decimal digits of `n`.
pub open spec fn dec(n: nat) -> Seq<char>
    decreases n,
{
    if n < 10 {
        seq![digit_char(n)]
    } else {
        dec(n / 10).push(digit_char(n % 10))
    }
}

/// `n` zeros.
pub open spec fn zeros(n: nat) -> Seq<char> {
    Seq::new(n, |i: int| '0')
}

/// The decimal digits of `n`, padded with zeros on the left to `width`.
pub open spec fn padded(n: nat, width: nat) -> Seq<char> {
    if dec(n).len() >= width {
        dec(n)
    } else {
        zeros((width - dec(n).len()) as nat) + dec(n)
    }
}

fn digit_str(d: u64) -> (s: &'static str)
    requires
        d < 10,
    ensures
        s@ == seq![digit_char(d as nat)],
{
    proof {
        reveal_strlit("0");
        reveal_strlit("1");
        reveal_strlit("2");
        reveal_strlit("3");
        reveal_strlit("4");
        reveal_strlit("5");
        reveal_strlit("6");
        reveal_strlit("7");
        reveal_strlit("8");
        reveal_strlit("9");
    }
    let s: &'static str = if d == 0 {
        "0"
    } else if d == 1 {
        "1"
    } else if d == 2 {
        "2"
    } else if d == 3 {
        "3"
    } else if d == 4 {
        "4"
    } else if d == 5 {
        "5"
    } else if d == 6 {
        "6"
    } else if d == 7 {
        "7"
    } else if d == 8 {
        "8"
    } else {
        "9"
    };
    assert(s@ =~= seq![digit_char(d as nat)]);
    s
}

/// Appends the decimal digits of `n`.
pub fn push_dec(out: &mut String, n: u64)
    ensures
        final(out)@ == old(out)@ + dec(n as nat),
    decreases n,
{
    if n >= 10 {
        push_dec(out, n / 10);
    }
    out.append(digit_str(n % 10));
    assert(out@ =~= old(out)@ + dec(n as nat));
}

/// How many decimal digits `n` has.
pub(crate) fn dec_len(n: u64) -> (len: u64)
    ensures
        len == dec(n as nat).len(),
        len <= n + 1,
    decreases n,
{
    if n < 10 {
        1
    } else {
        1 + dec_len(n / 10)
    }
}

/// Appends the decimal digits of `n`, padded with zeros to `width`.
pub fn push_padded(out: &mut String, n: u64, width: u64)
    ensures
        final(out)@ == old(out)@ + padded(n as nat, width as nat),
{
    let mut len: u64 = dec_len(n);
    let ghost start = len;
    let ghost before = out@;
    proof {
        reveal_strlit("0");
    }
    assert(zeros(0) =~= Seq::empty());
    while len < width
        invariant
            start == dec(n as nat).len(),
            start <= len,
            len <= width || len == start,
            out@ =~= before + zeros((len - start) as nat),
            "0"@ =~= seq!['0'],
        decreases width - len,
    {
        out.append("0");
        len = len + 1;
    }
    push_dec(out, n);
    assert(out@ =~= before + padded(n as nat, width as nat));
}

/// Ten to the power `n`.
pub open spec fn pow10(n: nat) -> nat
    decreases n,
{
    if n == 0 {
        1
    } else {
        10 * pow10((n - 1) as nat)
    }
}

/// A number below ten to the power `n` has at most `n` digits.
pub proof fn lemma_dec_len(v: nat, n: nat)
    requires
        v < pow10(n),
        n > 0,
    ensures
        1 <= dec(v).len() <= n,
    decreases n,
{
    if v >= 10 {
        assert(n > 1) by {
            reveal_with_fuel(pow10, 2);
        }
        lemma_dec_len(v / 10, (n - 1) as nat);
    }
}

/// A number padded to a width that it fits in has just that width.
pub proof fn lemma_padded_len(v: nat, width: nat)
    requires
        v < pow10(width),
        width > 0,
    ensures
        padded(v, width).len() == width,
{
    lemma_dec_len(v, width);
}

/// Appends `n` spaces.
pub(crate) fn push_spaces(out: &mut String, n: u64)
    ensures
        final(out)@ == old(out)@ + Seq::new(n as nat, |i: int| ' '),
{
    let mut i: u64 = 0;
    let ghost before = out@;
    proof {
        reveal_strlit(" ");
    }
    assert(out@ =~= before + Seq::new(0, |i: int| ' '));
    while i < n
        invariant
            i <= n,
            out@ =~= before + Seq::new(i as nat, |i: int| ' '),
            " "@ =~= seq![' '],
        decreases n - i,
    {
        out.append(" ");
        i = i + 1;
    }
}

/// Text as a `&str` when it is valid UTF-8.
///
/// Calls `core::str::from_utf8`, which succeeds exactly on valid UTF-8 and
/// hands back the same bytes.
#[verifier::external_body]
pub(crate) fn utf8(s: &[u8]) -> (out: Option<&str>)
    ensures
        out is Some <==> vstd::utf8::valid_utf8(s@),
        out matches Some(t) ==> t.spec_bytes() == s@,
{
    core::str::from_utf8(s).ok()
}

/// How bytes received from a peer are shown: as text, or as a stand-in.
pub open spec fn shown(s: Seq<u8>) -> Seq<char> {
    if vstd::utf8::valid_utf8(s) {
        vstd::utf8::decode_utf8(s)
    } else {
        "<non-utf8>"@
    }
}

/// The text of `s`, or `<non-utf8>` when it is not valid UTF-8.
pub fn utf8_or_note(s: &[u8]) -> (out: &str)
    ensures
        out@ == shown(s@),
{
    match utf8(s) {
        Some(t) => {
            proof {
                vstd::utf8::encode_utf8_decode_utf8(t@);
            }
            t
        },
        None => "<non-utf8>",
    }
}

/// Parts with `sep` between them.
pub open spec fn joined_by(parts: Seq<Seq<u8>>, sep: u8) -> Seq<u8>
    decreases parts.len(),
{
    if parts.len() == 0 {
        Seq::empty()
    } else if parts.len() == 1 {
        parts[0]
    } else {
        parts[0] + seq![sep] + joined_by(parts.drop_first(), sep)
    }
}

/// Whether `s` holds no `b`.
pub open spec fn lacks(s: Seq<u8>, b: u8) -> bool {
    forall|i: int| 0 <= i < s.len() ==> #[trigger] s[i] != b
}

/// Parts that do not hold the separator come back from between it.
pub proof fn law_joined_parts_split(parts: Seq<Seq<u8>>, sep: u8)
    requires
        parts.len() > 0,
        forall|i: int| 0 <= i < parts.len() ==> lacks(#[trigger] parts[i], sep),
    ensures
        split(joined_by(parts, sep), sep) == parts,
    decreases parts.len(),
{
    let s = joined_by(parts, sep);
    assert(lacks(parts[0], sep));
    if parts.len() == 1 {
        lemma_position_is(s, sep, s.len() as int);
        assert(seq![s] =~= parts);
    } else {
        let rest = parts.drop_first();
        assert forall|i: int| 0 <= i < rest.len() implies lacks(#[trigger] rest[i], sep) by {
            assert(rest[i] == parts[i + 1]);
        }
        law_joined_parts_split(rest, sep);
        let n = parts[0].len() as int;
        assert forall|i: int| 0 <= i < n implies s[i] != sep by {
            assert(s[i] == parts[0][i]);
        }
        lemma_position_is(s, sep, n);
        assert(s.take(n) =~= parts[0]);
        assert(s.skip(n + 1) =~= joined_by(rest, sep));
        assert(seq![parts[0]] + rest =~= parts);
    }
}

/// The decimal digits of `n` in just `width` places.
pub open spec fn wide(n: nat, width: nat) -> Seq<u8>
    decreases width,
{
    if width == 0 {
        Seq::empty()
    } else {
        wide(n / 10, (width - 1) as nat).push((0x30 + n % 10) as u8)
    }
}

/// What a number written in enough places is made of, and what it is worth.
pub proof fn lemma_wide(n: nat, width: nat)
    requires
        n < pow10(width),
    ensures
        wide(n, width).len() == width,
        forall|i: int| 0 <= i < width ==> 0x30 <= #[trigger] wide(n, width)[i] <= 0x39,
        number_value(wide(n, width), 10) == n,
    decreases width,
{
    if width > 0 {
        lemma_wide(n / 10, (width - 1) as nat);
        assert(wide(n, width).drop_last() =~= wide(n / 10, (width - 1) as nat));
    }
}

/// A number reads back from its digits, however many zeros stand in front, up
/// to the limit and no further.
pub proof fn law_number_reads_back(n: nat, width: nat, max: nat)
    requires
        n < pow10(width),
    ensures
        unsigned(wide(n, width), 10, max) == (if width > 0 && n <= max {
            Some(n)
        } else {
            None
        }),
        width > 0 ==> unsigned(seq![0x2Bu8] + wide(n, width), 10, max) == unsigned(
            wide(n, width),
            10,
            max,
        ),
{
    let s = wide(n, width);
    lemma_wide(n, width);
    assert forall|i: int| 0 <= i < s.len() implies digit_value(#[trigger] s[i]) < 10 by {
        assert(0x30 <= s[i] <= 0x39);
    }
    if width > 0 {
        assert(0x30 <= s[0] <= 0x39);
        assert((seq![0x2Bu8] + s).skip(1) =~= s);
    }
}

/// What is not a decimal number is not taken for one: a plus sign at most,
/// then one digit or more, and nothing else.
pub proof fn law_only_digits_make_a_number(s: Seq<u8>, max: nat)
    requires
        unsigned(s, 10, max) is Some,
    ensures
        s.len() > 0,
        0x30 <= s[0] <= 0x39 || (s[0] == 0x2B && s.len() > 1),
        forall|i: int| 1 <= i < s.len() ==> 0x30 <= #[trigger] s[i] <= 0x39,
        unsigned(s, 10, max)->Some_0 <= max,
{
    let d = unsigned_part(s);
    assert(digit_value(d[0]) < 10);
    assert forall|i: int| 1 <= i < s.len() implies 0x30 <= #[trigger] s[i] <= 0x39 by {
        if s[0] == 0x2B {
            assert(d[i - 1] == s[i]);
        } else {
            assert(d[i] == s[i]);
        }
    }
}

/// Where a number or zero is asked for, a number up to the limit is itself; one
/// beyond it counts as zero, and so does what holds anything but digits.
pub proof fn law_unreadable_number_counts_as_zero(
    n: nat,
    width: nat,
    max: nat,
    s: Seq<u8>,
    i: int,
)
    requires
        n < pow10(width),
        width > 0,
        1 <= i < s.len(),
        !(0x30 <= s[i] <= 0x39),
    ensures
        decimal_or_zero(wide(n, width), max) == (if n <= max {
            n
        } else {
            0
        }),
        decimal_or_zero(s, max) == 0,
        decimal_or_zero(s.skip(i), max) == 0 || s[i] == 0x2B,
        decimal_or_zero(Seq::empty(), max) == 0,
{
    law_number_reads_back(n, width, max);
    if unsigned(s, 10, max) is Some {
        law_only_digits_make_a_number(s, max);
    }
    let t = s.skip(i);
    if unsigned(t, 10, max) is Some {
        law_only_digits_make_a_number(t, max);
        assert(t[0] == s[i]);
    }
}

/// A number that is written out is written in its own digits.
pub proof fn law_written_number_is_its_digits(n: nat)
    ensures
        n < pow10(dec(n).len()),
        dec(n).len() > 1 ==> pow10((dec(n).len() - 1) as nat) <= n,
        forall|i: int|
            0 <= i < dec(n).len() ==> #[trigger] dec(n)[i] as u8 == wide(n, dec(n).len())[i],
        forall|i: int| 0 <= i < dec(n).len() ==> 0x30 <= #[trigger] dec(n)[i] as int <= 0x39,
    decreases n,
{
    if n < 10 {
        reveal_with_fuel(pow10, 2);
        reveal_with_fuel(wide, 2);
    } else {
        let before = dec(n / 10);
        law_written_number_is_its_digits(n / 10);
        assert(before.len() >= 1) by {
            if before.len() == 0 {
                assert(pow10(0) == 1);
            }
        }
        assert(dec(n).drop_last() =~= before);
        reveal_with_fuel(pow10, 2);
        lemma_wide(n / 10, before.len());
        let w = wide(n, dec(n).len());
        assert(w =~= wide(n / 10, before.len()).push((0x30 + n % 10) as u8));
        assert forall|i: int| 0 <= i < dec(n).len() implies #[trigger] dec(n)[i] as u8 == w[i] by {
            if i < before.len() {
                assert(dec(n)[i] == before[i]);
            }
        }
    }
}

/// A padded number is its digits in that many places.
pub proof fn law_padded_number_is_its_digits(n: nat, width: nat)
    requires
        n < pow10(width),
    ensures
        width > 0 ==> padded(n, width).len() == width,
        forall|i: int|
            0 <= i < width && width > 0 ==> #[trigger] padded(n, width)[i] as u8 == wide(
                n,
                width,
            )[i],
    decreases width,
{
    if width > 0 {
        lemma_dec_len(n, width);
        law_written_number_is_its_digits(n);
        lemma_wide_leading(n, dec(n).len(), (width - dec(n).len()) as nat);
        let k = (width - dec(n).len()) as nat;
        assert forall|i: int| 0 <= i < width implies #[trigger] padded(n, width)[i] as u8 == wide(
            n,
            width,
        )[i] by {
            if i >= k {
                assert(padded(n, width)[i] == dec(n)[i - k]);
                assert(dec(n)[i - k] as u8 == wide(n, dec(n).len())[i - k]);
            } else {
                assert(padded(n, width)[i] == '0');
            }
        }
    }
}

/// More places put zeros in front.
proof fn lemma_wide_leading(n: nat, width: nat, more: nat)
    requires
        n < pow10(width),
    ensures
        wide(n, width).len() == width,
        wide(n, width + more).len() == width + more,
        forall|i: int| 0 <= i < more ==> #[trigger] wide(n, width + more)[i] == 0x30,
        forall|i: int|
            more <= i < width + more ==> #[trigger] wide(n, width + more)[i] == wide(n, width)[i
                - more],
    decreases width + more,
{
    if width > 0 {
        lemma_wide_leading(n / 10, (width - 1) as nat, more);
    } else if more > 0 {
        lemma_wide_leading(0, 0, (more - 1) as nat);
        assert(n / 10 == 0);
    }
}

/// Text from a peer is shown as it is, and what is not text as a note.
pub proof fn law_text_is_shown_as_it_is(text: Seq<char>, s: Seq<u8>)
    ensures
        shown(vstd::utf8::encode_utf8(text)) == text,
        !vstd::utf8::valid_utf8(s) ==> shown(s) == "<non-utf8>"@,
{
    vstd::utf8::encode_utf8_valid_utf8(text);
    vstd::utf8::encode_utf8_decode_utf8(text);
}

/// Different numbers are written differently.
pub proof fn law_written_numbers_differ(a: nat, b: nat)
    requires
        dec(a) == dec(b),
    ensures
        a == b,
{
    law_written_number_is_its_digits(a);
    law_written_number_is_its_digits(b);
    let n = dec(a).len();
    lemma_wide(a, n);
    lemma_wide(b, n);
    assert forall|i: int| 0 <= i < n implies wide(a, n)[i] == wide(b, n)[i] by {
        assert(dec(a)[i] as u8 == wide(a, n)[i]);
        assert(dec(b)[i] as u8 == wide(b, n)[i]);
    }
    assert(wide(a, n) =~= wide(b, n));
}

/// A padded number is all digits.
pub proof fn law_padded_chars(n: nat, width: nat)
    ensures
        forall|i: int|
            0 <= i < padded(n, width).len() ==> 0x30 <= #[trigger] padded(n, width)[i] as int
                <= 0x39,
{
    law_written_number_is_its_digits(n);
    let p = padded(n, width);
    assert forall|i: int| 0 <= i < p.len() implies 0x30 <= #[trigger] p[i] as int <= 0x39 by {
        let k = p.len() - dec(n).len();
        if i >= k {
            assert(p[i] == dec(n)[i - k]);
        } else {
            assert(p[i] == '0');
        }
    }
}

} // verus!
