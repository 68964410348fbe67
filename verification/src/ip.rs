//! Textual IP address literals: a validated model of IPv4 and IPv6
//! addresses, a parser for their textual forms, and a renderer that
//! produces the canonical form (dotted decimal for IPv4, compressed
//! lowercase hexadecimal for IPv6). Parsing a rendered address gives the
//! address back.

use vstd::arithmetic::div_mod::lemma_fundamental_div_mod;
use vstd::prelude::*;
use vstd::string::StrSliceExecFns;
use vstd::string::StringExecFns;

verus! {

/// A character is an ASCII decimal digit.
pub open spec fn is_dec_digit(c: char) -> bool {
    '0' <= c && c <= '9'
}

/// A character is an ASCII hexadecimal digit, of either case.
pub open spec fn is_hex_digit(c: char) -> bool {
    is_dec_digit(c) || ('a' <= c && c <= 'f') || ('A' <= c && c <= 'F')
}

/// Numeric value of a decimal digit character.
pub open spec fn dec_digit_val(c: char) -> nat {
    (c as int - '0' as int) as nat
}

/// Numeric value of a hexadecimal digit character.
pub open spec fn hex_digit_val(c: char) -> nat {
    if is_dec_digit(c) {
        dec_digit_val(c)
    } else if 'a' <= c && c <= 'f' {
        (c as int - 'a' as int + 10) as nat
    } else {
        (c as int - 'A' as int + 10) as nat
    }
}

/// The lowercase digit character for a value below sixteen.
pub open spec fn digit_char(d: nat) -> char {
    if d == 0 {
        '0'
    } else if d == 1 {
        '1'
    } else if d == 2 {
        '2'
    } else if d == 3 {
        '3'
    } else if d == 4 {
        '4'
    } else if d == 5 {
        '5'
    } else if d == 6 {
        '6'
    } else if d == 7 {
        '7'
    } else if d == 8 {
        '8'
    } else if d == 9 {
        '9'
    } else if d == 10 {
        'a'
    } else if d == 11 {
        'b'
    } else if d == 12 {
        'c'
    } else if d == 13 {
        'd'
    } else if d == 14 {
        'e'
    } else {
        'f'
    }
}

/// The digit characters carry their values, are digits, and are neither
/// dots nor colons.
pub proof fn lemma_digit_char_val(d: nat)
    requires
        d < 16,
    ensures
        is_hex_digit(digit_char(d)),
        hex_digit_val(digit_char(d)) == d,
        d < 10 ==> is_dec_digit(digit_char(d)) && dec_digit_val(digit_char(d)) == d,
        d >= 10 ==> !is_dec_digit(digit_char(d)),
        digit_char(d) != '.' && digit_char(d) != ':',
        d >= 1 ==> digit_char(d) != '0',
{
}

/// Length of the maximal prefix of decimal digits.
pub open spec fn dec_prefix_len(s: Seq<char>) -> nat
    decreases s.len(),
{
    if s.len() == 0 || !is_dec_digit(s[0]) {
        0
    } else {
        (1 + dec_prefix_len(s.skip(1))) as nat
    }
}

/// Length of the maximal prefix of hexadecimal digits.
pub open spec fn hex_prefix_len(s: Seq<char>) -> nat
    decreases s.len(),
{
    if s.len() == 0 || !is_hex_digit(s[0]) {
        0
    } else {
        (1 + hex_prefix_len(s.skip(1))) as nat
    }
}

/// Value of a sequence of decimal digits, most significant first.
pub open spec fn dec_value(ds: Seq<char>) -> nat
    decreases ds.len(),
{
    if ds.len() == 0 {
        0
    } else {
        dec_value(ds.drop_last()) * 10 + dec_digit_val(ds.last())
    }
}

/// Value of a sequence of hexadecimal digits, most significant first.
pub open spec fn hex_value(ds: Seq<char>) -> nat
    decreases ds.len(),
{
    if ds.len() == 0 {
        0
    } else {
        hex_value(ds.drop_last()) * 16 + hex_digit_val(ds.last())
    }
}

/// The maximal decimal-digit prefix is exactly the digits up to the first
/// non-digit.
pub proof fn lemma_dec_prefix_len(s: Seq<char>)
    ensures
        dec_prefix_len(s) <= s.len(),
        forall|j: int| 0 <= j < dec_prefix_len(s) ==> is_dec_digit(s[j]),
        dec_prefix_len(s) < s.len() ==> !is_dec_digit(s[dec_prefix_len(s) as int]),
    decreases s.len(),
{
    if s.len() == 0 || !is_dec_digit(s[0]) {
    } else {
        lemma_dec_prefix_len(s.skip(1));
        let k = dec_prefix_len(s);
        assert forall|j: int| 0 <= j < k implies is_dec_digit(s[j]) by {
            if j > 0 {
                assert(s.skip(1)[j - 1] == s[j]);
            }
        }
        if k < s.len() {
            assert(s.skip(1)[k - 1] == s[k as int]);
        }
    }
}

/// Any prefix of digits bounded by a non-digit has the maximal length.
pub proof fn lemma_dec_prefix_len_is(s: Seq<char>, k: nat)
    requires
        k <= s.len(),
        forall|j: int| 0 <= j < k ==> is_dec_digit(s[j]),
        k < s.len() ==> !is_dec_digit(s[k as int]),
    ensures
        dec_prefix_len(s) == k,
    decreases s.len(),
{
    if k == 0 {
    } else {
        assert(is_dec_digit(s[0]));
        assert forall|j: int| 0 <= j < k - 1 implies is_dec_digit(s.skip(1)[j]) by {
            assert(s.skip(1)[j] == s[j + 1]);
        }
        if k < s.len() {
            assert(s.skip(1)[k - 1] == s[k as int]);
        }
        lemma_dec_prefix_len_is(s.skip(1), (k - 1) as nat);
    }
}

/// The maximal hexadecimal-digit prefix is exactly the digits up to the
/// first non-digit.
pub proof fn lemma_hex_prefix_len(s: Seq<char>)
    ensures
        hex_prefix_len(s) <= s.len(),
        forall|j: int| 0 <= j < hex_prefix_len(s) ==> is_hex_digit(s[j]),
        hex_prefix_len(s) < s.len() ==> !is_hex_digit(s[hex_prefix_len(s) as int]),
    decreases s.len(),
{
    if s.len() == 0 || !is_hex_digit(s[0]) {
    } else {
        lemma_hex_prefix_len(s.skip(1));
        let k = hex_prefix_len(s);
        assert forall|j: int| 0 <= j < k implies is_hex_digit(s[j]) by {
            if j > 0 {
                assert(s.skip(1)[j - 1] == s[j]);
            }
        }
        if k < s.len() {
            assert(s.skip(1)[k - 1] == s[k as int]);
        }
    }
}

/// Any prefix of hexadecimal digits bounded by a non-digit has the maximal
/// length.
pub proof fn lemma_hex_prefix_len_is(s: Seq<char>, k: nat)
    requires
        k <= s.len(),
        forall|j: int| 0 <= j < k ==> is_hex_digit(s[j]),
        k < s.len() ==> !is_hex_digit(s[k as int]),
    ensures
        hex_prefix_len(s) == k,
    decreases s.len(),
{
    if k == 0 {
    } else {
        assert(is_hex_digit(s[0]));
        assert forall|j: int| 0 <= j < k - 1 implies is_hex_digit(s.skip(1)[j]) by {
            assert(s.skip(1)[j] == s[j + 1]);
        }
        if k < s.len() {
            assert(s.skip(1)[k - 1] == s[k as int]);
        }
        lemma_hex_prefix_len_is(s.skip(1), (k - 1) as nat);
    }
}

/// Digit strings of bounded length have bounded values.
pub proof fn lemma_dec_value_small(ds: Seq<char>)
    requires
        forall|j: int| 0 <= j < ds.len() ==> is_dec_digit(ds[j]),
    ensures
        ds.len() == 0 ==> dec_value(ds) == 0,
        ds.len() <= 1 ==> dec_value(ds) <= 9,
        ds.len() <= 2 ==> dec_value(ds) <= 99,
        ds.len() <= 3 ==> dec_value(ds) <= 999,
    decreases ds.len(),
{
    if ds.len() > 0 {
        assert(forall|j: int|
            0 <= j < ds.drop_last().len() ==> is_dec_digit(ds.drop_last()[j]));
        lemma_dec_value_small(ds.drop_last());
        assert(dec_digit_val(ds.last()) <= 9);
    }
}

/// Hexadecimal digit strings of bounded length have bounded values.
pub proof fn lemma_hex_value_small(ds: Seq<char>)
    requires
        forall|j: int| 0 <= j < ds.len() ==> is_hex_digit(ds[j]),
    ensures
        ds.len() == 0 ==> hex_value(ds) == 0,
        ds.len() <= 1 ==> hex_value(ds) <= 15,
        ds.len() <= 2 ==> hex_value(ds) <= 255,
        ds.len() <= 3 ==> hex_value(ds) <= 4095,
        ds.len() <= 4 ==> hex_value(ds) <= 65535,
    decreases ds.len(),
{
    if ds.len() > 0 {
        assert(forall|j: int|
            0 <= j < ds.drop_last().len() ==> is_hex_digit(ds.drop_last()[j]));
        lemma_hex_value_small(ds.drop_last());
        assert(hex_digit_val(ds.last()) <= 15);
    }
}

/// Tests whether a character is an ASCII decimal digit.
fn check_dec_digit(c: char) -> (r: bool)
    ensures
        r == is_dec_digit(c),
{
    '0' <= c && c <= '9'
}

/// Tests whether a character is an ASCII hexadecimal digit.
fn check_hex_digit(c: char) -> (r: bool)
    ensures
        r == is_hex_digit(c),
{
    ('0' <= c && c <= '9') || ('a' <= c && c <= 'f') || ('A' <= c && c <= 'F')
}

/// Numeric value of a decimal digit character.
fn dec_val_exec(c: char) -> (r: u8)
    requires
        is_dec_digit(c),
    ensures
        r as nat == dec_digit_val(c),
{
    ((c as u32) - 48) as u8
}

/// Numeric value of a hexadecimal digit character.
fn hex_val_exec(c: char) -> (r: u8)
    requires
        is_hex_digit(c),
    ensures
        r as nat == hex_digit_val(c),
{
    if '0' <= c && c <= '9' {
        ((c as u32) - 48) as u8
    } else if 'a' <= c && c <= 'f' {
        ((c as u32) - 97 + 10) as u8
    } else {
        ((c as u32) - 65 + 10) as u8
    }
}

/// The digit character of a value below sixteen, as a string slice.
fn digit_str(d: u8) -> (r: &'static str)
    requires
        d < 16,
    ensures
        r@ == seq![digit_char(d as nat)],
        r@.len() == 1,
{
    proof {
        reveal_strlit("0");
        reveal_strlit("1");
        reveal_strlit("2");
        reveal_strlit("3");
        reveal_strlit("4");
        reveal_strlit("5");
        reveal_strlit("6");
        reveal_strlit("7");
        reveal_strlit("8");
        reveal_strlit("9");
        reveal_strlit("a");
        reveal_strlit("b");
        reveal_strlit("c");
        reveal_strlit("d");
        reveal_strlit("e");
        reveal_strlit("f");
    }
    match d {
        0 => "0",
        1 => "1",
        2 => "2",
        3 => "3",
        4 => "4",
        5 => "5",
        6 => "6",
        7 => "7",
        8 => "8",
        9 => "9",
        10 => "a",
        11 => "b",
        12 => "c",
        13 => "d",
        14 => "e",
        _ => "f",
    }
}

/// Length of the maximal prefix of decimal digits.
fn dec_prefix_exec(s: &str) -> (r: usize)
    ensures
        r == dec_prefix_len(s@),
        r <= s@.len(),
    decreases s@.len(),
{
    let n = s.unicode_len();
    if n == 0 {
        return 0;
    }
    if !check_dec_digit(s.get_char(0)) {
        return 0;
    }
    let rest = s.substring_char(1, n);
    proof {
        assert(rest@ =~= s@.skip(1));
    }
    let k = dec_prefix_exec(rest);
    1 + k
}

/// Length of the maximal prefix of hexadecimal digits.
fn hex_prefix_exec(s: &str) -> (r: usize)
    ensures
        r == hex_prefix_len(s@),
        r <= s@.len(),
    decreases s@.len(),
{
    let n = s.unicode_len();
    if n == 0 {
        return 0;
    }
    if !check_hex_digit(s.get_char(0)) {
        return 0;
    }
    let rest = s.substring_char(1, n);
    proof {
        assert(rest@ =~= s@.skip(1));
    }
    let k = hex_prefix_exec(rest);
    1 + k
}

/// Value of the first `k` characters, all decimal digits.
fn dec_value_exec(s: &str, k: usize) -> (r: u32)
    requires
        k <= s@.len(),
        k <= 3,
        forall|j: int| 0 <= j < k ==> is_dec_digit(s@[j]),
    ensures
        r as nat == dec_value(s@.take(k as int)),
        r <= 999,
{
    let mut r: u32 = 0;
    let mut i: usize = 0;
    proof {
        assert(s@.take(0) =~= Seq::<char>::empty());
    }
    while i < k
        invariant
            i <= k,
            k <= s@.len(),
            k <= 3,
            forall|j: int| 0 <= j < k ==> is_dec_digit(s@[j]),
            r as nat == dec_value(s@.take(i as int)),
            r <= 999,
        decreases k - i,
    {
        proof {
            assert(forall|j: int| 0 <= j < i ==> is_dec_digit(s@.take(i as int)[j]));
            lemma_dec_value_small(s@.take(i as int));
            assert(s@.take(i + 1).drop_last() =~= s@.take(i as int));
            assert(s@.take(i + 1).last() == s@[i as int]);
        }
        let d = dec_val_exec(s.get_char(i));
        r = r * 10 + (d as u32);
        i += 1;
        proof {
            assert(forall|j: int| 0 <= j < i ==> is_dec_digit(s@.take(i as int)[j]));
            lemma_dec_value_small(s@.take(i as int));
        }
    }
    r
}

/// Value of the first `k` characters, all hexadecimal digits.
fn hex_value_exec(s: &str, k: usize) -> (r: u32)
    requires
        k <= s@.len(),
        k <= 4,
        forall|j: int| 0 <= j < k ==> is_hex_digit(s@[j]),
    ensures
        r as nat == hex_value(s@.take(k as int)),
        r <= 65535,
{
    let mut r: u32 = 0;
    let mut i: usize = 0;
    proof {
        assert(s@.take(0) =~= Seq::<char>::empty());
    }
    while i < k
        invariant
            i <= k,
            k <= s@.len(),
            k <= 4,
            forall|j: int| 0 <= j < k ==> is_hex_digit(s@[j]),
            r as nat == hex_value(s@.take(i as int)),
            r <= 65535,
        decreases k - i,
    {
        proof {
            assert(forall|j: int| 0 <= j < i ==> is_hex_digit(s@.take(i as int)[j]));
            lemma_hex_value_small(s@.take(i as int));
            assert(s@.take(i + 1).drop_last() =~= s@.take(i as int));
            assert(s@.take(i + 1).last() == s@[i as int]);
        }
        let d = hex_val_exec(s.get_char(i));
        r = r * 16 + (d as u32);
        i += 1;
        proof {
            assert(forall|j: int| 0 <= j < i ==> is_hex_digit(s@.take(i as int)[j]));
            lemma_hex_value_small(s@.take(i as int));
        }
    }
    r
}

/// One decimal octet at the head of the input: the maximal digit prefix,
/// which must be one to three digits, without a superfluous leading zero,
/// and below 256. Returns the octet and the rest of the input.
pub open spec fn spec_parse_octet(s: Seq<char>) -> Option<(u8, Seq<char>)> {
    let k = dec_prefix_len(s);
    if 1 <= k && k <= 3 && !(k > 1 && s[0] == '0') && dec_value(s.take(k as int)) < 256 {
        Some((dec_value(s.take(k as int)) as u8, s.skip(k as int)))
    } else {
        None
    }
}

/// Parses one decimal octet at the head of the input.
fn parse_octet<'a>(s: &'a str) -> (r: Option<(u8, &'a str)>)
    ensures
        r is Some <==> spec_parse_octet(s@) is Some,
        r matches Some((v, rest)) ==> spec_parse_octet(s@) == Some((v, rest@)),
{
    let n = s.unicode_len();
    let k = dec_prefix_exec(s);
    proof {
        lemma_dec_prefix_len(s@);
    }
    if k < 1 || k > 3 {
        return None;
    }
    if k > 1 && s.get_char(0) == '0' {
        return None;
    }
    let v = dec_value_exec(s, k);
    if v >= 256 {
        return None;
    }
    let rest = s.substring_char(k, n);
    proof {
        assert(rest@ =~= s@.skip(k as int));
    }
    Some((v as u8, rest))
}

/// A textual IPv4 address: four decimal octets joined by dots, nothing
/// more.
pub open spec fn spec_parse_v4(s: Seq<char>) -> Option<(u8, u8, u8, u8)> {
    match spec_parse_octet(s) {
        Option::None => Option::None,
        Option::Some((a, r1)) => if r1.len() > 0 && r1[0] == '.' {
            match spec_parse_octet(r1.skip(1)) {
                Option::None => Option::None,
                Option::Some((b, r2)) => if r2.len() > 0 && r2[0] == '.' {
                    match spec_parse_octet(r2.skip(1)) {
                        Option::None => Option::None,
                        Option::Some((c, r3)) => if r3.len() > 0 && r3[0] == '.' {
                            match spec_parse_octet(r3.skip(1)) {
                                Option::None => Option::None,
                                Option::Some((d, r4)) => if r4.len() == 0 {
                                    Option::Some((a, b, c, d))
                                } else {
                                    Option::None
                                },
                            }
                        } else {
                            Option::None
                        },
                    }
                } else {
                    Option::None
                },
            }
        } else {
            Option::None
        },
    }
}

/// Consumes a dot at the head of the input.
fn expect_dot<'a>(s: &'a str) -> (r: Option<&'a str>)
    ensures
        r is Some <==> (s@.len() > 0 && s@[0] == '.'),
        r matches Some(rest) ==> rest@ == s@.skip(1),
{
    let n = s.unicode_len();
    if n == 0 {
        return None;
    }
    if s.get_char(0) != '.' {
        return None;
    }
    let rest = s.substring_char(1, n);
    proof {
        assert(rest@ =~= s@.skip(1));
    }
    Some(rest)
}

/// Parses a textual IPv4 address.
pub fn parse_v4(s: &str) -> (r: Option<(u8, u8, u8, u8)>)
    ensures
        r == spec_parse_v4(s@),
{
    let (a, r1) = match parse_octet(s) {
        Option::Some(p) => p,
        Option::None => { return None; },
    };
    let r1 = match expect_dot(r1) {
        Option::Some(rest) => rest,
        Option::None => { return None; },
    };
    let (b, r2) = match parse_octet(r1) {
        Option::Some(p) => p,
        Option::None => { return None; },
    };
    let r2 = match expect_dot(r2) {
        Option::Some(rest) => rest,
        Option::None => { return None; },
    };
    let (c, r3) = match parse_octet(r2) {
        Option::Some(p) => p,
        Option::None => { return None; },
    };
    let r3 = match expect_dot(r3) {
        Option::Some(rest) => rest,
        Option::None => { return None; },
    };
    let (d, r4) = match parse_octet(r3) {
        Option::Some(p) => p,
        Option::None => { return None; },
    };
    if !r4.is_empty() {
        return None;
    }
    Some((a, b, c, d))
}

/// Canonical decimal rendering of an octet: one to three digits, no
/// leading zero.
pub open spec fn render_dec(n: nat) -> Seq<char> {
    if n < 10 {
        seq![digit_char(n)]
    } else if n < 100 {
        seq![digit_char(n / 10), digit_char(n % 10)]
    } else {
        seq![digit_char((n / 10) / 10), digit_char((n / 10) % 10), digit_char(n % 10)]
    }
}

/// Canonical dotted-decimal rendering of an IPv4 address.
pub open spec fn spec_render_v4(a: u8, b: u8, c: u8, d: u8) -> Seq<char> {
    render_dec(a as nat) + (seq!['.'] + (render_dec(b as nat) + (seq!['.'] + (render_dec(c as nat)
        + (seq!['.'] + render_dec(d as nat))))))
}

/// Renders an octet in decimal.
fn render_dec_exec(n: u8) -> (r: String)
    ensures
        r@ == render_dec(n as nat),
{
    if n < 10 {
        digit_str(n).to_owned()
    } else if n < 100 {
        let mut m: String = digit_str(n / 10).to_owned();
        m.append(digit_str(n % 10));
        proof {
            assert(m@ =~= render_dec(n as nat));
        }
        m
    } else {
        let mut m: String = digit_str((n / 10) / 10).to_owned();
        m.append(digit_str((n / 10) % 10));
        m.append(digit_str(n % 10));
        proof {
            assert(m@ =~= render_dec(n as nat));
        }
        m
    }
}

/// Renders an IPv4 address in dotted decimal.
pub fn render_v4(a: u8, b: u8, c: u8, d: u8) -> (r: String)
    ensures
        r@ == spec_render_v4(a, b, c, d),
{
    let mut m = render_dec_exec(a);
    m.append(".");
    let sb = render_dec_exec(b);
    m.append(sb.as_str());
    m.append(".");
    let sc = render_dec_exec(c);
    m.append(sc.as_str());
    m.append(".");
    let sd = render_dec_exec(d);
    m.append(sd.as_str());
    proof {
        reveal_strlit(".");
        assert(m@ =~= spec_render_v4(a, b, c, d));
    }
    m
}

/// Value of a one-digit sequence.
proof fn lemma_dec_value1(c: char)
    ensures
        dec_value(seq![c]) == dec_digit_val(c),
        hex_value(seq![c]) == hex_digit_val(c),
{
    assert(seq![c].drop_last() =~= Seq::<char>::empty());
    assert(dec_value(Seq::<char>::empty()) == 0);
    assert(hex_value(Seq::<char>::empty()) == 0);
}

/// The rendered octet reads back as its value.
proof fn lemma_dec_value_render(n: u8)
    ensures
        render_dec(n as nat).len() <= 3,
        forall|j: int| 0 <= j < render_dec(n as nat).len() ==> is_dec_digit(
            render_dec(n as nat)[j],
        ),
        dec_value(render_dec(n as nat)) == n,
        n >= 10 ==> render_dec(n as nat)[0] != '0',
{
    let m = n as nat;
    lemma_fundamental_div_mod(m as int, 10);
    lemma_fundamental_div_mod((m / 10) as int, 10);
    lemma_digit_char_val(m % 10);
    lemma_digit_char_val((m / 10) % 10);
    lemma_digit_char_val((m / 10) / 10);
    if m < 10 {
        lemma_digit_char_val(m);
    } else if m < 100 {
        lemma_digit_char_val(m / 10);
    }
    let ds = render_dec(m);
    if m < 10 {
        lemma_dec_value1(digit_char(m));
        assert(ds =~= seq![digit_char(m)]);
    } else if m < 100 {
        lemma_dec_value1(digit_char(m / 10));
        assert(ds.last() == digit_char(m % 10));
        assert(ds.drop_last() =~= seq![digit_char(m / 10)]);
        assert(dec_value(ds) == (m / 10) * 10 + m % 10);
    } else {
        lemma_dec_value1(digit_char((m / 10) / 10));
        let d2 = seq![digit_char((m / 10) / 10), digit_char((m / 10) % 10)];
        assert(ds.last() == digit_char(m % 10));
        assert(ds.drop_last() =~= d2);
        assert(d2.last() == digit_char((m / 10) % 10));
        assert(d2.drop_last() =~= seq![digit_char((m / 10) / 10)]);
        assert(dec_value(d2) == ((m / 10) / 10) * 10 + (m / 10) % 10);
        assert(dec_value(ds) == (m / 10) * 10 + m % 10);
    }
}

/// Parsing right after a rendered octet takes exactly the octet.
proof fn lemma_parse_render_octet(n: u8, rest: Seq<char>)
    requires
        rest.len() == 0 || !is_dec_digit(rest[0]),
    ensures
        spec_parse_octet(render_dec(n as nat) + rest) == Some((n, rest)),
{
    lemma_dec_value_render(n);
    let ds = render_dec(n as nat);
    let s = ds + rest;
    assert forall|j: int| 0 <= j < ds.len() implies is_dec_digit(s[j]) by {
        assert(s[j] == ds[j]);
    }
    if ds.len() < s.len() {
        assert(s[ds.len() as int] == rest[0]);
    }
    lemma_dec_prefix_len_is(s, ds.len());
    assert(s.take(ds.len() as int) =~= ds);
    assert(s.skip(ds.len() as int) =~= rest);
    if n >= 10 {
        assert(s[0] == ds[0]);
        assert(s[0] != '0');
    }
}

/// Parsing a rendered IPv4 address gives the four octets back.
#[verifier::rlimit(100)]
pub proof fn lemma_parse_render_v4(a: u8, b: u8, c: u8, d: u8)
    ensures
        spec_parse_v4(spec_render_v4(a, b, c, d)) == Some((a, b, c, d)),
{
    let sa = render_dec(a as nat);
    let sb = render_dec(b as nat);
    let sc = render_dec(c as nat);
    let sd = render_dec(d as nat);
    let dot = seq!['.'];
    let empty = Seq::<char>::empty();
    let r3 = dot + sd;
    let t2 = sc + r3;
    let r2 = dot + t2;
    let t1 = sb + r2;
    let r1 = dot + t1;
    let s = sa + r1;
    assert(spec_render_v4(a, b, c, d) == s);
    lemma_parse_render_octet(a, r1);
    assert(r1[0] == '.');
    assert(r1.skip(1) =~= t1);
    lemma_parse_render_octet(b, r2);
    assert(r2[0] == '.');
    assert(r2.skip(1) =~= t2);
    lemma_parse_render_octet(c, r3);
    assert(r3[0] == '.');
    assert(r3.skip(1) =~= sd + empty);
    lemma_parse_render_octet(d, empty);
    assert(spec_parse_octet(sd + empty) == Some((d, empty)));
}


/// A sequence of zero groups.
pub open spec fn zero_groups(n: nat) -> Seq<u16> {
    Seq::new(n, |i: int| 0u16)
}

/// Groups of hexadecimal digits separated by single colons, to the end of
/// the input; no compression. Each group is one to four digits.
pub open spec fn spec_parse_tail_groups(s: Seq<char>) -> Option<Seq<u16>>
    decreases s.len(),
{
    let k = hex_prefix_len(s);
    if !(1 <= k && k <= 4 && k <= s.len()) {
        Option::None
    } else {
        let g = hex_value(s.take(k as int)) as u16;
        let r = s.skip(k as int);
        if r.len() == 0 {
            Option::Some(seq![g])
        } else if r[0] == ':' {
            match spec_parse_tail_groups(r.skip(1)) {
                Option::None => Option::None,
                Option::Some(gs) => Option::Some(seq![g] + gs),
            }
        } else {
            Option::None
        }
    }
}

/// The part of an IPv6 literal that starts with a group: groups separated
/// by colons, with at most one `::` standing for one or more zero groups,
/// `room` groups in all.
pub open spec fn spec_parse_head(s: Seq<char>, room: nat) -> Option<Seq<u16>>
    decreases s.len(),
{
    if room == 0 {
        Option::None
    } else {
        let k = hex_prefix_len(s);
        if !(1 <= k && k <= 4 && k <= s.len()) {
            Option::None
        } else {
            let g = hex_value(s.take(k as int)) as u16;
            let r = s.skip(k as int);
            if r.len() == 0 {
                if room == 1 {
                    Option::Some(seq![g])
                } else {
                    Option::None
                }
            } else if r.len() >= 2 && r[0] == ':' && r[1] == ':' {
                let rest = r.skip(2);
                if rest.len() == 0 {
                    if room >= 2 {
                        Option::Some(seq![g] + zero_groups((room - 1) as nat))
                    } else {
                        Option::None
                    }
                } else {
                    match spec_parse_tail_groups(rest) {
                        Option::None => Option::None,
                        Option::Some(tail) => if tail.len() + 2 <= room {
                            Option::Some(
                                seq![g] + zero_groups((room - 1 - tail.len()) as nat) + tail,
                            )
                        } else {
                            Option::None
                        },
                    }
                }
            } else if r[0] == ':' {
                match spec_parse_head(r.skip(1), (room - 1) as nat) {
                    Option::None => Option::None,
                    Option::Some(gs) => Option::Some(seq![g] + gs),
                }
            } else {
                Option::None
            }
        }
    }
}

/// A textual IPv6 address: eight 16-bit groups in hexadecimal, separated
/// by colons, where one `::` may stand for a run of one or more zero
/// groups.
pub open spec fn spec_parse_v6(s: Seq<char>) -> Option<Seq<u16>> {
    if s.len() >= 2 && s[0] == ':' && s[1] == ':' {
        let rest = s.skip(2);
        if rest.len() == 0 {
            Option::Some(zero_groups(8))
        } else {
            match spec_parse_tail_groups(rest) {
                Option::None => Option::None,
                Option::Some(tail) => if tail.len() <= 7 {
                    Option::Some(zero_groups((8 - tail.len()) as nat) + tail)
                } else {
                    Option::None
                },
            }
        }
    } else {
        spec_parse_head(s, 8)
    }
}

/// Appends `n` zero groups.
fn push_zero_groups(v: &mut Vec<u16>, n: usize)
    requires
        old(v)@.len() + n <= 8,
    ensures
        final(v)@ == old(v)@ + zero_groups(n as nat),
{
    let mut i: usize = 0;
    proof {
        assert(v@ =~= old(v)@ + zero_groups(0));
    }
    while i < n
        invariant
            i <= n,
            v@ =~= old(v)@ + zero_groups(i as nat),
        decreases n - i,
    {
        v.push(0);
        i += 1;
        proof {
            assert(v@ =~= old(v)@ + zero_groups(i as nat));
        }
    }
}

/// Parses colon-separated groups to the end of the input.
fn parse_tail_groups(s: &str) -> (r: Option<Vec<u16>>)
    ensures
        r is Some <==> spec_parse_tail_groups(s@) is Some,
        r matches Some(v) ==> spec_parse_tail_groups(s@) == Some(v@),
    decreases s@.len(),
{
    let n = s.unicode_len();
    let k = hex_prefix_exec(s);
    if k < 1 || k > 4 {
        return None;
    }
    proof {
        lemma_hex_prefix_len(s@);
    }
    let g32 = hex_value_exec(s, k);
    let g = g32 as u16;
    let r = s.substring_char(k, n);
    proof {
        assert(r@ =~= s@.skip(k as int));
    }
    if r.is_empty() {
        let mut v: Vec<u16> = Vec::new();
        v.push(g);
        proof {
            assert(v@ =~= seq![g]);
        }
        return Some(v);
    }
    if r.get_char(0) != ':' {
        return None;
    }
    let rn = r.unicode_len();
    let rest = r.substring_char(1, rn);
    proof {
        assert(rest@ =~= r@.skip(1));
    }
    match parse_tail_groups(rest) {
        None => None,
        Some(mut gs) => {
            gs.insert(0, g);
            proof {
                assert(gs@ =~= seq![g] + gs@.skip(1));
            }
            Some(gs)
        },
    }
}

/// Parses the part of an IPv6 literal that starts with a group.
fn parse_head(s: &str, room: usize) -> (r: Option<Vec<u16>>)
    requires
        room <= 8,
    ensures
        r is Some <==> spec_parse_head(s@, room as nat) is Some,
        r matches Some(v) ==> spec_parse_head(s@, room as nat) == Some(v@),
    decreases s@.len(),
{
    if room == 0 {
        return None;
    }
    let n = s.unicode_len();
    let k = hex_prefix_exec(s);
    if k < 1 || k > 4 {
        return None;
    }
    proof {
        lemma_hex_prefix_len(s@);
    }
    let g32 = hex_value_exec(s, k);
    let g = g32 as u16;
    let r = s.substring_char(k, n);
    proof {
        assert(r@ =~= s@.skip(k as int));
    }
    let rn = r.unicode_len();
    if rn == 0 {
        if room == 1 {
            let mut v: Vec<u16> = Vec::new();
            v.push(g);
            proof {
                assert(v@ =~= seq![g]);
            }
            return Some(v);
        }
        return None;
    }
    if r.get_char(0) != ':' {
        return None;
    }
    if rn >= 2 && r.get_char(1) == ':' {
        let rest = r.substring_char(2, rn);
        proof {
            assert(rest@ =~= r@.skip(2));
        }
        if rest.is_empty() {
            if room >= 2 {
                let mut v: Vec<u16> = Vec::new();
                v.push(g);
                push_zero_groups(&mut v, room - 1);
                proof {
                    assert(v@ =~= seq![g] + zero_groups((room - 1) as nat));
                }
                return Some(v);
            }
            return None;
        }
        match parse_tail_groups(rest) {
            None => {
                return None;
            },
            Some(mut tail) => {
                if room < 2 || tail.len() > room - 2 {
                    return None;
                }
                let mut v: Vec<u16> = Vec::new();
                v.push(g);
                push_zero_groups(&mut v, room - 1 - tail.len());
                let ghost tailseq = tail@;
                v.append(&mut tail);
                proof {
                    assert(v@ =~= seq![g] + zero_groups((room - 1 - tailseq.len()) as nat)
                        + tailseq);
                }
                return Some(v);
            },
        }
    }
    let rest = r.substring_char(1, rn);
    proof {
        assert(rest@ =~= r@.skip(1));
    }
    match parse_head(rest, room - 1) {
        None => None,
        Some(mut gs) => {
            gs.insert(0, g);
            proof {
                assert(gs@ =~= seq![g] + gs@.skip(1));
            }
            Some(gs)
        },
    }
}

/// The head parser returns exactly `room` groups.
proof fn lemma_parse_head_len(s: Seq<char>, room: nat)
    requires
        spec_parse_head(s, room) is Some,
    ensures
        spec_parse_head(s, room)->Some_0.len() == room,
    decreases s.len(),
{
    let k = hex_prefix_len(s);
    let r = s.skip(k as int);
    if r.len() == 0 {
    } else if r.len() >= 2 && r[0] == ':' && r[1] == ':' {
    } else if r[0] == ':' {
        lemma_parse_head_len(r.skip(1), (room - 1) as nat);
    }
}

/// A parsed IPv6 address has exactly eight groups.
proof fn lemma_parse_v6_len(s: Seq<char>)
    requires
        spec_parse_v6(s) is Some,
    ensures
        spec_parse_v6(s)->Some_0.len() == 8,
{
    if s.len() >= 2 && s[0] == ':' && s[1] == ':' {
    } else {
        lemma_parse_head_len(s, 8);
    }
}

/// Parses a textual IPv6 address into its eight groups.
pub fn parse_v6(s: &str) -> (r: Option<Vec<u16>>)
    ensures
        r is Some <==> spec_parse_v6(s@) is Some,
        r matches Some(v) ==> spec_parse_v6(s@) == Some(v@) && v@.len() == 8,
{
    let n = s.unicode_len();
    let res: Option<Vec<u16>> = if n >= 2 && s.get_char(0) == ':' && s.get_char(1) == ':' {
        let rest = s.substring_char(2, n);
        proof {
            assert(rest@ =~= s@.skip(2));
        }
        if rest.is_empty() {
            let mut v: Vec<u16> = Vec::new();
            push_zero_groups(&mut v, 8);
            proof {
                assert(v@ =~= zero_groups(8));
            }
            Some(v)
        } else {
            match parse_tail_groups(rest) {
                None => None,
                Some(mut tail) => {
                    if tail.len() > 7 {
                        None
                    } else {
                        let mut v: Vec<u16> = Vec::new();
                        push_zero_groups(&mut v, 8 - tail.len());
                        let ghost tailseq = tail@;
                        v.append(&mut tail);
                        proof {
                            assert(v@ =~= zero_groups((8 - tailseq.len()) as nat) + tailseq);
                        }
                        Some(v)
                    }
                },
            }
        }
    } else {
        parse_head(s, 8)
    };
    proof {
        if spec_parse_v6(s@) is Some {
            lemma_parse_v6_len(s@);
        }
    }
    res
}

/// The eight 16-bit groups of an IPv6 address.
#[derive(PartialEq, Eq, Structural, Clone, Copy, Debug)]
pub struct Ipv6Groups {
    pub g0: u16,
    pub g1: u16,
    pub g2: u16,
    pub g3: u16,
    pub g4: u16,
    pub g5: u16,
    pub g6: u16,
    pub g7: u16,
}

impl Ipv6Groups {
    /// The groups, in order.
    pub open spec fn seq(self) -> Seq<u16> {
        seq![self.g0, self.g1, self.g2, self.g3, self.g4, self.g5, self.g6, self.g7]
    }
}

/// The groups value built from a sequence of eight.
pub open spec fn groups_of_seq(gs: Seq<u16>) -> Ipv6Groups {
    Ipv6Groups {
        g0: gs[0],
        g1: gs[1],
        g2: gs[2],
        g3: gs[3],
        g4: gs[4],
        g5: gs[5],
        g6: gs[6],
        g7: gs[7],
    }
}

/// Builds the groups value from a vector of eight.
fn groups_from_vec(v: &Vec<u16>) -> (r: Ipv6Groups)
    requires
        v@.len() == 8,
    ensures
        r == groups_of_seq(v@),
        r.seq() == v@,
{
    let r = Ipv6Groups {
        g0: v[0],
        g1: v[1],
        g2: v[2],
        g3: v[3],
        g4: v[4],
        g5: v[5],
        g6: v[6],
        g7: v[7],
    };
    proof {
        assert(r.seq() =~= v@);
    }
    r
}

/// Lays the groups out as a vector of eight.
fn groups_to_vec(g: &Ipv6Groups) -> (v: Vec<u16>)
    ensures
        v@ == g.seq(),
{
    let mut v: Vec<u16> = Vec::new();
    v.push(g.g0);
    v.push(g.g1);
    v.push(g.g2);
    v.push(g.g3);
    v.push(g.g4);
    v.push(g.g5);
    v.push(g.g6);
    v.push(g.g7);
    proof {
        assert(v@ =~= g.seq());
    }
    v
}

/// A validated IP address: four octets, or eight 16-bit groups.
#[derive(PartialEq, Eq, Structural, Clone, Copy, Debug)]
pub enum IpAddress {
    V4(u8, u8, u8, u8),
    V6(Ipv6Groups),
}

/// The input holds a colon somewhere.
pub open spec fn has_colon(s: Seq<char>) -> bool {
    exists|i: int| 0 <= i < s.len() && s[i] == ':'
}

/// Tests whether the input holds a colon.
fn check_has_colon(s: &str) -> (r: bool)
    ensures
        r == has_colon(s@),
{
    let n = s.unicode_len();
    let mut i: usize = 0;
    while i < n
        invariant
            n == s@.len(),
            i <= n,
            forall|j: int| 0 <= j < i ==> s@[j] != ':',
        decreases n - i,
    {
        if s.get_char(i) == ':' {
            return true;
        }
        i += 1;
    }
    false
}

/// A textual IP address literal: an IPv6 form if the input holds a colon,
/// else an IPv4 form. (A valid IPv4 literal never holds a colon, and a
/// valid IPv6 literal always does, so the dispatch loses nothing.)
pub open spec fn spec_parse_ip(s: Seq<char>) -> Option<IpAddress> {
    if has_colon(s) {
        match spec_parse_v6(s) {
            Option::None => Option::None,
            Option::Some(gs) => Option::Some(IpAddress::V6(groups_of_seq(gs))),
        }
    } else {
        match spec_parse_v4(s) {
            Option::None => Option::None,
            Option::Some((a, b, c, d)) => Option::Some(IpAddress::V4(a, b, c, d)),
        }
    }
}

/// Parses a textual IP address literal, IPv4 or IPv6.
pub fn parse_ip(s: &str) -> (r: Option<IpAddress>)
    ensures
        r == spec_parse_ip(s@),
{
    if check_has_colon(s) {
        match parse_v6(s) {
            None => None,
            Some(v) => {
                proof {
                    lemma_parse_v6_len(s@);
                }
                Some(IpAddress::V6(groups_from_vec(&v)))
            },
        }
    } else {
        match parse_v4(s) {
            None => None,
            Some((a, b, c, d)) => Some(IpAddress::V4(a, b, c, d)),
        }
    }
}


/// Minimal lowercase hexadecimal rendering of a 16-bit group: one to four
/// digits, no leading zero.
pub open spec fn render_hex(g: nat) -> Seq<char> {
    if g < 16 {
        seq![digit_char(g)]
    } else if g < 256 {
        seq![digit_char(g / 16), digit_char(g % 16)]
    } else if g < 4096 {
        seq![digit_char((g / 16) / 16), digit_char((g / 16) % 16), digit_char(g % 16)]
    } else {
        seq![
            digit_char(((g / 16) / 16) / 16),
            digit_char(((g / 16) / 16) % 16),
            digit_char((g / 16) % 16),
            digit_char(g % 16),
        ]
    }
}

/// Groups rendered in hexadecimal and joined by single colons.
pub open spec fn join_groups(gs: Seq<u16>) -> Seq<char>
    decreases gs.len(),
{
    if gs.len() == 0 {
        Seq::<char>::empty()
    } else if gs.len() == 1 {
        render_hex(gs[0] as nat)
    } else {
        render_hex(gs[0] as nat) + (seq![':'] + join_groups(gs.skip(1)))
    }
}

/// Length of the run of zero groups starting at `i`.
pub open spec fn run_at(gs: Seq<u16>, i: int) -> nat
    decreases gs.len() - i
        when 0 <= i <= gs.len()
{
    if i >= gs.len() || gs[i] != 0 {
        0
    } else {
        1 + run_at(gs, i + 1)
    }
}

/// The first longest run of zero groups starting at or after `i`:
/// its start and its length.
pub open spec fn best_from(gs: Seq<u16>, i: int) -> (int, nat)
    decreases gs.len() - i
        when 0 <= i <= gs.len()
{
    if i >= gs.len() {
        (i, 0)
    } else {
        let cur = run_at(gs, i);
        let rest = best_from(gs, i + 1);
        if cur >= rest.1 {
            (i, cur)
        } else {
            rest
        }
    }
}

/// Canonical rendering of an IPv6 address: lowercase minimal hexadecimal
/// groups joined by colons, with the first longest run of two or more
/// zero groups compressed to `::`.
pub open spec fn spec_render_v6(gs: Seq<u16>) -> Seq<char> {
    let b = best_from(gs, 0);
    if b.1 < 2 {
        join_groups(gs)
    } else {
        join_groups(gs.take(b.0)) + (seq![':'] + (seq![':'] + join_groups(gs.skip(b.0 + b.1))))
    }
}

/// Canonical rendering of an IP address.
pub open spec fn spec_render_ip(ip: IpAddress) -> Seq<char> {
    match ip {
        IpAddress::V4(a, b, c, d) => spec_render_v4(a, b, c, d),
        IpAddress::V6(gr) => spec_render_v6(gr.seq()),
    }
}

/// Renders a group in minimal hexadecimal.
fn render_hex_exec(g: u16) -> (r: String)
    ensures
        r@ == render_hex(g as nat),
{
    if g < 16 {
        digit_str(g as u8).to_owned()
    } else if g < 256 {
        let mut m: String = digit_str((g / 16) as u8).to_owned();
        m.append(digit_str((g % 16) as u8));
        proof {
            assert(m@ =~= render_hex(g as nat));
        }
        m
    } else if g < 4096 {
        let mut m: String = digit_str(((g / 16) / 16) as u8).to_owned();
        m.append(digit_str(((g / 16) % 16) as u8));
        m.append(digit_str((g % 16) as u8));
        proof {
            assert(m@ =~= render_hex(g as nat));
        }
        m
    } else {
        let mut m: String = digit_str((((g / 16) / 16) / 16) as u8).to_owned();
        m.append(digit_str((((g / 16) / 16) % 16) as u8));
        m.append(digit_str(((g / 16) % 16) as u8));
        m.append(digit_str((g % 16) as u8));
        proof {
            assert(m@ =~= render_hex(g as nat));
        }
        m
    }
}

/// Renders the groups from `from` to `to`, joined by colons.
fn join_exec(v: &Vec<u16>, from: usize, to: usize) -> (r: String)
    requires
        from <= to,
        to <= v@.len(),
    ensures
        r@ == join_groups(v@.subrange(from as int, to as int)),
    decreases to - from,
{
    let ghost sub = v@.subrange(from as int, to as int);
    if from >= to {
        let m = String::new();
        proof {
            assert(m@ =~= join_groups(sub));
        }
        return m;
    }
    let hx = render_hex_exec(v[from]);
    proof {
        assert(sub[0] == v@[from as int]);
    }
    if from + 1 == to {
        proof {
            assert(sub.len() == 1);
        }
        return hx;
    }
    let mut m = hx;
    m.append(":");
    let rest = join_exec(v, from + 1, to);
    m.append(rest.as_str());
    proof {
        reveal_strlit(":");
        assert(sub.skip(1) =~= v@.subrange(from + 1, to as int));
        assert(m@ =~= join_groups(sub));
    }
    m
}

/// Length of the run of zero groups starting at `i`.
fn run_at_exec(v: &Vec<u16>, i: usize) -> (r: usize)
    requires
        i <= v@.len(),
    ensures
        r as nat == run_at(v@, i as int),
        i + r <= v@.len(),
    decreases v@.len() - i,
{
    if i >= v.len() {
        return 0;
    }
    if v[i] != 0 {
        return 0;
    }
    let rest = run_at_exec(v, i + 1);
    1 + rest
}

/// The first longest zero run starting at or after `i`.
fn best_from_exec(v: &Vec<u16>, i: usize) -> (r: (usize, usize))
    requires
        i <= v@.len(),
    ensures
        r.0 as int == best_from(v@, i as int).0,
        r.1 as nat == best_from(v@, i as int).1,
        i <= r.0,
        r.0 + r.1 <= v@.len(),
    decreases v@.len() - i,
{
    if i >= v.len() {
        return (i, 0);
    }
    let cur = run_at_exec(v, i);
    let rest = best_from_exec(v, i + 1);
    if cur >= rest.1 {
        (i, cur)
    } else {
        rest
    }
}

/// Renders an IPv6 address canonically.
pub fn render_v6(gr: &Ipv6Groups) -> (r: String)
    ensures
        r@ == spec_render_v6(gr.seq()),
{
    let v = groups_to_vec(gr);
    let b = best_from_exec(&v, 0);
    if b.1 < 2 {
        let m = join_exec(&v, 0, 8);
        proof {
            assert(v@.subrange(0, 8) =~= gr.seq());
        }
        m
    } else {
        let mut m = join_exec(&v, 0, b.0);
        m.append("::");
        let rest = join_exec(&v, b.0 + b.1, 8);
        m.append(rest.as_str());
        proof {
            reveal_strlit("::");
            let gs = gr.seq();
            let bb = best_from(gs, 0);
            assert(v@.subrange(0, bb.0) =~= gs.take(bb.0));
            assert(v@.subrange(bb.0 + bb.1, 8) =~= gs.skip(bb.0 + bb.1));
            assert("::"@ =~= seq![':', ':']);
            assert(m@ =~= spec_render_v6(gs));
        }
        m
    }
}

/// Renders an IP address canonically: dotted decimal for IPv4, compressed
/// lowercase hexadecimal for IPv6.
pub fn render_ip(ip: &IpAddress) -> (r: String)
    ensures
        r@ == spec_render_ip(*ip),
{
    match ip {
        IpAddress::V4(a, b, c, d) => render_v4(*a, *b, *c, *d),
        IpAddress::V6(gr) => render_v6(gr),
    }
}

/// The rendered group reads back as its value.
proof fn lemma_hex_value_render(g: u16)
    ensures
        1 <= render_hex(g as nat).len() <= 4,
        forall|j: int| 0 <= j < render_hex(g as nat).len() ==> is_hex_digit(
            render_hex(g as nat)[j],
        ),
        hex_value(render_hex(g as nat)) == g,
{
    let m = g as nat;
    lemma_fundamental_div_mod(m as int, 16);
    lemma_fundamental_div_mod((m / 16) as int, 16);
    lemma_fundamental_div_mod(((m / 16) / 16) as int, 16);
    lemma_digit_char_val(m % 16);
    lemma_digit_char_val((m / 16) % 16);
    lemma_digit_char_val(((m / 16) / 16) % 16);
    lemma_digit_char_val(((m / 16) / 16) / 16);
    let ds = render_hex(m);
    if m < 16 {
        lemma_digit_char_val(m);
        lemma_dec_value1(digit_char(m));
        assert(ds =~= seq![digit_char(m)]);
    } else if m < 256 {
        lemma_digit_char_val(m / 16);
        lemma_dec_value1(digit_char(m / 16));
        assert(ds.last() == digit_char(m % 16));
        assert(ds.drop_last() =~= seq![digit_char(m / 16)]);
        assert(hex_value(ds) == (m / 16) * 16 + m % 16);
    } else if m < 4096 {
        lemma_dec_value1(digit_char((m / 16) / 16));
        let d2 = seq![digit_char((m / 16) / 16), digit_char((m / 16) % 16)];
        assert(ds.last() == digit_char(m % 16));
        assert(ds.drop_last() =~= d2);
        assert(d2.last() == digit_char((m / 16) % 16));
        assert(d2.drop_last() =~= seq![digit_char((m / 16) / 16)]);
        assert(hex_value(d2) == ((m / 16) / 16) * 16 + (m / 16) % 16);
        assert(hex_value(ds) == (m / 16) * 16 + m % 16);
    } else {
        lemma_dec_value1(digit_char(((m / 16) / 16) / 16));
        let d3 = seq![
            digit_char(((m / 16) / 16) / 16),
            digit_char(((m / 16) / 16) % 16),
            digit_char((m / 16) % 16),
        ];
        let d2 = seq![digit_char(((m / 16) / 16) / 16), digit_char(((m / 16) / 16) % 16)];
        assert(ds.last() == digit_char(m % 16));
        assert(ds.drop_last() =~= d3);
        assert(d3.last() == digit_char((m / 16) % 16));
        assert(d3.drop_last() =~= d2);
        assert(d2.last() == digit_char(((m / 16) / 16) % 16));
        assert(d2.drop_last() =~= seq![digit_char(((m / 16) / 16) / 16)]);
        assert(hex_value(d2) == (((m / 16) / 16) / 16) * 16 + ((m / 16) / 16) % 16);
        assert(hex_value(d3) == ((m / 16) / 16) * 16 + (m / 16) % 16);
        assert(hex_value(ds) == (m / 16) * 16 + m % 16);
    }
}

/// Parsing right after a rendered group takes exactly the group.
proof fn lemma_parse_render_group(g: u16, rest: Seq<char>)
    requires
        rest.len() == 0 || !is_hex_digit(rest[0]),
    ensures
        hex_prefix_len(render_hex(g as nat) + rest) == render_hex(g as nat).len(),
        (render_hex(g as nat) + rest).take(render_hex(g as nat).len() as int) == render_hex(
            g as nat,
        ),
        (render_hex(g as nat) + rest).skip(render_hex(g as nat).len() as int) == rest,
        hex_value(render_hex(g as nat)) == g,
        1 <= render_hex(g as nat).len() <= 4,
{
    lemma_hex_value_render(g);
    let hx = render_hex(g as nat);
    let s = hx + rest;
    assert forall|j: int| 0 <= j < hx.len() implies is_hex_digit(s[j]) by {
        assert(s[j] == hx[j]);
    }
    if hx.len() < s.len() {
        assert(s[hx.len() as int] == rest[0]);
    }
    lemma_hex_prefix_len_is(s, hx.len());
    assert(s.take(hx.len() as int) =~= hx);
    assert(s.skip(hx.len() as int) =~= rest);
}

/// A joined group list starts with a hexadecimal digit.
proof fn lemma_join_first(gs: Seq<u16>)
    requires
        gs.len() >= 1,
    ensures
        join_groups(gs).len() >= 1,
        is_hex_digit(join_groups(gs)[0]),
    decreases gs.len(),
{
    lemma_hex_value_render(gs[0]);
    if gs.len() == 1 {
    } else {
        assert(join_groups(gs)[0] == render_hex(gs[0] as nat)[0]);
    }
}

/// Parsing a joined group list gives the groups back.
proof fn lemma_parse_tail_join(gs: Seq<u16>)
    requires
        1 <= gs.len(),
    ensures
        spec_parse_tail_groups(join_groups(gs)) == Some(gs),
    decreases gs.len(),
{
    let g = gs[0];
    let hx = render_hex(g as nat);
    if gs.len() == 1 {
        lemma_parse_render_group(g, Seq::<char>::empty());
        assert(hx + Seq::<char>::empty() =~= hx);
        assert(join_groups(gs) == hx);
        assert(seq![g] =~= gs);
    } else {
        let tail = join_groups(gs.skip(1));
        let rest = seq![':'] + tail;
        assert(join_groups(gs) == hx + rest);
        lemma_parse_render_group(g, rest);
        assert(rest[0] == ':');
        assert(rest.skip(1) =~= tail);
        lemma_parse_tail_join(gs.skip(1));
        assert(seq![g] + gs.skip(1) =~= gs);
    }
}

/// Parsing a joined list of exactly `room` groups gives the groups back.
proof fn lemma_parse_head_join(gs: Seq<u16>, room: nat)
    requires
        gs.len() == room,
        1 <= room,
        room <= 8,
    ensures
        spec_parse_head(join_groups(gs), room) == Some(gs),
    decreases gs.len(),
{
    let g = gs[0];
    let hx = render_hex(g as nat);
    if gs.len() == 1 {
        lemma_parse_render_group(g, Seq::<char>::empty());
        assert(hx + Seq::<char>::empty() =~= hx);
        assert(join_groups(gs) == hx);
        assert(seq![g] =~= gs);
    } else {
        let jp1 = join_groups(gs.skip(1));
        let rest = seq![':'] + jp1;
        assert(join_groups(gs) == hx + rest);
        lemma_parse_render_group(g, rest);
        lemma_join_first(gs.skip(1));
        assert(rest[0] == ':');
        assert(rest[1] == jp1[0]);
        assert(rest.skip(1) =~= jp1);
        lemma_parse_head_join(gs.skip(1), (room - 1) as nat);
        assert(seq![g] + gs.skip(1) =~= gs);
    }
}

/// Parsing a compressed form built from nonempty leading groups, a zero
/// run, and trailing groups gives all the groups back.
#[verifier::rlimit(100)]
#[verifier::spinoff_prover]
proof fn lemma_parse_head_compressed(pre: Seq<u16>, zn: nat, post: Seq<u16>, room: nat)
    requires
        1 <= pre.len(),
        1 <= zn,
        pre.len() + zn + post.len() == room,
        room <= 8,
    ensures
        spec_parse_head(
            join_groups(pre) + (seq![':'] + (seq![':'] + join_groups(post))),
            room,
        ) == Some(pre + zero_groups(zn) + post),
    decreases pre.len(),
{
    let g = pre[0];
    let hx = render_hex(g as nat);
    let jpost = join_groups(post);
    let s = join_groups(pre) + (seq![':'] + (seq![':'] + jpost));
    if pre.len() == 1 {
        let rest0 = seq![':'] + (seq![':'] + jpost);
        assert(join_groups(pre) == hx);
        assert(s == hx + rest0);
        lemma_parse_render_group(g, rest0);
        assert(rest0[0] == ':');
        assert(rest0[1] == ':');
        assert(rest0.skip(2) =~= jpost);
        if post.len() == 0 {
            assert(jpost.len() == 0);
            assert(seq![g] + zero_groups((room - 1) as nat) =~= pre + zero_groups(zn) + post);
        } else {
            lemma_join_first(post);
            lemma_parse_tail_join(post);
            assert(seq![g] + zero_groups((room - 1 - post.len()) as nat) + post =~= pre
                + zero_groups(zn) + post);
        }
    } else {
        let jp1 = join_groups(pre.skip(1));
        let rest0 = seq![':'] + (jp1 + (seq![':'] + (seq![':'] + jpost)));
        assert(join_groups(pre) == hx + (seq![':'] + jp1));
        assert(s =~= hx + rest0);
        lemma_parse_render_group(g, rest0);
        lemma_join_first(pre.skip(1));
        assert(rest0[0] == ':');
        assert(rest0[1] == jp1[0]);
        assert(rest0.skip(1) =~= jp1 + (seq![':'] + (seq![':'] + jpost)));
        lemma_parse_head_compressed(pre.skip(1), zn, post, (room - 1) as nat);
        assert(seq![g] + (pre.skip(1) + zero_groups(zn) + post) =~= pre + zero_groups(zn)
            + post);
    }
}

/// The run of zeros starting at `i` is within bounds and all zero.
proof fn lemma_run_at(gs: Seq<u16>, i: int)
    requires
        0 <= i <= gs.len(),
    ensures
        run_at(gs, i) <= gs.len() - i,
        forall|j: int| i <= j < i + run_at(gs, i) ==> gs[j] == 0,
    decreases gs.len() - i,
{
    if i < gs.len() && gs[i] == 0 {
        lemma_run_at(gs, i + 1);
    }
}

/// The best run is a run within bounds.
proof fn lemma_best_from(gs: Seq<u16>, i: int)
    requires
        0 <= i <= gs.len(),
    ensures
        i <= best_from(gs, i).0 <= gs.len(),
        best_from(gs, i).1 == run_at(gs, best_from(gs, i).0),
    decreases gs.len() - i,
{
    if i < gs.len() {
        lemma_best_from(gs, i + 1);
    }
}

/// No colon occurs in a rendered IPv4 address.
proof fn lemma_render_v4_no_colon(a: u8, b: u8, c: u8, d: u8)
    ensures
        !has_colon(spec_render_v4(a, b, c, d)),
{
    lemma_dec_value_render(a);
    lemma_dec_value_render(b);
    lemma_dec_value_render(c);
    lemma_dec_value_render(d);
    let sa = render_dec(a as nat);
    let sb = render_dec(b as nat);
    let sc = render_dec(c as nat);
    let sd = render_dec(d as nat);
    let dot = seq!['.'];
    let s = spec_render_v4(a, b, c, d);
    assert forall|i: int| 0 <= i < s.len() implies s[i] != ':' by {
        let la = sa.len() as int;
        let lb = sb.len() as int;
        let lc = sc.len() as int;
        if i < la {
            assert(s[i] == sa[i]);
        } else if i == la {
            assert(s[i] == '.');
        } else if i < la + 1 + lb {
            assert(s[i] == sb[i - la - 1]);
        } else if i == la + 1 + lb {
            assert(s[i] == '.');
        } else if i < la + 1 + lb + 1 + lc {
            assert(s[i] == sc[i - la - 1 - lb - 1]);
        } else if i == la + 1 + lb + 1 + lc {
            assert(s[i] == '.');
        } else {
            assert(s[i] == sd[i - la - 1 - lb - 1 - lc - 1]);
        }
    }
}

/// A rendered IPv6 address holds a colon.
proof fn lemma_render_v6_has_colon(gs: Seq<u16>)
    requires
        gs.len() == 8,
    ensures
        has_colon(spec_render_v6(gs)),
{
    let b = best_from(gs, 0);
    lemma_best_from(gs, 0);
    let s = spec_render_v6(gs);
    if b.1 < 2 {
        let hx = render_hex(gs[0] as nat);
        lemma_hex_value_render(gs[0]);
        assert(s[hx.len() as int] == (seq![':'] + join_groups(gs.skip(1)))[0]);
        assert(s[hx.len() as int] == ':');
    } else {
        let jpre = join_groups(gs.take(b.0));
        lemma_join_len(gs.take(b.0));
        assert(s[jpre.len() as int] == ':');
    }
}

/// A joined group list of `n` groups is at least `n` characters long
/// (not counting separators), and empty only when `n` is zero.
proof fn lemma_join_len(gs: Seq<u16>)
    ensures
        gs.len() == 0 ==> join_groups(gs).len() == 0,
        gs.len() >= 1 ==> join_groups(gs).len() >= 1,
    decreases gs.len(),
{
    if gs.len() >= 1 {
        lemma_hex_value_render(gs[0]);
    }
}

/// Parsing a canonically rendered IPv6 address gives the groups back.
pub proof fn lemma_parse_render_v6(gs: Seq<u16>)
    requires
        gs.len() == 8,
    ensures
        spec_parse_v6(spec_render_v6(gs)) == Some(gs),
{
    let b = best_from(gs, 0);
    lemma_best_from(gs, 0);
    lemma_run_at(gs, b.0);
    let s = spec_render_v6(gs);
    if b.1 < 2 {
        lemma_join_first(gs);
        assert(s[0] != ':');
        lemma_parse_head_join(gs, 8);
    } else {
        let pre = gs.take(b.0);
        let post = gs.skip(b.0 + b.1);
        let zn = b.1;
        assert(gs =~= pre + zero_groups(zn) + post);
        if b.0 == 0 {
            assert(join_groups(pre).len() == 0);
            let s2 = seq![':'] + (seq![':'] + join_groups(post));
            assert(s =~= s2);
            assert(s2[0] == ':');
            assert(s2[1] == ':');
            assert(s2.skip(2) =~= join_groups(post));
            if post.len() == 0 {
                assert(join_groups(post).len() == 0);
                assert(zero_groups(8) =~= gs);
            } else {
                lemma_join_first(post);
                lemma_parse_tail_join(post);
                assert(zero_groups((8 - post.len()) as nat) + post =~= gs);
            }
        } else {
            lemma_join_first(pre);
            assert(s[0] == join_groups(pre)[0]);
            assert(!(s.len() >= 2 && s[0] == ':' && s[1] == ':'));
            lemma_parse_head_compressed(pre, zn, post, 8);
        }
    }
}

/// Parsing a canonically rendered IP address gives the address back.
pub proof fn lemma_parse_render_ip(ip: IpAddress)
    ensures
        spec_parse_ip(spec_render_ip(ip)) == Some(ip),
{
    match ip {
        IpAddress::V4(a, b, c, d) => {
            lemma_render_v4_no_colon(a, b, c, d);
            lemma_parse_render_v4(a, b, c, d);
        },
        IpAddress::V6(gr) => {
            let gs = gr.seq();
            lemma_render_v6_has_colon(gs);
            lemma_parse_render_v6(gs);
            assert(groups_of_seq(gs) == gr);
        },
    }
}

} // verus!
