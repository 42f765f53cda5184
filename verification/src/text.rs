//! Text helpers: character access, the order on keys, and small formatters.

use vstd::prelude::*;
use vstd::string::StringExecFns;

verus! {

/// The characters of `s`, in order.
pub fn chars_of(s: &str) -> (v: Vec<char>)
    ensures
        v@ == s@,
{
    let mut v: Vec<char> = Vec::new();
    for c in it: s.chars()
        invariant
            it.seq() == s@,
            v@ == s@.take(it.index() as int),
    {
        v.push(c);
    }
    v
}

/// Lexicographic order on character sequences, by code point. A proper prefix
/// comes before the sequences that extend it.
pub open spec fn lex_lt(a: Seq<char>, b: Seq<char>) -> bool
    decreases a.len(),
{
    if a.len() == 0 {
        b.len() > 0
    } else if b.len() == 0 {
        false
    } else if a[0] == b[0] {
        lex_lt(a.skip(1), b.skip(1))
    } else {
        (a[0] as u32) < (b[0] as u32)
    }
}

/// Two characters with the same code point are the same character.
pub proof fn lemma_code_point_injective(x: char, y: char)
    requires
        x as u32 == y as u32,
    ensures
        x == y,
{
    assert((x as u32) as char == x);
    assert((y as u32) as char == y);
}

/// No sequence comes before itself.
pub proof fn lemma_lex_irreflexive(a: Seq<char>)
    ensures
        !lex_lt(a, a),
    decreases a.len(),
{
    if a.len() > 0 {
        lemma_lex_irreflexive(a.skip(1));
    }
}

/// The order is transitive.
pub proof fn lemma_lex_transitive(a: Seq<char>, b: Seq<char>, c: Seq<char>)
    requires
        lex_lt(a, b),
        lex_lt(b, c),
    ensures
        lex_lt(a, c),
    decreases a.len(),
{
    if a.len() > 0 && b.len() > 0 && c.len() > 0 {
        if a[0] == b[0] && b[0] == c[0] {
            lemma_lex_transitive(a.skip(1), b.skip(1), c.skip(1));
        }
    }
}

/// Two different sequences are ordered one way or the other.
pub proof fn lemma_lex_total(a: Seq<char>, b: Seq<char>)
    ensures
        a == b || lex_lt(a, b) || lex_lt(b, a),
    decreases a.len(),
{
    if a.len() == 0 || b.len() == 0 {
        if a.len() == 0 && b.len() == 0 {
            assert(a =~= b);
        }
    } else if a[0] == b[0] {
        lemma_lex_total(a.skip(1), b.skip(1));
        if a.skip(1) == b.skip(1) {
            assert(a =~= seq![a[0]] + a.skip(1));
            assert(b =~= seq![b[0]] + b.skip(1));
        }
    } else if a[0] as u32 == b[0] as u32 {
        lemma_code_point_injective(a[0], b[0]);
    }
}

/// The order never holds both ways.
pub proof fn lemma_lex_asymmetric(a: Seq<char>, b: Seq<char>)
    requires
        lex_lt(a, b),
    ensures
        !lex_lt(b, a),
        a != b,
{
    lemma_lex_irreflexive(a);
    if lex_lt(b, a) {
        lemma_lex_transitive(a, b, a);
    }
}

/// How one key stands to another.
#[derive(Clone, Copy, Debug, PartialEq, Eq, Structural)]
pub enum KeyOrder {
    Before,
    Same,
    After,
}

/// What [`key_order`] returns on `a` and `b`.
pub open spec fn key_order_of(a: Seq<char>, b: Seq<char>) -> KeyOrder {
    if a == b {
        KeyOrder::Same
    } else if lex_lt(a, b) {
        KeyOrder::Before
    } else {
        KeyOrder::After
    }
}

/// Compares two character vectors in the order of [`lex_lt`].
pub fn chars_order(a: &Vec<char>, b: &Vec<char>) -> (r: KeyOrder)
    ensures
        r == key_order_of(a@, b@),
        r == KeyOrder::After ==> lex_lt(b@, a@),
{
    let mut i: usize = 0;
    assert(a@.skip(0) =~= a@ && b@.skip(0) =~= b@);
    while i < a.len() && i < b.len()
        invariant
            i <= a.len(),
            i <= b.len(),
            lex_lt(a@, b@) == lex_lt(a@.skip(i as int), b@.skip(i as int)),
            lex_lt(b@, a@) == lex_lt(b@.skip(i as int), a@.skip(i as int)),
            (a@ == b@) == (a@.skip(i as int) == b@.skip(i as int)),
        decreases a.len() - i,
    {
        let x = a[i];
        let y = b[i];
        proof {
            let sa = a@.skip(i as int);
            let sb = b@.skip(i as int);
            assert(sa[0] == x && sb[0] == y);
            assert(sa.skip(1) =~= a@.skip(i + 1));
            assert(sb.skip(1) =~= b@.skip(i + 1));
            if x == y && sa.skip(1) == sb.skip(1) {
                assert(sa =~= seq![x] + sa.skip(1));
                assert(sb =~= seq![y] + sb.skip(1));
            }
            if x as u32 == y as u32 {
                lemma_code_point_injective(x, y);
            }
        }
        if x != y {
            if (x as u32) < (y as u32) {
                return KeyOrder::Before;
            } else {
                return KeyOrder::After;
            }
        }
        i += 1;
    }
    proof {
        let sa = a@.skip(i as int);
        let sb = b@.skip(i as int);
        if sa.len() == 0 && sb.len() == 0 {
            assert(sa =~= sb);
        }
        lemma_lex_total(a@, b@);
    }
    if i < b.len() {
        KeyOrder::Before
    } else if i < a.len() {
        KeyOrder::After
    } else {
        KeyOrder::Same
    }
}

/// Compares two strings in the order of [`lex_lt`].
pub fn key_order(a: &str, b: &str) -> (r: KeyOrder)
    ensures
        r == key_order_of(a@, b@),
        r == KeyOrder::After ==> lex_lt(b@, a@),
{
    let ca = chars_of(a);
    let cb = chars_of(b);
    chars_order(&ca, &cb)
}

/// Whether two strings hold the same characters.
pub fn str_eq(a: &str, b: &str) -> (r: bool)
    ensures
        r == (a@ == b@),
{
    key_order(a, b) == KeyOrder::Same
}

/// The character that writes the digit `d` in base 16, in lower case.
pub open spec fn hex_char(d: int) -> char {
    if d == 0 {
        '0'
    } else if d == 1 {
        '1'
    } else if d == 2 {
        '2'
    } else if d == 3 {
        '3'
    } else if d == 4 {
        '4'
    } else if d == 5 {
        '5'
    } else if d == 6 {
        '6'
    } else if d == 7 {
        '7'
    } else if d == 8 {
        '8'
    } else if d == 9 {
        '9'
    } else if d == 10 {
        'a'
    } else if d == 11 {
        'b'
    } else if d == 12 {
        'c'
    } else if d == 13 {
        'd'
    } else if d == 14 {
        'e'
    } else {
        'f'
    }
}

/// The digit `d`, below 16, as a string of one character.
pub fn hex_digit(d: u8) -> (r: &'static str)
    requires
        d < 16,
    ensures
        r@ == seq![hex_char(d as int)],
{
    proof {
        reveal_strlit("0");
        reveal_strlit("1");
        reveal_strlit("2");
        reveal_strlit("3");
        reveal_strlit("4");
        reveal_strlit("5");
        reveal_strlit("6");
        reveal_strlit("7");
        reveal_strlit("8");
        reveal_strlit("9");
        reveal_strlit("a");
        reveal_strlit("b");
        reveal_strlit("c");
        reveal_strlit("d");
        reveal_strlit("e");
        reveal_strlit("f");
    }
    let r = match d {
        0 => "0",
        1 => "1",
        2 => "2",
        3 => "3",
        4 => "4",
        5 => "5",
        6 => "6",
        7 => "7",
        8 => "8",
        9 => "9",
        10 => "a",
        11 => "b",
        12 => "c",
        13 => "d",
        14 => "e",
        _ => "f",
    };
    assert(r@ =~= seq![hex_char(d as int)]);
    r
}

/// A number in base 10, without leading zeros.
pub open spec fn decimal_digits(n: nat) -> Seq<char>
    decreases n,
{
    if n < 10 {
        seq![hex_char(n as int)]
    } else {
        decimal_digits(n / 10).push(hex_char((n % 10) as int))
    }
}

/// Writes `n` in base 10.
pub fn decimal(n: u64) -> (r: String)
    ensures
        r@ == decimal_digits(n as nat),
{
    let mut digits: Vec<u8> = Vec::new();
    let mut rest: u64 = n;
    // the digits of n, the last one first
    while rest >= 10
        invariant
            forall|j: int| 0 <= j < digits@.len() ==> #[trigger] digits@[j] < 10,
            decimal_digits(n as nat) == decimal_digits(rest as nat) + Seq::new(
                digits@.len(),
                |j: int| hex_char(digits@[digits@.len() - 1 - j] as int),
            ),
        decreases rest,
    {
        let ghost old_digits = digits@;
        let ghost old_rest = rest;
        digits.push((rest % 10) as u8);
        rest = rest / 10;
        proof {
            let tail_old = Seq::new(
                old_digits.len(),
                |j: int| hex_char(old_digits[old_digits.len() - 1 - j] as int),
            );
            let tail_new = Seq::new(
                digits@.len(),
                |j: int| hex_char(digits@[digits@.len() - 1 - j] as int),
            );
            assert(tail_new =~= seq![hex_char((old_rest % 10) as int)] + tail_old);
            assert(decimal_digits(old_rest as nat) == decimal_digits(rest as nat).push(
                hex_char((old_rest % 10) as int),
            ));
            assert(decimal_digits(rest as nat).push(hex_char((old_rest % 10) as int)) + tail_old
                =~= decimal_digits(rest as nat) + tail_new);
        }
    }
    let mut out = String::new();
    out.append(hex_digit(rest as u8));
    let mut k: usize = digits.len();
    while k > 0
        invariant
            k <= digits@.len(),
            rest < 10,
            forall|j: int| 0 <= j < digits@.len() ==> #[trigger] digits@[j] < 10,
            out@ == decimal_digits(rest as nat) + Seq::new(
                (digits@.len() - k) as nat,
                |j: int| hex_char(digits@[digits@.len() - 1 - j] as int),
            ),
        decreases k,
    {
        k -= 1;
        let ghost before = out@;
        out.append(hex_digit(digits[k]));
        assert(out@ =~= decimal_digits(rest as nat) + Seq::new(
            (digits@.len() - k) as nat,
            |j: int| hex_char(digits@[digits@.len() - 1 - j] as int),
        ));
    }
    out
}

/// The value of a decimal digit, if `c` is one of `0` to `9`.
pub open spec fn digit_value(c: char) -> Option<nat> {
    if '0' <= c && c <= '9' {
        Some((c as u32 - '0' as u32) as nat)
    } else {
        None
    }
}

/// The number that `s` writes in base 10: `None` unless `s` is one or more of
/// the digits `0` to `9`.
pub open spec fn decimal_value(s: Seq<char>) -> Option<nat>
    decreases s.len(),
{
    if s.len() == 0 {
        None
    } else {
        match digit_value(s.last()) {
            None => None,
            Some(d) => if s.len() == 1 {
                Some(d)
            } else {
                match decimal_value(s.drop_last()) {
                    None => None,
                    Some(high) => Some(10 * high + d),
                }
            },
        }
    }
}

/// Reads the characters of `v` from `from` on as a number in base 10 that
/// fits 64 bits.
pub fn parse_decimal(v: &Vec<char>, from: usize) -> (r: Option<u64>)
    requires
        from <= v@.len(),
    ensures
        r == match decimal_value(v@.skip(from as int)) {
            Some(n) => if n <= u64::MAX {
                Some(n as u64)
            } else {
                None
            },
            None => None,
        },
{
    let ghost s = v@.skip(from as int);
    if from >= v.len() {
        return None;
    }
    let mut acc: u64 = 0;
    let mut overflow = false;
    let mut i: usize = from;
    while i < v.len()
        invariant
            from <= i <= v@.len(),
            s == v@.skip(from as int),
            i > from ==> match decimal_value(s.take(i - from)) {
                Some(n) => if overflow {
                    n > u64::MAX
                } else {
                    n == acc
                },
                None => false,
            },
            i == from ==> acc == 0 && !overflow,
        decreases v.len() - i,
    {
        let c = v[i];
        proof {
            let p = s.take(i + 1 - from);
            assert(p.last() == c);
            assert(p.drop_last() =~= s.take(i - from));
            if i + 1 == v@.len() {
                assert(p =~= s);
            }
        }
        if !('0' <= c && c <= '9') {
            proof {
                lemma_decimal_value_prefix(s, i + 1 - from);
            }
            return None;
        }
        let d: u64 = (c as u32 - '0' as u32) as u64;
        if !overflow {
            if acc > (u64::MAX - d) / 10 {
                overflow = true;
            } else {
                acc = acc * 10 + d;
            }
        }
        i += 1;
    }
    assert(s.take(i - from) =~= s);
    if overflow {
        None
    } else {
        Some(acc)
    }
}

/// Where a prefix of `s` is no number, `s` is none either.
pub proof fn lemma_decimal_value_prefix(s: Seq<char>, n: int)
    requires
        0 < n <= s.len(),
        decimal_value(s.take(n)) is None,
    ensures
        decimal_value(s) is None,
    decreases s.len(),
{
    if n < s.len() {
        assert(s.drop_last().take(n) =~= s.take(n));
        lemma_decimal_value_prefix(s.drop_last(), n);
    } else {
        assert(s.take(n) =~= s);
    }
}

} // verus!
