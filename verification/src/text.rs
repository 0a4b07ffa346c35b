//! Small text operations: decimal numbers, trimming white space, escaping
//! quotes, and decoding bytes that are mostly UTF-8.
use vstd::prelude::*;
use vstd::string::*;

use crate::path::chars_of;

verus! {

pub open spec fn digit_char(d: int) -> char {
    if d == 0 {
        '0'
    } else if d == 1 {
        '1'
    } else if d == 2 {
        '2'
    } else if d == 3 {
        '3'
    } else if d == 4 {
        '4'
    } else if d == 5 {
        '5'
    } else if d == 6 {
        '6'
    } else if d == 7 {
        '7'
    } else if d == 8 {
        '8'
    } else {
        '9'
    }
}

/// The decimal digits of `n`, most significant first, without leading zeros.
pub open spec fn decimal(n: nat) -> Seq<char>
    decreases n,
{
    if n < 10 {
        seq![digit_char(n as int)]
    } else {
        decimal(n / 10).push(digit_char((n % 10) as int))
    }
}

/// The number that a string of decimal digits denotes.
pub open spec fn decimal_value(s: Seq<char>) -> int
    decreases s.len(),
{
    if s.len() == 0 {
        0
    } else {
        10 * decimal_value(s.drop_last()) + ((s.last() as int) - ('0' as int))
    }
}

/// Writing a number in decimal and reading it back gives the number.
pub proof fn lemma_decimal_round_trip(n: nat)
    ensures
        decimal_value(decimal(n)) == n,
    decreases n,
{
    let d = n % 10;
    assert(d < 10);
    assert((digit_char(d as int) as int) - ('0' as int) == d);
    if n >= 10 {
        lemma_decimal_round_trip(n / 10);
        let t = decimal(n / 10).push(digit_char(d as int));
        assert(t.drop_last() =~= decimal(n / 10));
        vstd::arithmetic::div_mod::lemma_fundamental_div_mod(n as int, 10);
        assert(decimal(n) == t);
        assert(decimal_value(t) == 10 * decimal_value(decimal(n / 10)) + d);
    } else {
        assert(seq![digit_char(n as int)].drop_last() =~= Seq::<char>::empty());
        assert(decimal_value(Seq::<char>::empty()) == 0);
        assert(n % 10 == n);
        assert(decimal(n) == seq![digit_char(n as int)]);
    }
}

fn digit_str(d: u16) -> (r: &'static str)
    requires
        d < 10,
    ensures
        r@ == seq![digit_char(d as int)],
{
    proof {
        reveal_strlit("0");
        reveal_strlit("1");
        reveal_strlit("2");
        reveal_strlit("3");
        reveal_strlit("4");
        reveal_strlit("5");
        reveal_strlit("6");
        reveal_strlit("7");
        reveal_strlit("8");
        reveal_strlit("9");
    }
    match d {
        0 => "0",
        1 => "1",
        2 => "2",
        3 => "3",
        4 => "4",
        5 => "5",
        6 => "6",
        7 => "7",
        8 => "8",
        _ => "9",
    }
}

/// Writes `n` in decimal.
pub fn decimal_string(n: u16) -> (r: String)
    ensures
        r@ == decimal(n as nat),
    decreases n,
{
    if n < 10 {
        String::from_str(digit_str(n))
    } else {
        let mut r = decimal_string(n / 10);
        r.append(digit_str(n % 10));
        r
    }
}

/// The characters that Unicode gives the White_Space property.
pub open spec fn is_white_space(c: char) -> bool {
    let x = c as int;
    ||| 9 <= x <= 13
    ||| x == 32
    ||| x == 0x85
    ||| x == 0xA0
    ||| x == 0x1680
    ||| 0x2000 <= x <= 0x200A
    ||| x == 0x2028
    ||| x == 0x2029
    ||| x == 0x202F
    ||| x == 0x205F
    ||| x == 0x3000
}

fn white_space(c: char) -> (r: bool)
    ensures
        r == is_white_space(c),
{
    let x = c as u32;
    (9 <= x && x <= 13) || x == 32 || x == 0x85 || x == 0xA0 || x == 0x1680 || (0x2000 <= x && x
        <= 0x200A) || x == 0x2028 || x == 0x2029 || x == 0x202F || x == 0x205F || x == 0x3000
}

/// Index of the first character at or after `i` that is not white space.
pub open spec fn skip_white_space(s: Seq<char>, i: int) -> int
    decreases s.len() - i,
{
    if 0 <= i < s.len() && is_white_space(s[i]) {
        skip_white_space(s, i + 1)
    } else {
        i
    }
}

/// End of `s[lo..j]` once the white space at its end is dropped.
pub open spec fn drop_white_space_end(s: Seq<char>, lo: int, j: int) -> int
    decreases j - lo,
{
    if lo < j && is_white_space(s[j - 1]) {
        drop_white_space_end(s, lo, j - 1)
    } else {
        j
    }
}

/// `s` without the white space at its start and at its end.
pub open spec fn trim_white_space(s: Seq<char>) -> Seq<char> {
    let a = skip_white_space(s, 0);
    s.subrange(a, drop_white_space_end(s, a, s.len() as int))
}

proof fn lemma_skip_bounds(s: Seq<char>, i: int)
    requires
        0 <= i <= s.len(),
    ensures
        i <= skip_white_space(s, i) <= s.len(),
    decreases s.len() - i,
{
    if i < s.len() && is_white_space(s[i]) {
        lemma_skip_bounds(s, i + 1);
    }
}

proof fn lemma_drop_end_bounds(s: Seq<char>, lo: int, j: int)
    requires
        lo <= j,
    ensures
        lo <= drop_white_space_end(s, lo, j) <= j,
    decreases j - lo,
{
    if lo < j && is_white_space(s[j - 1]) {
        lemma_drop_end_bounds(s, lo, j - 1);
    }
}

/// A string without its leading and trailing white space.
pub fn trim(s: &str) -> (r: String)
    ensures
        r@ == trim_white_space(s@),
{
    let v = chars_of(s);
    let n = v.len();
    let mut a: usize = 0;
    while a < n && white_space(v[a])
        invariant
            v@ == s@,
            n == v.len(),
            a <= n,
            skip_white_space(s@, 0) == skip_white_space(s@, a as int),
        decreases n - a,
    {
        a += 1;
    }
    let mut e: usize = n;
    while e > a && white_space(v[e - 1])
        invariant
            v@ == s@,
            n == v.len(),
            a <= e <= n,
            drop_white_space_end(s@, a as int, n as int) == drop_white_space_end(
                s@,
                a as int,
                e as int,
            ),
        decreases e,
    {
        e -= 1;
    }
    s.substring_char(a, e).to_owned()
}

/// `s` with a backslash put before every double quote.
pub open spec fn escape_quotes(s: Seq<char>) -> Seq<char>
    decreases s.len(),
{
    if s.len() == 0 {
        Seq::empty()
    } else {
        escape_quotes(s.drop_last()) + if s.last() == '"' {
            seq!['\\', '"']
        } else {
            seq![s.last()]
        }
    }
}

/// Escaping works character by character: a double quote becomes `\"`,
/// any other character stays, and escaping a concatenation concatenates the
/// escaped parts.
pub proof fn lemma_escape_quotes_per_char(a: Seq<char>, b: Seq<char>, c: char)
    ensures
        escape_quotes(seq![c]) == if c == '"' {
            seq!['\\', '"']
        } else {
            seq![c]
        },
        escape_quotes(a + b) == escape_quotes(a) + escape_quotes(b),
    decreases b.len(),
{
    assert(seq![c].drop_last() =~= Seq::<char>::empty());
    assert(escape_quotes(Seq::<char>::empty()) =~= Seq::<char>::empty());
    if b.len() == 0 {
        assert(a + b =~= a);
        assert(escape_quotes(a) + escape_quotes(b) =~= escape_quotes(a));
    } else {
        lemma_escape_quotes_per_char(a, b.drop_last(), c);
        assert((a + b).drop_last() =~= a + b.drop_last());
        assert((a + b).last() == b.last());
        assert(escape_quotes(a + b) =~= escape_quotes(a) + escape_quotes(b));
    }
}

/// Puts a backslash before every double quote of `s`.
pub fn escape_double_quotes(s: &str) -> (r: String)
    ensures
        r@ == escape_quotes(s@),
{
    let v = chars_of(s);
    let n = v.len();
    let mut r = String::new();
    let mut i: usize = 0;
    proof {
        reveal_strlit("\\\"");
    }
    while i < n
        invariant
            v@ == s@,
            n == v.len(),
            i <= n,
            r@ == escape_quotes(s@.take(i as int)),
            "\\\""@ == seq!['\\', '"'],
        decreases n - i,
    {
        if v[i] == '"' {
            r.append("\\\"");
        } else {
            r.append(s.substring_char(i, i + 1));
        }
        i += 1;
        proof {
            assert(s@.take(i as int).drop_last() =~= s@.take(i - 1));
            assert(s@.subrange(i - 1, i as int) =~= seq![s@[i - 1]]);
        }
    }
    proof {
        assert(s@.take(n as int) =~= s@);
    }
    r
}

/// What `String::from_utf8_lossy` makes of the bytes: their UTF-8 reading,
/// with U+FFFD in place of each ill-formed sequence.
pub uninterp spec fn utf8_lossy(bytes: Seq<u8>) -> Seq<char>;

/// Calls `String::from_utf8_lossy`; the result is named by `utf8_lossy`.
#[verifier::external_body]
pub(crate) fn decode_utf8_lossy(bytes: &[u8]) -> (r: String)
    ensures
        r@ == utf8_lossy(bytes@),
{
    String::from_utf8_lossy(bytes).into_owned()
}

} // verus!
