//! Text helpers: decimal numerals, comparison, trimming, case folding.
//!
//! Every function works on the characters of its argument, and its contract is
//! stated over `s@`, the sequence of those characters.

use vstd::prelude::*;
use vstd::string::*;
use vstd::utf8::*;

verus! {

// ---------------------------------------------------------------------------
// Decimal numerals
// ---------------------------------------------------------------------------

/// The character of one decimal digit.
pub open spec fn digit(d: nat) -> char {
    (48 + d) as char
}

/// The decimal numeral of `n`, without leading zeros.
pub open spec fn dec(n: nat) -> Seq<char>
    decreases n,
{
    if n < 10 {
        seq![digit(n)]
    } else {
        dec(n / 10).push(digit(n % 10))
    }
}

/// The decimal numeral of an integer, with a leading `-` below zero.
pub open spec fn int_text(i: int) -> Seq<char> {
    if i < 0 {
        seq!['-'] + dec((-i) as nat)
    } else {
        dec(i as nat)
    }
}

/// Appends one decimal digit.
fn push_digit(out: &mut String, d: u64)
    requires
        d < 10,
    ensures
        final(out)@ == old(out)@.push(digit(d as nat)),
{
    proof {
        reveal_strlit("0");
        reveal_strlit("1");
        reveal_strlit("2");
        reveal_strlit("3");
        reveal_strlit("4");
        reveal_strlit("5");
        reveal_strlit("6");
        reveal_strlit("7");
        reveal_strlit("8");
        reveal_strlit("9");
    }
    let ghost before = out@;
    let text: &str = if d == 0 {
        "0"
    } else if d == 1 {
        "1"
    } else if d == 2 {
        "2"
    } else if d == 3 {
        "3"
    } else if d == 4 {
        "4"
    } else if d == 5 {
        "5"
    } else if d == 6 {
        "6"
    } else if d == 7 {
        "7"
    } else if d == 8 {
        "8"
    } else {
        "9"
    };
    out.append(text);
    assert(text@ =~= seq![digit(d as nat)]);
    assert(before + text@ =~= before.push(digit(d as nat)));
}

/// The decimal numeral of an unsigned number.
pub fn dec_text(n: u64) -> (s: String)
    ensures
        s@ == dec(n as nat),
    decreases n,
{
    let mut s = if n < 10 {
        String::new()
    } else {
        dec_text(n / 10)
    };
    push_digit(&mut s, n % 10);
    assert(n < 10 ==> s@ =~= seq![digit(n as nat)]);
    s
}

/// The decimal numeral of a signed number.
pub fn i64_text(i: i64) -> (s: String)
    ensures
        s@ == int_text(i as int),
{
    if i < 0 {
        proof {
            reveal_strlit("-");
        }
        let magnitude: u64 = (-(i + 1)) as u64 + 1;
        let digits = dec_text(magnitude);
        let mut s = String::new();
        s.append("-");
        s.append(digits.as_str());
        assert(s@ =~= seq!['-'] + dec(magnitude as nat));
        s
    } else {
        dec_text(i as u64)
    }
}

/// A numeral is a nonempty run of digits.
pub proof fn lemma_dec_digits(n: nat)
    ensures
        dec(n).len() > 0,
        forall|i: int| 0 <= i < dec(n).len() ==> 48 <= #[trigger] (dec(n)[i] as int) <= 57,
    decreases n,
{
    if n >= 10 {
        lemma_dec_digits(n / 10);
    }
}

/// Different numbers have different numerals.
pub proof fn lemma_dec_injective(a: nat, b: nat)
    requires
        dec(a) == dec(b),
    ensures
        a == b,
    decreases a,
{
    if a < 10 && b < 10 {
        assert(dec(a)[0] as int == 48 + a && dec(b)[0] as int == 48 + b);
    } else if a < 10 {
        lemma_dec_digits(b / 10);
        assert(dec(a).len() == 1);
        assert(dec(b).len() > 1);
    } else if b < 10 {
        lemma_dec_digits(a / 10);
        assert(dec(b).len() == 1);
        assert(dec(a).len() > 1);
    } else {
        assert(dec(a).last() as int == 48 + a % 10 && dec(b).last() as int == 48 + b % 10);
        assert(dec(a).drop_last() =~= dec(a / 10));
        assert(dec(b).drop_last() =~= dec(b / 10));
        lemma_dec_injective(a / 10, b / 10);
    }
}

/// Different integers have different numerals.
pub proof fn lemma_int_text_injective(a: int, b: int)
    requires
        int_text(a) == int_text(b),
    ensures
        a == b,
{
    let x = if a < 0 {
        (-a) as nat
    } else {
        a as nat
    };
    let y = if b < 0 {
        (-b) as nat
    } else {
        b as nat
    };
    lemma_dec_digits(x);
    lemma_dec_digits(y);
    if a < 0 && b < 0 {
        assert(int_text(a).drop_first() =~= dec(x));
        assert(int_text(b).drop_first() =~= dec(y));
        lemma_dec_injective(x, y);
    } else if a >= 0 && b >= 0 {
        lemma_dec_injective(x, y);
    } else {
        assert(int_text(a)[0] == int_text(b)[0]);
        assert(dec(x)[0] != '-' && dec(y)[0] != '-') by {
            assert(48 <= dec(x)[0] as int && 48 <= dec(y)[0] as int);
        }
    }
}

// ---------------------------------------------------------------------------
// Comparison
// ---------------------------------------------------------------------------

/// Two texts with the same UTF-8 bytes are the same text.
pub proof fn lemma_encode_utf8_injective(a: Seq<char>, b: Seq<char>)
    requires
        encode_utf8(a) == encode_utf8(b),
    ensures
        a == b,
{
    encode_utf8_decode_utf8(a);
    encode_utf8_decode_utf8(b);
}

/// Whether two texts are the same.
pub fn str_eq(a: &str, b: &str) -> (r: bool)
    ensures
        r == (a@ == b@),
{
    let x = a.as_bytes();
    let y = b.as_bytes();
    if x.len() != y.len() {
        return false;
    }
    let mut i: usize = 0;
    while i < x.len()
        invariant
            i <= x@.len(),
            x@.len() == y@.len(),
            x@ == encode_utf8(a@),
            y@ == encode_utf8(b@),
            forall|j: int| 0 <= j < i ==> x@[j] == y@[j],
        decreases x@.len() - i,
    {
        if x[i] != y[i] {
            return false;
        }
        i = i + 1;
    }
    proof {
        assert(x@ =~= y@);
        lemma_encode_utf8_injective(a@, b@);
    }
    true
}

/// The characters of a text.
pub fn chars_of(s: &str) -> (v: Vec<char>)
    ensures
        v@ == s@,
{
    let mut v: Vec<char> = Vec::new();
    for c in it: s.chars()
        invariant
            v@ =~= it.seq().take(it.index()),
            it.seq() == s@,
    {
        v.push(c);
    }
    v
}

/// Whether `s` begins with `prefix`.
pub fn starts_with(s: &str, prefix: &str) -> (r: bool)
    ensures
        r == prefix@.is_prefix_of(s@),
{
    let text = chars_of(s);
    let head = chars_of(prefix);
    if head.len() > text.len() {
        return false;
    }
    let mut i: usize = 0;
    while i < head.len()
        invariant
            i <= head@.len() <= text@.len(),
            head@ == prefix@,
            text@ == s@,
            forall|j: int| 0 <= j < i ==> head@[j] == text@[j],
        decreases head@.len() - i,
    {
        if head[i] != text[i] {
            return false;
        }
        i = i + 1;
    }
    assert(head@ =~= text@.subrange(0, head@.len() as int));
    true
}

// ---------------------------------------------------------------------------
// White space
// ---------------------------------------------------------------------------

/// The Unicode `White_Space` property.
pub open spec fn is_white_space(c: char) -> bool {
    let u = c as u32;
    ||| 0x09 <= u <= 0x0d
    ||| u == 0x20
    ||| u == 0x85
    ||| u == 0xa0
    ||| u == 0x1680
    ||| 0x2000 <= u <= 0x200a
    ||| u == 0x2028
    ||| u == 0x2029
    ||| u == 0x202f
    ||| u == 0x205f
    ||| u == 0x3000
}

/// Nothing but white space, or nothing at all.
pub open spec fn blank(s: Seq<char>) -> bool {
    forall|i: int| 0 <= i < s.len() ==> is_white_space(#[trigger] s[i])
}

/// `s` without its leading white space.
pub open spec fn trim_start(s: Seq<char>) -> Seq<char>
    decreases s.len(),
{
    if s.len() > 0 && is_white_space(s[0]) {
        trim_start(s.drop_first())
    } else {
        s
    }
}

/// `s` without its trailing white space.
pub open spec fn trim_end(s: Seq<char>) -> Seq<char>
    decreases s.len(),
{
    if s.len() > 0 && is_white_space(s.last()) {
        trim_end(s.drop_last())
    } else {
        s
    }
}

/// `s` without the white space around it.
pub open spec fn trim(s: Seq<char>) -> Seq<char> {
    trim_end(trim_start(s))
}

/// Whether a character is white space.
pub fn white_space(c: char) -> (r: bool)
    ensures
        r == is_white_space(c),
{
    let u: u32 = c as u32;
    (0x09 <= u && u <= 0x0d) || u == 0x20 || u == 0x85 || u == 0xa0 || u == 0x1680 || (0x2000 <= u
        && u <= 0x200a) || u == 0x2028 || u == 0x2029 || u == 0x202f || u == 0x205f || u == 0x3000
}

/// Whether a text holds nothing but white space.
pub fn is_blank(s: &str) -> (r: bool)
    ensures
        r == blank(s@),
{
    let text = chars_of(s);
    let mut i: usize = 0;
    while i < text.len()
        invariant
            i <= text@.len(),
            text@ == s@,
            forall|j: int| 0 <= j < i ==> is_white_space(#[trigger] text@[j]),
        decreases text@.len() - i,
    {
        if !white_space(text[i]) {
            return false;
        }
        i = i + 1;
    }
    true
}

/// The part `text[from..to]` without the white space around it, as bounds.
fn trim_bounds(text: &Vec<char>, from: usize, to: usize) -> (r: (usize, usize))
    requires
        from <= to <= text@.len(),
    ensures
        from <= r.0 <= r.1 <= to,
        text@.subrange(r.0 as int, r.1 as int) == trim(text@.subrange(from as int, to as int)),
{
    let ghost whole = text@.subrange(from as int, to as int);
    let mut a: usize = from;
    while a < to && white_space(text[a])
        invariant
            from <= a <= to <= text@.len(),
            trim_start(text@.subrange(a as int, to as int)) == trim_start(whole),
        decreases to - a,
    {
        assert(text@.subrange(a as int, to as int).drop_first() =~= text@.subrange(
            a + 1,
            to as int,
        ));
        a = a + 1;
    }
    assert(trim_start(whole) == text@.subrange(a as int, to as int));
    let mut b: usize = to;
    while a < b && white_space(text[b - 1])
        invariant
            from <= a <= b <= to <= text@.len(),
            trim_end(text@.subrange(a as int, b as int)) == trim(whole),
        decreases b - a,
    {
        assert(text@.subrange(a as int, b as int).drop_last() =~= text@.subrange(
            a as int,
            b - 1,
        ));
        b = b - 1;
    }
    (a, b)
}

/// The characters before the first `stop`, all of them if there is none.
pub open spec fn before_first(s: Seq<char>, stop: char) -> Seq<char>
    decreases s.len(),
{
    if s.len() == 0 || s[0] == stop {
        Seq::empty()
    } else {
        seq![s[0]] + before_first(s.drop_first(), stop)
    }
}

/// A sequence without `stop` up to `n`, and with it at `n` or ending there.
proof fn lemma_before_first(s: Seq<char>, stop: char, n: int)
    requires
        0 <= n <= s.len(),
        forall|i: int| 0 <= i < n ==> s[i] != stop,
        n == s.len() || s[n] == stop,
    ensures
        before_first(s, stop) == s.take(n),
    decreases s.len(),
{
    if n == 0 {
        assert(s.take(0) =~= Seq::<char>::empty());
    } else {
        lemma_before_first(s.drop_first(), stop, n - 1);
        assert(s.take(n) =~= seq![s[0]] + s.drop_first().take(n - 1));
    }
}

/// The text before the first comma, without the white space around it.
pub fn first_listed(s: &str) -> (r: String)
    ensures
        r@ == trim(before_first(s@, ',')),
{
    let text = chars_of(s);
    let mut n: usize = 0;
    while n < text.len() && text[n] != ','
        invariant
            n <= text@.len(),
            forall|i: int| 0 <= i < n ==> text@[i] != ',',
        decreases text@.len() - n,
    {
        n = n + 1;
    }
    proof {
        lemma_before_first(text@, ',', n as int);
        assert(text@.take(n as int) =~= text@.subrange(0, n as int));
    }
    let (a, b) = trim_bounds(&text, 0, n);
    s.substring_char(a, b).to_owned()
}

// ---------------------------------------------------------------------------
// Case folding
// ---------------------------------------------------------------------------

/// The upper-case form of an ASCII letter; any other character is its own.
pub open spec fn upper(c: char) -> char {
    if 'a' <= c <= 'z' {
        (c as int - 32) as char
    } else {
        c
    }
}

/// `s` with its ASCII letters in upper case.
pub open spec fn upper_text(s: Seq<char>) -> Seq<char> {
    Seq::new(s.len(), |i: int| upper(s[i]))
}

/// The upper-case form of one character.
fn to_upper(c: char) -> (r: char)
    ensures
        r == upper(c),
{
    if 'a' <= c && c <= 'z' {
        ((c as u8) - 32) as char
    } else {
        c
    }
}

/// Whether `s`, in upper case, ends with `suffix`.
pub fn ends_with_folded(s: &str, suffix: &str) -> (r: bool)
    ensures
        r == suffix@.is_suffix_of(upper_text(s@)),
{
    let text = chars_of(s);
    let tail = chars_of(suffix);
    if tail.len() > text.len() {
        return false;
    }
    let start: usize = text.len() - tail.len();
    let mut i: usize = 0;
    while i < tail.len()
        invariant
            i <= tail@.len(),
            start + tail@.len() == text@.len() <= usize::MAX,
            tail@ == suffix@,
            text@ == s@,
            forall|j: int| 0 <= j < i ==> tail@[j] == upper(text@[start + j]),
        decreases tail@.len() - i,
    {
        if tail[i] != to_upper(text[start + i]) {
            assert(upper_text(s@).subrange(start as int, text@.len() as int)[i as int]
                != suffix@[i as int]);
            return false;
        }
        i = i + 1;
    }
    assert(tail@ =~= upper_text(s@).subrange(start as int, text@.len() as int));
    true
}

// ---------------------------------------------------------------------------
// Port numbers
// ---------------------------------------------------------------------------

/// The value of a run of decimal digits, or `None` for anything else.
pub open spec fn digits_value(s: Seq<char>) -> Option<nat>
    decreases s.len(),
{
    if s.len() == 0 {
        None
    } else if !('0' <= s.last() <= '9') {
        None
    } else {
        let last = (s.last() as int - 48) as nat;
        if s.len() == 1 {
            Some(last)
        } else {
            match digits_value(s.drop_last()) {
                Some(n) => Some(n * 10 + last),
                None => None,
            }
        }
    }
}

/// A numeral with an optional `+`, when its value fits in 16 bits.
pub open spec fn u16_value(s: Seq<char>) -> Option<u16> {
    let digits = if s.len() > 0 && s[0] == '+' {
        s.drop_first()
    } else {
        s
    };
    match digits_value(digits) {
        Some(n) => if n <= 65535 {
            Some(n as u16)
        } else {
            None
        },
        None => None,
    }
}

/// The numeral of a longer run of digits is no smaller, and a part that is no
/// numeral spoils the whole.
proof fn lemma_digits_grow(s: Seq<char>, k: int)
    requires
        0 < k <= s.len(),
    ensures
        digits_value(s.take(k)) is None ==> digits_value(s) is None,
        digits_value(s) is Some ==> digits_value(s.take(k))->0 <= digits_value(s)->0,
    decreases s.len() - k,
{
    if k == s.len() {
        assert(s.take(k) =~= s);
    } else {
        lemma_digits_grow(s, k + 1);
        assert(s.take(k + 1).drop_last() =~= s.take(k));
    }
}

/// The 16-bit number that a numeral stands for.
pub fn parse_u16(s: &str) -> (r: Option<u16>)
    ensures
        r == u16_value(s@),
{
    let text = chars_of(s);
    let start: usize = if text.len() > 0 && text[0] == '+' {
        1
    } else {
        0
    };
    let ghost digits = if s@.len() > 0 && s@[0] == '+' {
        s@.drop_first()
    } else {
        s@
    };
    if start == text.len() {
        assert(digits.len() == 0);
        return None;
    }
    let mut value: u32 = 0;
    let mut i: usize = start;
    while i < text.len()
        invariant
            start <= i <= text@.len(),
            text@.len() - start == digits.len() > 0,
            forall|j: int| 0 <= j < digits.len() ==> digits[j] == text@[start + j],
            value <= 65535,
            i == start ==> value == 0,
            i > start ==> digits_value(digits.take(i - start)) == Some(value as nat),
            u16_value(s@) == (match digits_value(digits) {
                Some(n) => if n <= 65535 {
                    Some(n as u16)
                } else {
                    None
                },
                None => None,
            }),
        decreases text@.len() - i,
    {
        let c = text[i];
        proof {
            let k = i - start + 1;
            lemma_digits_grow(digits, k);
            assert(digits.take(k).drop_last() =~= digits.take(k - 1));
            assert(digits.take(k).last() == c);
            if k == 1 {
                assert(digits.take(k).len() == 1);
            }
        }
        if c < '0' || c > '9' {
            return None;
        }
        value = value * 10 + ((c as u32) - 48);
        if value > 65535 {
            return None;
        }
        i = i + 1;
    }
    assert(digits.take(digits.len() as int) =~= digits);
    Some(value as u16)
}

// ---------------------------------------------------------------------------
// Laws
// ---------------------------------------------------------------------------

/// The numeral of a number reads back as that number.
pub proof fn law_a_numeral_reads_back(n: nat)
    ensures
        digits_value(dec(n)) == Some(n),
    decreases n,
{
    if n < 10 {
        assert(dec(n).last() as int == 48 + n);
    } else {
        law_a_numeral_reads_back(n / 10);
        lemma_dec_digits(n / 10);
        assert(dec(n).last() as int == 48 + n % 10);
        assert(dec(n).drop_last() =~= dec(n / 10));
    }
}

/// The numeral of an integer reads back as its amount, behind a `-` below zero.
pub proof fn law_an_integer_reads_back(i: int)
    ensures
        i >= 0 ==> digits_value(int_text(i)) == Some(i as nat),
        i < 0 ==> int_text(i)[0] == '-' && digits_value(int_text(i).skip(1)) == Some((-i) as nat),
{
    if i >= 0 {
        law_a_numeral_reads_back(i as nat);
    } else {
        law_a_numeral_reads_back((-i) as nat);
        assert(int_text(i).skip(1) =~= dec((-i) as nat));
    }
}

/// One more digit counts its own value, and every earlier one ten times as much.
pub proof fn law_digits_are_positional(s: Seq<char>, c: char)
    requires
        48 <= c as int <= 57,
    ensures
        digits_value(seq![c]) == Some((c as int - 48) as nat),
        s.len() > 0 ==> digits_value(s.push(c)) == match digits_value(s) {
            Some(v) => Some((10 * v + (c as int - 48)) as nat),
            None => None::<nat>,
        },
{
    assert(s.push(c).drop_last() =~= s);
}

/// A character that is no digit spoils a numeral.
pub proof fn law_a_numeral_is_all_digits(s: Seq<char>, i: int)
    requires
        0 <= i < s.len(),
        !(48 <= s[i] as int <= 57),
    ensures
        digits_value(s) is None,
    decreases s.len(),
{
    if i < s.len() - 1 {
        law_a_numeral_is_all_digits(s.drop_last(), i);
    }
}

/// A port number reads back from its numeral, with or without a `+`, as long as
/// it fits in 16 bits; a larger number is none.
pub proof fn law_a_port_reads_back(n: nat)
    ensures
        n <= 65535 ==> u16_value(dec(n)) == Some(n as u16) && u16_value(seq!['+'] + dec(n))
            == Some(n as u16),
        n > 65535 ==> u16_value(dec(n)) is None && u16_value(seq!['+'] + dec(n)) is None,
{
    law_a_numeral_reads_back(n);
    lemma_dec_digits(n);
    assert(48 <= dec(n)[0] as int);
    assert((seq!['+'] + dec(n)).drop_first() =~= dec(n));
}

/// A text that is empty, or that holds anything but digits behind a `+` that may
/// stand in front, is no port number.
pub proof fn law_a_port_is_all_digits(s: Seq<char>, i: int)
    requires
        s.len() == 0 || s == seq!['+'] || 0 <= i < s.len() && !(48 <= s[i] as int <= 57) && !(i == 0
            && s[0] == '+'),
    ensures
        u16_value(s) is None,
{
    if s.len() > 0 && s != seq!['+'] {
        if s[0] == '+' {
            assert(s.drop_first()[i - 1] == s[i]);
            law_a_numeral_is_all_digits(s.drop_first(), i - 1);
        } else {
            law_a_numeral_is_all_digits(s, i);
        }
    }
}

/// Where the leading white space ends.
proof fn lemma_trim_start(s: Seq<char>) -> (a: int)
    ensures
        0 <= a <= s.len(),
        trim_start(s) == s.skip(a),
        forall|i: int| 0 <= i < a ==> is_white_space(#[trigger] s[i]),
        a < s.len() ==> !is_white_space(s[a]),
    decreases s.len(),
{
    if s.len() > 0 && is_white_space(s[0]) {
        let b = lemma_trim_start(s.drop_first());
        assert(s.drop_first().skip(b) =~= s.skip(b + 1));
        assert forall|i: int| 0 <= i < b + 1 implies is_white_space(#[trigger] s[i]) by {
            if i > 0 {
                assert(s.drop_first()[i - 1] == s[i]);
            }
        }
        b + 1
    } else {
        assert(s.skip(0) =~= s);
        0
    }
}

/// Where the trailing white space begins.
proof fn lemma_trim_end(s: Seq<char>) -> (b: int)
    ensures
        0 <= b <= s.len(),
        trim_end(s) == s.take(b),
        forall|i: int| b <= i < s.len() ==> is_white_space(#[trigger] s[i]),
        b > 0 ==> !is_white_space(s[b - 1]),
    decreases s.len(),
{
    if s.len() > 0 && is_white_space(s.last()) {
        let b = lemma_trim_end(s.drop_last());
        assert(s.drop_last().take(b) =~= s.take(b));
        assert forall|i: int| b <= i < s.len() implies is_white_space(#[trigger] s[i]) by {
            if i < s.len() - 1 {
                assert(s.drop_last()[i] == s[i]);
            }
        }
        b
    } else {
        assert(s.take(s.len() as int) =~= s);
        s.len() as int
    }
}

/// Trimming takes away white space at both ends and nothing else: what is left is
/// a part of the text that neither begins nor ends with white space, and what
/// stood around it was white space.
pub proof fn law_trimming_takes_the_white_space_around(s: Seq<char>)
    ensures
        exists|a: int, b: int|
            0 <= a <= b <= s.len() && trim(s) == #[trigger] s.subrange(a, b) && (forall|i: int|
                0 <= i < a || b <= i < s.len() ==> is_white_space(#[trigger] s[i])),
        trim(s).len() > 0 ==> !is_white_space(trim(s)[0]) && !is_white_space(trim(s).last()),
        trim(s).len() == 0 <==> blank(s),
{
    let a = lemma_trim_start(s);
    let t = s.skip(a);
    let c = lemma_trim_end(t);
    let b = a + c;
    assert(t.take(c) =~= s.subrange(a, b));
    assert forall|i: int| 0 <= i < a || b <= i < s.len() implies is_white_space(#[trigger] s[i]) by {
        if i >= b {
            assert(t[i - a] == s[i]);
        }
    }
    if c > 0 {
        assert(t[0] == s[a]);
        assert(!is_white_space(s[a]));
    }
}

/// White space is what Unicode says: five control characters, the space, and
/// nine other kinds of blank, of which one is a run of eleven.
pub proof fn law_white_space_is_that_of_unicode(c: char)
    ensures
        is_white_space(c) <==> {
            let u = c as int;
            9 <= u <= 13 || u == 32 || u == 133 || u == 160 || u == 5760 || 8192 <= u <= 8202 || u
                == 8232 || u == 8233 || u == 8239 || u == 8287 || u == 12288
        },
{
}

/// What stands before the first stop is the longest beginning without one.
pub proof fn law_before_the_first_stop(s: Seq<char>, stop: char)
    ensures
        before_first(s, stop).is_prefix_of(s),
        !before_first(s, stop).contains(stop),
        before_first(s, stop).len() < s.len() ==> s[before_first(s, stop).len() as int] == stop,
    decreases s.len(),
{
    let b = before_first(s, stop);
    if s.len() > 0 && s[0] != stop {
        let rest = s.drop_first();
        let r = before_first(rest, stop);
        law_before_the_first_stop(rest, stop);
        assert(b =~= seq![s[0]] + r);
        assert(r =~= rest.subrange(0, r.len() as int));
        assert forall|i: int| 0 <= i < b.len() implies b[i] == s[i] && b[i] != stop by {
            if i > 0 {
                assert(b[i] == r[i - 1]);
                assert(r.contains(r[i - 1]));
                assert(r[i - 1] == rest[i - 1]);
            }
        }
        assert(b =~= s.subrange(0, b.len() as int));
        if b.len() < s.len() {
            assert(rest[r.len() as int] == s[b.len() as int]);
        }
    } else {
        assert(b =~= s.subrange(0, 0));
    }
}

/// In upper case a text keeps its length, its small letters from a to z become the
/// capitals 32 places before them, and every other character stays.
pub proof fn law_upper_case_changes_small_letters_only(s: Seq<char>, i: int)
    requires
        0 <= i < s.len(),
    ensures
        upper_text(s).len() == s.len(),
        97 <= s[i] as int <= 122 ==> upper_text(s)[i] as int == s[i] as int - 32,
        !(97 <= s[i] as int <= 122) ==> upper_text(s)[i] == s[i],
{
}

/// A numeral has no zero in front, but for that of zero, which is one digit, and
/// an integer has its sign only below zero.
pub proof fn law_a_numeral_has_no_zero_in_front(n: nat, i: int)
    ensures
        dec(n).len() > 0,
        n > 0 ==> dec(n)[0] != '0',
        n == 0 ==> dec(n) == seq!['0'],
        i >= 0 ==> int_text(i) == dec(i as nat),
        i < 0 ==> int_text(i) == seq!['-'] + dec((-i) as nat),
    decreases n,
{
    if n < 10 {
        assert(dec(n)[0] as int == 48 + n);
    } else {
        law_a_numeral_has_no_zero_in_front(n / 10, i);
        assert(dec(n)[0] == dec(n / 10)[0]);
    }
}

/// A port number is the value of its digits, zeros in front included, with or
/// without a `+`, as long as it fits in 16 bits.
pub proof fn law_a_port_is_the_value_of_its_digits(s: Seq<char>)
    requires
        s.len() > 0,
        s[0] != '+',
    ensures
        u16_value(seq!['+'] + s) == u16_value(s),
        digits_value(s) is None ==> u16_value(s) is None,
        digits_value(s) is Some && digits_value(s)->0 > 65535 ==> u16_value(s) is None,
        digits_value(s) is Some && digits_value(s)->0 <= 65535 ==> u16_value(s) == Some(
            (digits_value(s)->0) as u16,
        ),
{
    assert((seq!['+'] + s).drop_first() =~= s);
}

} // verus!
