//! Text as sequences of characters.
use vstd::prelude::*;

verus! {

/// `String::push` appends one character.
pub assume_specification[ std::string::String::push ](s: &mut std::string::String, c: char)
    ensures
        final(s)@ == old(s)@.push(c),
;

/// `String::from_utf8` succeeds on well-formed UTF-8 and nothing else, and gives
/// the characters that the bytes encode.
#[verifier::external_body]
fn decode_utf8_bytes(bytes: Vec<u8>) -> (r: Option<String>)
    ensures
        r is Some <==> vstd::utf8::valid_utf8(bytes@),
        r is Some ==> r->Some_0@ == vstd::utf8::decode_utf8(bytes@),
{
    String::from_utf8(bytes).ok()
}

/// What the bytes say as text: nothing, where they are not well-formed UTF-8.
pub open spec fn utf8_text(bytes: Seq<u8>) -> Option<Seq<char>> {
    if vstd::utf8::valid_utf8(bytes) {
        Some(vstd::utf8::decode_utf8(bytes))
    } else {
        None
    }
}

/// The view of an optional text.
pub open spec fn opt_text(t: Option<String>) -> Option<Seq<char>> {
    match t {
        Some(s) => Some(s@),
        None => None,
    }
}

pub fn text_from_utf8(bytes: &Vec<u8>) -> (r: Option<String>)
    ensures
        opt_text(r) == utf8_text(bytes@),
{
    let mut copy: Vec<u8> = Vec::new();
    copy.extend_from_slice(bytes.as_slice());
    proof {
        assert(copy@ =~= bytes@);
    }
    decode_utf8_bytes(copy)
}

/// The characters of a text, in order.
pub fn chars_of(s: &str) -> (v: Vec<char>)
    ensures
        v@ == s@,
{
    let mut v: Vec<char> = Vec::new();
    for c in it: s.chars()
        invariant
            it.seq() == s@,
            v@ == s@.take(it.index() as int),
    {
        v.push(c);
        proof {
            assert(s@.take(it.index() as int + 1) =~= s@.take(it.index() as int).push(c));
        }
    }
    proof {
        assert(s@.take(s@.len() as int) =~= s@);
    }
    v
}

/// Appends the characters `v[from..to]`.
pub fn push_chars(out: &mut String, v: &Vec<char>, from: usize, to: usize)
    requires
        from <= to <= v@.len(),
    ensures
        final(out)@ == old(out)@ + v@.subrange(from as int, to as int),
{
    let mut i: usize = from;
    proof {
        assert(out@ =~= old(out)@ + v@.subrange(from as int, from as int));
    }
    while i < to
        invariant
            from <= i <= to <= v@.len(),
            out@ == old(out)@ + v@.subrange(from as int, i as int),
        decreases to - i,
    {
        out.push(v[i]);
        proof {
            assert(out@ =~= old(out)@ + v@.subrange(from as int, i + 1));
        }
        i = i + 1;
    }
}

pub fn text_of(v: &Vec<char>) -> (s: String)
    ensures
        s@ == v@,
{
    let mut s = String::new();
    push_chars(&mut s, v, 0, v.len());
    proof {
        assert(s@ =~= v@);
    }
    s
}

/// Appends a text.
pub fn push_text(out: &mut String, s: &str)
    ensures
        final(out)@ == old(out)@ + s@,
{
    let v = chars_of(s);
    push_chars(out, &v, 0, v.len());
    proof {
        assert(v@.subrange(0, v@.len() as int) =~= s@);
    }
}

pub fn same_text(a: &str, b: &str) -> (r: bool)
    ensures
        r == (a@ == b@),
{
    let a = a.to_owned();
    let b = b.to_owned();
    a == b
}

/// Whether a character is white space in the sense of Unicode.
pub open spec fn whitespace(c: char) -> bool {
    let u = c as u32;
    ||| 0x09 <= u <= 0x0d
    ||| u == 0x20
    ||| u == 0x85
    ||| u == 0xa0
    ||| u == 0x1680
    ||| 0x2000 <= u <= 0x200a
    ||| u == 0x2028
    ||| u == 0x2029
    ||| u == 0x202f
    ||| u == 0x205f
    ||| u == 0x3000
}

pub fn is_whitespace(c: char) -> (r: bool)
    ensures
        r == whitespace(c),
{
    let u: u32 = c as u32;
    (0x09 <= u && u <= 0x0d) || u == 0x20 || u == 0x85 || u == 0xa0 || u == 0x1680 || (0x2000 <= u
        && u <= 0x200a) || u == 0x2028 || u == 0x2029 || u == 0x202f || u == 0x205f || u == 0x3000
}

/// Whether a text is nothing but white space.
pub open spec fn blank(s: Seq<char>) -> bool {
    forall|i: int| 0 <= i < s.len() ==> whitespace(#[trigger] s[i])
}

/// A text without the white space before its first other character.
pub open spec fn trim_start(s: Seq<char>) -> Seq<char>
    decreases s.len(),
{
    if s.len() > 0 && whitespace(s[0]) {
        trim_start(s.drop_first())
    } else {
        s
    }
}

/// A text without the white space after its last other character.
pub open spec fn trim_end(s: Seq<char>) -> Seq<char>
    decreases s.len(),
{
    if s.len() > 0 && whitespace(s.last()) {
        trim_end(s.drop_last())
    } else {
        s
    }
}

pub open spec fn trimmed(s: Seq<char>) -> Seq<char> {
    trim_end(trim_start(s))
}

proof fn lemma_trim_start_before(before: Seq<char>, s: Seq<char>)
    requires
        blank(before),
    ensures
        trim_start(before + s) == trim_start(s),
    decreases before.len(),
{
    if before.len() > 0 {
        let t = before + s;
        assert(t[0] == before[0]);
        assert(whitespace(before[0]));
        assert(t.drop_first() =~= before.drop_first() + s);
        assert forall|i: int| 0 <= i < before.len() - 1 implies whitespace(
            #[trigger] before.drop_first()[i],
        ) by {
            assert(before.drop_first()[i] == before[i + 1]);
        }
        lemma_trim_start_before(before.drop_first(), s);
    } else {
        assert(before + s =~= s);
    }
}

proof fn lemma_trim_end_after(s: Seq<char>, after: Seq<char>)
    requires
        blank(after),
    ensures
        trim_end(s + after) == trim_end(s),
    decreases after.len(),
{
    if after.len() > 0 {
        let t = s + after;
        assert(t.last() == after.last());
        assert(whitespace(after[after.len() - 1]));
        assert(t.drop_last() =~= s + after.drop_last());
        lemma_trim_end_after(s, after.drop_last());
    } else {
        assert(s + after =~= s);
    }
}

/// A text without white space at either end is what `trimmed` leaves, also of
/// that text with white space around it.
pub proof fn lemma_trimmed_keeps(before: Seq<char>, s: Seq<char>, after: Seq<char>)
    requires
        blank(before),
        blank(after),
        s.len() > 0 ==> !whitespace(s[0]) && !whitespace(s.last()),
    ensures
        trimmed(before + s + after) == s,
        trimmed(s) == s,
{
    assert(before + s + after =~= before + (s + after));
    lemma_trim_start_before(before, s + after);
    if s.len() > 0 {
        assert((s + after)[0] == s[0]);
        lemma_trim_end_after(s, after);
    } else {
        assert(s + after =~= after + s);
        lemma_trim_start_before(after, s);
    }
}

/// The bounds of what is left of `v` without the white space at its ends.
pub fn trim_bounds(v: &Vec<char>) -> (r: (usize, usize))
    ensures
        r.0 <= r.1 <= v@.len(),
        v@.subrange(r.0 as int, r.1 as int) == trimmed(v@),
{
    let mut a: usize = 0;
    proof {
        assert(v@.skip(0) =~= v@);
    }
    while a < v.len() && is_whitespace(v[a])
        invariant
            a <= v@.len(),
            trim_start(v@) == trim_start(v@.skip(a as int)),
        decreases v@.len() - a,
    {
        proof {
            assert(v@.skip(a as int).drop_first() =~= v@.skip(a + 1));
        }
        a = a + 1;
    }
    let ghost front = v@.skip(a as int);
    let mut b: usize = v.len();
    proof {
        assert(trim_start(v@) == front);
        assert(v@.subrange(a as int, b as int) =~= front);
    }
    while b > a && is_whitespace(v[b - 1])
        invariant
            a <= b <= v@.len(),
            trim_end(front) == trim_end(v@.subrange(a as int, b as int)),
        decreases b,
    {
        proof {
            assert(v@.subrange(a as int, b as int).drop_last() =~= v@.subrange(
                a as int,
                b - 1,
            ));
        }
        b = b - 1;
    }
    (a, b)
}

/// `s` with every `from` turned into `to`.
pub open spec fn replaced(s: Seq<char>, from: char, to: char) -> Seq<char> {
    s.map_values(
        |c: char|
            if c == from {
                to
            } else {
                c
            },
    )
}

/// The decimal digits of a number.
pub open spec fn digits(n: nat) -> Seq<char>
    decreases n,
{
    if n < 10 {
        seq![digit(n)]
    } else {
        digits(n / 10).push(digit(n % 10))
    }
}

pub open spec fn digit(n: nat) -> char {
    (n + 48) as char
}

/// A number as decimal text.
pub open spec fn decimal(v: int) -> Seq<char> {
    if v >= 0 {
        digits(v as nat)
    } else {
        seq!['-'] + digits((-v) as nat)
    }
}

pub fn digit_char(n: u64) -> (c: char)
    requires
        n < 10,
    ensures
        c == digit(n as nat),
{
    (n as u8 + 48) as char
}

pub fn push_digits(out: &mut String, n: u64)
    ensures
        final(out)@ == old(out)@ + digits(n as nat),
    decreases n,
{
    if n >= 10 {
        push_digits(out, n / 10);
    }
    out.push(digit_char(n % 10));
    proof {
        assert(out@ =~= old(out)@ + digits(n as nat));
    }
}

pub fn push_decimal(out: &mut String, v: i64)
    ensures
        final(out)@ == old(out)@ + decimal(v as int),
{
    if v >= 0 {
        push_digits(out, v as u64);
    } else {
        out.push('-');
        push_digits(out, (-(v as i128)) as u64);
        proof {
            assert(out@ =~= old(out)@ + decimal(v as int));
        }
    }
}

pub fn decimal_text(v: i64) -> (s: String)
    ensures
        s@ == decimal(v as int),
{
    let mut s = String::new();
    push_decimal(&mut s, v);
    proof {
        assert(s@ =~= decimal(v as int));
    }
    s
}

/// Whether a character is a decimal digit.
pub open spec fn is_digit(c: char) -> bool {
    '0' <= c <= '9'
}

/// The value of decimal digits.
pub open spec fn digits_value(s: Seq<char>) -> int
    decreases s.len(),
{
    if s.len() == 0 {
        0
    } else {
        digits_value(s.drop_last()) * 10 + (s.last() as int - 48)
    }
}

/// Whether a text is made of digits, of one at least.
pub open spec fn all_digits(s: Seq<char>) -> bool {
    s.len() > 0 && forall|i: int| 0 <= i < s.len() ==> is_digit(#[trigger] s[i])
}

pub open spec fn signed_text(s: Seq<char>) -> bool {
    s.len() > 0 && (s[0] == '+' || s[0] == '-')
}

/// A decimal integer of 64 bits, with a sign or without.
pub open spec fn parsed_i64(s: Seq<char>) -> Option<i64> {
    let body = if signed_text(s) {
        s.skip(1)
    } else {
        s
    };
    let value = if signed_text(s) && s[0] == '-' {
        -digits_value(body)
    } else {
        digits_value(body)
    };
    if all_digits(body) && i64::MIN <= value <= i64::MAX {
        Some(value as i64)
    } else {
        None
    }
}

proof fn lemma_value_grows(s: Seq<char>, i: int)
    requires
        0 <= i <= s.len(),
        forall|j: int| 0 <= j < s.len() ==> is_digit(#[trigger] s[j]),
    ensures
        digits_value(s) >= digits_value(s.take(i)) >= 0,
    decreases s.len(),
{
    if s.len() > 0 {
        if i == s.len() {
            assert(s.take(i) =~= s);
            lemma_value_grows(s.drop_last(), s.len() - 1);
        } else {
            lemma_value_grows(s.drop_last(), i);
            assert(s.drop_last().take(i) =~= s.take(i));
        }
    } else {
        assert(s.take(i) =~= s);
    }
}

/// Reads a decimal integer.
pub fn parse_i64(s: &str) -> (r: Option<i64>)
    ensures
        r == parsed_i64(s@),
{
    let v = chars_of(s);
    let n: usize = v.len();
    let signed: bool = n > 0 && (v[0] == '+' || v[0] == '-');
    let negative: bool = signed && v[0] == '-';
    let from: usize = if signed {
        1
    } else {
        0
    };
    let ghost body = if signed {
        v@.skip(1)
    } else {
        v@
    };
    if from == n {
        return None;
    }
    let mut value: i128 = 0;
    let mut i: usize = from;
    proof {
        assert(body.take(0) =~= Seq::empty());
    }
    while i < n
        invariant
            from <= i <= n == v@.len(),
            from == if signed {
                1usize
            } else {
                0
            },
            signed == signed_text(s@),
            v@ == s@,
            body == if signed {
                v@.skip(1)
            } else {
                v@
            },
            value == digits_value(body.take(i - from)),
            0 <= value <= 0x1_0000_0000_0000_0000,
            forall|j: int| 0 <= j < i - from ==> is_digit(#[trigger] body[j]),
        decreases n - i,
    {
        let c = v[i];
        proof {
            assert(c == body[i - from]);
            assert(body.take(i + 1 - from).drop_last() =~= body.take(i - from));
        }
        if !('0' <= c && c <= '9') {
            return None;
        }
        value = value * 10 + (c as u32 as i128 - 48);
        if value > 0x1_0000_0000_0000_0000 {
            proof {
                if all_digits(body) {
                    lemma_value_grows(body, i + 1 - from);
                }
            }
            return None;
        }
        i = i + 1;
    }
    proof {
        assert(body.take(n - from) =~= body);
    }
    if negative {
        value = -value;
    }
    if value < i64::MIN as i128 || value > i64::MAX as i128 {
        None
    } else {
        Some(value as i64)
    }
}

/// A character with an ASCII capital turned small.
pub open spec fn lower(c: char) -> char {
    if 'A' <= c <= 'Z' {
        (c as u32 + 32) as char
    } else {
        c
    }
}

pub fn lower_char(c: char) -> (r: char)
    ensures
        r == lower(c),
{
    if 'A' <= c && c <= 'Z' {
        (c as u8 + 32) as char
    } else {
        c
    }
}

} // verus!
