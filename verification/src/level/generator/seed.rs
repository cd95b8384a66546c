//! World seeds given as text: a decimal number, or any other text hashed the way
//! Java's `String.hashCode` hashes it.
use vstd::prelude::*;

verus! {

/// The UTF-16 code units of one character.
pub open spec fn utf16_of_char(c: char) -> Seq<u16> {
    let v = c as u32 as int;
    if v < 0x10000 {
        seq![v as u16]
    } else {
        let w = v - 0x10000;
        seq![(0xD800 + w / 0x400) as u16, (0xDC00 + w % 0x400) as u16]
    }
}

/// The UTF-16 code units of a text.
pub open spec fn utf16_of(s: Seq<char>) -> Seq<u16>
    decreases s.len(),
{
    if s.len() == 0 {
        Seq::empty()
    } else {
        utf16_of(s.drop_last()) + utf16_of_char(s.last())
    }
}

/// One step of Java's string hash: `hash * 31 + unit`, wrapping in `i32`.
pub open spec fn hash_step(hash: i32, unit: u16) -> i32 {
    vstd::wrapping::i32_specs::wrapping_add(vstd::wrapping::i32_specs::wrapping_mul(hash, 31), unit as i32)
}

/// Java's `String.hashCode` of a sequence of UTF-16 code units.
pub open spec fn java_string_hash(units: Seq<u16>) -> i32
    decreases units.len(),
{
    if units.len() == 0 {
        0
    } else {
        hash_step(java_string_hash(units.drop_last()), units.last())
    }
}

/// One or more ASCII decimal digits.
pub open spec fn all_digits(d: Seq<char>) -> bool {
    d.len() > 0 && forall|i: int| 0 <= i < d.len() ==> '0' <= #[trigger] d[i] <= '9'
}

/// The number the decimal digits `d` spell.
pub open spec fn digits_value(d: Seq<char>) -> int
    decreases d.len(),
{
    if d.len() == 0 {
        0
    } else {
        digits_value(d.drop_last()) * 10 + (d.last() as int - '0' as int)
    }
}

/// The integer a text spells in decimal: an optional `+` or `-` followed by one or
/// more digits, and nothing else.
pub open spec fn decimal_value(s: Seq<char>) -> Option<int> {
    if s.len() > 0 && (s[0] == '+' || s[0] == '-') {
        let d = s.subrange(1, s.len() as int);
        if all_digits(d) {
            Some(if s[0] == '-' { -digits_value(d) } else { digits_value(d) })
        } else {
            None
        }
    } else if all_digits(s) {
        Some(digits_value(s))
    } else {
        None
    }
}

/// What `str::parse::<i64>` yields: the decimal value of the text when it has one and
/// it fits in an `i64`.
pub open spec fn parsed_i64(s: Seq<char>) -> Option<i64> {
    match decimal_value(s) {
        Some(v) => if i64::MIN <= v <= i64::MAX {
            Some(v as i64)
        } else {
            None
        },
        None => None,
    }
}

/// The seed a text stands for: its value if it is a decimal `i64`, else Java's hash of
/// its UTF-16 code units, widened to `i64`.
pub open spec fn seed_of_text(s: Seq<char>) -> i64 {
    match parsed_i64(s) {
        Some(v) => v,
        None => java_string_hash(utf16_of(s)) as i64,
    }
}

/// The decimal digit of `d` in `0..10`.
pub open spec fn digit_char(d: int) -> char {
    (d + '0' as int) as char
}

/// The decimal digits of `n`, most significant first, without leading zeros.
pub open spec fn digits_of(n: nat) -> Seq<char>
    decreases n,
{
    if n < 10 {
        seq![digit_char(n as int)]
    } else {
        digits_of(n / 10).push(digit_char((n % 10) as int))
    }
}

/// `n` written in decimal, with a `-` in front when it is negative.
pub open spec fn decimal_text(n: int) -> Seq<char> {
    if n < 0 {
        seq!['-'] + digits_of((-n) as nat)
    } else {
        digits_of(n as nat)
    }
}

proof fn lemma_digits_of(n: nat)
    ensures
        all_digits(digits_of(n)),
        digits_value(digits_of(n)) == n,
    decreases n,
{
    let k = (n % 10) as int;
    assert(digit_char(k) as int == k + 48);
    assert('0' as int == 48);
    if n < 10 {
        let d = digits_of(n);
        assert(d.drop_last() =~= Seq::<char>::empty());
        assert(d.last() == digit_char(k));
        assert(digits_value(d) == digits_value(d.drop_last()) * 10 + (d.last() as int - '0' as int));
    } else {
        lemma_digits_of(n / 10);
        let d = digits_of(n);
        assert(d.drop_last() =~= digits_of(n / 10));
        assert(n == (n / 10) * 10 + n % 10);
        assert(d.last() == digit_char(k));
        assert(digits_value(d) == digits_value(d.drop_last()) * 10 + (d.last() as int - '0' as int));
        assert forall|i: int| 0 <= i < d.len() implies '0' <= #[trigger] d[i] <= '9' by {
            if i < d.len() - 1 {
                assert(d[i] == digits_of(n / 10)[i]);
            }
        }
    }
}

/// Every `i64` written in decimal reads back as itself, so a decimal seed is the seed it
/// spells.
pub proof fn lemma_decimal_seed_round_trip(n: i64)
    ensures
        seed_of_text(decimal_text(n as int)) == n,
{
    let t = decimal_text(n as int);
    if n < 0 {
        lemma_digits_of((-n) as nat);
        assert(t.subrange(1, t.len() as int) =~= digits_of((-n) as nat));
        assert(t[0] == '-');
    } else {
        lemma_digits_of(n as nat);
        assert('0' <= t[0] <= '9');
    }
}

/// `str::parse::<i64>`, as its documentation states it: an optional `+` or `-` sign
/// followed by one or more ASCII digits, nothing else (no whitespace, no
/// underscores), with a value in range; the contract says exactly that.
#[verifier::external_body]
fn parse_i64(input: &str) -> (r: Option<i64>)
    ensures
        r == parsed_i64(input@),
{
    input.parse::<i64>().ok()
}

proof fn lemma_hash_append(u: Seq<u16>, extra: Seq<u16>, h: i32)
    requires
        java_string_hash(u) == h,
        extra.len() <= 2,
    ensures
        java_string_hash(u + extra) == (if extra.len() == 0 {
            h
        } else if extra.len() == 1 {
            hash_step(h, extra[0])
        } else {
            hash_step(hash_step(h, extra[0]), extra[1])
        }),
{
    if extra.len() == 1 {
        assert((u + extra).drop_last() =~= u);
        assert((u + extra).last() == extra[0]);
    } else if extra.len() == 2 {
        let v = u + seq![extra[0]];
        assert((u + extra).drop_last() =~= v);
        assert((u + extra).last() == extra[1]);
        assert(v.drop_last() =~= u);
        assert(v.last() == extra[0]);
        assert(java_string_hash(v) == hash_step(h, extra[0]));
    } else {
        assert(u + extra =~= u);
    }
}

/// Java's `String.hashCode` of the text's UTF-16 encoding.
fn hash_utf16(input: &str) -> (r: i32)
    ensures
        r == java_string_hash(utf16_of(input@)),
{
    let mut hash: i32 = 0;
    let ghost chars = input@;
    for c in it: input.chars()
        invariant
            it.seq() == chars,
            hash == java_string_hash(utf16_of(chars.subrange(0, it.index() as int))),
    {
        let ghost prefix = chars.subrange(0, it.index() as int);
        let ghost u = utf16_of(prefix);
        let v = c as u32;
        proof {
            assert(chars.subrange(0, it.index() as int + 1).drop_last() =~= prefix);
            lemma_hash_append(u, utf16_of_char(c), hash);
        }
        if v < 0x10000 {
            hash = hash.wrapping_mul(31).wrapping_add(v as u16 as i32);
        } else {
            let w = v - 0x10000;
            let high = (0xD800 + w / 0x400) as u16;
            let low = (0xDC00 + w % 0x400) as u16;
            hash = hash.wrapping_mul(31).wrapping_add(high as i32);
            hash = hash.wrapping_mul(31).wrapping_add(low as i32);
        }
    }
    proof {
        assert(chars.subrange(0, chars.len() as int) =~= chars);
    }
    hash
}

/// The seed a text stands for: a decimal `i64` as that number, any other text as Java's
/// `String.hashCode` of it.
pub fn parse_seed(input: &str) -> (r: i64)
    ensures
        r == seed_of_text(input@),
{
    match parse_i64(input) {
        Some(v) => v,
        None => hash_utf16(input) as i64,
    }
}

} // verus!
