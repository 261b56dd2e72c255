//! Character-level helpers shared by the modules: reading a string into its
//! characters, building strings, comparing them.
use vstd::prelude::*;

verus! {

/// Appends one character to a string (`String::push`).
#[verifier::external_body]
pub(crate) fn string_push(s: &mut String, c: char)
    ensures
        final(s)@ == old(s)@.push(c),
{
    s.push(c);
}

/// The characters of a string, in order.
pub fn chars_of(s: &str) -> (v: Vec<char>)
    ensures
        v@ == s@,
{
    let mut v: Vec<char> = Vec::new();
    for c in it: s.chars()
        invariant
            v@ == it.seq().take(it.index() as int),
            it.seq() == s@,
    {
        v.push(c);
        proof {
            assert(it.seq().take(it.index() as int + 1) =~= v@);
        }
    }
    assert(v@ =~= s@);
    v
}

/// The string made of the given characters.
pub fn string_of(v: &Vec<char>) -> (s: String)
    ensures
        s@ == v@,
{
    let mut s = String::new();
    let n = v.len();
    let mut i: usize = 0;
    while i < n
        invariant
            n == v.len(),
            i <= n,
            s@ == v@.take(i as int),
        decreases n - i,
    {
        string_push(&mut s, v[i]);
        assert(v@.take(i as int + 1) =~= v@.take(i as int).push(v@[i as int]));
        i = i + 1;
    }
    assert(v@.take(n as int) =~= v@);
    s
}

/// Whether two character sequences are equal, compared one by one.
pub fn chars_eq(a: &Vec<char>, b: &Vec<char>) -> (r: bool)
    ensures
        r == (a@ == b@),
{
    if a.len() != b.len() {
        return false;
    }
    let n = a.len();
    let mut i: usize = 0;
    while i < n
        invariant
            n == a.len(),
            n == b.len(),
            i <= n,
            forall|k: int| 0 <= k < i ==> a@[k] == b@[k],
        decreases n - i,
    {
        if a[i] != b[i] {
            return false;
        }
        i = i + 1;
    }
    assert(a@ =~= b@);
    true
}

} // verus!

verus! {

/// Whether a string equals a given text.
pub fn str_is(s: &str, lit: &str) -> (r: bool)
    ensures
        r == (s@ == lit@),
{
    let a = chars_of(s);
    let b = chars_of(lit);
    chars_eq(&a, &b)
}

} // verus!

verus! {

/// A decimal digit, `0` to `9`.
pub open spec fn is_decimal_digit(c: char) -> bool {
    '0' <= c && c <= '9'
}

/// A non-empty run of decimal digits.
pub open spec fn all_decimal(s: Seq<char>) -> bool {
    s.len() > 0 && forall|i: int| 0 <= i < s.len() ==> is_decimal_digit(#[trigger] s[i])
}

/// The value of a run of decimal digits, most significant first.
pub open spec fn decimal_value(s: Seq<char>) -> int
    decreases s.len(),
{
    if s.len() == 0 {
        0
    } else {
        decimal_value(s.drop_last()) * 10 + (s.last() as int - 48)
    }
}

/// What `str::parse::<i64>` reads, as its documentation states it: an
/// optional `+` or `-` sign followed by decimal digits only, whose value fits
/// in an `i64`; `None` for any other text.
pub open spec fn decimal_i64(s: Seq<char>) -> Option<i64> {
    let negative = s.len() > 0 && s[0] == '-';
    let digits = if s.len() > 0 && (s[0] == '-' || s[0] == '+') { s.drop_first() } else { s };
    let v = if negative { -decimal_value(digits) } else { decimal_value(digits) };
    if all_decimal(digits) && i64::MIN <= v && v <= i64::MAX {
        Some(v as i64)
    } else {
        None
    }
}

/// What `str::parse::<u32>` reads, as its documentation states it: an
/// optional `+` sign followed by decimal digits only, whose value fits in a
/// `u32`; `None` for any other text.
pub open spec fn decimal_u32(s: Seq<char>) -> Option<u32> {
    let digits = if s.len() > 0 && s[0] == '+' { s.drop_first() } else { s };
    if all_decimal(digits) && decimal_value(digits) <= u32::MAX {
        Some(decimal_value(digits) as u32)
    } else {
        None
    }
}

/// A run of decimal digits has a value of at least zero.
proof fn lemma_decimal_value_nonneg(s: Seq<char>)
    requires
        forall|i: int| 0 <= i < s.len() ==> is_decimal_digit(#[trigger] s[i]),
    ensures
        decimal_value(s) >= 0,
    decreases s.len(),
{
    if s.len() > 0 {
        lemma_decimal_value_nonneg(s.drop_last());
    }
}

/// More digits never give a smaller value.
proof fn lemma_decimal_value_prefix(s: Seq<char>, k: int)
    requires
        0 <= k <= s.len(),
        forall|i: int| 0 <= i < s.len() ==> is_decimal_digit(#[trigger] s[i]),
    ensures
        decimal_value(s.take(k)) <= decimal_value(s),
    decreases s.len(),
{
    if k < s.len() {
        let t = s.drop_last();
        assert(t.take(k) =~= s.take(k));
        lemma_decimal_value_prefix(t, k);
        lemma_decimal_value_nonneg(t);
    } else {
        assert(s.take(k) =~= s);
    }
}

/// The value of the digits of `s` from `start` on, where they are all
/// decimal digits, there is at least one, and the value is at most `limit`.
fn digits_value(s: &Vec<char>, start: usize, limit: u64) -> (r: Option<u64>)
    requires
        start <= s.len(),
    ensures
        r == (if all_decimal(s@.skip(start as int)) && decimal_value(s@.skip(start as int)) <= limit {
            Some(decimal_value(s@.skip(start as int)) as u64)
        } else {
            None
        }),
        r matches Some(x) ==> x <= limit && x == decimal_value(s@.skip(start as int)),
{
    let ghost d = s@.skip(start as int);
    if start >= s.len() {
        return None;
    }
    let n = s.len();
    let mut acc: u128 = 0;
    let mut i: usize = start;
    while i < n
        invariant
            n == s.len(),
            start < n,
            start <= i <= n,
            d == s@.skip(start as int),
            forall|k: int| 0 <= k < i - start ==> is_decimal_digit(#[trigger] d[k]),
            acc == decimal_value(d.take(i - start)),
            acc <= limit,
        decreases n - i,
    {
        let c = s[i];
        if !('0' <= c && c <= '9') {
            assert(d[i - start] == c);
            return None;
        }
        let next: u128 = acc * 10 + ((c as u32 - 48) as u128);
        proof {
            let t = d.take(i - start + 1);
            assert(t.drop_last() =~= d.take(i - start));
            assert(t.last() == c);
        }
        if next > limit as u128 {
            proof {
                if all_decimal(d) {
                    lemma_decimal_value_prefix(d, i - start + 1);
                }
            }
            return None;
        }
        acc = next;
        i = i + 1;
    }
    assert(d.take(n - start) =~= d);
    Some(acc as u64)
}

/// Reads a decimal integer as `str::parse::<i64>` does: `decimal_i64`.
pub(crate) fn parse_i64(text: &str) -> (r: Option<i64>)
    ensures
        r == decimal_i64(text@),
{
    let v = chars_of(text);
    let negative = v.len() > 0 && v[0] == '-';
    let signed = v.len() > 0 && (v[0] == '-' || v[0] == '+');
    let start: usize = if signed { 1 } else { 0 };
    let limit: u64 = if negative { 0x8000_0000_0000_0000 } else { 0x7fff_ffff_ffff_ffff };
    proof {
        if signed {
            assert(v@.skip(1) =~= text@.drop_first());
        } else {
            assert(v@.skip(0) =~= text@);
        }
    }
    match digits_value(&v, start, limit) {
        Some(x) => {
            if negative {
                if x == 0x8000_0000_0000_0000 {
                    Some(i64::MIN)
                } else {
                    Some(-(x as i64))
                }
            } else {
                Some(x as i64)
            }
        },
        None => None,
    }
}

/// Reads a decimal integer as `str::parse::<u32>` does: `decimal_u32`.
pub(crate) fn parse_u32(text: &str) -> (r: Option<u32>)
    ensures
        r == decimal_u32(text@),
{
    let v = chars_of(text);
    let signed = v.len() > 0 && v[0] == '+';
    let start: usize = if signed { 1 } else { 0 };
    proof {
        if signed {
            assert(v@.skip(1) =~= text@.drop_first());
        } else {
            assert(v@.skip(0) =~= text@);
        }
    }
    match digits_value(&v, start, 0xffff_ffff) {
        Some(x) => Some(x as u32),
        None => None,
    }
}

} // verus!
