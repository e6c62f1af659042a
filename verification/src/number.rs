//! Numbers as text: table sizes in decimal, and the shape of a decimal
//! floating-point literal.

use vstd::prelude::*;


verus! {

/// An ASCII decimal digit.
pub open spec fn is_digit(c: char) -> bool {
    0x30 <= c as u32 <= 0x39
}

/// The value of a decimal digit.
pub open spec fn digit_value(c: char) -> nat {
    (c as u32 - 0x30) as nat
}

/// The digit that stands for `d`.
pub open spec fn digit_char(d: nat) -> char {
    (0x30 + d) as u8 as char
}

/// Whether `s` holds decimal digits only.
pub open spec fn all_digits(s: Seq<char>) -> bool {
    forall|i: int| 0 <= i < s.len() ==> is_digit(#[trigger] s[i])
}

/// The number that the decimal digits `s` write.
pub open spec fn decimal_value(s: Seq<char>) -> nat
    decreases s.len(),
{
    if s.len() == 0 {
        0
    } else {
        decimal_value(s.drop_last()) * 10 + digit_value(s.last())
    }
}

/// `n` written in decimal, without leading zeroes.
pub open spec fn decimal_digits(n: nat) -> Seq<char>
    decreases n,
{
    if n < 10 {
        seq![digit_char(n)]
    } else {
        decimal_digits(n / 10).push(digit_char(n % 10))
    }
}

/// The size that `s` writes: an optional `+`, then at least one decimal digit,
/// and a value that a `usize` can hold.
pub open spec fn parse_size(s: Seq<char>) -> Option<usize> {
    let d = if s.len() > 0 && s[0] == '+' {
        s.subrange(1, s.len() as int)
    } else {
        s
    };
    if d.len() > 0 && all_digits(d) && decimal_value(d) <= usize::MAX {
        Some(decimal_value(d) as usize)
    } else {
        None
    }
}

/// Digits written after a number make it no smaller.
pub proof fn lemma_decimal_value_prefix(s: Seq<char>, k: int)
    requires
        0 <= k <= s.len(),
    ensures
        decimal_value(s.take(k)) <= decimal_value(s),
    decreases s.len() - k,
{
    if k < s.len() {
        lemma_decimal_value_prefix(s, k + 1);
        assert(s.take(k + 1).drop_last() =~= s.take(k));
    } else {
        assert(s.take(k) =~= s);
    }
}

/// Reading what `decimal_digits` wrote gives the number back.
pub proof fn lemma_decimal_round_trip(n: nat)
    ensures
        decimal_digits(n).len() > 0,
        all_digits(decimal_digits(n)),
        decimal_value(decimal_digits(n)) == n,
    decreases n,
{
    if n < 10 {
        assert(decimal_digits(n).drop_last() =~= Seq::<char>::empty());
        assert(decimal_value(decimal_digits(n)) == decimal_value(Seq::<char>::empty()) * 10
            + digit_value(digit_char(n)));
    } else {
        lemma_decimal_round_trip(n / 10);
        assert(decimal_digits(n).drop_last() =~= decimal_digits(n / 10));
    }
}

/// Decides `is_digit`.
pub fn is_digit_char(c: char) -> (r: bool)
    ensures
        r == is_digit(c),
{
    let u: u32 = c as u32;
    0x30 <= u && u <= 0x39
}

/// Reads a table size.
pub fn read_size(s: &Vec<char>) -> (r: Option<usize>)
    ensures
        r == parse_size(s@),
{
    let start: usize = if s.len() > 0 && s[0] == '+' {
        1
    } else {
        0
    };
    let ghost d = if s@.len() > 0 && s@[0] == '+' {
        s@.subrange(1, s@.len() as int)
    } else {
        s@
    };
    proof {
        assert(d =~= s@.subrange(start as int, s@.len() as int));
    }
    if start == s.len() {
        return None;
    }
    let mut acc: usize = 0;
    let mut i: usize = start;
    while i < s.len()
        invariant
            start <= i <= s@.len(),
            d == s@.subrange(start as int, s@.len() as int),
            d == (if s@.len() > 0 && s@[0] == '+' {
                s@.subrange(1, s@.len() as int)
            } else {
                s@
            }),
            forall|j: int| 0 <= j < i - start ==> is_digit(#[trigger] d[j]),
            acc == decimal_value(d.take(i - start)),
        decreases s@.len() - i,
    {
        let c = s[i];
        if !is_digit_char(c) {
            assert(!is_digit(d[i - start]));
            return None;
        }
        let u: u32 = c as u32;
        let v: usize = (u - 0x30) as usize;
        proof {
            assert(d.take(i - start + 1).drop_last() =~= d.take(i - start));
            assert(d.take(i - start + 1).last() == c);
            if all_digits(d) {
                lemma_decimal_value_prefix(d, i - start + 1);
            }
        }
        if acc > (usize::MAX - v) / 10 {
            return None;
        }
        acc = acc * 10 + v;
        i += 1;
    }
    proof {
        assert(d.take(i - start) =~= d);
    }
    Some(acc)
}

/// Appends `n` in decimal to `out`.
pub fn push_decimal(out: &mut String, n: usize)
    ensures
        final(out)@ == old(out)@ + decimal_digits(n as nat),
    decreases n,
{
    if n >= 10 {
        push_decimal(out, n / 10);
    }
    let d: u8 = (n % 10) as u8;
    out.push((0x30 + d) as char);
    proof {
        assert(out@ =~= old(out)@ + decimal_digits(n as nat));
    }
}

/// An ASCII capital letter as its small letter; any other character as itself.
pub open spec fn ascii_lower(c: char) -> char {
    if 0x41 <= c as u32 <= 0x5a {
        (c as u32 + 0x20) as char
    } else {
        c
    }
}

/// `s` with every ASCII capital letter made small.
pub open spec fn lowered(s: Seq<char>) -> Seq<char> {
    Seq::new(s.len(), |i: int| ascii_lower(s[i]))
}

/// A plus or minus sign.
pub open spec fn is_sign(c: char) -> bool {
    c == '+' || c == '-'
}

/// The first position at or after `from` that holds no decimal digit, or the
/// length of `s` when there is none.
pub open spec fn digits_end(s: Seq<char>, from: int) -> int
    decreases s.len() - from,
{
    if 0 <= from < s.len() && is_digit(s[from]) {
        digits_end(s, from + 1)
    } else {
        from
    }
}

/// Whether `s` from position `from` on is an exponent: the letter `e`, an
/// optional sign, and at least one digit up to the end.
pub open spec fn is_exponent(s: Seq<char>, from: int) -> bool {
    let d = if from + 1 < s.len() && is_sign(s[from + 1]) {
        from + 2
    } else {
        from + 1
    };
    &&& 0 <= from < s.len()
    &&& s[from] == 'e'
    &&& d < s.len()
    &&& digits_end(s, d) == s.len()
}

/// Whether `s` from position `from` on is a decimal number: digits, an
/// optional point followed by digits, at least one digit on either side of
/// it, and an optional exponent.
pub open spec fn is_decimal_number(s: Seq<char>, from: int) -> bool {
    let a = digits_end(s, from);
    let pointed = a < s.len() && s[a] == '.';
    let b = if pointed {
        digits_end(s, a + 1)
    } else {
        a
    };
    let digits = if pointed {
        (a - from) + (b - (a + 1))
    } else {
        a - from
    };
    &&& 0 <= from
    &&& digits >= 1
    &&& (b == s.len() || is_exponent(s, b))
}

/// Whether `s` is a floating-point literal as `str::parse` reads one: an
/// optional sign, then `inf`, `infinity`, `nan` or a decimal number, letters
/// in either case.
pub open spec fn is_float_literal(s: Seq<char>) -> bool {
    let low = lowered(s);
    let from = if low.len() > 0 && is_sign(low[0]) {
        1int
    } else {
        0int
    };
    let body = low.subrange(from, low.len() as int);
    ||| body == seq!['i', 'n', 'f']
    ||| body == seq!['i', 'n', 'f', 'i', 'n', 'i', 't', 'y']
    ||| body == seq!['n', 'a', 'n']
    ||| is_decimal_number(low, from)
}

/// A position is the first without a digit when digits fill the gap before
/// it and none stands at it.
pub proof fn lemma_digits_end(s: Seq<char>, from: int, k: int)
    requires
        0 <= from <= k <= s.len(),
        forall|j: int| from <= j < k ==> is_digit(#[trigger] s[j]),
        k == s.len() || !is_digit(s[k]),
    ensures
        digits_end(s, from) == k,
    decreases k - from,
{
    if from < k {
        lemma_digits_end(s, from + 1, k);
    }
}

/// Finds `digits_end`.
fn skip_digits(s: &Vec<char>, from: usize) -> (k: usize)
    requires
        from <= s@.len(),
    ensures
        k == digits_end(s@, from as int),
        from <= k <= s@.len(),
{
    let mut k: usize = from;
    while k < s.len() && is_digit_char(s[k])
        invariant
            from <= k <= s@.len(),
            forall|j: int| from <= j < k ==> is_digit(#[trigger] s@[j]),
        decreases s@.len() - k,
    {
        k += 1;
    }
    proof {
        lemma_digits_end(s@, from as int, k as int);
    }
    k
}

/// Makes every ASCII capital letter of `s` small.
pub fn lower_all(s: &Vec<char>) -> (low: Vec<char>)
    ensures
        low@ == lowered(s@),
{
    let mut low: Vec<char> = Vec::new();
    let mut i: usize = 0;
    while i < s.len()
        invariant
            i <= s@.len(),
            low@.len() == i,
            forall|j: int| 0 <= j < i ==> low@[j] == ascii_lower(s@[j]),
        decreases s@.len() - i,
    {
        let c = s[i];
        let u: u32 = c as u32;
        if 0x41 <= u && u <= 0x5a {
            let l: u8 = (u + 0x20) as u8;
            low.push(l as char);
        } else {
            low.push(c);
        }
        i += 1;
    }
    assert(low@ =~= lowered(s@));
    low
}

/// Decides `is_exponent`.
fn exponent_at(s: &Vec<char>, from: usize) -> (r: bool)
    requires
        from < s.len(),
    ensures
        r == is_exponent(s@, from as int),
{
    if s[from] != 'e' {
        return false;
    }
    let d: usize = if from + 1 < s.len() && (s[from + 1] == '+' || s[from + 1] == '-') {
        from + 2
    } else {
        from + 1
    };
    if d >= s.len() {
        return false;
    }
    skip_digits(s, d) == s.len()
}

/// Decides `is_float_literal`.
pub fn is_number_token(s: &Vec<char>) -> (r: bool)
    ensures
        r == is_float_literal(s@),
{
    let low = lower_all(s);
    let from: usize = if low.len() > 0 && (low[0] == '+' || low[0] == '-') {
        1
    } else {
        0
    };
    let n: usize = low.len() - from;
    let ghost body = low@.subrange(from as int, low@.len() as int);
    if n == 3 && low[from] == 'i' && low[from + 1] == 'n' && low[from + 2] == 'f' {
        assert(body =~= seq!['i', 'n', 'f']);
        return true;
    }
    if n == 3 && low[from] == 'n' && low[from + 1] == 'a' && low[from + 2] == 'n' {
        assert(body =~= seq!['n', 'a', 'n']);
        return true;
    }
    if n == 8 && low[from] == 'i' && low[from + 1] == 'n' && low[from + 2] == 'f' && low[from + 3]
        == 'i' && low[from + 4] == 'n' && low[from + 5] == 'i' && low[from + 6] == 't' && low[from
        + 7] == 'y' {
        assert(body =~= seq!['i', 'n', 'f', 'i', 'n', 'i', 't', 'y']);
        return true;
    }
    proof {
        let w3 = seq!['i', 'n', 'f'];
        let w8 = seq!['i', 'n', 'f', 'i', 'n', 'i', 't', 'y'];
        let n3 = seq!['n', 'a', 'n'];
        if body == w3 {
            assert(body[0] == w3[0] && body[1] == w3[1] && body[2] == w3[2]);
        }
        if body == n3 {
            assert(body[0] == n3[0] && body[1] == n3[1] && body[2] == n3[2]);
        }
        if body == w8 {
            assert(body[0] == w8[0] && body[1] == w8[1] && body[2] == w8[2] && body[3] == w8[3]
                && body[4] == w8[4] && body[5] == w8[5] && body[6] == w8[6] && body[7] == w8[7]);
        }
        assert(body.len() == n && w3.len() == 3);
        assert(w3[0] == 'i' && w3[1] == 'n' && w3[2] == 'f');
        assert(n3[0] == 'n' && n3[1] == 'a' && n3[2] == 'n');
        assert(body != w3);
        assert(body != n3);
        assert(body != w8);
    }
    let a = skip_digits(&low, from);
    let pointed = a < low.len() && low[a] == '.';
    let b = if pointed {
        skip_digits(&low, a + 1)
    } else {
        a
    };
    let digits: usize = if pointed {
        (a - from) + (b - (a + 1))
    } else {
        a - from
    };
    if digits < 1 {
        return false;
    }
    if b == low.len() {
        return true;
    }
    exponent_at(&low, b)
}

} // verus!
