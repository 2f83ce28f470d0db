//! Decimal formatting and parsing of integers.
use vstd::prelude::*;

verus! {

/// Is `c` one of `0`..`9`?
pub open spec fn is_digit(c: char) -> bool {
    '0' <= c && c <= '9'
}

/// Numeric value of the decimal digit `c`.
pub open spec fn digit_value(c: char) -> nat {
    ((c as u32) - ('0' as u32)) as nat
}

/// Every character of `s` is a decimal digit.
pub open spec fn all_digits(s: Seq<char>) -> bool {
    forall|i: int| 0 <= i < s.len() ==> is_digit(#[trigger] s[i])
}

/// Value of the decimal numeral `s` (most significant digit first).
pub open spec fn decimal_value(s: Seq<char>) -> nat
    decreases s.len(),
{
    if s.len() == 0 {
        0
    } else {
        decimal_value(s.drop_last()) * 10 + digit_value(s.last())
    }
}

/// Digits of an unsigned numeral, without its optional leading `+`.
pub open spec fn unsigned_digits(s: Seq<char>) -> Seq<char> {
    if s.len() > 0 && s[0] == '+' {
        s.drop_first()
    } else {
        s
    }
}

/// What `str::parse::<usize>()` accepts: an optional `+`, then at least one
/// decimal digit, with a value that fits in `usize`.
pub open spec fn parse_usize_spec(s: Seq<char>) -> Option<usize> {
    let d = unsigned_digits(s);
    if d.len() > 0 && all_digits(d) && decimal_value(d) <= usize::MAX {
        Some(decimal_value(d) as usize)
    } else {
        None
    }
}

/// What `str::parse::<i64>()` accepts: an optional sign, then at least one
/// decimal digit, with a value in the `i64` range.
pub open spec fn parse_i64_spec(s: Seq<char>) -> Option<i64> {
    if s.len() > 0 && s[0] == '-' {
        let d = s.drop_first();
        if d.len() > 0 && all_digits(d) && decimal_value(d) <= 0x8000_0000_0000_0000 {
            Some((0 - decimal_value(d)) as i64)
        } else {
            None
        }
    } else {
        let d = unsigned_digits(s);
        if d.len() > 0 && all_digits(d) && decimal_value(d) <= i64::MAX {
            Some(decimal_value(d) as i64)
        } else {
            None
        }
    }
}

/// The decimal digit character for `d < 10`.
pub open spec fn digit_char(d: nat) -> char {
    ((d + ('0' as u32)) as u32) as char
}

/// Decimal rendering of `n` (what `format!("{}", n)` prints).
pub open spec fn decimal_string(n: nat) -> Seq<char>
    decreases n,
{
    if n < 10 {
        seq![digit_char(n)]
    } else {
        decimal_string(n / 10).push(digit_char(n % 10))
    }
}

proof fn lemma_decimal_value_monotone(s: Seq<char>, i: int)
    requires
        0 <= i <= s.len(),
    ensures
        decimal_value(s.take(i)) <= decimal_value(s),
    decreases s.len() - i,
{
    if i < s.len() {
        lemma_decimal_value_monotone(s, i + 1);
        assert(s.take(i + 1).drop_last() =~= s.take(i));
    } else {
        assert(s.take(i) =~= s);
    }
}

/// Value of `s[from..]` when it is a nonempty run of digits not above `bound`.
fn digits_value_bounded(s: &[char], from: usize, bound: u64) -> (r: Option<u64>)
    requires
        from <= s@.len(),
    ensures
        ({
            let d = s@.skip(from as int);
            match r {
                Some(v) => d.len() > 0 && all_digits(d) && decimal_value(d) <= bound
                    && v as nat == decimal_value(d),
                None => !(d.len() > 0 && all_digits(d) && decimal_value(d) <= bound),
            }
        }),
{
    let ghost d = s@.skip(from as int);
    if from >= s.len() {
        return None;
    }
    let mut acc: u64 = 0;
    let mut i: usize = from;
    while i < s.len()
        invariant
            from <= i <= s@.len(),
            d == s@.skip(from as int),
            all_digits(d.take(i - from)),
            acc as nat == decimal_value(d.take(i - from)),
            acc <= bound,
        decreases s@.len() - i,
    {
        let c = s[i];
        assert(d[i - from] == c);
        if c < '0' || c > '9' {
            assert(!is_digit(d[i - from]));
            return None;
        }
        let dv: u64 = (c as u32 - '0' as u32) as u64;
        assert(d.take(i + 1 - from).drop_last() =~= d.take(i - from));
        assert(d.take(i + 1 - from).last() == c);
        if dv > bound || acc > (bound - dv) / 10 {
            proof {
                if dv <= bound {
                    let q = (bound - dv) / 10;
                    assert(acc * 10 + dv > bound) by (nonlinear_arith)
                        requires
                            acc > q,
                            q == (bound - dv) / 10,
                            dv <= bound,
                    ;
                }
                lemma_decimal_value_monotone(d, i + 1 - from);
            }
            return None;
        }
        assert(acc * 10 + dv <= bound) by (nonlinear_arith)
            requires
                acc <= (bound - dv) / 10,
                dv <= bound,
        ;
        acc = acc * 10 + dv;
        i = i + 1;
        assert(all_digits(d.take(i - from)));
    }
    assert(d.take(i - from) =~= d);
    Some(acc)
}

/// `str::parse::<usize>()` on the characters `s`.
pub fn parse_usize(s: &[char]) -> (r: Option<usize>)
    ensures
        r == parse_usize_spec(s@),
{
    let from: usize = if s.len() > 0 && s[0] == '+' { 1 } else { 0 };
    assert(unsigned_digits(s@) =~= s@.skip(from as int));
    match digits_value_bounded(s, from, usize::MAX as u64) {
        Some(v) => Some(v as usize),
        None => None,
    }
}

/// `str::parse::<i64>()` on the characters `s`.
pub fn parse_i64(s: &[char]) -> (r: Option<i64>)
    ensures
        r == parse_i64_spec(s@),
{
    if s.len() > 0 && s[0] == '-' {
        assert(s@.drop_first() =~= s@.skip(1));
        match digits_value_bounded(s, 1, 0x8000_0000_0000_0000u64) {
            Some(v) => {
                if v == 0x8000_0000_0000_0000u64 {
                    Some(i64::MIN)
                } else {
                    Some(0 - (v as i64))
                }
            },
            None => None,
        }
    } else {
        let from: usize = if s.len() > 0 && s[0] == '+' { 1 } else { 0 };
        assert(unsigned_digits(s@) =~= s@.skip(from as int));
        match digits_value_bounded(s, from, i64::MAX as u64) {
            Some(v) => Some(v as i64),
            None => None,
        }
    }
}

proof fn lemma_decimal_string_len(n: nat)
    ensures
        decimal_string(n).len() >= 1,
    decreases n,
{
    if n >= 10 {
        lemma_decimal_string_len(n / 10);
    }
}

/// `format!("{}", n)` for an unsigned integer.
pub fn decimal_of(n: u64) -> (r: String)
    ensures
        r@ == decimal_string(n as nat),
{
    // Collect digits least significant first.
    let mut rev: Vec<char> = Vec::new();
    let mut m: u64 = n;
    loop
        invariant_except_break
            decimal_string(n as nat) == decimal_string(m as nat) + rev@.reverse(),
        ensures
            decimal_string(n as nat) == rev@.reverse(),
        decreases m,
    {
        let d: u64 = m % 10;
        let c = ((d as u32) + ('0' as u32)) as u8 as char;
        assert(c == digit_char(d as nat)) by {
            assert(d < 10);
        }
        if m < 10 {
            assert(decimal_string(m as nat) == seq![digit_char(m as nat)]);
            let ghost old_rev = rev@;
            rev.push(c);
            assert(rev@.reverse() =~= seq![c] + old_rev.reverse());
            break;
        }
        assert(decimal_string(m as nat) == decimal_string((m / 10) as nat).push(digit_char((m % 10) as nat)));
        let ghost old_rev = rev@;
        rev.push(c);
        assert(rev@.reverse() =~= seq![c] + old_rev.reverse());
        m = m / 10;
        assert(decimal_string(n as nat) =~= decimal_string(m as nat) + rev@.reverse());
    }
    let mut out = String::new();
    let mut i: usize = rev.len();
    assert(rev@.reverse().take(0) =~= seq![]);
    while i > 0
        invariant
            i <= rev@.len(),
            out@ == rev@.reverse().take(rev@.len() - i),
        decreases i,
    {
        i = i - 1;
        crate::text::push_char(&mut out, rev[i]);
        assert(rev@.reverse().take(rev@.len() - i) =~= rev@.reverse().take(rev@.len() - i - 1).push(rev@[i as int]));
    }
    assert(rev@.reverse().take(rev@.len() as int) =~= rev@.reverse());
    out
}

} // verus!
