//! Parsing unsigned integers the way std `from_str_radix` / `str::parse` do.
use vstd::prelude::*;

verus! {

/// The value of `c` as a digit in `radix`, as std `char::to_digit` gives it.
pub open spec fn digit_value(c: char, radix: nat) -> Option<nat> {
    let n = c as int;
    let v: int = if 48 <= n <= 57 {
        n - 48
    } else if 97 <= n <= 122 {
        n - 87
    } else if 65 <= n <= 90 {
        n - 55
    } else {
        36
    };
    if v < radix {
        Some(v as nat)
    } else {
        None
    }
}

/// Every character of `s` is a digit in `radix`.
pub open spec fn all_digits(s: Seq<char>, radix: nat) -> bool {
    forall|i: int| 0 <= i < s.len() ==> (#[trigger] digit_value(s[i], radix)) is Some
}

/// The number that the digits `s` write in `radix`, most significant first.
pub open spec fn digits_value(s: Seq<char>, radix: nat) -> nat
    decreases s.len(),
{
    if s.len() == 0 {
        0
    } else {
        digits_value(s.drop_last(), radix) * radix + match digit_value(s.last(), radix) {
            Some(d) => d,
            None => 0,
        }
    }
}

/// The digits of an unsigned number: the text after an optional leading `+`.
pub open spec fn unsigned_digits(s: Seq<char>) -> Seq<char> {
    if s.len() > 0 && s[0] == '+' {
        s.drop_first()
    } else {
        s
    }
}

/// What std's unsigned `from_str_radix(s, radix)` gives for a type whose largest value is `max`:
/// an optional `+` and then one or more digits whose value does not exceed `max`.
pub open spec fn parse_unsigned(s: Seq<char>, radix: nat, max: nat) -> Option<nat> {
    if s.len() == 0 || (s.len() == 1 && (s[0] == '+' || s[0] == '-')) {
        None
    } else {
        let d = unsigned_digits(s);
        if all_digits(d, radix) && digits_value(d, radix) <= max {
            Some(digits_value(d, radix))
        } else {
            None
        }
    }
}

/// The value of one character as a digit.
fn to_digit(c: char, radix: u32) -> (r: Option<u32>)
    requires
        2 <= radix <= 36,
    ensures
        r matches Some(v) ==> digit_value(c, radix as nat) == Some(v as nat),
        r is None ==> digit_value(c, radix as nat) is None,
{
    let n: u32 = c as u32;
    let v: u32 = if 48 <= n && n <= 57 {
        n - 48
    } else if 97 <= n && n <= 122 {
        n - 87
    } else if 65 <= n && n <= 90 {
        n - 55
    } else {
        36
    };
    if v < radix {
        Some(v)
    } else {
        None
    }
}

proof fn lemma_value_step(s: Seq<char>, i: int, radix: nat)
    requires
        0 <= i < s.len(),
    ensures
        digits_value(s.take(i + 1), radix) == digits_value(s.take(i), radix) * radix + match digit_value(s[i], radix) {
            Some(d) => d,
            None => 0,
        },
{
    assert(s.take(i + 1).drop_last() =~= s.take(i));
}

proof fn lemma_grow(v: nat, radix: nat, d: nat, max: nat)
    requires
        radix >= 2,
        v > max,
    ensures
        v * radix + d > max,
{
    assert(v * radix >= v) by (nonlinear_arith)
        requires
            radix >= 2,
    ;
}

/// Parses `s` as an unsigned number in `radix` no larger than `max`, as std `from_str_radix` does.
pub fn parse_unsigned_chars(s: &[char], radix: u32, max: u32) -> (r: Option<u32>)
    requires
        2 <= radix <= 36,
    ensures
        r matches Some(v) ==> parse_unsigned(s@, radix as nat, max as nat) == Some(v as nat),
        r is None ==> parse_unsigned(s@, radix as nat, max as nat) is None,
{
    let len = s.len();
    if len == 0 || (len == 1 && (s[0] == '+' || s[0] == '-')) {
        return None;
    }
    let start: usize = if s[0] == '+' {
        1
    } else {
        0
    };
    let ghost d = unsigned_digits(s@);
    assert(d =~= s@.subrange(start as int, len as int));
    let cap: u64 = max as u64 + 1;
    let mut acc: u64 = 0;
    let mut i: usize = start;
    while i < len
        invariant
            start <= i <= len,
            len == s@.len(),
            d == s@.subrange(start as int, len as int),
            d == unsigned_digits(s@),
            !(s@.len() == 0 || (s@.len() == 1 && (s@[0] == '+' || s@[0] == '-'))),
            cap == max + 1,
            2 <= radix <= 36,
            all_digits(d.take(i - start), radix as nat),
            acc == if digits_value(d.take(i - start), radix as nat) <= max {
                digits_value(d.take(i - start), radix as nat)
            } else {
                cap as nat
            },
        decreases len - i,
    {
        let ghost k: int = i - start;
        match to_digit(s[i], radix) {
            None => {
                assert(d[k] == s@[i as int]);
                assert(digit_value(d[k], radix as nat) is None);
                assert(!all_digits(d, radix as nat));
                return None;
            },
            Some(v) => {
                proof {
                    lemma_value_step(d, k, radix as nat);
                    assert(d[k] == s@[i as int]);
                    assert forall|j: int| 0 <= j < k + 1 implies (#[trigger] digit_value(
                        d.take(k + 1)[j],
                        radix as nat,
                    )) is Some by {
                        if j < k {
                            assert(d.take(k + 1)[j] == d.take(k)[j]);
                        }
                    }
                }
                if acc >= cap {
                    proof {
                        lemma_grow(digits_value(d.take(k), radix as nat), radix as nat, v as nat, max as nat);
                    }
                } else {
                    assert(acc * radix + v <= 36 * 4294967296u64 + 36) by (nonlinear_arith)
                        requires
                            acc <= 4294967296u64,
                            radix <= 36,
                            v < 36,
                    ;
                    let next: u64 = acc * (radix as u64) + v as u64;
                    acc = if next > max as u64 {
                        cap
                    } else {
                        next
                    };
                }
            },
        }
        i = i + 1;
    }
    assert(d.take(len - start) =~= d);
    if acc > max as u64 {
        None
    } else {
        Some(acc as u32)
    }
}

} // verus!
