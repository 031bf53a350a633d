//! Reading unsigned numbers from text, as `from_str_radix` reads them.
use vstd::prelude::*;
use vstd::string::StrSliceExecFns;

verus! {

/// The value of digit `c` in base `radix` (digits `0-9`, then letters of either case).
pub open spec fn digit_value(c: char, radix: nat) -> Option<nat> {
    let u = c as u32;
    let d: int = if 0x30 <= u && u <= 0x39 {
        u - 0x30
    } else if 0x61 <= u && u <= 0x7a {
        u - 0x61 + 10
    } else if 0x41 <= u && u <= 0x5a {
        u - 0x41 + 10
    } else {
        radix as int
    };
    if d < radix {
        Some(d as nat)
    } else {
        None
    }
}

/// The value of a string of digits in base `radix`; `None` if one is not a digit.
pub open spec fn digits_value(ds: Seq<char>, radix: nat) -> Option<nat>
    decreases ds.len(),
{
    if ds.len() == 0 {
        Some(0)
    } else {
        match (digits_value(ds.drop_last(), radix), digit_value(ds.last(), radix)) {
            (Some(v), Some(d)) => Some(v * radix + d),
            _ => None,
        }
    }
}

/// The number that `s` writes in base `radix`: an optional `+`, then at least
/// one digit; `None` where that fails or the value exceeds `max`.
pub open spec fn parsed_unsigned(s: Seq<char>, radix: nat, max: nat) -> Option<nat> {
    let ds = if s.len() > 0 && s[0] == '+' {
        s.drop_first()
    } else {
        s
    };
    if ds.len() == 0 {
        None
    } else {
        match digits_value(ds, radix) {
            Some(v) => if v <= max {
                Some(v)
            } else {
                None
            },
            None => None,
        }
    }
}

fn digit_of(c: char, radix: u32) -> (r: Option<u32>)
    requires
        2 <= radix <= 36,
    ensures
        match digit_value(c, radix as nat) {
            Some(d) => r == Some(d as u32),
            None => r is None,
        },
{
    let u = c as u32;
    let d: u32 = if 0x30 <= u && u <= 0x39 {
        u - 0x30
    } else if 0x61 <= u && u <= 0x7a {
        u - 0x61 + 10
    } else if 0x41 <= u && u <= 0x5a {
        u - 0x41 + 10
    } else {
        radix
    };
    if d < radix {
        Some(d)
    } else {
        None
    }
}

/// Reads `s` as a number in base `radix` no greater than `max` (see `parsed_unsigned`).
pub fn parse_unsigned(s: &str, radix: u32, max: u32) -> (r: Option<u32>)
    requires
        2 <= radix <= 36,
    ensures
        match parsed_unsigned(s@, radix as nat, max as nat) {
            Some(v) => r == Some(v as u32),
            None => r is None,
        },
{
    let n = s.unicode_len();
    let mut first: usize = 0;
    if n > 0 && s.get_char(0) == '+' {
        first = 1;
    }
    let mut i: usize = first;
    let ghost ds = if s@.len() > 0 && s@[0] == '+' {
        s@.drop_first()
    } else {
        s@
    };
    assert(ds =~= s@.skip(i as int));
    if i == n {
        return None;
    }
    let cap: u64 = max as u64 + 1;
    let mut v: u64 = 0;
    assert(ds.take(0) =~= Seq::<char>::empty());
    while i < n
        invariant
            n == s@.len(),
            ds == s@.skip(first as int),
            ds == (if s@.len() > 0 && s@[0] == '+' {
                s@.drop_first()
            } else {
                s@
            }),
            first <= i <= n,
            cap == max as u64 + 1,
            2 <= radix <= 36,
            v <= cap,
            digits_value(ds.take(i - first), radix as nat) matches Some(x) && v == (if x
                < cap {
                x
            } else {
                cap as nat
            }),
        decreases n - i,
    {
        let k: usize = i - first;
        let c = s.get_char(i);
        assert(ds.take(k + 1).drop_last() =~= ds.take(k as int));
        assert(ds.take(k + 1).last() == c);
        match digit_of(c, radix) {
            None => {
                proof {
                    assert(digit_value(ds.take(k + 1).last(), radix as nat) is None);
                    assert(digits_value(ds.take(k + 1), radix as nat) is None);
                    lemma_digits_none_extends(ds, k + 1, radix as nat);
                }
                return None;
            },
            Some(d) => {
                let ghost x = digits_value(ds.take(k as int), radix as nat)->0;
                assert(digits_value(ds.take(k + 1), radix as nat) == Some((x * radix + d) as nat));
                assert(v * (radix as u64) <= cap * 36) by (nonlinear_arith)
                    requires
                        v <= cap,
                        radix <= 36,
                ;
                let w = v * (radix as u64) + d as u64;
                proof {
                    if x >= cap {
                        assert(x * radix + d >= cap) by (nonlinear_arith)
                            requires
                                x >= cap,
                                radix >= 2,
                        ;
                        assert(w >= cap) by (nonlinear_arith)
                            requires
                                v == cap,
                                w == v * radix + d,
                                radix >= 2,
                        ;
                    } else {
                        assert(w == x * radix + d);
                    }
                }
                v = if w < cap {
                    w
                } else {
                    cap
                };
            },
        }
        i += 1;
    }
    assert(ds.take(ds.len() as int) =~= ds);
    if v < cap {
        Some(v as u32)
    } else {
        None
    }
}

proof fn lemma_digits_none_extends(ds: Seq<char>, k: int, radix: nat)
    requires
        0 < k <= ds.len(),
        digits_value(ds.take(k), radix) is None,
    ensures
        digits_value(ds, radix) is None,
    decreases ds.len() - k,
{
    if k < ds.len() {
        assert(ds.take(k + 1).drop_last() =~= ds.take(k));
        lemma_digits_none_extends(ds, k + 1, radix);
    } else {
        assert(ds.take(k) =~= ds);
    }
}

} // verus!
