//! Names for the staging file of a run: a fixed prefix and a random 32-bit number.
use vstd::prelude::*;
use vstd::string::StringExecFns;

verus! {

/// The character of a decimal digit.
pub open spec fn digit_char(d: nat) -> char {
    if d == 0 {
        '0'
    } else if d == 1 {
        '1'
    } else if d == 2 {
        '2'
    } else if d == 3 {
        '3'
    } else if d == 4 {
        '4'
    } else if d == 5 {
        '5'
    } else if d == 6 {
        '6'
    } else if d == 7 {
        '7'
    } else if d == 8 {
        '8'
    } else {
        '9'
    }
}

/// `n` written in decimal, without leading zeros.
pub open spec fn decimal(n: nat) -> Seq<char>
    decreases n,
{
    if n < 10 {
        seq![digit_char(n)]
    } else {
        decimal(n / 10).push(digit_char(n % 10))
    }
}

/// The staging name drawn with the number `n`.
pub open spec fn staging_name_of(n: u32) -> Seq<char> {
    "header_syncer_"@ + decimal(n as nat)
}

proof fn lemma_digit_injective(x: nat, y: nat)
    requires
        x < 10,
        y < 10,
        digit_char(x) == digit_char(y),
    ensures
        x == y,
{
}

proof fn lemma_decimal_injective(a: nat, b: nat)
    requires
        decimal(a) == decimal(b),
    ensures
        a == b,
    decreases a,
{
    if a >= 10 {
        assert(decimal(a / 10).len() >= 1);
    }
    if b >= 10 {
        assert(decimal(b / 10).len() >= 1);
    }
    if a >= 10 && b >= 10 {
        assert(decimal(a).last() == digit_char(a % 10));
        assert(decimal(b).last() == digit_char(b % 10));
        assert(decimal(a).drop_last() =~= decimal(a / 10));
        assert(decimal(b).drop_last() =~= decimal(b / 10));
        lemma_decimal_injective(a / 10, b / 10);
        lemma_digit_injective(a % 10, b % 10);
        assert(a == (a / 10) * 10 + a % 10);
        assert(b == (b / 10) * 10 + b % 10);
    } else if a < 10 && b < 10 {
        assert(decimal(a)[0] == digit_char(a));
        assert(decimal(b)[0] == digit_char(b));
        lemma_digit_injective(a, b);
    } else if a >= 10 {
        assert(decimal(a).len() >= 2);
        assert(decimal(b).len() == 1);
    } else {
        assert(decimal(b).len() >= 2);
        assert(decimal(a).len() == 1);
    }
}

/// Two runs that draw different numbers get different staging names.
pub proof fn lemma_staging_names_distinct(a: u32, b: u32)
    requires
        a != b,
    ensures
        staging_name_of(a) != staging_name_of(b),
{
    if staging_name_of(a) == staging_name_of(b) {
        let p = "header_syncer_"@;
        assert(staging_name_of(a).skip(p.len() as int) =~= decimal(a as nat));
        assert(staging_name_of(b).skip(p.len() as int) =~= decimal(b as nat));
        lemma_decimal_injective(a as nat, b as nat);
    }
}

fn digit_str(d: u32) -> (r: &'static str)
    requires
        d < 10,
    ensures
        r@ == seq![digit_char(d as nat)],
{
    proof {
        reveal_strlit("0");
        reveal_strlit("1");
        reveal_strlit("2");
        reveal_strlit("3");
        reveal_strlit("4");
        reveal_strlit("5");
        reveal_strlit("6");
        reveal_strlit("7");
        reveal_strlit("8");
        reveal_strlit("9");
    }
    let r = if d == 0 {
        "0"
    } else if d == 1 {
        "1"
    } else if d == 2 {
        "2"
    } else if d == 3 {
        "3"
    } else if d == 4 {
        "4"
    } else if d == 5 {
        "5"
    } else if d == 6 {
        "6"
    } else if d == 7 {
        "7"
    } else if d == 8 {
        "8"
    } else {
        "9"
    };
    assert(r@ =~= seq![digit_char(d as nat)]);
    r
}

fn append_decimal(out: &mut String, n: u32)
    ensures
        final(out)@ == old(out)@ + decimal(n as nat),
    decreases n,
{
    if n >= 10 {
        append_decimal(out, n / 10);
    }
    out.append(digit_str(n % 10));
    assert(final(out)@ =~= old(out)@ + decimal(n as nat));
}

/// The staging name for the number `n`: `header_syncer_` followed by `n` in decimal.
pub fn staging_name(n: u32) -> (r: String)
    ensures
        r@ == staging_name_of(n),
{
    let mut out = String::from_str("header_syncer_");
    append_decimal(&mut out, n);
    out
}

/// Relies on rand::random::<u32>: a number from the thread-local generator;
/// nothing is known of which one.
#[verifier::external_body]
fn draw_u32() -> (r: u32) {
    rand::random::<u32>()
}

/// A fresh staging name, from a newly drawn random number.
pub fn fresh_staging_name() -> (r: String)
    ensures
        exists|n: u32| r@ == staging_name_of(n),
{
    let n = draw_u32();
    staging_name(n)
}

} // verus!
