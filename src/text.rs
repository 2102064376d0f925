use vstd::prelude::*;

verus! {

pub open spec fn digit_char(d: int) -> char {
    seq!['0', '1', '2', '3', '4', '5', '6', '7', '8', '9'][d]
}

/// The decimal digits of `n`, most significant first, without leading zeros.
pub open spec fn decimal(n: nat) -> Seq<char>
    decreases n,
{
    if n < 10 {
        seq![digit_char(n as int)]
    } else {
        decimal((n / 10) as nat) + seq![digit_char((n % 10) as int)]
    }
}

/// The digits after the point of `r / 1000` (for `r < 1000`), trailing zeros
/// dropped, with the point itself; nothing when `r` is zero.
pub open spec fn fraction(r: nat) -> Seq<char> {
    if r == 0 {
        Seq::empty()
    } else if r % 100 == 0 {
        seq!['.', digit_char((r / 100) as int)]
    } else if r % 10 == 0 {
        seq!['.', digit_char((r / 100) as int), digit_char(((r / 10) % 10) as int)]
    } else {
        seq![
            '.',
            digit_char((r / 100) as int),
            digit_char(((r / 10) % 10) as int),
            digit_char((r % 10) as int),
        ]
    }
}

/// `ms / 1000` as the shortest decimal text that states it exactly.
pub open spec fn seconds_text(ms: nat) -> Seq<char> {
    decimal(ms / 1000) + fraction(ms % 1000)
}

fn digit_str(d: u64) -> (r: &'static str)
    requires
        d < 10,
    ensures
        r@ == seq![digit_char(d as int)],
{
    proof {
        reveal_strlit("0");
        reveal_strlit("1");
        reveal_strlit("2");
        reveal_strlit("3");
        reveal_strlit("4");
        reveal_strlit("5");
        reveal_strlit("6");
        reveal_strlit("7");
        reveal_strlit("8");
        reveal_strlit("9");
    }
    match d {
        0 => "0",
        1 => "1",
        2 => "2",
        3 => "3",
        4 => "4",
        5 => "5",
        6 => "6",
        7 => "7",
        8 => "8",
        _ => "9",
    }
}

/// Appends the decimal digits of `n`.
pub fn push_decimal(s: &mut String, n: u64)
    ensures
        final(s)@ == old(s)@ + decimal(n as nat),
    decreases n,
{
    if n >= 10 {
        push_decimal(s, n / 10);
    }
    s.append(digit_str(n % 10));
    proof {
        if n >= 10 {
            assert(old(s)@ + decimal((n / 10) as nat) + seq![digit_char((n % 10) as int)]
                =~= old(s)@ + decimal(n as nat));
        } else {
            assert(old(s)@ + seq![digit_char((n % 10) as int)] =~= old(s)@ + decimal(n as nat));
        }
    }
}

/// Appends `ms / 1000` as decimal seconds.
pub fn push_seconds(s: &mut String, ms: u64)
    ensures
        final(s)@ == old(s)@ + seconds_text(ms as nat),
{
    let ghost start = s@;
    push_decimal(s, ms / 1000);
    let r: u64 = ms % 1000;
    if r != 0 {
        proof {
            reveal_strlit(".");
        }
        s.append(".");
        s.append(digit_str(r / 100));
        if r % 100 != 0 {
            s.append(digit_str((r / 10) % 10));
            if r % 10 != 0 {
                s.append(digit_str(r % 10));
            }
        }
    }
    assert(s@ =~= start + seconds_text(ms as nat));
}

} // verus!
