//! Decimal text for integers, used by the text code generators.

use vstd::prelude::*;

verus! {

/// The digit character of one decimal digit.
pub open spec fn digit_char(d: int) -> char {
    if d == 0 {
        '0'
    } else if d == 1 {
        '1'
    } else if d == 2 {
        '2'
    } else if d == 3 {
        '3'
    } else if d == 4 {
        '4'
    } else if d == 5 {
        '5'
    } else if d == 6 {
        '6'
    } else if d == 7 {
        '7'
    } else if d == 8 {
        '8'
    } else {
        '9'
    }
}

/// The decimal digits of a nonnegative number, most significant first.
pub open spec fn spec_dec(n: int) -> Seq<char>
    decreases n,
{
    if n < 10 {
        seq![digit_char(n)]
    } else {
        spec_dec(n / 10).push(digit_char(n % 10))
    }
}

/// The decimal text of a signed number.
pub open spec fn spec_dec_signed(v: int) -> Seq<char> {
    if v < 0 {
        seq!['-'] + spec_dec(-v)
    } else {
        spec_dec(v)
    }
}

/// Appends one digit character.
fn append_digit(s: &mut String, d: u64)
    requires
        d < 10,
    ensures
        final(s)@ == old(s)@ + seq![digit_char(d as int)],
{
    match d {
        0 => {
            proof {
                reveal_strlit("0");
            }
            s.append("0");
        },
        1 => {
            proof {
                reveal_strlit("1");
            }
            s.append("1");
        },
        2 => {
            proof {
                reveal_strlit("2");
            }
            s.append("2");
        },
        3 => {
            proof {
                reveal_strlit("3");
            }
            s.append("3");
        },
        4 => {
            proof {
                reveal_strlit("4");
            }
            s.append("4");
        },
        5 => {
            proof {
                reveal_strlit("5");
            }
            s.append("5");
        },
        6 => {
            proof {
                reveal_strlit("6");
            }
            s.append("6");
        },
        7 => {
            proof {
                reveal_strlit("7");
            }
            s.append("7");
        },
        8 => {
            proof {
                reveal_strlit("8");
            }
            s.append("8");
        },
        _ => {
            proof {
                reveal_strlit("9");
            }
            s.append("9");
        },
    }
    proof {
        assert(s@ =~= old(s)@ + seq![digit_char(d as int)]);
    }
}

/// Appends the decimal digits of a nonnegative number.
pub fn append_dec_u64(s: &mut String, n: u64)
    ensures
        final(s)@ == old(s)@ + spec_dec(n as int),
    decreases n,
{
    if n < 10 {
        append_digit(s, n);
    } else {
        append_dec_u64(s, n / 10);
        append_digit(s, n % 10);
        proof {
            assert(s@ =~= old(s)@ + spec_dec(n as int));
        }
    }
}

/// Appends the decimal digits of a count.
pub fn append_dec_usize(s: &mut String, n: usize)
    ensures
        final(s)@ == old(s)@ + spec_dec(n as int),
{
    append_dec_u64(s, n as u64);
}

/// Appends the decimal text of a signed pointer delta.
pub fn append_dec_isize(s: &mut String, v: isize)
    ensures
        final(s)@ == old(s)@ + spec_dec_signed(v as int),
{
    if v < 0 {
        append_dec_mag_isize(s, v);
        proof {
            assert(s@ =~= old(s)@ + spec_dec_signed(v as int));
        }
    } else {
        append_dec_u64(s, v as u64);
    }
}

/// Appends the magnitude of a negative pointer delta.
pub fn append_dec_mag_isize(s: &mut String, v: isize)
    requires
        v < 0,
    ensures
        final(s)@ == old(s)@ + seq!['-'] + spec_dec(-(v as int)),
{
    proof {
        reveal_strlit("-");
    }
    s.append("-");
    let m = (-(v as i128)) as u64;
    append_dec_u64(s, m);
    proof {
        assert(s@ =~= old(s)@ + seq!['-'] + spec_dec(-(v as int)));
    }
}

/// Appends the decimal text of a signed cell amount.
pub fn append_dec_i8(s: &mut String, v: i8)
    ensures
        final(s)@ == old(s)@ + spec_dec_signed(v as int),
{
    if v < 0 {
        proof {
            reveal_strlit("-");
        }
        s.append("-");
        let m = (-(v as i64)) as u64;
        append_dec_u64(s, m);
        proof {
            assert(s@ =~= old(s)@ + seq!['-'] + spec_dec(-(v as int)));
        }
    } else {
        append_dec_u64(s, v as u64);
    }
}

/// Appends the decimal digits of the magnitude of a negative cell amount.
pub fn append_dec_mag_i8(s: &mut String, v: i8)
    requires
        v < 0,
    ensures
        final(s)@ == old(s)@ + spec_dec(-(v as int)),
{
    let m = (-(v as i64)) as u64;
    append_dec_u64(s, m);
}

/// Appends the decimal digits of the magnitude of a negative delta,
/// without a sign.
pub fn append_dec_mag_isize_bare(s: &mut String, v: isize)
    requires
        v < 0,
    ensures
        final(s)@ == old(s)@ + spec_dec(-(v as int)),
{
    let m = (-(v as i128)) as u64;
    append_dec_u64(s, m);
}

} // verus!
