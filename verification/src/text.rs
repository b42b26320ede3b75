//! Fixed-width decimal rendering of small integers into strings, used for
//! date keys and status codes.

use vstd::prelude::*;

verus! {

pub open spec fn spec_digit(n: int) -> char {
    if n == 0 {
        '0'
    } else if n == 1 {
        '1'
    } else if n == 2 {
        '2'
    } else if n == 3 {
        '3'
    } else if n == 4 {
        '4'
    } else if n == 5 {
        '5'
    } else if n == 6 {
        '6'
    } else if n == 7 {
        '7'
    } else if n == 8 {
        '8'
    } else {
        '9'
    }
}

/// The two-digit zero-padded decimal rendering of `n`'s last two digits.
pub open spec fn spec_dec2(n: int) -> Seq<char> {
    seq![spec_digit(n / 10 % 10), spec_digit(n % 10)]
}

/// The three-digit zero-padded decimal rendering of `n`'s last three digits.
pub open spec fn spec_dec3(n: int) -> Seq<char> {
    seq![spec_digit(n / 100 % 10), spec_digit(n / 10 % 10), spec_digit(n % 10)]
}

/// The four-digit zero-padded decimal rendering of `n`'s last four digits.
pub open spec fn spec_dec4(n: int) -> Seq<char> {
    seq![
        spec_digit(n / 1000 % 10),
        spec_digit(n / 100 % 10),
        spec_digit(n / 10 % 10),
        spec_digit(n % 10),
    ]
}

pub fn push_digit(s: &mut String, n: u32)
    requires
        n < 10,
    ensures
        final(s)@ == old(s)@ + seq![spec_digit(n as int)],
{
    if n == 0 {
        proof {
            reveal_strlit("0");
        }
        s.append("0");
        proof {
            assert(s@ =~= old(s)@ + seq![spec_digit(n as int)]);
        }
    } else if n == 1 {
        proof {
            reveal_strlit("1");
        }
        s.append("1");
        proof {
            assert(s@ =~= old(s)@ + seq![spec_digit(n as int)]);
        }
    } else if n == 2 {
        proof {
            reveal_strlit("2");
        }
        s.append("2");
        proof {
            assert(s@ =~= old(s)@ + seq![spec_digit(n as int)]);
        }
    } else if n == 3 {
        proof {
            reveal_strlit("3");
        }
        s.append("3");
        proof {
            assert(s@ =~= old(s)@ + seq![spec_digit(n as int)]);
        }
    } else if n == 4 {
        proof {
            reveal_strlit("4");
        }
        s.append("4");
        proof {
            assert(s@ =~= old(s)@ + seq![spec_digit(n as int)]);
        }
    } else if n == 5 {
        proof {
            reveal_strlit("5");
        }
        s.append("5");
        proof {
            assert(s@ =~= old(s)@ + seq![spec_digit(n as int)]);
        }
    } else if n == 6 {
        proof {
            reveal_strlit("6");
        }
        s.append("6");
        proof {
            assert(s@ =~= old(s)@ + seq![spec_digit(n as int)]);
        }
    } else if n == 7 {
        proof {
            reveal_strlit("7");
        }
        s.append("7");
        proof {
            assert(s@ =~= old(s)@ + seq![spec_digit(n as int)]);
        }
    } else if n == 8 {
        proof {
            reveal_strlit("8");
        }
        s.append("8");
        proof {
            assert(s@ =~= old(s)@ + seq![spec_digit(n as int)]);
        }
    } else {
        proof {
            reveal_strlit("9");
        }
        s.append("9");
        proof {
            assert(s@ =~= old(s)@ + seq![spec_digit(n as int)]);
        }
    }
}

pub fn push_dec2(s: &mut String, n: u32)
    ensures
        final(s)@ == old(s)@ + spec_dec2(n as int),
{
    push_digit(s, n / 10 % 10);
    push_digit(s, n % 10);
    proof {
        assert(s@ =~= old(s)@ + spec_dec2(n as int));
    }
}

pub fn push_dec3(s: &mut String, n: u32)
    ensures
        final(s)@ == old(s)@ + spec_dec3(n as int),
{
    push_digit(s, n / 100 % 10);
    push_digit(s, n / 10 % 10);
    push_digit(s, n % 10);
    proof {
        assert(s@ =~= old(s)@ + spec_dec3(n as int));
    }
}

pub fn push_dec4(s: &mut String, n: u32)
    ensures
        final(s)@ == old(s)@ + spec_dec4(n as int),
{
    push_digit(s, n / 1000 % 10);
    push_digit(s, n / 100 % 10);
    push_digit(s, n / 10 % 10);
    push_digit(s, n % 10);
    proof {
        assert(s@ =~= old(s)@ + spec_dec4(n as int));
    }
}

} // verus!
