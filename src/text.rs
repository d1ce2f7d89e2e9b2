//! The canonical textual form of a fraction.
use vstd::prelude::*;
use vstd::string::StringExecFns;
use crate::fraction::Fraction;

verus! {

/// The character of the decimal digit `d` (`d < 10`).
pub open spec fn digit_char(d: nat) -> char {
    if d == 0 {
        '0'
    } else if d == 1 {
        '1'
    } else if d == 2 {
        '2'
    } else if d == 3 {
        '3'
    } else if d == 4 {
        '4'
    } else if d == 5 {
        '5'
    } else if d == 6 {
        '6'
    } else if d == 7 {
        '7'
    } else if d == 8 {
        '8'
    } else {
        '9'
    }
}

/// The decimal digits of `n`, most significant first, without leading zeros.
pub open spec fn decimal(n: nat) -> Seq<char>
    decreases n,
{
    if n < 10 {
        seq![digit_char(n)]
    } else {
        decimal(n / 10) + seq![digit_char(n % 10)]
    }
}

impl Fraction {
    /// `"nan"` for `0/0`, `"0"` for any other zero numerator; otherwise a
    /// `-` for a negative sign followed by `inf` for a zero denominator, the
    /// bare numerator for a denominator of 1, or `numerator/denominator`.
    pub open spec fn rendered(self) -> Seq<char> {
        if self.numerator == 0 {
            if self.denominator == 0 {
                seq!['n', 'a', 'n']
            } else {
                seq!['0']
            }
        } else {
            let prefix = if self.sign {
                Seq::<char>::empty()
            } else {
                seq!['-']
            };
            if self.denominator == 0 {
                prefix + seq!['i', 'n', 'f']
            } else if self.denominator == 1 {
                prefix + decimal(self.numerator as nat)
            } else {
                prefix + decimal(self.numerator as nat) + seq!['/'] + decimal(
                    self.denominator as nat,
                )
            }
        }
    }

    /// The canonical textual form of the fraction.
    pub fn to_string(&self) -> (r: String)
        ensures
            r@ == self.rendered(),
    {
        if self.numerator == 0 {
            if self.denominator == 0 {
                proof {
                    reveal_strlit("nan");
                }
                String::from_str("nan")
            } else {
                proof {
                    reveal_strlit("0");
                }
                String::from_str("0")
            }
        } else {
            let mut s = if self.sign {
                proof {
                    reveal_strlit("");
                }
                String::from_str("")
            } else {
                proof {
                    reveal_strlit("-");
                }
                String::from_str("-")
            };
            if self.denominator == 0 {
                proof {
                    reveal_strlit("inf");
                }
                s.append("inf");
            } else if self.denominator == 1 {
                push_decimal(&mut s, self.numerator);
            } else {
                push_decimal(&mut s, self.numerator);
                proof {
                    reveal_strlit("/");
                }
                s.append("/");
                push_decimal(&mut s, self.denominator);
            }
            s
        }
    }
}

/// The one-character string of the decimal digit `d`.
fn digit_str(d: u64) -> (r: &'static str)
    requires
        d < 10,
    ensures
        r@ == seq![digit_char(d as nat)],
{
    proof {
        reveal_strlit("0");
        reveal_strlit("1");
        reveal_strlit("2");
        reveal_strlit("3");
        reveal_strlit("4");
        reveal_strlit("5");
        reveal_strlit("6");
        reveal_strlit("7");
        reveal_strlit("8");
        reveal_strlit("9");
    }
    if d == 0 {
        "0"
    } else if d == 1 {
        "1"
    } else if d == 2 {
        "2"
    } else if d == 3 {
        "3"
    } else if d == 4 {
        "4"
    } else if d == 5 {
        "5"
    } else if d == 6 {
        "6"
    } else if d == 7 {
        "7"
    } else if d == 8 {
        "8"
    } else {
        "9"
    }
}

/// Appends the decimal digits of `n` to `s`.
fn push_decimal(s: &mut String, n: u64)
    ensures
        final(s)@ == old(s)@ + decimal(n as nat),
    decreases n,
{
    if n >= 10 {
        push_decimal(s, n / 10);
    }
    s.append(digit_str(n % 10));
    proof {
        if n < 10 {
            assert(n % 10 == n);
        }
    }
}

} // verus!
