//! A readable rendering of a vector: the list of its 512 bytes in decimal.
use vstd::prelude::*;
use vstd::string::StringExecFns;
use crate::vector::u8x512;

verus! {

/// The character of the decimal digit `d`, for `0 <= d <= 9`.
pub open spec fn digit_char(d: u8) -> char {
    if d == 0 {
        '0'
    } else if d == 1 {
        '1'
    } else if d == 2 {
        '2'
    } else if d == 3 {
        '3'
    } else if d == 4 {
        '4'
    } else if d == 5 {
        '5'
    } else if d == 6 {
        '6'
    } else if d == 7 {
        '7'
    } else if d == 8 {
        '8'
    } else {
        '9'
    }
}

/// The byte `n` in decimal, without leading zeros.
pub open spec fn decimal(n: u8) -> Seq<char> {
    if n < 10 {
        seq![digit_char(n)]
    } else if n < 100 {
        seq![digit_char(n / 10), digit_char(n % 10)]
    } else {
        seq![digit_char(n / 100), digit_char((n / 10) % 10), digit_char(n % 10)]
    }
}

/// The bytes of `s` in decimal, in order, with a comma and a space between
/// one and the next.
pub open spec fn listing(s: Seq<u8>) -> Seq<char>
    decreases s.len(),
{
    if s.len() == 0 {
        Seq::empty()
    } else if s.len() == 1 {
        decimal(s[0])
    } else {
        listing(s.drop_last()) + seq![',', ' '] + decimal(s.last())
    }
}

/// The listing of `s` in square brackets.
pub open spec fn rendering(s: Seq<u8>) -> Seq<char> {
    seq!['['] + listing(s) + seq![']']
}

/// The decimal digit `d` as text.
fn digit(d: u8) -> (text: &'static str)
    requires
        d < 10,
    ensures
        text@ == seq![digit_char(d)],
{
    proof {
        reveal_strlit("0");
        reveal_strlit("1");
        reveal_strlit("2");
        reveal_strlit("3");
        reveal_strlit("4");
        reveal_strlit("5");
        reveal_strlit("6");
        reveal_strlit("7");
        reveal_strlit("8");
        reveal_strlit("9");
    }
    let text = if d == 0 {
        "0"
    } else if d == 1 {
        "1"
    } else if d == 2 {
        "2"
    } else if d == 3 {
        "3"
    } else if d == 4 {
        "4"
    } else if d == 5 {
        "5"
    } else if d == 6 {
        "6"
    } else if d == 7 {
        "7"
    } else if d == 8 {
        "8"
    } else {
        "9"
    };
    assert(text@ =~= seq![digit_char(d)]);
    text
}

/// Appends the byte `n` in decimal to `text`.
fn push_decimal(text: &mut String, n: u8)
    ensures
        final(text)@ == old(text)@ + decimal(n),
{
    if n >= 100 {
        text.append(digit(n / 100));
    }
    if n >= 10 {
        text.append(digit((n / 10) % 10));
    }
    text.append(digit(n % 10));
    assert(final(text)@ =~= old(text)@ + decimal(n));
}

impl u8x512 {
    /// Renders the vector for inspection: its 512 bytes in decimal, separated
    /// by a comma and a space, in square brackets.
    pub fn debug_render(&self) -> (text: String)
        ensures
            text@ == rendering(self@),
    {
        let numbers: Box<[u8; 512]> = self.into();
        let mut text = String::new();
        text.append("[");
        proof {
            reveal_strlit("[");
            assert(text@ =~= seq!['['] + listing(numbers@.take(0)));
        }
        for i in 0..512usize
            invariant
                numbers@ == self@,
                text@ == seq!['['] + listing(numbers@.take(i as int)),
        {
            let ghost before = text@;
            if i > 0 {
                text.append(", ");
            }
            push_decimal(&mut text, numbers[i]);
            proof {
                let next = numbers@.take(i + 1);
                assert(next.drop_last() =~= numbers@.take(i as int));
                assert(next.last() == numbers[i as int]);
                if i == 0 {
                    assert(listing(next) == decimal(next[0]));
                    assert(listing(numbers@.take(0)) =~= Seq::<char>::empty());
                } else {
                    reveal_strlit(", ");
                    assert(", "@ =~= seq![',', ' ']);
                    assert(listing(next) == listing(next.drop_last()) + seq![',', ' '] + decimal(
                        next.last(),
                    ));
                    assert(text@ == before + seq![',', ' '] + decimal(numbers[i as int]));
                }
                assert(text@ =~= seq!['['] + listing(next));
            }
        }
        text.append("]");
        proof {
            reveal_strlit("]");
            assert(numbers@.take(512) =~= self@);
            assert(text@ =~= rendering(self@));
        }
        text
    }
}

} // verus!
