//! Lock targets that are file descriptors.

use vstd::prelude::*;

use crate::text::chars_of;
#[allow(unused_imports)]
use crate::text::{decimal, signed_decimal};

verus! {

/// At least one character, all of them ASCII digits.
pub open spec fn is_digits(text: Seq<char>) -> bool {
    &&& text.len() > 0
    &&& forall|i: int| 0 <= i < text.len() ==> '0' <= #[trigger] text[i] <= '9'
}

/// The number that a run of digits denotes.
pub open spec fn digits_value(text: Seq<char>) -> nat
    decreases text.len(),
{
    if text.len() == 0 {
        0
    } else {
        digits_value(text.drop_last()) * 10 + (text.last() as nat - '0' as nat) as nat
    }
}

/// The descriptor that a lock target spells: a bare 32-bit integer in decimal,
/// with or without a sign and leading zeros, and nothing around it.
pub open spec fn descriptor_of(target: Seq<char>) -> Option<int> {
    let signed = target.len() > 0 && (target[0] == '-' || target[0] == '+');
    let digits = if signed {
        target.skip(1)
    } else {
        target
    };
    let value = if signed && target[0] == '-' {
        -digits_value(digits)
    } else {
        digits_value(digits) as int
    };
    if is_digits(digits) && i32::MIN <= value <= i32::MAX {
        Some(value)
    } else {
        None
    }
}

/// Reads a lock target as a file descriptor.
pub fn parse_descriptor(target: &str) -> (fd: Option<i32>)
    ensures
        match fd {
            Some(n) => descriptor_of(target@) == Some(n as int),
            None => descriptor_of(target@) is None,
        },
{
    let chars = chars_of(target);
    let negative = chars.len() > 0 && chars[0] == '-';
    let signed = negative || (chars.len() > 0 && chars[0] == '+');
    let first: usize = if signed {
        1
    } else {
        0
    };
    let ghost digits = if signed {
        target@.skip(1)
    } else {
        target@
    };
    if first == chars.len() {
        return None;
    }
    let mut value: i64 = 0;
    let mut i: usize = first;
    while i < chars.len()
        invariant
            chars@ == target@,
            digits == target@.skip(first as int),
            first <= i <= chars@.len(),
            value == digits_value(digits.take(i - first)),
            0 <= value <= 0x8000_0000,
            forall|k: int| 0 <= k < i - first ==> '0' <= #[trigger] digits[k] <= '9',
            signed == (target@.len() > 0 && (target@[0] == '-' || target@[0] == '+')),
            digits == (if signed {
                target@.skip(1)
            } else {
                target@
            }),
        decreases chars.len() - i,
    {
        let c = chars[i];
        proof {
            assert(digits[i - first] == c);
        }
        if c < '0' || c > '9' {
            return None;
        }
        let next: i64 = value * 10 + (c as u32 - '0' as u32) as i64;
        proof {
            assert(digits.take(i - first + 1).drop_last() =~= digits.take(i - first));
            assert(next == digits_value(digits.take(i - first + 1)));
        }
        if next > 0x8000_0000 {
            proof {
                if is_digits(digits) {
                    lemma_value_grows(digits, i - first + 1);
                }
            }
            return None;
        }
        value = next;
        i = i + 1;
    }
    proof {
        assert(digits.take(digits.len() as int) =~= digits);
    }
    if negative {
        Some((-value) as i32)
    } else if value <= 0x7fff_ffff {
        Some(value as i32)
    } else {
        None
    }
}

/// A longer run of digits does not denote a smaller number.
proof fn lemma_value_grows(digits: Seq<char>, n: int)
    requires
        is_digits(digits),
        0 <= n <= digits.len(),
    ensures
        digits_value(digits.take(n)) <= digits_value(digits),
    decreases digits.len() - n,
{
    if n < digits.len() {
        lemma_value_grows(digits, n + 1);
        assert(digits.take(n + 1).drop_last() =~= digits.take(n));
    } else {
        assert(digits.take(n) =~= digits);
    }
}

/// A numeral is made of digits and denotes the number it was written for.
pub proof fn decimal_denotes_its_number(n: nat)
    ensures
        is_digits(decimal(n)),
        digits_value(decimal(n)) == n,
    decreases n,
{
    if n < 10 {
        assert(decimal(n).drop_last() =~= Seq::<char>::empty());
        assert(digits_value(decimal(n).drop_last()) == 0);
    } else {
        decimal_denotes_its_number(n / 10);
        assert(decimal(n).drop_last() =~= decimal(n / 10));
    }
}

/// Every descriptor is read back from its decimal numeral.
pub proof fn descriptor_round_trip(fd: i32)
    ensures
        descriptor_of(signed_decimal(fd as int)) == Some(fd as int),
{
    let magnitude = if fd < 0 {
        (-(fd as int)) as nat
    } else {
        fd as nat
    };
    decimal_denotes_its_number(magnitude);
    let text = signed_decimal(fd as int);
    if fd < 0 {
        assert(text.skip(1) =~= decimal(magnitude));
    } else {
        assert('0' <= text[0] <= '9');
    }
}

/// How the ten digits and what stands behind them are read. A digit alone is its
/// number. Behind a target without a sign that is a descriptor, a digit makes ten
/// times the number and the digit, as long as that fits, and anything else spoils it.
/// What is spoilt, or too large, no digit mends.
pub proof fn descriptors_are_read_digit_by_digit(target: Seq<char>, next: char)
    requires
        target.len() > 0,
        target[0] != '-',
        target[0] != '+',
    ensures
        descriptor_of(seq![next]) == if 48 <= next as int <= 57 {
            Some(next as int - 48)
        } else {
            None
        },
        match descriptor_of(target) {
            Some(fd) => {
                let longer = 10 * fd + (next as int - 48);
                &&& 0 <= fd
                &&& descriptor_of(target.push(next)) == if 48 <= next as int <= 57 && longer
                    <= 0x7fff_ffff {
                    Some(longer)
                } else {
                    None
                }
            },
            None => descriptor_of(target.push(next)) is None,
        },
{
    let one = seq![next];
    assert(one.drop_last() =~= Seq::<char>::empty());
    assert(digits_value(one.drop_last()) == 0);
    if next == '-' || next == '+' {
        assert(one.skip(1).len() == 0);
    } else if '0' <= next <= '9' {
        assert(is_digits(one));
    } else {
        assert(!('0' <= one[0] <= '9'));
    }
    let longer = target.push(next);
    assert(longer.drop_last() =~= target);
    assert(longer[0] == target[0]);
    if is_digits(longer) {
        assert forall|i: int| 0 <= i < target.len() implies '0' <= #[trigger] target[i] <= '9' by {
            assert(longer[i] == target[i]);
        }
        assert('0' <= longer[target.len() as int] <= '9');
    } else if is_digits(target) {
        if '0' <= next <= '9' {
            assert forall|i: int| 0 <= i < longer.len() implies '0' <= #[trigger] longer[i]
                <= '9' by {
                if i < target.len() {
                    assert(longer[i] == target[i]);
                }
            }
        }
    }
}

/// What a sign does. A target of nothing, or of a sign alone, is no descriptor. A plus
/// before a target without a sign changes nothing. A minus before one makes the number
/// negative, and lets in the one that has no positive counterpart. Nothing else may
/// bear a sign.
pub proof fn descriptors_bear_one_sign(target: Seq<char>)
    ensures
        descriptor_of(Seq::empty()) is None,
        descriptor_of(seq!['+']) is None,
        descriptor_of(seq!['-']) is None,
        target.len() > 0 && (target[0] == '-' || target[0] == '+') ==> descriptor_of(
            seq!['+'] + target,
        ) is None && descriptor_of(seq!['-'] + target) is None,
        target.len() > 0 && target[0] != '-' && target[0] != '+' ==> {
            &&& descriptor_of(seq!['+'] + target) == descriptor_of(target)
            &&& match descriptor_of(target) {
                Some(fd) => descriptor_of(seq!['-'] + target) == Some(-fd),
                None => descriptor_of(seq!['-'] + target) matches Some(fd) ==> {
                    &&& fd == -0x8000_0000
                    &&& 48 <= target.last() as int <= 57
                    &&& descriptor_of(target.drop_last()) == Some(
                        (0x8000_0000 - (target.last() as int - 48)) / 10,
                    )
                },
            }
        },
{
    let plus = seq!['+'] + target;
    let minus = seq!['-'] + target;
    assert(plus.skip(1) =~= target);
    assert(minus.skip(1) =~= target);
    assert(seq!['+'].skip(1).len() == 0);
    assert(seq!['-'].skip(1).len() == 0);
    if target.len() > 0 && (target[0] == '-' || target[0] == '+') {
        assert(!('0' <= target[0] <= '9'));
    }
    if target.len() > 0 && is_digits(target) {
        let shorter = target.drop_last();
        assert('0' <= target[target.len() - 1] <= '9');
        assert(digits_value(Seq::<char>::empty()) == 0);
        if shorter.len() > 0 {
            assert forall|i: int| 0 <= i < shorter.len() implies '0' <= #[trigger] shorter[i]
                <= '9' by {
                assert(shorter[i] == target[i]);
            }
            assert(shorter[0] == target[0]);
        } else {
            assert(shorter =~= Seq::<char>::empty());
        }
    }
}

/// The least number is a descriptor's as well, one below the negative of the greatest.
pub proof fn least_descriptor(target: Seq<char>, next: char)
    requires
        target.len() > 0,
        target[0] != '-',
        target[0] != '+',
        48 <= next as int <= 57,
        descriptor_of(target) matches Some(fd) && 10 * fd + (next as int - 48) == 0x8000_0000,
    ensures
        descriptor_of(seq!['-'] + target.push(next)) == Some(-0x8000_0000int),
{
    let longer = target.push(next);
    descriptors_are_read_digit_by_digit(target, next);
    assert((seq!['-'] + longer).skip(1) =~= longer);
    assert(longer.drop_last() =~= target);
    assert forall|i: int| 0 <= i < longer.len() implies '0' <= #[trigger] longer[i] <= '9' by {
        if i < target.len() {
            assert(longer[i] == target[i]);
        }
    }
}

} // verus!
