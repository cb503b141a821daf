//! Rendering of hierarchical numbers: "Chapter N: " at the top level,
//! dot-joined counter values below it.

use vstd::prelude::*;

verus! {

/// The character for one decimal digit.
pub open spec fn digit_char(d: int) -> char {
    if d == 0 {
        '0'
    } else if d == 1 {
        '1'
    } else if d == 2 {
        '2'
    } else if d == 3 {
        '3'
    } else if d == 4 {
        '4'
    } else if d == 5 {
        '5'
    } else if d == 6 {
        '6'
    } else if d == 7 {
        '7'
    } else if d == 8 {
        '8'
    } else {
        '9'
    }
}

/// The decimal digits of `n`, most significant first.
pub open spec fn dec_digits(n: int) -> Seq<char>
    recommends
        n >= 0,
    decreases n,
{
    if n < 10 {
        seq![digit_char(n)]
    } else {
        dec_digits(n / 10).push(digit_char(n % 10))
    }
}

/// The first `level` counter slots joined with a dot.
pub open spec fn joined_upto(nums: Seq<u32>, level: int) -> Seq<char>
    recommends
        1 <= level <= nums.len(),
    decreases level,
{
    if level <= 1 {
        dec_digits(nums[0] as int)
    } else {
        joined_upto(nums, level - 1) + seq!['.'] + dec_digits(nums[level - 1] as int)
    }
}

/// What a heading's number reads as. At the top level the very first heading
/// of the numbered range (counter 1) gets no prefix at all, and every later
/// one gets a chapter label; deeper levels get the dot-joined counters down
/// to their own level.
pub open spec fn format_spec(nums: Seq<u32>, level: int) -> Seq<char>
    recommends
        1 <= level <= nums.len(),
{
    if level == 1 {
        if nums[0] == 1 {
            Seq::empty()
        } else {
            "Chapter "@ + dec_digits(nums[0] as int) + ": "@
        }
    } else {
        joined_upto(nums, level)
    }
}

/// Appends the character for the decimal digit `d`.
fn push_digit(s: &mut String, d: u32)
    requires
        d < 10,
    ensures
        final(s)@ == old(s)@.push(digit_char(d as int)),
{
    proof {
        reveal_strlit("0");
        reveal_strlit("1");
        reveal_strlit("2");
        reveal_strlit("3");
        reveal_strlit("4");
        reveal_strlit("5");
        reveal_strlit("6");
        reveal_strlit("7");
        reveal_strlit("8");
        reveal_strlit("9");
    }
    let lit: &str = if d == 0 {
        "0"
    } else if d == 1 {
        "1"
    } else if d == 2 {
        "2"
    } else if d == 3 {
        "3"
    } else if d == 4 {
        "4"
    } else if d == 5 {
        "5"
    } else if d == 6 {
        "6"
    } else if d == 7 {
        "7"
    } else if d == 8 {
        "8"
    } else {
        "9"
    };
    s.append(lit);
    proof {
        assert(s@ =~= old(s)@.push(digit_char(d as int)));
    }
}

/// Appends the decimal digits of `n`, most significant first.
fn push_decimal(s: &mut String, n: u32)
    ensures
        final(s)@ == old(s)@ + dec_digits(n as int),
    decreases n,
{
    if n >= 10 {
        push_decimal(s, n / 10);
        push_digit(s, n % 10);
        proof {
            assert(s@ =~= old(s)@ + dec_digits(n as int));
        }
    } else {
        push_digit(s, n);
        proof {
            assert(s@ =~= old(s)@ + dec_digits(n as int));
        }
    }
}

/// Renders the number a heading at `level` reads as, from the counters that
/// already include that heading.
pub fn format_section_numbers(nums: &[u32], level: usize) -> (s: String)
    requires
        1 <= level <= nums@.len(),
    ensures
        s@ == format_spec(nums@, level as int),
{
    if level == 1 {
        if nums[0] == 1 {
            String::new()
        } else {
            let mut s = String::new();
            s.append("Chapter ");
            push_decimal(&mut s, nums[0]);
            s.append(": ");
            s
        }
    } else {
        let mut s = String::new();
        push_decimal(&mut s, nums[0]);
        let mut i: usize = 1;
        while i < level
            invariant
                1 <= i <= level <= nums@.len(),
                s@ == joined_upto(nums@, i as int),
            decreases level - i,
        {
            s.append(".");
            push_decimal(&mut s, nums[i]);
            proof {
                reveal_strlit(".");
                assert(s@ =~= joined_upto(nums@, i + 1));
            }
            i += 1;
        }
        s
    }
}

} // verus!
