use vstd::prelude::*;
use crate::version::Version;

verus! {

/// The decimal digit character for `d < 10`.
pub open spec fn dec_digit(d: nat) -> char {
    if d == 0 {
        '0'
    } else if d == 1 {
        '1'
    } else if d == 2 {
        '2'
    } else if d == 3 {
        '3'
    } else if d == 4 {
        '4'
    } else if d == 5 {
        '5'
    } else if d == 6 {
        '6'
    } else if d == 7 {
        '7'
    } else if d == 8 {
        '8'
    } else {
        '9'
    }
}

/// The decimal numeral of `n`, most significant digit first.
pub open spec fn dec_seq(n: nat) -> Seq<char>
    decreases n,
{
    if n < 10 {
        seq![dec_digit(n)]
    } else {
        dec_seq(n / 10).push(dec_digit(n % 10))
    }
}

/// The one-character string for digit `d`.
fn digit_str(d: u64) -> (r: &'static str)
    requires
        d < 10,
    ensures
        r@ == seq![dec_digit(d as nat)],
{
    proof {
        reveal_strlit("0");
        reveal_strlit("1");
        reveal_strlit("2");
        reveal_strlit("3");
        reveal_strlit("4");
        reveal_strlit("5");
        reveal_strlit("6");
        reveal_strlit("7");
        reveal_strlit("8");
        reveal_strlit("9");
        assert("0"@ =~= seq!['0']);
        assert("1"@ =~= seq!['1']);
        assert("2"@ =~= seq!['2']);
        assert("3"@ =~= seq!['3']);
        assert("4"@ =~= seq!['4']);
        assert("5"@ =~= seq!['5']);
        assert("6"@ =~= seq!['6']);
        assert("7"@ =~= seq!['7']);
        assert("8"@ =~= seq!['8']);
        assert("9"@ =~= seq!['9']);
    }
    if d == 0 {
        "0"
    } else if d == 1 {
        "1"
    } else if d == 2 {
        "2"
    } else if d == 3 {
        "3"
    } else if d == 4 {
        "4"
    } else if d == 5 {
        "5"
    } else if d == 6 {
        "6"
    } else if d == 7 {
        "7"
    } else if d == 8 {
        "8"
    } else {
        "9"
    }
}

/// Render `n` in decimal.
pub fn u64_text(n: u64) -> (r: String)
    ensures
        r@ == dec_seq(n as nat),
    decreases n,
{
    if n < 10 {
        String::from_str(digit_str(n))
    } else {
        proof {
            assert(n / 10 < n && (n as nat) / 10 == (n / 10) as nat && (n as nat) % 10 == (n % 10)
                as nat) by (nonlinear_arith)
                requires
                    10 <= n < 0x1_0000_0000_0000_0000,
            ;
        }
        let mut s = u64_text(n / 10);
        s.append(digit_str(n % 10));
        proof {
            assert(s@ =~= dec_seq(n as nat));
        }
        s
    }
}

/// The text of a version: the release segments joined by dots, then `rc` and
/// the pre-release number for a pre-release.
pub open spec fn version_text_spec(v: Version) -> Seq<char> {
    let rel = dec_seq(v.major as nat) + seq!['.'] + dec_seq(v.minor as nat) + seq!['.'] + dec_seq(
        v.micro as nat,
    );
    if v.pre_flag {
        rel + seq!['r', 'c'] + dec_seq(v.pre_num as nat)
    } else {
        rel
    }
}

/// Render a version.
pub fn version_text(v: &Version) -> (r: String)
    ensures
        r@ == version_text_spec(*v),
{
    proof {
        reveal_strlit(".");
        reveal_strlit("rc");
        assert("."@ =~= seq!['.']);
        assert("rc"@ =~= seq!['r', 'c']);
    }
    let mut s = u64_text(v.major);
    s.append(".");
    let minor = u64_text(v.minor);
    s.append(minor.as_str());
    s.append(".");
    let micro = u64_text(v.micro);
    s.append(micro.as_str());
    if v.pre_flag {
        s.append("rc");
        let pre = u64_text(v.pre_num);
        s.append(pre.as_str());
        proof {
            assert(s@ =~= version_text_spec(*v));
        }
        s
    } else {
        proof {
            assert(s@ =~= version_text_spec(*v));
        }
        s
    }
}

} // verus!
