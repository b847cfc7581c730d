//! Small verified text helpers: string comparison and decimal formatting.

use vstd::prelude::*;

verus! {

use vstd::string::StrSliceExecFns;
use vstd::string::StringExecFns;

/// Character-wise string equality.
pub fn str_eq(a: &str, b: &str) -> (r: bool)
    ensures
        r == (a@ == b@),
{
    let na: usize = a.unicode_len();
    let nb: usize = b.unicode_len();
    if na != nb {
        return false;
    }
    let mut i: usize = 0;
    while i < na
        invariant
            na == a@.len(),
            na == b@.len(),
            i <= na,
            forall|j: int| 0 <= j < i ==> a@[j] == b@[j],
        decreases na - i,
    {
        if a.get_char(i) != b.get_char(i) {
            return false;
        }
        i += 1;
    }
    proof {
        assert(a@ =~= b@);
    }
    true
}

/// The decimal digit character of a value below ten.
pub open spec fn decimal_digit(d: int) -> char {
    if d == 0 {
        '0'
    } else if d == 1 {
        '1'
    } else if d == 2 {
        '2'
    } else if d == 3 {
        '3'
    } else if d == 4 {
        '4'
    } else if d == 5 {
        '5'
    } else if d == 6 {
        '6'
    } else if d == 7 {
        '7'
    } else if d == 8 {
        '8'
    } else {
        '9'
    }
}

/// The decimal numeral of a non-negative value, most significant digit first.
pub open spec fn spec_decimal(n: int) -> Seq<char>
    decreases n,
{
    if n < 10 {
        seq![decimal_digit(n)]
    } else {
        spec_decimal(n / 10) + seq![decimal_digit(n % 10)]
    }
}

/// One decimal digit as a string slice.
fn digit_str(d: u8) -> (r: &'static str)
    requires
        d < 10,
    ensures
        r@ =~= seq![decimal_digit(d as int)],
{
    proof {
        reveal_strlit("0");
        reveal_strlit("1");
        reveal_strlit("2");
        reveal_strlit("3");
        reveal_strlit("4");
        reveal_strlit("5");
        reveal_strlit("6");
        reveal_strlit("7");
        reveal_strlit("8");
        reveal_strlit("9");
    }
    if d == 0 {
        "0"
    } else if d == 1 {
        "1"
    } else if d == 2 {
        "2"
    } else if d == 3 {
        "3"
    } else if d == 4 {
        "4"
    } else if d == 5 {
        "5"
    } else if d == 6 {
        "6"
    } else if d == 7 {
        "7"
    } else if d == 8 {
        "8"
    } else {
        "9"
    }
}

/// The decimal numeral of a value, as a string.
pub fn u64_to_string(n: u64) -> (r: String)
    ensures
        r@ == spec_decimal(n as int),
    decreases n,
{
    if n < 10 {
        String::from_str(digit_str(n as u8))
    } else {
        let prefix: String = u64_to_string(n / 10);
        let r = prefix.concat(digit_str((n % 10) as u8));
        proof {
            assert(r@ =~= spec_decimal(n as int));
        }
        r
    }
}

/// The numbered still-image name of a frame: a five-digit zero-padded frame
/// index between a fixed prefix and suffix.
pub open spec fn spec_frame_file_name(i: int) -> Seq<char> {
    "frame_"@ + seq![
        decimal_digit(i / 10000 % 10),
        decimal_digit(i / 1000 % 10),
        decimal_digit(i / 100 % 10),
        decimal_digit(i / 10 % 10),
        decimal_digit(i % 10),
    ] + ".png"@
}

/// Builds the numbered still-image file name of a frame, `frame_` followed by
/// the five-digit zero-padded index and the raster suffix.
pub fn frame_file_name(i: usize) -> (r: String)
    requires
        i < 100000,
    ensures
        r@ == spec_frame_file_name(i as int),
{
    let mut r = String::from_str("frame_");
    r.append(digit_str((i / 10000 % 10) as u8));
    r.append(digit_str((i / 1000 % 10) as u8));
    r.append(digit_str((i / 100 % 10) as u8));
    r.append(digit_str((i / 10 % 10) as u8));
    r.append(digit_str((i % 10) as u8));
    r.append(".png");
    proof {
        assert(r@ =~= spec_frame_file_name(i as int));
    }
    r
}

} // verus!
