//! The sharded file layout: a pure, deterministic mapping from an entry id
//! to the relative path of its data file, spreading files across two
//! levels of subdirectories so that no directory accumulates more than
//! about `subdirs_per_level` squared siblings.

use vstd::prelude::*;
use vstd::string::StringExecFns;

use crate::encoding::DataEncoding;

verus! {

/// The character of one decimal digit.
pub open spec fn digit_char(d: nat) -> char {
    if d == 0 {
        '0'
    } else if d == 1 {
        '1'
    } else if d == 2 {
        '2'
    } else if d == 3 {
        '3'
    } else if d == 4 {
        '4'
    } else if d == 5 {
        '5'
    } else if d == 6 {
        '6'
    } else if d == 7 {
        '7'
    } else if d == 8 {
        '8'
    } else {
        '9'
    }
}

/// The decimal digits of a number, most significant first, with no
/// leading zero except for the number zero itself.
pub open spec fn dec_digits(n: nat) -> Seq<char>
    decreases n,
{
    if n < 10 {
        seq![digit_char(n)]
    } else {
        dec_digits(n / 10).push(digit_char(n % 10))
    }
}

/// The file name of the entry with the given id: `data_{id}.{extension}`.
pub open spec fn data_file_name_spec(id: nat, encoding: DataEncoding) -> Seq<char> {
    seq!['d', 'a', 't', 'a', '_'] + dec_digits(id) + seq!['.'] + encoding.extension_spec()
}

/// The relative path of the entry with the given id under a layout with
/// `s` subdirectories per level: `{id % s}/{(id / s) % s}/data_{id}.{ext}`.
pub open spec fn relative_path_spec(id: nat, s: nat, encoding: DataEncoding) -> Seq<char>
    recommends
        s >= 1,
{
    dec_digits(id % s) + seq!['/'] + dec_digits((id / s) % s) + seq!['/'] + data_file_name_spec(
        id,
        encoding,
    )
}

/// The text of one decimal digit.
fn digit_str(d: u64) -> (r: &'static str)
    requires
        d < 10,
    ensures
        r@ == seq![digit_char(d as nat)],
{
    let r = if d == 0 {
        "0"
    } else if d == 1 {
        "1"
    } else if d == 2 {
        "2"
    } else if d == 3 {
        "3"
    } else if d == 4 {
        "4"
    } else if d == 5 {
        "5"
    } else if d == 6 {
        "6"
    } else if d == 7 {
        "7"
    } else if d == 8 {
        "8"
    } else {
        "9"
    };
    proof {
        reveal_strlit("0");
        reveal_strlit("1");
        reveal_strlit("2");
        reveal_strlit("3");
        reveal_strlit("4");
        reveal_strlit("5");
        reveal_strlit("6");
        reveal_strlit("7");
        reveal_strlit("8");
        reveal_strlit("9");
        assert(r@ =~= seq![digit_char(d as nat)]);
    }
    r
}

/// Append the decimal text of `n` to the string.
fn push_decimal(s: &mut String, n: u64)
    ensures
        final(s)@ == old(s)@ + dec_digits(n as nat),
    decreases n,
{
    if n >= 10 {
        push_decimal(s, n / 10);
    }
    s.append(digit_str(n % 10));
    proof {
        if n >= 10 {
            assert(final(s)@ =~= old(s)@ + dec_digits(n as nat));
        } else {
            assert(final(s)@ =~= old(s)@ + dec_digits(n as nat));
        }
    }
}

/// The decimal text of a number.
pub fn u64_to_decimal(n: u64) -> (r: String)
    ensures
        r@ == dec_digits(n as nat),
{
    let mut r = String::new();
    push_decimal(&mut r, n);
    proof {
        assert(r@ =~= dec_digits(n as nat));
    }
    r
}

/// The relative path of the data file of the entry with the given id.
///
/// The mapping is pure and deterministic: the same id yields the same path
/// for the lifetime of a configuration's `subdirs_per_level` value.
pub fn relative_data_path(id: u64, subdirs: u32, encoding: &DataEncoding) -> (r: String)
    requires
        subdirs >= 1,
    ensures
        r@ == relative_path_spec(id as nat, subdirs as nat, *encoding),
{
    let s: u64 = subdirs as u64;
    let d1: u64 = id % s;
    let d2: u64 = (id / s) % s;
    let mut r = String::new();
    push_decimal(&mut r, d1);
    r.append("/");
    push_decimal(&mut r, d2);
    r.append("/");
    r.append("data_");
    push_decimal(&mut r, id);
    r.append(".");
    r.append(encoding.extension());
    proof {
        reveal_strlit("/");
        reveal_strlit("data_");
        reveal_strlit(".");
        assert(r@ =~= relative_path_spec(id as nat, subdirs as nat, *encoding));
    }
    r
}

} // verus!
