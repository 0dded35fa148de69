//! Decimal and hexadecimal rendering of the numbers that appear in archive
//! paths and file names: unpadded decimal for year directories, two- and
//! four-digit zero-padded decimal for date and time fields, and eight-digit
//! uppercase hexadecimal for CRC values.
use vstd::prelude::*;

verus! {

/// The decimal digit character for a value below ten.
pub open spec fn dec_char(d: int) -> char
    recommends
        0 <= d < 10,
{
    if d == 0 {
        '0'
    } else if d == 1 {
        '1'
    } else if d == 2 {
        '2'
    } else if d == 3 {
        '3'
    } else if d == 4 {
        '4'
    } else if d == 5 {
        '5'
    } else if d == 6 {
        '6'
    } else if d == 7 {
        '7'
    } else if d == 8 {
        '8'
    } else {
        '9'
    }
}

/// The uppercase hexadecimal digit character for a value below sixteen.
pub open spec fn hex_char(d: int) -> char
    recommends
        0 <= d < 16,
{
    if d < 10 {
        dec_char(d)
    } else if d == 10 {
        'A'
    } else if d == 11 {
        'B'
    } else if d == 12 {
        'C'
    } else if d == 13 {
        'D'
    } else if d == 14 {
        'E'
    } else {
        'F'
    }
}

/// The unpadded decimal rendering of a natural number, most significant
/// digit first.
pub open spec fn dec_chars(n: nat) -> Seq<char>
    decreases n,
{
    if n < 10 {
        seq![dec_char(n as int)]
    } else {
        dec_chars(n / 10).push(dec_char((n % 10) as int))
    }
}

/// Two decimal digits, zero padded.
pub open spec fn pad2_chars(n: int) -> Seq<char>
    recommends
        0 <= n < 100,
{
    seq![dec_char(n / 10 % 10), dec_char(n % 10)]
}

/// Four decimal digits, zero padded.
pub open spec fn pad4_chars(n: int) -> Seq<char>
    recommends
        0 <= n < 10000,
{
    seq![
        dec_char(n / 1000 % 10),
        dec_char(n / 100 % 10),
        dec_char(n / 10 % 10),
        dec_char(n % 10),
    ]
}

/// Eight uppercase hexadecimal digits, zero padded: the `%08X` rendering of
/// a 32-bit value.
pub open spec fn hex8_chars(n: int) -> Seq<char>
    recommends
        0 <= n < 0x1_0000_0000,
{
    seq![
        hex_char(n / 0x10000000 % 16),
        hex_char(n / 0x1000000 % 16),
        hex_char(n / 0x100000 % 16),
        hex_char(n / 0x10000 % 16),
        hex_char(n / 0x1000 % 16),
        hex_char(n / 0x100 % 16),
        hex_char(n / 0x10 % 16),
        hex_char(n % 16),
    ]
}

/// Whether two string slices hold the same characters.
pub fn str_eq(a: &str, b: &str) -> (r: bool)
    ensures
        r == (a@ == b@),
{
    let ao = a.to_owned();
    ao.eq(&b.to_owned())
}

/// The one-character string for a decimal digit.
pub fn digit_str(d: u8) -> (r: &'static str)
    requires
        d < 10,
    ensures
        r@ == seq![dec_char(d as int)],
{
    match d {
        0 => {
            proof {
                reveal_strlit("0");
                assert("0"@ =~= seq![dec_char(0)]);
            }
            "0"
        },
        1 => {
            proof {
                reveal_strlit("1");
                assert("1"@ =~= seq![dec_char(1)]);
            }
            "1"
        },
        2 => {
            proof {
                reveal_strlit("2");
                assert("2"@ =~= seq![dec_char(2)]);
            }
            "2"
        },
        3 => {
            proof {
                reveal_strlit("3");
                assert("3"@ =~= seq![dec_char(3)]);
            }
            "3"
        },
        4 => {
            proof {
                reveal_strlit("4");
                assert("4"@ =~= seq![dec_char(4)]);
            }
            "4"
        },
        5 => {
            proof {
                reveal_strlit("5");
                assert("5"@ =~= seq![dec_char(5)]);
            }
            "5"
        },
        6 => {
            proof {
                reveal_strlit("6");
                assert("6"@ =~= seq![dec_char(6)]);
            }
            "6"
        },
        7 => {
            proof {
                reveal_strlit("7");
                assert("7"@ =~= seq![dec_char(7)]);
            }
            "7"
        },
        8 => {
            proof {
                reveal_strlit("8");
                assert("8"@ =~= seq![dec_char(8)]);
            }
            "8"
        },
        _ => {
            proof {
                reveal_strlit("9");
                assert("9"@ =~= seq![dec_char(9)]);
            }
            "9"
        },
    }
}

/// The one-character string for an uppercase hexadecimal digit.
pub fn hex_digit_str(d: u8) -> (r: &'static str)
    requires
        d < 16,
    ensures
        r@ == seq![hex_char(d as int)],
{
    if d < 10 {
        digit_str(d)
    } else {
        match d {
            10 => {
                proof {
                    reveal_strlit("A");
                    assert("A"@ =~= seq![hex_char(10)]);
                }
                "A"
            },
            11 => {
                proof {
                    reveal_strlit("B");
                    assert("B"@ =~= seq![hex_char(11)]);
                }
                "B"
            },
            12 => {
                proof {
                    reveal_strlit("C");
                    assert("C"@ =~= seq![hex_char(12)]);
                }
                "C"
            },
            13 => {
                proof {
                    reveal_strlit("D");
                    assert("D"@ =~= seq![hex_char(13)]);
                }
                "D"
            },
            14 => {
                proof {
                    reveal_strlit("E");
                    assert("E"@ =~= seq![hex_char(14)]);
                }
                "E"
            },
            _ => {
                proof {
                    reveal_strlit("F");
                    assert("F"@ =~= seq![hex_char(15)]);
                }
                "F"
            },
        }
    }
}

/// Appends the unpadded decimal rendering of `n` to `out`.
pub fn append_u64_dec(out: &mut String, n: u64)
    ensures
        final(out)@ == old(out)@ + dec_chars(n as nat),
    decreases n,
{
    if n < 10 {
        out.append(digit_str(n as u8));
    } else {
        append_u64_dec(out, n / 10);
        out.append(digit_str((n % 10) as u8));
        proof {
            assert(final(out)@ =~= old(out)@ + dec_chars(n as nat));
        }
    }
}

/// The unpadded decimal rendering of a 64-bit value.
pub fn u64_dec_string(n: u64) -> (r: String)
    ensures
        r@ == dec_chars(n as nat),
{
    let mut s = String::new();
    append_u64_dec(&mut s, n);
    proof {
        assert(s@ =~= dec_chars(n as nat));
    }
    s
}

/// The unpadded decimal rendering of a 32-bit value.
pub fn u32_dec_string(n: u32) -> (r: String)
    ensures
        r@ == dec_chars(n as nat),
{
    u64_dec_string(n as u64)
}

/// Appends the two-digit zero-padded decimal rendering of `n` to `out`.
pub fn append_pad2(out: &mut String, n: u8)
    requires
        n < 100,
    ensures
        final(out)@ == old(out)@ + pad2_chars(n as int),
{
    out.append(digit_str(n / 10));
    out.append(digit_str(n % 10));
    proof {
        assert(final(out)@ =~= old(out)@ + pad2_chars(n as int));
    }
}

/// Appends the four-digit zero-padded decimal rendering of `n` to `out`.
pub fn append_pad4(out: &mut String, n: u16)
    requires
        n < 10000,
    ensures
        final(out)@ == old(out)@ + pad4_chars(n as int),
{
    out.append(digit_str((n / 1000) as u8));
    out.append(digit_str((n / 100 % 10) as u8));
    out.append(digit_str((n / 10 % 10) as u8));
    out.append(digit_str((n % 10) as u8));
    proof {
        assert(final(out)@ =~= old(out)@ + pad4_chars(n as int));
    }
}

/// Appends the eight-digit uppercase hexadecimal rendering of `n` to `out`.
pub fn append_hex8(out: &mut String, n: u32)
    ensures
        final(out)@ == old(out)@ + hex8_chars(n as int),
{
    out.append(hex_digit_str((n / 0x10000000) as u8));
    out.append(hex_digit_str((n / 0x1000000 % 16) as u8));
    out.append(hex_digit_str((n / 0x100000 % 16) as u8));
    out.append(hex_digit_str((n / 0x10000 % 16) as u8));
    out.append(hex_digit_str((n / 0x1000 % 16) as u8));
    out.append(hex_digit_str((n / 0x100 % 16) as u8));
    out.append(hex_digit_str((n / 0x10 % 16) as u8));
    out.append(hex_digit_str((n % 16) as u8));
    proof {
        assert(final(out)@ =~= old(out)@ + hex8_chars(n as int));
    }
}

/// The eight-digit uppercase hexadecimal rendering of a 32-bit value.
pub fn hex8_string(n: u32) -> (r: String)
    ensures
        r@ == hex8_chars(n as int),
{
    let mut s = String::new();
    append_hex8(&mut s, n);
    proof {
        assert(s@ =~= hex8_chars(n as int));
    }
    s
}

} // verus!
