//! Partition type codes and the names that stand for them.
//!
//! A [`Kind`] is a nonzero one-byte partition type identifier.  It is read
//! from a string that is either one of a small set of well-known aliases
//! (`"linux"`, `"efi"`, ...) or the hexadecimal value of the code itself.

use crate::error::Error;
use vstd::prelude::*;

verus! {

/// A nonzero partition type code, as stored in a table entry.
#[derive(Clone, Copy, Debug, PartialEq, Eq, Structural)]
pub struct Kind {
    code: u8,
}

impl View for Kind {
    type V = u8;

    closed spec fn view(&self) -> u8 {
        self.code
    }
}

/// The value of one hexadecimal digit, upper or lower case.
pub open spec fn spec_hex_digit(c: char) -> Option<u8> {
    let v = c as u32;
    if 48 <= v && v <= 57 {
        Some((v - 48) as u8)
    } else if 97 <= v && v <= 102 {
        Some((v - 87) as u8)
    } else if 65 <= v && v <= 70 {
        Some((v - 55) as u8)
    } else {
        None
    }
}

/// The value of a string of hexadecimal digits, most significant first;
/// `None` as soon as any character is not a digit.  The empty string counts
/// as zero: emptiness is ruled out separately by [`spec_parse_hex`].
pub open spec fn spec_hex_value(s: Seq<char>) -> Option<int>
    decreases s.len(),
{
    if s.len() == 0 {
        Some(0)
    } else {
        match (spec_hex_value(s.drop_last()), spec_hex_digit(s.last())) {
            (Some(v), Some(d)) => Some(16 * v + d),
            _ => None,
        }
    }
}

/// A type code written in hexadecimal, with an optional leading `+` sign:
/// at least one digit, value between 1 and 255.  Zero is rejected because it
/// is the "empty slot" sentinel of the table format.
pub open spec fn spec_parse_hex(s: Seq<char>) -> Option<u8> {
    let digits = if s.len() > 0 && s[0] == '+' {
        s.skip(1)
    } else {
        s
    };
    if digits.len() == 0 {
        None
    } else {
        match spec_hex_value(digits) {
            Some(v) => if 1 <= v && v <= 255 {
                Some(v as u8)
            } else {
                None
            },
            None => None,
        }
    }
}

/// The type code a string resolves to: a well-known alias, or failing that
/// its hexadecimal value; `None` when it is neither.
pub open spec fn spec_kind_of(s: Seq<char>) -> Option<u8> {
    if s == "fat12"@ {
        Some(0x01u8)
    } else if s == "fat16"@ {
        Some(0x04u8)
    } else if s == "ntfs"@ {
        Some(0x07u8)
    } else if s == "fat32"@ {
        Some(0x0Cu8)
    } else if s == "linuxswap"@ {
        Some(0x82u8)
    } else if s == "linux"@ {
        Some(0x83u8)
    } else if s == "efi"@ {
        Some(0xEFu8)
    } else {
        spec_parse_hex(s)
    }
}

/// Character-by-character string comparison.
fn str_eq(a: &str, b: &str) -> (r: bool)
    ensures
        r == (a@ == b@),
{
    let alen = a.unicode_len();
    let blen = b.unicode_len();
    if alen != blen {
        return false;
    }
    let mut i: usize = 0;
    while i < alen
        invariant
            alen == a@.len(),
            alen == b@.len(),
            i <= alen,
            forall|k: int| 0 <= k < i ==> a@[k] == b@[k],
        decreases alen - i,
    {
        if a.get_char(i) != b.get_char(i) {
            return false;
        }
        i = i + 1;
    }
    proof {
        assert(a@ =~= b@);
    }
    true
}

/// The value of one hexadecimal digit, upper or lower case.
fn hex_digit(c: char) -> (r: Option<u8>)
    ensures
        r == spec_hex_digit(c),
{
    let v = c as u32;
    if 48 <= v && v <= 57 {
        Some((v - 48) as u8)
    } else if 97 <= v && v <= 102 {
        Some((v - 87) as u8)
    } else if 65 <= v && v <= 70 {
        Some((v - 55) as u8)
    } else {
        None
    }
}

/// A string whose hexadecimal value is defined cannot contain a non-digit.
proof fn lemma_hex_value_digit(t: Seq<char>, k: int)
    requires
        spec_hex_value(t) is Some,
        0 <= k < t.len(),
    ensures
        spec_hex_digit(t[k]) is Some,
    decreases t.len(),
{
    if k < t.len() - 1 {
        assert(t.drop_last()[k] == t[k]);
        lemma_hex_value_digit(t.drop_last(), k);
    }
}

/// A defined hexadecimal value is never negative.
proof fn lemma_hex_value_nonneg(t: Seq<char>)
    requires
        spec_hex_value(t) is Some,
    ensures
        spec_hex_value(t)->Some_0 >= 0,
    decreases t.len(),
{
    if t.len() > 0 {
        lemma_hex_value_nonneg(t.drop_last());
    }
}

/// Digits only ever raise the value: every prefix of a defined hexadecimal
/// string has a defined value no larger than the whole string's.
proof fn lemma_hex_value_prefix_le(t: Seq<char>, i: int)
    requires
        0 <= i <= t.len(),
        spec_hex_value(t) is Some,
    ensures
        spec_hex_value(t.take(i)) is Some,
        spec_hex_value(t.take(i))->Some_0 <= spec_hex_value(t)->Some_0,
    decreases t.len() - i,
{
    if i == t.len() {
        assert(t.take(i) =~= t);
    } else {
        lemma_hex_value_prefix_le(t, i + 1);
        let u = t.take(i + 1);
        assert(u.drop_last() =~= t.take(i));
        assert(u.last() == t[i]);
        lemma_hex_value_nonneg(t.take(i));
    }
}

impl Kind {
    /// The raw one-byte type code.
    pub fn get(&self) -> (r: u8)
        ensures
            r == self@,
    {
        self.code
    }

    /// Resolves a partition type string: one of the aliases `fat12`,
    /// `fat16`, `ntfs`, `fat32`, `linuxswap`, `linux`, `efi`, or the
    /// hexadecimal value of a nonzero type code.
    #[verifier::loop_isolation(false)]
    pub fn from_str(s: &str) -> (r: Result<Kind, Error>)
        ensures
            match r {
                Ok(k) => spec_kind_of(s@) == Some(k@),
                Err(e) => spec_kind_of(s@) is None && e is Int,
            },
    {
        if str_eq(s, "fat12") {
            return Ok(Kind { code: 0x01 });
        }
        if str_eq(s, "fat16") {
            return Ok(Kind { code: 0x04 });
        }
        if str_eq(s, "ntfs") {
            return Ok(Kind { code: 0x07 });
        }
        if str_eq(s, "fat32") {
            return Ok(Kind { code: 0x0C });
        }
        if str_eq(s, "linuxswap") {
            return Ok(Kind { code: 0x82 });
        }
        if str_eq(s, "linux") {
            return Ok(Kind { code: 0x83 });
        }
        if str_eq(s, "efi") {
            return Ok(Kind { code: 0xEF });
        }

        let n = s.unicode_len();
        let start: usize = if n > 0 && s.get_char(0) == '+' {
            1
        } else {
            0
        };
        let ghost digits = s@.skip(start as int);
        proof {
            assert(s@.skip(0) =~= s@);
        }
        if start >= n {
            return Err(Error::Int);
        }

        let mut val: u32 = 0;
        let mut i: usize = start;
        while i < n
            invariant
                start <= i <= n,
                spec_hex_value(digits.take(i - start)) == Some(val as int),
                val <= 255,
            decreases n - i,
        {
            let ghost k = i - start;
            let c = s.get_char(i);
            proof {
                assert(digits[k as int] == s@[i as int]);
            }
            match hex_digit(c) {
                None => {
                    proof {
                        if spec_hex_value(digits) is Some {
                            lemma_hex_value_digit(digits, k as int);
                        }
                    }
                    return Err(Error::Int);
                },
                Some(d) => {
                    let new_val = val * 16 + d as u32;
                    proof {
                        let u = digits.take(k + 1);
                        assert(u.drop_last() =~= digits.take(k as int));
                        assert(u.last() == digits[k as int]);
                        assert(spec_hex_value(u) == Some(16 * (val as int) + d));
                    }
                    if new_val > 255 {
                        proof {
                            if spec_hex_value(digits) is Some {
                                lemma_hex_value_prefix_le(digits, k + 1);
                            }
                        }
                        return Err(Error::Int);
                    }
                    val = new_val;
                    i = i + 1;
                },
            }
        }
        proof {
            assert(digits.take(i - start) =~= digits);
        }
        if val == 0 {
            return Err(Error::Int);
        }
        Ok(Kind { code: val as u8 })
    }
}

impl core::str::FromStr for Kind {
    type Err = Error;

    /// Same resolution as [`Kind::from_str`].
    fn from_str(s: &str) -> Result<Kind, Error> {
        Kind::from_str(s)
    }
}

} // verus!
