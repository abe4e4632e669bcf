//! Well-formed UTF-8, as the codec requires of participant names.
//!
//! [`is_utf8`] is the standard definition: one- to four-byte sequences
//! with continuation bytes in `0x80..0xC0`, overlong encodings and
//! surrogate code points excluded.  [`check_utf8`] decides it.

use vstd::prelude::*;

verus! {

/// A UTF-8 continuation byte.
pub open spec fn utf8_cont(b: u8) -> bool {
    0x80 <= b < 0xC0
}

/// `s` is a well-formed UTF-8 byte sequence.
pub open spec fn is_utf8(s: Seq<u8>) -> bool
    decreases s.len(),
{
    if s.len() == 0 {
        true
    } else {
        let b0 = s[0];
        if b0 < 0x80 {
            is_utf8(s.skip(1))
        } else if 0xC2 <= b0 < 0xE0 {
            s.len() >= 2 && utf8_cont(s[1]) && is_utf8(s.skip(2))
        } else if 0xE0 <= b0 < 0xF0 {
            s.len() >= 3 && utf8_cont(s[1]) && utf8_cont(s[2]) && (b0 == 0xE0 ==> s[1] >= 0xA0)
                && (b0 == 0xED ==> s[1] < 0xA0) && is_utf8(s.skip(3))
        } else if 0xF0 <= b0 < 0xF5 {
            s.len() >= 4 && utf8_cont(s[1]) && utf8_cont(s[2]) && utf8_cont(s[3]) && (b0 == 0xF0
                ==> s[1] >= 0x90) && (b0 == 0xF4 ==> s[1] < 0x90) && is_utf8(s.skip(4))
        } else {
            false
        }
    }
}

/// Decides [`is_utf8`].
pub fn check_utf8(s: &Vec<u8>) -> (r: bool)
    ensures
        r == is_utf8(s@),
{
    let n = s.len();
    let mut i: usize = 0;
    assert(s@.skip(0) =~= s@);
    while i < n
        invariant
            i <= n,
            n == s@.len(),
            is_utf8(s@) == is_utf8(s@.skip(i as int)),
        decreases n - i,
    {
        let ghost rest = s@.skip(i as int);
        let b0 = s[i];
        assert(rest[0] == b0);
        if b0 < 0x80 {
            assert(s@.skip(i + 1) =~= rest.skip(1));
            i = i + 1;
        } else if 0xC2 <= b0 && b0 < 0xE0 {
            if n - i < 2 {
                return false;
            }
            let b1 = s[i + 1];
            assert(rest[1] == b1);
            if !(0x80 <= b1 && b1 < 0xC0) {
                return false;
            }
            assert(s@.skip(i + 2) =~= rest.skip(2));
            i = i + 2;
        } else if 0xE0 <= b0 && b0 < 0xF0 {
            if n - i < 3 {
                return false;
            }
            let b1 = s[i + 1];
            let b2 = s[i + 2];
            assert(rest[1] == b1 && rest[2] == b2);
            if !(0x80 <= b1 && b1 < 0xC0) || !(0x80 <= b2 && b2 < 0xC0) {
                return false;
            }
            if b0 == 0xE0 && b1 < 0xA0 {
                return false;
            }
            if b0 == 0xED && b1 >= 0xA0 {
                return false;
            }
            assert(s@.skip(i + 3) =~= rest.skip(3));
            i = i + 3;
        } else if 0xF0 <= b0 && b0 < 0xF5 {
            if n - i < 4 {
                return false;
            }
            let b1 = s[i + 1];
            let b2 = s[i + 2];
            let b3 = s[i + 3];
            assert(rest[1] == b1 && rest[2] == b2 && rest[3] == b3);
            if !(0x80 <= b1 && b1 < 0xC0) || !(0x80 <= b2 && b2 < 0xC0) || !(0x80 <= b3 && b3
                < 0xC0) {
                return false;
            }
            if b0 == 0xF0 && b1 < 0x90 {
                return false;
            }
            if b0 == 0xF4 && b1 >= 0x90 {
                return false;
            }
            assert(s@.skip(i + 4) =~= rest.skip(4));
            i = i + 4;
        } else {
            return false;
        }
    }
    assert(s@.skip(i as int) =~= Seq::<u8>::empty());
    true
}

} // verus!
