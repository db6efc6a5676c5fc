//! Hexadecimal text.

use crate::table::take_step;
use crate::text::{
    cat, chars_of, decimal, own, starts, starts_with, text_of, trim, trim_of, write_number,
};
use vstd::prelude::*;
use vstd::string::*;
use vstd::utf8::{encode_utf8, is_ascii_chars, is_ascii_chars_encode_utf8};

verus! {

/// The hexadecimal digit of a number below 16.
pub open spec fn hex_char(n: nat) -> char {
    if n < 10 {
        ('0' as u32 + n) as char
    } else {
        ('a' as u32 + n - 10) as char
    }
}

fn write_digit(n: u8) -> (c: char)
    requires
        n < 16,
    ensures
        c == hex_char(n as nat),
{
    if n < 10 {
        (48u8 + n) as char
    } else {
        (87u8 + n) as char
    }
}

/// Bytes in hexadecimal, two digits each.
pub open spec fn hex_text(bs: Seq<u8>) -> Seq<char>
    decreases bs.len(),
{
    if bs.len() == 0 {
        Seq::empty()
    } else {
        hex_text(bs.drop_last()).push(hex_char(bs.last() as nat / 16)).push(
            hex_char(bs.last() as nat % 16),
        )
    }
}

/// Writes bytes in hexadecimal.
pub fn hex_encode(bs: &[u8]) -> (s: String)
    ensures
        s@ == hex_text(bs@),
{
    let mut s = String::new();
    assert(s@ =~= Seq::<char>::empty());
    let mut i: usize = 0;
    while i < bs.len()
        invariant
            i <= bs@.len(),
            s@ == hex_text(bs@.take(i as int)),
        decreases bs@.len() - i,
    {
        proof {
            take_step(bs@, i as int);
        }
        let b: u8 = bs[i];
        s.push(write_digit(b / 16));
        s.push(write_digit(b % 16));
        i += 1;
    }
    assert(bs@.take(i as int) =~= bs@);
    s
}

/// The value of a hexadecimal digit.
pub open spec fn nibble_of(b: u8) -> Option<u8> {
    if 48 <= b <= 57 {
        Some((b - 48) as u8)
    } else if 97 <= b <= 102 {
        Some((b - 87) as u8)
    } else if 65 <= b <= 70 {
        Some((b - 55) as u8)
    } else {
        None
    }
}

fn nibble(b: u8) -> (r: Option<u8>)
    ensures
        r == nibble_of(b),
{
    if 48 <= b && b <= 57 {
        Some(b - 48)
    } else if 97 <= b && b <= 102 {
        Some(b - 87)
    } else if 65 <= b && b <= 70 {
        Some(b - 55)
    } else {
        None
    }
}

/// Whether every byte is a hexadecimal digit.
pub open spec fn all_hex(bs: Seq<u8>) -> bool {
    forall|i: int| 0 <= i < bs.len() ==> nibble_of(#[trigger] bs[i]) is Some
}

/// The byte of a pair of digits.
pub open spec fn byte_at(bs: Seq<u8>, i: int) -> u8 {
    (nibble_of(bs[2 * i])->0 * 16 + nibble_of(bs[2 * i + 1])->0) as u8
}

/// The bytes that pairs of digits stand for, or what is wrong.
pub open spec fn decoded(bs: Seq<u8>) -> Result<Seq<u8>, Seq<char>> {
    if bs.len() % 2 != 0 {
        Err("odd hex length "@ + decimal(bs.len()))
    } else if !all_hex(bs) {
        Err("bad hex digit"@)
    } else {
        Ok(Seq::new(bs.len() / 2, |i: int| byte_at(bs, i)))
    }
}

/// Reads bytes in hexadecimal.
pub fn hex_decode(s: &str) -> (r: Result<Vec<u8>, String>)
    ensures
        decoded(encode_utf8(s@)) == (match r {
            Ok(v) => Ok(v@),
            Err(m) => Err(m@),
        }),
{
    let bs = s.as_bytes();
    if bs.len() % 2 != 0 {
        return Err(cat("odd hex length ", write_number(bs.len() as u64).as_str()));
    }
    let mut out: Vec<u8> = Vec::new();
    let mut i: usize = 0;
    assert(bs.len() == bs@.len());
    while i < bs.len()
        invariant
            i <= bs@.len(),
            i % 2 == 0,
            bs@.len() % 2 == 0,
            bs@ == encode_utf8(s@),
            out@.len() == i / 2,
            forall|k: int| 0 <= k < i ==> nibble_of(#[trigger] bs@[k]) is Some,
            forall|k: int| 0 <= k < out@.len() ==> #[trigger] out@[k] == byte_at(bs@, k),
        decreases bs@.len() - i,
    {
        match (nibble(bs[i]), nibble(bs[i + 1])) {
            (Some(hi), Some(lo)) => {
                let b: u8 = hi * 16 + lo;
                proof {
                    assert(b == byte_at(bs@, i as int / 2));
                }
                out.push(b);
            },
            _ => {
                proof {
                    assert(nibble_of(bs@[i as int]) is None || nibble_of(bs@[i + 1]) is None);
                }
                return Err(own("bad hex digit"));
            },
        }
        i += 2;
    }
    assert(out@ =~= Seq::new(bs@.len() / 2, |k: int| byte_at(bs@, k)));
    Ok(out)
}

pub(crate) proof fn hex_text_digits(bs: Seq<u8>)
    ensures
        hex_text(bs).len() == 2 * bs.len(),
        is_ascii_chars(hex_text(bs)),
        forall|i: int|
            0 <= i < bs.len() ==> hex_text(bs)[2 * i] == hex_char(#[trigger] bs[i] as nat / 16)
                && hex_text(bs)[2 * i + 1] == hex_char(bs[i] as nat % 16),
    decreases bs.len(),
{
    if bs.len() > 0 {
        let n = bs.len() - 1;
        hex_text_digits(bs.drop_last());
        let before = hex_text(bs.drop_last());
        assert forall|i: int| 0 <= i < bs.len() implies hex_text(bs)[2 * i] == hex_char(
            #[trigger] bs[i] as nat / 16,
        ) && hex_text(bs)[2 * i + 1] == hex_char(bs[i] as nat % 16) by {
            if i < n {
                assert(bs.drop_last()[i] == bs[i]);
                assert(hex_text(bs)[2 * i] == before[2 * i]);
                assert(hex_text(bs)[2 * i + 1] == before[2 * i + 1]);
            }
        }
    }
}

/// Bytes in hexadecimal are digits throughout.
pub proof fn hex_text_is_plain(bs: Seq<u8>)
    ensures
        forall|k: int|
            0 <= k < hex_text(bs).len() ==> ('0' <= #[trigger] hex_text(bs)[k] <= '9' || 'a'
                <= hex_text(bs)[k] <= 'f'),
    decreases bs.len(),
{
    if bs.len() > 0 {
        let before = hex_text(bs.drop_last());
        let after = hex_text(bs);
        hex_text_is_plain(bs.drop_last());
        assert forall|k: int| 0 <= k < after.len() implies ('0' <= #[trigger] after[k] <= '9' || 'a'
            <= after[k] <= 'f') by {
            if k < before.len() {
                assert(after[k] == before[k]);
            }
        }
    }
}

/// Bytes written in hexadecimal are read back.
pub proof fn hex_reads_back(bs: Seq<u8>)
    ensures
        decoded(encode_utf8(hex_text(bs))) == Ok::<Seq<u8>, Seq<char>>(bs),
{
    hex_text_digits(bs);
    let t = hex_text(bs);
    is_ascii_chars_encode_utf8(t);
    let e = encode_utf8(t);
    assert(e.len() == t.len());
    assert forall|i: int| 0 <= i < bs.len() implies nibble_of(e[2 * i]) == Some(
        (#[trigger] bs[i] / 16) as u8,
    ) && nibble_of(e[2 * i + 1]) == Some((bs[i] % 16) as u8) by {
        assert(t[2 * i] == hex_char(bs[i] as nat / 16));
        assert(e[2 * i] == t[2 * i] as u8);
        assert(e[2 * i + 1] == t[2 * i + 1] as u8);
    }
    assert forall|k: int| 0 <= k < e.len() implies nibble_of(#[trigger] e[k]) is Some by {
        let i = k / 2;
        assert(nibble_of(e[2 * i]) == Some((bs[i] / 16) as u8));
        assert(k == 2 * i || k == 2 * i + 1);
    }
    let d = Seq::new(e.len() / 2, |i: int| byte_at(e, i));
    assert forall|i: int| 0 <= i < bs.len() implies d[i] == bs[i] by {
        assert(nibble_of(e[2 * i]) == Some((bs[i] / 16) as u8));
    }
    assert(d =~= bs);
}

/// A text without the `0x` at its start, however often it stands there.
pub open spec fn without_0x(s: Seq<char>) -> Seq<char>
    decreases s.len(),
{
    if starts(s, "0x"@) && "0x"@.len() > 0 {
        without_0x(s.subrange("0x"@.len() as int, s.len() as int))
    } else {
        s
    }
}

fn strip_0x(s: String) -> (r: String)
    ensures
        r@ == without_0x(s@),
{
    let mut r = s;
    proof {
        reveal_strlit("0x");
    }
    while starts_with(r.as_str(), "0x")
        invariant
            without_0x(s@) == without_0x(r@),
            "0x"@.len() == 2,
        decreases r@.len(),
    {
        let v = chars_of(r.as_str());
        r = text_of(&v, 2, v.len());
    }
    r
}

/// The byte of two characters read as a number: a plus sign may stand before a
/// single digit.
pub open spec fn pair_value(a: u8, b: u8) -> Option<u8> {
    if a == 43 {
        nibble_of(b)
    } else {
        match (nibble_of(a), nibble_of(b)) {
            (Some(hi), Some(lo)) => Some((hi * 16 + lo) as u8),
            _ => None,
        }
    }
}

/// The bytes of the pairs from position `i` on, or the first that is none.
pub open spec fn pairs_from(bs: Seq<u8>, i: int) -> Result<Seq<u8>, Seq<char>>
    decreases bs.len() - i,
{
    if i < 0 || i + 1 >= bs.len() {
        Ok(Seq::empty())
    } else {
        match pair_value(bs[i], bs[i + 1]) {
            None => Err(
                "hex digit "@ + decimal(i as nat) + ".."@ + decimal((i + 2) as nat)
                    + ": invalid digit found in string"@,
            ),
            Some(b) => match pairs_from(bs, i + 2) {
                Err(e) => Err(e),
                Ok(rest) => Ok(seq![b] + rest),
            },
        }
    }
}

/// The bytes of a command-line argument in hexadecimal, or what is wrong.
pub open spec fn argument_bytes(s: Seq<char>) -> Result<Seq<u8>, Seq<char>> {
    let bs = encode_utf8(without_0x(trim_of(s)));
    if bs.len() % 2 != 0 {
        Err("odd-length hex"@)
    } else {
        pairs_from(bs, 0)
    }
}

/// Reads a command-line argument in hexadecimal, with or without `0x`.
pub fn decode_hex(s: &str) -> (r: Result<Vec<u8>, String>)
    ensures
        argument_bytes(s@) == (match r {
            Ok(v) => Ok(v@),
            Err(m) => Err(m@),
        }),
{
    let t = strip_0x(trim(s));
    let bs = t.as_str().as_bytes();
    if bs.len() % 2 != 0 {
        return Err(own("odd-length hex"));
    }
    let ghost e = bs@;
    let mut out: Vec<u8> = Vec::new();
    let mut i: usize = 0;
    assert(bs.len() == bs@.len());
    while i < bs.len()
        invariant
            i <= bs@.len(),
            i % 2 == 0,
            bs@.len() % 2 == 0,
            bs@.len() <= usize::MAX,
            e == bs@,
            argument_bytes(s@) == pairs_from(e, 0),
            match pairs_from(e, i as int) {
                Ok(rest) => pairs_from(e, 0) == Ok::<Seq<u8>, Seq<char>>(out@ + rest),
                Err(m) => pairs_from(e, 0) == Err::<Seq<u8>, Seq<char>>(m),
            },
        decreases bs@.len() - i,
    {
        let a: u8 = bs[i];
        let b: u8 = bs[i + 1];
        let v: Option<u8> = if a == 43 {
            nibble(b)
        } else {
            match (nibble(a), nibble(b)) {
                (Some(hi), Some(lo)) => Some(hi * 16 + lo),
                _ => None,
            }
        };
        match v {
            Some(x) => {
                let ghost before = out@;
                out.push(x);
                proof {
                    if pairs_from(e, i + 2) is Ok {
                        let rest = pairs_from(e, i + 2)->Ok_0;
                        assert(before + (seq![x] + rest) =~= out@ + rest);
                    }
                }
            },
            None => {
                let mut m = cat("hex digit ", write_number(i as u64).as_str());
                m.append("..");
                m.append(write_number(i as u64 + 2).as_str());
                m.append(": invalid digit found in string");
                return Err(m);
            },
        }
        i += 2;
    }
    assert(out@ + Seq::<u8>::empty() =~= out@);
    Ok(out)
}

/// Four hexadecimal digits.
pub open spec fn hex4(n: u16) -> Seq<char> {
    hex_text(seq![(n / 256) as u8, (n % 256) as u8])
}

/// Writes a number with four hexadecimal digits.
pub fn write_hex4(n: u16) -> (s: String)
    ensures
        s@ == hex4(n),
{
    let b: [u8; 2] = [(n / 256) as u8, (n % 256) as u8];
    assert(b@ =~= seq![(n / 256) as u8, (n % 256) as u8]);
    hex_encode(&b)
}

/// Eight hexadecimal digits.
pub open spec fn hex8(n: u32) -> Seq<char> {
    hex4((n / 0x1_0000) as u16) + hex4((n % 0x1_0000) as u16)
}

/// Writes a number with eight hexadecimal digits.
pub fn write_hex8(n: u32) -> (s: String)
    ensures
        s@ == hex8(n),
{
    cat(write_hex4((n / 0x1_0000) as u16).as_str(), write_hex4((n % 0x1_0000) as u16).as_str())
}

} // verus!
