//! The OpenSubtitles fingerprint of a video file: its size plus the
//! 64-bit little-endian words of its first and last 64 KiB, written as
//! sixteen hex digits.
use vstd::prelude::*;
use crate::text::from_chars;

verus! {

/// Bytes read from each end of a file.
pub open spec fn chunk_len() -> int {
    65536
}

/// The little-endian 64-bit word at byte `i` of `b`.
pub open spec fn le_word(b: Seq<u8>, i: int) -> int {
    b[i] as int + 0x100 * b[i + 1] + 0x1_0000 * b[i + 2] + 0x100_0000 * b[i + 3] + 0x1_0000_0000
        * b[i + 4] + 0x100_0000_0000 * b[i + 5] + 0x1_0000_0000_0000 * b[i + 6]
        + 0x100_0000_0000_0000 * b[i + 7]
}

/// The sum of the first `n` words of `b`.
pub open spec fn word_sum(b: Seq<u8>, n: int) -> int
    decreases n,
{
    if n <= 0 {
        0
    } else {
        word_sum(b, n - 1) + le_word(b, 8 * (n - 1))
    }
}

/// The lower-case hex digit of `d` (`0 <= d < 16`).
pub open spec fn hex_char(d: int) -> char {
    if d < 10 {
        ((48 + d) as u8) as char
    } else {
        ((87 + d) as u8) as char
    }
}

/// The last `n` hex digits of `v`, most significant first.
pub open spec fn hex_digits(v: nat, n: nat) -> Seq<char>
    decreases n,
{
    if n == 0 {
        Seq::<char>::empty()
    } else {
        hex_digits(v / 16, (n - 1) as nat).push(hex_char((v % 16) as int))
    }
}

/// The fingerprint of a file of `len` bytes whose first and last 64 KiB
/// are `head` and `tail`: the size alone for files under 128 KiB.
pub open spec fn oshash(len: u64, head: Seq<u8>, tail: Seq<u8>) -> Seq<char> {
    if len < 2 * chunk_len() {
        hex_digits(len as nat, 16)
    } else {
        hex_digits(((len + word_sum(head, 8192) + word_sum(tail, 8192)) % 0x1_0000_0000_0000_0000) as nat, 16)
    }
}

fn push_hex(out: &mut Vec<char>, v: u64, n: u32)
    ensures
        final(out)@ == old(out)@ + hex_digits(v as nat, n as nat),
    decreases n,
{
    if n > 0 {
        push_hex(out, v / 16, n - 1);
        let d = (v % 16) as u8;
        let c = if d < 10 {
            (48u8 + d) as char
        } else {
            (87u8 + d) as char
        };
        out.push(c);
        proof {
            assert(hex_digits(v as nat, n as nat) == hex_digits((v / 16) as nat, (n - 1) as nat).push(
                hex_char((v % 16) as int),
            ));
        }
    } else {
        assert(old(out)@ + hex_digits(v as nat, 0) =~= old(out)@);
    }
}

fn words_sum(b: &[u8], acc: u128) -> (r: u128)
    requires
        b@.len() >= 65536,
        acc < 0x1_0000_0000_0000_0000,
    ensures
        r as int == (acc + word_sum(b@, 8192)) % 0x1_0000_0000_0000_0000,
        r < 0x1_0000_0000_0000_0000,
{
    let mut h: u128 = acc;
    let mut k: usize = 0;
    while k < 8192
        invariant
            k <= 8192,
            b@.len() >= 65536,
            h < 0x1_0000_0000_0000_0000,
            h as int == (acc + word_sum(b@, k as int)) % 0x1_0000_0000_0000_0000,
        decreases 8192 - k,
    {
        let i = 8 * k;
        let w: u128 = b[i] as u128 + 0x100 * (b[i + 1] as u128) + 0x1_0000 * (b[i + 2] as u128)
            + 0x100_0000 * (b[i + 3] as u128) + 0x1_0000_0000 * (b[i + 4] as u128) + 0x100_0000_0000
            * (b[i + 5] as u128) + 0x1_0000_0000_0000 * (b[i + 6] as u128) + 0x100_0000_0000_0000
            * (b[i + 7] as u128);
        assert(w as int == le_word(b@, 8 * k));
        assert(w < 0x1_0000_0000_0000_0000);
        let ghost before = h as int;
        h = (h + w) % 0x1_0000_0000_0000_0000;
        proof {
            let m = 0x1_0000_0000_0000_0000int;
            let s = acc + word_sum(b@, k as int);
            assert(word_sum(b@, k + 1) == word_sum(b@, k as int) + le_word(b@, 8 * k));
            vstd::arithmetic::div_mod::lemma_add_mod_noop(s, w as int, m);
            vstd::arithmetic::div_mod::lemma_small_mod(w as nat, m as nat);
            assert((before + w) % m == (s + w) % m);
        }
        k = k + 1;
    }
    h
}

/// The fingerprint of a file of `len` bytes whose first and last 64 KiB
/// are `head` and `tail` (unread, and ignored, for files under 128 KiB).
pub fn oshash_hex(len: u64, head: &[u8], tail: &[u8]) -> (r: String)
    requires
        len >= 2 * chunk_len() ==> head@.len() >= 65536 && tail@.len() >= 65536,
    ensures
        r@ == oshash(len, head@, tail@),
{
    let mut out: Vec<char> = Vec::new();
    if len < 131072 {
        push_hex(&mut out, len, 16);
    } else {
        let h1 = words_sum(head, len as u128);
        let h2 = words_sum(tail, h1);
        proof {
            let m = 0x1_0000_0000_0000_0000int;
            let a = len as int;
            let x = word_sum(head@, 8192);
            let y = word_sum(tail@, 8192);
            vstd::arithmetic::div_mod::lemma_add_mod_noop(a + x, y, m);
            vstd::arithmetic::div_mod::lemma_add_mod_noop_right((a + x) % m, y, m);
            vstd::arithmetic::div_mod::lemma_mod_twice(a + x, m);
            assert(h2 as int == (a + x + y) % m);
        }
        push_hex(&mut out, h2 as u64, 16);
    }
    from_chars(&out)
}

} // verus!
