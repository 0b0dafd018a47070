//! Stable content hashes and identifiers.
use vstd::prelude::*;
use vstd::utf8::encode_utf8;

use crate::text::push_char;
use crate::text::push_str;

verus! {

pub open spec fn fnv_offset() -> u64 {
    0xcbf29ce484222325
}

pub open spec fn fnv_prime() -> u64 {
    0x100000001b3
}

/// One FNV-1a step: xor the byte in, then multiply modulo 2^64.
pub open spec fn fnv_step(h: u64, b: u8) -> u64 {
    (((h ^ (b as u64)) as nat * fnv_prime() as nat) % 0x1_0000_0000_0000_0000nat) as u64
}

/// 64-bit FNV-1a over a byte sequence.
pub open spec fn fnv1a(bytes: Seq<u8>) -> u64
    decreases bytes.len(),
{
    if bytes.len() == 0 {
        fnv_offset()
    } else {
        fnv_step(fnv1a(bytes.drop_last()), bytes.last())
    }
}

/// The lowercase hexadecimal digit for `d < 16`.
pub open spec fn hex_digit(d: nat) -> char {
    if d < 10 {
        (('0' as u8) + d) as char
    } else {
        (('a' as u8) + (d - 10)) as char
    }
}

/// The last `n` hexadecimal digits of `h`, zero-padded: `format!("{h:0n$x}")`
/// for `h < 16^n`.
pub open spec fn hex_fixed(h: nat, n: nat) -> Seq<char>
    decreases n,
{
    if n == 0 {
        seq![]
    } else {
        hex_fixed(h / 16, (n - 1) as nat).push(hex_digit(h % 16))
    }
}

/// The decimal digit for `d < 10`.
pub open spec fn dec_digit(d: nat) -> char {
    (('0' as u8) + d) as char
}

/// The decimal rendering of `n`, as `format!("{n}")` prints an unsigned integer.
pub open spec fn decimal(n: nat) -> Seq<char>
    decreases n,
{
    if n < 10 {
        seq![dec_digit(n)]
    } else {
        decimal(n / 10).push(dec_digit(n % 10))
    }
}

/// The text of `stable_hash(input)`: FNV-1a of the UTF-8 bytes, as 16
/// lowercase hex digits.
pub open spec fn stable_hash_spec(input: Seq<char>) -> Seq<char> {
    hex_fixed(fnv1a(encode_utf8(input)) as nat, 16)
}

/// The text of `stable_id(prefix, input)`.
pub open spec fn stable_id_spec(prefix: Seq<char>, input: Seq<char>) -> Seq<char> {
    prefix + seq!['_'] + stable_hash_spec(input)
}

pub open spec fn is_hex_char(c: char) -> bool {
    ('0' <= c <= '9') || ('a' <= c <= 'f')
}

pub open spec fn is_dec_char(c: char) -> bool {
    '0' <= c <= '9'
}

pub proof fn lemma_hex_fixed(h: nat, n: nat)
    ensures
        hex_fixed(h, n).len() == n,
        forall|i: int| 0 <= i < n ==> is_hex_char(#[trigger] hex_fixed(h, n)[i]),
    decreases n,
{
    if n > 0 {
        lemma_hex_fixed(h / 16, (n - 1) as nat);
        let d = h % 16;
        assert(is_hex_char(hex_digit(d)));
        assert forall|i: int| 0 <= i < n implies is_hex_char(#[trigger] hex_fixed(h, n)[i]) by {
            if i < n - 1 {
                assert(hex_fixed(h, n)[i] == hex_fixed(h / 16, (n - 1) as nat)[i]);
            }
        }
    }
}

pub proof fn lemma_decimal(n: nat)
    ensures
        decimal(n).len() > 0,
        forall|i: int| 0 <= i < decimal(n).len() ==> is_dec_char(#[trigger] decimal(n)[i]),
    decreases n,
{
    if n >= 10 {
        lemma_decimal(n / 10);
        assert forall|i: int| 0 <= i < decimal(n).len() implies is_dec_char(
            #[trigger] decimal(n)[i],
        ) by {
            if i < decimal(n).len() - 1 {
                assert(decimal(n)[i] == decimal(n / 10)[i]);
            }
        }
    }
}

fn hex_digit_exec(d: u64) -> (c: char)
    requires
        d < 16,
    ensures
        c == hex_digit(d as nat),
{
    let b: u8 = if d < 10 {
        48u8 + (d as u8)
    } else {
        97u8 + ((d - 10) as u8)
    };
    b as char
}

fn dec_digit_exec(d: u64) -> (c: char)
    requires
        d < 10,
    ensures
        c == dec_digit(d as nat),
{
    let b: u8 = 48u8 + (d as u8);
    b as char
}

/// Appends the last `n` hex digits of `h` to `out`.
pub fn push_hex_fixed(out: &mut String, h: u64, n: usize)
    ensures
        final(out)@ == old(out)@ + hex_fixed(h as nat, n as nat),
    decreases n,
{
    if n > 0 {
        push_hex_fixed(out, h / 16, n - 1);
        push_char(out, hex_digit_exec(h % 16));
        proof {
            assert(final(out)@ =~= old(out)@ + hex_fixed(h as nat, n as nat));
        }
    } else {
        proof {
            assert(final(out)@ =~= old(out)@ + hex_fixed(h as nat, n as nat));
        }
    }
}

/// Appends the decimal rendering of `n` to `out`.
pub fn push_decimal(out: &mut String, n: u64)
    ensures
        final(out)@ == old(out)@ + decimal(n as nat),
    decreases n,
{
    if n >= 10 {
        push_decimal(out, n / 10);
    }
    push_char(out, dec_digit_exec(n % 10));
    proof {
        assert(final(out)@ =~= old(out)@ + decimal(n as nat));
    }
}

pub fn decimal_string(n: u64) -> (s: String)
    ensures
        s@ == decimal(n as nat),
{
    let mut s = String::new();
    push_decimal(&mut s, n);
    proof {
        assert(s@ =~= decimal(n as nat));
    }
    s
}

/// 64-bit FNV-1a of the UTF-8 bytes of `input`.
pub fn fnv1a_str(input: &str) -> (h: u64)
    ensures
        h == fnv1a(encode_utf8(input@)),
{
    let bytes = input.as_bytes();
    let mut hash: u64 = 0xcbf29ce484222325;
    let mut i: usize = 0;
    while i < bytes.len()
        invariant
            i <= bytes@.len(),
            bytes@ == encode_utf8(input@),
            hash == fnv1a(bytes@.subrange(0, i as int)),
        decreases bytes@.len() - i,
    {
        proof {
            let t = bytes@.subrange(0, i + 1);
            assert(t.drop_last() =~= bytes@.subrange(0, i as int));
            assert(t.last() == bytes@[i as int]);
        }
        hash = (hash ^ (bytes[i] as u64)).wrapping_mul(0x100000001b3);
        i = i + 1;
    }
    proof {
        assert(bytes@.subrange(0, bytes@.len() as int) =~= bytes@);
    }
    hash
}

/// A stable 64-bit content hash of `input`: FNV-1a over its UTF-8 bytes,
/// rendered as 16 lowercase hex digits.
pub fn stable_hash(input: &str) -> (h: String)
    ensures
        h@ == stable_hash_spec(input@),
        h@.len() == 16,
        forall|i: int| 0 <= i < 16 ==> is_hex_char(#[trigger] h@[i]),
{
    let hash = fnv1a_str(input);
    let mut out = String::new();
    push_hex_fixed(&mut out, hash, 16);
    proof {
        assert(out@ =~= stable_hash_spec(input@));
        lemma_hex_fixed(hash as nat, 16);
    }
    out
}

/// `prefix` and the stable hash of `input`, joined by `_`.
pub fn stable_id(prefix: &str, input: &str) -> (id: String)
    ensures
        id@ == stable_id_spec(prefix@, input@),
{
    let mut out = String::new();
    push_str(&mut out, prefix);
    push_char(&mut out, '_');
    let h = stable_hash(input);
    push_str(&mut out, h.as_str());
    proof {
        assert(out@ =~= stable_id_spec(prefix@, input@));
    }
    out
}

} // verus!
