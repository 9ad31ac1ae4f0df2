//! Conversions between representations of raw bit streams.
//! A bit vector holds one bit per element, most significant bit first.

use vstd::prelude::*;
use crate::patch::push_char;

verus! {

/// Bit `k` of `bits` (0 is the least significant); 0 past the width of a `u64`.
pub open spec fn bit_at(bits: u64, k: int) -> u8 {
    if 0 <= k < 64 {
        ((bits >> (k as u64)) & 1u64) as u8
    } else {
        0
    }
}

/// The `len` low bits of `bits`, most significant first.
pub open spec fn bits_seq(bits: u64, len: nat) -> Seq<u8> {
    Seq::new(len, |j: int| bit_at(bits, len - 1 - j))
}

/// Folds a sequence into a `u8`, shifting left by one and or-ing each element in.
pub open spec fn fold_u8(s: Seq<u8>) -> u8
    decreases s.len(),
{
    if s.len() == 0 {
        0
    } else {
        ((fold_u8(s.drop_last()) << 1u8) | s.last()) as u8
    }
}

/// Folds a sequence into a `u64`, shifting left by one and or-ing each element in.
pub open spec fn fold_u64(s: Seq<u8>) -> u64
    decreases s.len(),
{
    if s.len() == 0 {
        0
    } else {
        ((fold_u64(s.drop_last()) << 1u64) | (s.last() as u64)) as u64
    }
}

/// `s` followed by zeros up to length `n`.
pub open spec fn padded(s: Seq<u8>, n: nat) -> Seq<u8> {
    Seq::new(n, |i: int| if i < s.len() { s[i] } else { 0u8 })
}

/// The smallest multiple of `k` that is at least `n`.
pub open spec fn round_up(n: nat, k: nat) -> nat
    recommends
        k > 0,
{
    if n % k == 0 {
        n
    } else {
        (n - n % k + k) as nat
    }
}

/// Each group of eight bits (the last one padded with zeros) as one byte.
pub open spec fn bytes_of(s: Seq<u8>) -> Seq<u8> {
    let p = padded(s, round_up(s.len(), 8));
    Seq::new(p.len() / 8, |j: int| fold_u8(p.subrange(8 * j, 8 * j + 8)))
}

/// The upper-case hexadecimal digit of a value below 16.
pub open spec fn hex_digit(n: u8) -> char {
    if n <= 9 {
        (n + 48) as char
    } else {
        (n + 55) as char
    }
}

/// Each group of four bits (the last one padded with zeros) as one hex digit.
pub open spec fn hex_of(s: Seq<u8>) -> Seq<char> {
    let p = padded(s, round_up(s.len(), 4));
    Seq::new(p.len() / 4, |j: int| hex_digit(fold_u8(p.subrange(4 * j, 4 * j + 4))))
}

pub open spec fn is_bit_vec(s: Seq<u8>) -> bool {
    forall|i: int| 0 <= i < s.len() ==> #[trigger] s[i] <= 1
}

/// Converts the `out_len` low bits of `bits` to a bit vector (most significant bit first).
pub fn bits_to_vec(bits: u64, out_len: u8) -> (r: Vec<u8>)
    ensures
        r@ == bits_seq(bits, out_len as nat),
{
    let mut output: Vec<u8> = Vec::new();
    let mut j: u8 = 0;
    while j < out_len
        invariant
            j <= out_len,
            output@ == bits_seq(bits, out_len as nat).subrange(0, j as int),
        decreases out_len - j,
    {
        let k: u8 = out_len - 1 - j;
        let b: u8 = if k < 64 {
            ((bits >> k) & 1u64) as u8
        } else {
            0
        };
        output.push(b);
        j = j + 1;
        assert(output@ =~= bits_seq(bits, out_len as nat).subrange(0, j as int));
    }
    assert(output@ =~= bits_seq(bits, out_len as nat));
    output
}

/// Element `i` of `vec` padded with zeros past its end.
fn padded_at(vec: &[u8], i: usize) -> (r: u8)
    ensures
        r == (if i < vec@.len() { vec@[i as int] } else { 0u8 }),
{
    if i < vec.len() {
        vec[i]
    } else {
        0
    }
}

/// Folds `width` elements of `vec` (padded with zeros) from `start` into a `u8`.
fn fold_group(vec: &[u8], start: usize, width: usize, Ghost(n): Ghost<nat>) -> (r: u8)
    requires
        start + width <= n,
        n < usize::MAX,
    ensures
        r == fold_u8(padded(vec@, n).subrange(start as int, start + width)),
{
    let ghost p = padded(vec@, n);
    let mut acc: u8 = 0;
    let mut k: usize = 0;
    while k < width
        invariant
            k <= width,
            start + width <= n,
            n < usize::MAX,
            p == padded(vec@, n),
            acc == fold_u8(p.subrange(start as int, start + k)),
        decreases width - k,
    {
        let x = padded_at(vec, start + k);
        assert(p.subrange(start as int, start + k + 1).drop_last() =~= p.subrange(start as int, start + k));
        acc = (acc << 1u8) | x;
        k = k + 1;
    }
    acc
}

/// Packs a bit vector (first element most significant) into bytes; the last
/// byte is padded with zero bits.
pub fn bit_vec_to_byte_vec(vec: &[u8]) -> (r: Vec<u8>)
    requires
        vec@.len() + 8 < usize::MAX,
    ensures
        r@ == bytes_of(vec@),
{
    let len = vec.len();
    let total: usize = if len % 8 == 0 { len } else { len - len % 8 + 8 };
    let ghost n = round_up(len as nat, 8);
    let mut res: Vec<u8> = Vec::new();
    let mut j: usize = 0;
    while j < total / 8
        invariant
            len == vec@.len(),
            n == round_up(len as nat, 8),
            total == n,
            total % 8 == 0,
            n < usize::MAX,
            j <= total / 8,
            res@ =~= bytes_of(vec@).subrange(0, j as int),
        decreases total / 8 - j,
    {
        let byte = fold_group(vec, 8 * j, 8, Ghost(n));
        assert(bytes_of(vec@).len() == total / 8);
        res.push(byte);
        j = j + 1;
        assert(res@ =~= bytes_of(vec@).subrange(0, j as int));
    }
    assert(res@ =~= bytes_of(vec@));
    res
}

/// Reads a bit vector (first element most significant) as an integer; only the
/// last 64 elements count.
pub fn vec_to_bits(vec: &[u8]) -> (r: u64)
    ensures
        r == fold_u64(vec@),
{
    let mut acc: u64 = 0;
    let mut i: usize = 0;
    while i < vec.len()
        invariant
            i <= vec@.len(),
            acc == fold_u64(vec@.subrange(0, i as int)),
        decreases vec@.len() - i,
    {
        assert(vec@.subrange(0, i + 1).drop_last() =~= vec@.subrange(0, i as int));
        acc = (acc << 1u64) | (vec[i] as u64);
        i = i + 1;
    }
    assert(vec@.subrange(0, vec@.len() as int) =~= vec@);
    acc
}

/// Renders a bit vector as upper-case hexadecimal, four bits per digit; the
/// last digit is padded with zero bits.
pub fn bit_vec_to_hex_string(vec: &[u8]) -> (r: String)
    requires
        is_bit_vec(vec@),
        vec@.len() + 4 < usize::MAX,
    ensures
        r@ == hex_of(vec@),
{
    let len = vec.len();
    let total: usize = if len % 4 == 0 { len } else { len - len % 4 + 4 };
    let ghost n = round_up(len as nat, 4);
    let mut hex_string = String::new();
    let mut j: usize = 0;
    while j < total / 4
        invariant
            len == vec@.len(),
            n == round_up(len as nat, 4),
            total == n,
            total % 4 == 0,
            n < usize::MAX,
            is_bit_vec(vec@),
            j <= total / 4,
            hex_string@ =~= hex_of(vec@).subrange(0, j as int),
        decreases total / 4 - j,
    {
        let nibble = fold_group(vec, 4 * j, 4, Ghost(n));
        proof {
            let g = padded(vec@, n).subrange(4 * j, 4 * j + 4);
            assert(is_bit_vec(g)) by {
                assert forall|i: int| 0 <= i < g.len() implies #[trigger] g[i] <= 1 by {
                    if 4 * j + i < vec@.len() {
                        assert(g[i] == vec@[4 * j + i]);
                    }
                }
            }
            lemma_nibble_bound(g);
            assert((1u8 << 4u8) == 16u8) by (bit_vector);
            assert(hex_of(vec@).len() == total / 4);
        }
        let c: char = if nibble <= 9 {
            (nibble + 48) as char
        } else {
            (nibble + 55) as char
        };
        push_char(&mut hex_string, c);
        j = j + 1;
        assert(hex_string@ =~= hex_of(vec@).subrange(0, j as int));
    }
    assert(hex_string@ =~= hex_of(vec@));
    hex_string
}

/// A fold of at most four bits stays below 16.
proof fn lemma_nibble_bound(s: Seq<u8>)
    requires
        s.len() <= 4,
        is_bit_vec(s),
    ensures
        fold_u8(s) < (1u8 << (s.len() as u8)),
    decreases s.len(),
{
    if s.len() == 0 {
        assert((0u8 < (1u8 << 0u8))) by (bit_vector);
    } else {
        let t = s.drop_last();
        assert(is_bit_vec(t)) by {
            assert forall|i: int| 0 <= i < t.len() implies #[trigger] t[i] <= 1 by {
                assert(t[i] == s[i]);
            }
        }
        lemma_nibble_bound(t);
        let a = fold_u8(t);
        let b = s.last();
        let l = t.len() as u8;
        assert(b <= 1);
        assert(l < 4);
        assert(a < (1u8 << l) && b <= 1 && l < 4 ==> ((a << 1u8) | b) < (1u8 << (l + 1) as u8)) by (bit_vector);
        assert(fold_u8(s) == ((a << 1u8) | b));
        assert(s.len() as u8 == (l + 1) as u8);
    }
}

} // verus!
