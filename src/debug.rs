//! Line layout for printing the contents of collections.
//!
//! A vector prints one line per element, `label[index] = value`, with the
//! index right-aligned to the width of the vector's length.

use vstd::prelude::*;
use crate::patch::{chars_of, extend, string_of};

verus! {

/// Whether printed indices start at 0 or at 1.
#[derive(Debug, Clone, Copy, PartialEq, Eq, Structural)]
pub enum IdxMode {
    Based0,
    Based1,
}

/// The first printed index.
pub open spec fn idx_base(mode: IdxMode) -> nat {
    match mode {
        IdxMode::Based0 => 0,
        IdxMode::Based1 => 1,
    }
}

/// The digit character of a value below the radix.
pub open spec fn digit_char(d: u8) -> char {
    (d + 48) as char
}

/// The digits of `n` in radix `b` (2 to 10), most significant first, without
/// leading zeros.
pub open spec fn digits(n: nat, b: nat) -> Seq<char>
    recommends
        2 <= b <= 10,
    decreases n,
    via digits_decreases
{
    if n < b || b < 2 {
        seq![digit_char(n as u8)]
    } else {
        digits(n / b, b).push(digit_char((n % b) as u8))
    }
}

#[via_fn]
proof fn digits_decreases(n: nat, b: nat) {
    if n >= b && b >= 2 {
        assert(n / b < n) by (nonlinear_arith)
            requires
                n >= b,
                b >= 2,
        ;
    }
}

/// `s` preceded by copies of `c` up to width `w`.
pub open spec fn pad_left(s: Seq<char>, w: nat, c: char) -> Seq<char> {
    if s.len() >= w {
        s
    } else {
        Seq::new((w - s.len()) as nat, |i: int| c) + s
    }
}

/// The width of the indices of a vector of `len` elements: the number of
/// decimal digits of `len` (1 for an empty vector).
pub open spec fn index_width(len: nat) -> nat {
    digits(len, 10).len()
}

/// The line `label[index] = value`, the index right-aligned to `width`.
pub open spec fn element_line(label: Seq<char>, index: nat, width: nat, value: Seq<char>) -> Seq<
    char,
> {
    label + seq!['['] + pad_left(digits(index, 10), width, ' ') + seq![']', ' ', '=', ' '] + value
}

proof fn lemma_digits_len(n: nat, b: nat)
    requires
        2 <= b <= 10,
    ensures
        1 <= digits(n, b).len() <= n + 1,
    decreases n,
{
    if n >= b {
        assert(n / b < n && n / b + 1 <= n) by (nonlinear_arith)
            requires
                n >= b,
                b >= 2,
        ;
        lemma_digits_len(n / b, b);
    }
}

/// The digits of `n` in radix `b`.
fn digits_of(n: u64, b: u64) -> (r: Vec<char>)
    requires
        2 <= b <= 10,
    ensures
        r@ == digits(n as nat, b as nat),
    decreases n,
{
    if n < b {
        let mut v: Vec<char> = Vec::new();
        v.push(((n as u8) + 48) as char);
        v
    } else {
        assert(n / b < n) by (nonlinear_arith)
            requires
                n >= b,
                b >= 2,
        ;
        let mut v = digits_of(n / b, b);
        let d = (n % b) as u8;
        v.push((d + 48) as char);
        v
    }
}

/// `s` preceded by copies of `c` up to width `w`.
fn pad_chars(s: &Vec<char>, w: usize, c: char) -> (r: Vec<char>)
    ensures
        r@ == pad_left(s@, w as nat, c),
{
    if s.len() >= w {
        let mut out: Vec<char> = Vec::new();
        extend(&mut out, s);
        assert(out@ =~= s@);
        return out;
    }
    let fill = w - s.len();
    let mut out: Vec<char> = Vec::new();
    let mut i: usize = 0;
    while i < fill
        invariant
            i <= fill,
            out@ == Seq::new(i as nat, |k: int| c),
        decreases fill - i,
    {
        out.push(c);
        i = i + 1;
        assert(out@ =~= Seq::new(i as nat, |k: int| c));
    }
    extend(&mut out, s);
    assert(out@ =~= pad_left(s@, w as nat, c));
    out
}

/// The width of the printed indices of a vector of `len` elements.
pub fn idx_padding(len: usize) -> (r: usize)
    ensures
        r == index_width(len as nat),
{
    proof {
        lemma_digits_len(len as nat, 10);
    }
    digits_of(len as u64, 10).len()
}

/// The lines `label[index] = value` for rendered values, indices counted
/// from the base of `idx_mode` and right-aligned to the width of the count.
pub fn vector_display(data: &Vec<String>, label: &str, idx_mode: IdxMode) -> (r: Vec<String>)
    ensures
        r@.len() == data@.len(),
        forall|i: int| #![auto]
            0 <= i < r@.len() ==> r@[i]@ == element_line(
                label@,
                (i + idx_base(idx_mode)) as nat,
                index_width(data@.len()),
                data@[i]@,
            ),
{
    let base: usize = match idx_mode {
        IdxMode::Based0 => 0,
        IdxMode::Based1 => 1,
    };
    let width = idx_padding(data.len());
    let lab = chars_of(label);
    let mut out: Vec<String> = Vec::new();
    let mut i: usize = 0;
    while i < data.len()
        invariant
            i <= data@.len(),
            base == idx_base(idx_mode),
            width == index_width(data@.len()),
            lab@ == label@,
            out@.len() == i,
            forall|k: int| #![auto]
                0 <= k < i ==> out@[k]@ == element_line(
                    label@,
                    (k + idx_base(idx_mode)) as nat,
                    index_width(data@.len()),
                    data@[k]@,
                ),
        decreases data@.len() - i,
    {
        let value = chars_of(data[i].as_str());
        let line = index_line(&lab, i + base, width, &value);
        out.push(line);
        i = i + 1;
    }
    out
}

/// The line `label[index] = value`.
fn index_line(lab: &Vec<char>, index: usize, width: usize, value: &Vec<char>) -> (r: String)
    ensures
        r@ == element_line(lab@, index as nat, width as nat, value@),
{
    let idx = digits_of(index as u64, 10);
    let padded = pad_chars(&idx, width, ' ');
    let mut line: Vec<char> = Vec::new();
    extend(&mut line, lab);
    line.push('[');
    extend(&mut line, &padded);
    line.push(']');
    line.push(' ');
    line.push('=');
    line.push(' ');
    extend(&mut line, value);
    assert(line@ =~= element_line(lab@, index as nat, width as nat, value@));
    string_of(&line)
}

/// The binary digits of `v`, zero-padded to `bits` digits.
pub open spec fn binary_text(v: u64, bits: nat) -> Seq<char> {
    pad_left(digits(v as nat, 2), bits, '0')
}

/// The lines `label[index] = bits` of `data`, each value in binary
/// zero-padded to `bits` digits.
pub fn vector_display_bits(data: &[u64], label: &str, bits: usize, idx_mode: IdxMode) -> (r: Vec<
    String,
>)
    ensures
        r@.len() == data@.len(),
        forall|i: int| #![auto]
            0 <= i < r@.len() ==> r@[i]@ == element_line(
                label@,
                (i + idx_base(idx_mode)) as nat,
                index_width(data@.len()),
                binary_text(data@[i], bits as nat),
            ),
{
    let base: usize = match idx_mode {
        IdxMode::Based0 => 0,
        IdxMode::Based1 => 1,
    };
    let width = idx_padding(data.len());
    let lab = chars_of(label);
    let mut out: Vec<String> = Vec::new();
    let mut i: usize = 0;
    while i < data.len()
        invariant
            i <= data@.len(),
            base == idx_base(idx_mode),
            width == index_width(data@.len()),
            lab@ == label@,
            out@.len() == i,
            forall|k: int| #![auto]
                0 <= k < i ==> out@[k]@ == element_line(
                    label@,
                    (k + idx_base(idx_mode)) as nat,
                    index_width(data@.len()),
                    binary_text(data@[k], bits as nat),
                ),
        decreases data@.len() - i,
    {
        let b = digits_of(data[i], 2);
        let value = pad_chars(&b, bits, '0');
        let line = index_line(&lab, i + base, width, &value);
        out.push(line);
        i = i + 1;
    }
    out
}

} // verus!
