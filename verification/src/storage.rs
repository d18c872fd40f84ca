//! Naming of the stored image files.
use vstd::prelude::*;
use vstd::string::*;

use crate::text::push_char;

verus! {

/// The lowercase hexadecimal digit of `d`.
pub open spec fn hex_char(d: nat) -> char {
    if d < 10 {
        ((48 + d) as u8) as char
    } else {
        ((87 + d) as u8) as char
    }
}

/// The last `count` hexadecimal digits of `n`, zero-padded, most
/// significant first.
pub open spec fn hex_digits(n: nat, count: nat) -> Seq<char>
    decreases count,
{
    if count == 0 {
        Seq::empty()
    } else {
        hex_digits(n / 16, (count - 1) as nat).push(hex_char(n % 16))
    }
}

/// The file name of the PNG stored for the content hash `hash`: its 16
/// lowercase hexadecimal digits, then `.png`.
pub open spec fn image_file_name_text(hash: u64) -> Seq<char> {
    hex_digits(hash as nat, 16) + ".png"@
}

fn hex_digit(d: u64) -> (c: char)
    requires
        d < 16,
    ensures
        c == hex_char(d as nat),
{
    if d < 10 {
        let b: u8 = 48 + d as u8;
        b as char
    } else {
        let b: u8 = 87 + d as u8;
        b as char
    }
}

fn push_hex(s: &mut String, n: u64, count: u64)
    ensures
        final(s)@ == old(s)@ + hex_digits(n as nat, count as nat),
    decreases count,
{
    if count > 0 {
        push_hex(s, n / 16, count - 1);
        push_char(s, hex_digit(n % 16));
        assert(s@ =~= old(s)@ + hex_digits(n as nat, count as nat));
    } else {
        assert(s@ =~= old(s)@ + hex_digits(n as nat, count as nat));
    }
}

/// The name of the PNG file for an image with content hash `hash`
/// (`{hash:016x}.png`).
pub fn image_file_name(hash: u64) -> (r: String)
    ensures
        r@ == image_file_name_text(hash),
{
    let mut s = String::new();
    push_hex(&mut s, hash, 16);
    s.append(".png");
    s
}

/// `16^e`.
pub open spec fn pow16(e: nat) -> nat
    decreases e,
{
    if e == 0 {
        1
    } else {
        16 * pow16((e - 1) as nat)
    }
}

proof fn lemma_hex_char_injective(a: nat, b: nat)
    requires
        a < 16,
        b < 16,
        hex_char(a) == hex_char(b),
    ensures
        a == b,
{
    assert(((48 + a) as u8) as char as nat == 48 + a);
    assert(((48 + b) as u8) as char as nat == 48 + b);
    assert(((87 + a) as u8) as char as nat == 87 + a);
    assert(((87 + b) as u8) as char as nat == 87 + b);
}

proof fn lemma_pow16_positive(e: nat)
    ensures
        pow16(e) > 0,
    decreases e,
{
    if e > 0 {
        lemma_pow16_positive((e - 1) as nat);
    }
}

/// Equal digit strings mean equal values modulo `16^count`.
proof fn lemma_hex_digits_determine(a: nat, b: nat, count: nat)
    requires
        hex_digits(a, count) == hex_digits(b, count),
    ensures
        a % pow16(count) == b % pow16(count),
    decreases count,
{
    if count > 0 {
        let c1 = (count - 1) as nat;
        assert(hex_digits(a, count).drop_last() == hex_digits(a / 16, c1));
        assert(hex_digits(b, count).drop_last() == hex_digits(b / 16, c1));
        lemma_hex_digits_determine(a / 16, b / 16, c1);
        assert(hex_digits(a, count).last() == hex_char(a % 16));
        assert(hex_digits(b, count).last() == hex_char(b % 16));
        lemma_hex_char_injective(a % 16, b % 16);
        lemma_pow16_positive(c1);
        vstd::arithmetic::div_mod::lemma_breakdown(a as int, 16, pow16(c1) as int);
        vstd::arithmetic::div_mod::lemma_breakdown(b as int, 16, pow16(c1) as int);
    }
}

/// Different content hashes get different PNG file names, so one image's
/// file never overwrites another's.
pub proof fn lemma_image_file_names_distinct(a: u64, b: u64)
    requires
        a != b,
    ensures
        image_file_name_text(a) != image_file_name_text(b),
{
    if image_file_name_text(a) == image_file_name_text(b) {
        let ha = hex_digits(a as nat, 16);
        let hb = hex_digits(b as nat, 16);
        lemma_hex_len(a as nat, 16);
        lemma_hex_len(b as nat, 16);
        assert(ha == image_file_name_text(a).take(16));
        assert(hb == image_file_name_text(b).take(16));
        lemma_hex_digits_determine(a as nat, b as nat, 16);
        assert(pow16(16) == 0x1_0000_0000_0000_0000nat) by {
            reveal_with_fuel(pow16, 17);
        }
    }
}

proof fn lemma_hex_len(n: nat, count: nat)
    ensures
        hex_digits(n, count).len() == count,
    decreases count,
{
    if count > 0 {
        lemma_hex_len(n / 16, (count - 1) as nat);
    }
}

} // verus!
