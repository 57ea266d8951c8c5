//! Text and packed-bitmap forms of a symbol.

use vstd::prelude::*;
use vstd::arithmetic::power2::{lemma2_to64, lemma_pow2_unfold, pow2};
use qrcode::types::Color;
use qrcode::QrCode;

verus! {

/// One symbol in a form for transport: its modules packed eight to a byte
/// and written in base64, or drawn as text.
pub enum QrData {
    Base64 { width: usize, data: String },
    String(String),
}

/// Modules per side of `code`, quiet zone excluded.
pub uninterp spec fn width_of(code: QrCode) -> nat;

/// The modules of `code` row by row, `true` for dark.
pub uninterp spec fn modules_of(code: QrCode) -> Seq<bool>;

/// `code` drawn as text: `'#'` for a dark module, a space for a light one,
/// quiet zone included.
pub uninterp spec fn text_of(code: QrCode) -> Seq<char>;

/// The standard, padded base64 text of `bytes`.
pub uninterp spec fn base64_of(bytes: Seq<u8>) -> Seq<char>;

/// Relies on `qrcode::QrCode::width`: the modules per side of the symbol.
#[verifier::external_body]
fn symbol_width(code: &QrCode) -> (r: usize)
    ensures
        r as nat == width_of(*code),
{
    code.width()
}

/// Relies on `qrcode::QrCode::to_colors`: the symbol's modules, each told
/// apart as dark or light.
#[verifier::external_body]
fn dark_modules(code: &QrCode) -> (r: Vec<bool>)
    ensures
        r@ == modules_of(*code),
{
    code.to_colors().iter().map(|c| match c {
        Color::Dark => true,
        Color::Light => false,
    }).collect()
}

/// Relies on `qrcode::render::Renderer::build` for `char` pixels, with
/// `' '` for light and `'#'` for dark modules.
#[verifier::external_body]
pub(crate) fn text_render(code: &QrCode) -> (r: String)
    ensures
        r@ == text_of(*code),
{
    code.render::<char>().light_color(' ').dark_color('#').build()
}

/// Relies on `base64::encode`: the standard alphabet with padding.
#[verifier::external_body]
fn to_base64_text(bytes: &Vec<u8>) -> (r: String)
    ensures
        r@ == base64_of(bytes@),
{
    base64::encode(bytes)
}

/// Relies on `String::push_str`: appends `tail` to `s`.
#[verifier::external_body]
pub(crate) fn append_str(s: &mut String, tail: &str)
    ensures
        final(s)@ == old(s)@ + tail@,
{
    s.push_str(tail)
}

/// `d` is the text form of `code`.
pub open spec fn is_text_form(d: QrData, code: QrCode) -> bool {
    d matches QrData::String(s) && s@ == text_of(code)
}

/// `d` is the packed-bitmap form of `code`.
pub open spec fn is_base64_form(d: QrData, code: QrCode) -> bool {
    d matches QrData::Base64 { width, data }
        && width as nat == width_of(code)
        && data@ == base64_of(packed_modules(modules_of(code)))
}

/// 1 for a dark module `i`, 0 for a light one or one past the end.
pub open spec fn module_bit(dark: Seq<bool>, i: int) -> int {
    if 0 <= i < dark.len() && dark[i] { 1 } else { 0 }
}

/// The number whose binary digits, most significant first, are the first
/// `k` modules of byte `b` (modules `8 * b` up to `8 * b + k`).
pub open spec fn packed_prefix(dark: Seq<bool>, b: int, k: nat) -> int
    decreases k,
{
    if k == 0 {
        0
    } else {
        2 * packed_prefix(dark, b, (k - 1) as nat) + module_bit(dark, 8 * b + k - 1)
    }
}

/// The modules packed eight to a byte, the first in the most significant
/// bit, the last byte filled up with light modules.
pub open spec fn packed_modules(dark: Seq<bool>) -> Seq<u8> {
    Seq::new(((dark.len() + 7) / 8) as nat, |b: int| packed_prefix(dark, b, 8) as u8)
}

proof fn lemma_packed_prefix_bound(dark: Seq<bool>, b: int, k: nat)
    ensures
        0 <= packed_prefix(dark, b, k) < pow2(k),
    decreases k,
{
    if k == 0 {
        lemma2_to64();
    } else {
        lemma_packed_prefix_bound(dark, b, (k - 1) as nat);
        lemma_pow2_unfold(k);
    }
}

/// Packs modules eight to a byte, most significant bit first.
pub fn pack_modules(dark: &Vec<bool>) -> (r: Vec<u8>)
    ensures
        r@ == packed_modules(dark@),
{
    let n = dark.len();
    let count: usize = n / 8 + if n % 8 == 0 { 0 } else { 1 };
    assert(count == (n + 7) / 8);
    let mut bytes: Vec<u8> = Vec::new();
    let mut b: usize = 0;
    while b < count
        invariant
            count == (dark@.len() + 7) / 8,
            n == dark@.len(),
            b <= count,
            bytes@.len() == b,
            forall|j: int| 0 <= j < b ==> #[trigger] bytes@[j] == packed_prefix(dark@, j, 8) as u8,
        decreases count - b,
    {
        let mut byte: u8 = 0;
        let mut k: usize = 0;
        while k < 8
            invariant
                b < count,
                count == (dark@.len() + 7) / 8,
                n == dark@.len(),
                k <= 8,
                byte as int == packed_prefix(dark@, b as int, k as nat),
            decreases 8 - k,
        {
            proof {
                lemma_packed_prefix_bound(dark@, b as int, (k + 1) as nat);
                lemma2_to64();
                assert(pow2((k + 1) as nat) <= 256);
            }
            let i = b * 8 + k;
            let bit: u8 = if i < n && dark[i] { 1 } else { 0 };
            assert(bit as int == module_bit(dark@, 8 * b + k));
            byte = byte * 2 + bit;
            k += 1;
        }
        bytes.push(byte);
        b += 1;
    }
    assert(bytes@ =~= packed_modules(dark@));
    bytes
}

impl QrData {
    /// The packed-bitmap form of `code`: its width, and its modules packed
    /// eight to a byte and written in base64.
    pub fn base64_from(code: &QrCode) -> (r: Self)
        ensures
            is_base64_form(r, *code),
    {
        let width = symbol_width(code);
        let bytes = pack_modules(&dark_modules(code));
        QrData::Base64 { width, data: to_base64_text(&bytes) }
    }

}

} // verus!
