//! Turning the raw bytes of a label into text.

use vstd::prelude::*;

verus! {

/// The text that `String::from_utf8_lossy` makes of `bytes`.
pub uninterp spec fn lossy_text(bytes: Seq<u8>) -> Seq<char>;

/// The text that `str::to_lowercase` makes of `text`.
pub uninterp spec fn lowercase_text(text: Seq<char>) -> Seq<char>;

/// `String::from_utf8_lossy`, with its result as an owned string.
/// Nothing is claimed of the result but that it depends on `bytes` alone.
#[verifier::external_body]
pub(crate) fn utf8_lossy(bytes: &[u8]) -> (r: String)
    ensures
        r@ == lossy_text(bytes@),
{
    String::from_utf8_lossy(bytes).into_owned()
}

/// `str::to_lowercase`.
/// Nothing is claimed of the result but that it depends on `s` alone.
pub assume_specification[ str::to_lowercase ](s: &str) -> (r: String)
    ensures
        r@ == lowercase_text(s@),
;

/// `String::push` appends one character.
pub assume_specification[ String::push ](s: &mut String, ch: char)
    ensures
        final(s)@ == old(s)@.push(ch),
;

/// Whether every byte of `bytes` is below 128.
pub open spec fn is_ascii_bytes(bytes: Seq<u8>) -> bool {
    forall|i: int| 0 <= i < bytes.len() ==> bytes[i] < 0x80
}

/// The lower-case form of an ASCII byte; other bytes are left alone.
pub open spec fn lower_byte(b: u8) -> u8 {
    if 0x41 <= b <= 0x5A {
        (b + 0x20) as u8
    } else {
        b
    }
}

/// The bytes of `bytes` as characters, in lower case where they are ASCII
/// letters.
pub open spec fn lowered(bytes: Seq<u8>) -> Seq<char> {
    Seq::new(bytes.len(), |i: int| lower_byte(bytes[i]) as char)
}

/// The lower-case form of an ASCII letter; other characters are left alone.
pub open spec fn lower_char(c: char) -> char {
    if 'A' <= c <= 'Z' {
        ((c as u8) + 0x20) as char
    } else {
        c
    }
}

/// `text` with its ASCII letters in lower case.
pub open spec fn lowercase_ascii(text: Seq<char>) -> Seq<char> {
    Seq::new(text.len(), |i: int| lower_char(text[i]))
}

/// The text of a label: ASCII bytes are lowered one by one; a label with
/// any other byte is decoded leniently as UTF-8 and then lowered as Unicode.
pub open spec fn label_text(label: Seq<u8>) -> Seq<char> {
    if is_ascii_bytes(label) {
        lowered(label)
    } else {
        lowercase_text(lossy_text(label))
    }
}

/// Decodes the bytes of one label.
pub fn decode_label(label: &[u8]) -> (r: String)
    ensures
        r@ == label_text(label@),
{
    let mut ascii = true;
    let mut i: usize = 0;
    while i < label.len()
        invariant
            i <= label.len(),
            ascii <==> forall|k: int| 0 <= k < i ==> label@[k] < 0x80,
        decreases label.len() - i,
    {
        if label[i] >= 0x80 {
            ascii = false;
        }
        i += 1;
    }
    if ascii {
        let mut text = String::new();
        let mut k: usize = 0;
        assert(text@ =~= lowered(label@.take(0)));
        while k < label.len()
            invariant
                k <= label.len(),
                is_ascii_bytes(label@),
                text@ == lowered(label@.take(k as int)),
            decreases label.len() - k,
        {
            let b = label[k];
            let low = if 0x41 <= b && b <= 0x5A {
                b + 0x20
            } else {
                b
            };
            text.push(low as char);
            assert(text@ =~= lowered(label@.take(k + 1)));
            k += 1;
        }
        assert(label@.take(k as int) =~= label@);
        text
    } else {
        let raw = utf8_lossy(label);
        raw.as_str().to_lowercase()
    }
}

} // verus!
