//! Digests, and bytes as hexadecimal text.

use sha2::Digest;
use vstd::prelude::*;

verus! {

/// The bytes that a hasher was fed, in order.
pub uninterp spec fn fed(hasher: sha2::Sha256) -> Seq<u8>;

/// The SHA-256 digest of some bytes.
pub uninterp spec fn sha256_of(data: Seq<u8>) -> Seq<u8>;

/// A SHA-256 computation under way.
#[verifier::external_type_specification]
#[verifier::external_body]
pub struct ExSha256(sha2::Sha256);

/// `Sha256::new`: a hasher that was fed nothing.
#[verifier::external_body]
fn new_hasher() -> (out: sha2::Sha256)
    ensures
        fed(out) == Seq::<u8>::empty(),
{
    sha2::Sha256::new()
}

/// `Sha256::update`: the hasher has then been fed these bytes too.
#[verifier::external_body]
fn feed(hasher: &mut sha2::Sha256, data: &[u8])
    ensures
        fed(*final(hasher)) == fed(*old(hasher)) + data@,
{
    hasher.update(data)
}

/// `Sha256::finalize`: the digest of everything the hasher was fed. The digest
/// is named: what it is of given bytes takes pages to state.
#[verifier::external_body]
fn finish(hasher: sha2::Sha256) -> (out: [u8; 32])
    ensures
        out@ == sha256_of(fed(hasher)),
{
    hasher.finalize().into()
}

/// The digest of some bytes.
pub fn sha256(data: &[u8]) -> (out: [u8; 32])
    ensures
        out@ == sha256_of(data@),
{
    let mut hasher = new_hasher();
    feed(&mut hasher, data);
    assert(fed(hasher) =~= data@);
    finish(hasher)
}

/// The digest of three runs of bytes, one after the other.
pub fn sha256_of_three(a: &[u8], b: &[u8], c: &[u8]) -> (out: [u8; 32])
    ensures
        out@ == sha256_of(a@ + b@ + c@),
{
    let mut hasher = new_hasher();
    feed(&mut hasher, a);
    feed(&mut hasher, b);
    feed(&mut hasher, c);
    assert(fed(hasher) =~= a@ + b@ + c@);
    finish(hasher)
}

/// The character that writes four bits.
pub open spec fn hex_char(d: int) -> char {
    if d < 10 {
        ('0' as int + d) as char
    } else {
        ('a' as int + d - 10) as char
    }
}

/// The four bits that a character writes, in either case.
pub open spec fn hex_digit(c: char) -> Option<int> {
    if '0' <= c && c <= '9' {
        Some(c as int - '0' as int)
    } else if 'a' <= c && c <= 'f' {
        Some(c as int - 'a' as int + 10)
    } else if 'A' <= c && c <= 'F' {
        Some(c as int - 'A' as int + 10)
    } else {
        None
    }
}

/// Bytes as hexadecimal text: two lower-case digits each, the high one first.
pub open spec fn hex_text(bytes: Seq<u8>) -> Seq<char> {
    Seq::new(
        2 * bytes.len(),
        |i: int|
            hex_char(
                if i % 2 == 0 {
                    bytes[i / 2] as int / 16
                } else {
                    bytes[i / 2] as int % 16
                },
            ),
    )
}

/// Whether a text is so many bytes in hexadecimal.
pub open spec fn is_hex(text: Seq<char>, width: nat) -> bool {
    &&& text.len() == 2 * width
    &&& forall|i: int| 0 <= i < text.len() ==> hex_digit(#[trigger] text[i]) is Some
}

/// The bytes that a hexadecimal text of a width writes.
pub open spec fn hex_bytes(text: Seq<char>, width: nat) -> Seq<u8> {
    Seq::new(
        width,
        |i: int| (16 * hex_digit(text[2 * i]).unwrap() + hex_digit(text[2 * i + 1]).unwrap()) as u8,
    )
}

/// What `hex` says against a text that is not so many bytes in hexadecimal.
pub uninterp spec fn hex_fault(text: Seq<char>, width: nat) -> Seq<char>;

/// `hex::encode`: two lower-case digits for each byte.
#[verifier::external_body]
pub(crate) fn encode_hex(bytes: &[u8]) -> (out: String)
    ensures
        out@ == hex_text(bytes@),
{
    hex::encode(bytes)
}

/// `hex::decode_to_slice`: takes digits of either case, exactly two for each
/// byte of the width, and refuses every other text. What it says then is named.
#[verifier::external_body]
pub(crate) fn decode_hex(text: &str, width: usize) -> (out: Result<Vec<u8>, String>)
    requires
        width <= 32,
    ensures
        match out {
            Ok(bytes) => is_hex(text@, width as nat) && bytes@ == hex_bytes(text@, width as nat),
            Err(said) => !is_hex(text@, width as nat) && said@ == hex_fault(text@, width as nat),
        },
{
    let mut out = vec![0u8; width];
    hex::decode_to_slice(text, &mut out).map_err(|e| e.to_string())?;
    Ok(out)
}

/// Reading back bytes that were written in hexadecimal gives the bytes.
pub proof fn law_hex_reads_back(bytes: Seq<u8>)
    ensures
        is_hex(hex_text(bytes), bytes.len()),
        hex_bytes(hex_text(bytes), bytes.len()) == bytes,
{
    let text = hex_text(bytes);
    assert forall|i: int| 0 <= i < text.len() implies hex_digit(#[trigger] text[i]) is Some by {
        let b = bytes[i / 2] as int;
        assert(0 <= b / 16 < 16 && 0 <= b % 16 < 16);
    }
    assert forall|i: int| 0 <= i < bytes.len() implies hex_bytes(text, bytes.len())[i]
        == bytes[i] by {
        let b = bytes[i] as int;
        assert((2 * i) / 2 == i && (2 * i + 1) / 2 == i);
        assert(0 <= b / 16 < 16 && 0 <= b % 16 < 16);
        assert(16 * (b / 16) + b % 16 == b);
    }
    assert(hex_bytes(text, bytes.len()) =~= bytes);
}

/// The content address of a model file, computed as the file is read.
pub struct ModelHasher {
    hasher: sha2::Sha256,
}

impl ModelHasher {
    /// What was read so far.
    pub closed spec fn view(self) -> Seq<u8> {
        fed(self.hasher)
    }

    /// Nothing read yet.
    pub fn new() -> (out: Self)
        ensures
            out@ == Seq::<u8>::empty(),
    {
        ModelHasher { hasher: new_hasher() }
    }

    /// Takes the next bytes of the file.
    pub fn update(&mut self, data: &[u8])
        ensures
            final(self)@ == old(self)@ + data@,
    {
        feed(&mut self.hasher, data);
    }

    /// The content address of what was read.
    pub fn finish(self) -> (out: String)
        ensures
            out@ == hex_text(sha256_of(self@)),
    {
        let digest = finish(self.hasher);
        encode_hex(digest.as_slice())
    }
}

/// A character is read as a hexadecimal digit exactly where it is one of the
/// sixteen, in small letters or capitals, and stands for its place among them.
pub proof fn law_hexadecimal_digits(c: char, d: int)
    ensures
        hex_digit(c) == Some(d) <==> 0 <= d < 16 && (c == "0123456789abcdef"@[d] || c
            == "0123456789ABCDEF"@[d]),
        0 <= d < 16 ==> hex_char(d) == "0123456789abcdef"@[d],
{
    reveal_strlit("0123456789abcdef");
    reveal_strlit("0123456789ABCDEF");
}

/// Bytes are written two digits each, the higher first, and read so: two digits are
/// sixteen times the first and the second.
pub proof fn law_two_digits_a_byte(bytes: Seq<u8>, text: Seq<char>, i: int)
    requires
        0 <= i < bytes.len(),
        is_hex(text, bytes.len()),
    ensures
        hex_text(bytes).len() == 2 * bytes.len(),
        hex_text(bytes)[2 * i] == "0123456789abcdef"@[bytes[i] as int / 16],
        hex_text(bytes)[2 * i + 1] == "0123456789abcdef"@[bytes[i] as int % 16],
        hex_bytes(text, bytes.len()).len() == bytes.len(),
        hex_bytes(text, bytes.len())[i] as int == 16 * hex_digit(text[2 * i]).unwrap() + hex_digit(
            text[2 * i + 1],
        ).unwrap(),
{
    law_hexadecimal_digits('0', bytes[i] as int / 16);
    law_hexadecimal_digits('0', bytes[i] as int % 16);
    assert((2 * i) % 2 == 0 && (2 * i) / 2 == i);
    assert((2 * i + 1) % 2 == 1 && (2 * i + 1) / 2 == i);
    assert(hex_digit(text[2 * i]) is Some);
    assert(hex_digit(text[2 * i + 1]) is Some);
}

/// A text is hexadecimal of some bytes exactly where it has two characters for each
/// and every one is a hexadecimal digit.
pub proof fn law_what_is_hexadecimal(text: Seq<char>, width: nat)
    ensures
        is_hex(text, width) <==> text.len() == 2 * width && forall|i: int|
            0 <= i < text.len() ==> "0123456789abcdefABCDEF"@.contains(#[trigger] text[i]),
{
    reveal_strlit("0123456789abcdefABCDEF");
    let all = "0123456789abcdefABCDEF"@;
    assert forall|c: char| hex_digit(c) is Some <==> #[trigger] all.contains(c) by {
        if '0' <= c && c <= '9' {
            assert(all[c as int - '0' as int] == c);
        } else if 'a' <= c && c <= 'f' {
            assert(all[c as int - 'a' as int + 10] == c);
        } else if 'A' <= c && c <= 'F' {
            assert(all[c as int - 'A' as int + 16] == c);
        }
    }
    if is_hex(text, width) {
        assert forall|i: int| 0 <= i < text.len() implies all.contains(#[trigger] text[i]) by {
            assert(hex_digit(text[i]) is Some);
        }
    }
}

}
