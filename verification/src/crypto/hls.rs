//! AES-128-CBC over whole HLS segments.

use vstd::prelude::*;

use super::cenc;
use crate::text;
use crate::wire;

verus! {

/// A media sequence number as a 128-bit big-endian IV.
pub open spec fn sequence_iv(seq: u64) -> Seq<u8> {
    cenc::zeros(8) + wire::be32_bytes(seq as int / 0x1_0000_0000) + wire::be32_bytes(
        seq as int % 0x1_0000_0000,
    )
}

/// Why a segment cannot be decrypted.
#[derive(Debug, Clone, Copy, PartialEq, Eq, Structural)]
pub enum CbcError {
    /// The length is not a multiple of a block.
    Length(usize),
    /// The padding is not that of PKCS#7.
    Padding,
}

impl CbcError {
    pub open spec fn text(self) -> Seq<char> {
        match self {
            CbcError::Length(n) => "AES-128-CBC ciphertext length "@ + text::decimal(n as int)
                + " is not a multiple of 16"@,
            CbcError::Padding => "AES-128-CBC unpad failed"@,
        }
    }

    /// The error in words.
    pub fn message(&self) -> (r: String)
        ensures
            r@ == self.text(),
    {
        let mut out: String = String::new();
        match self {
            CbcError::Length(n) => {
                text::push_str(&mut out, "AES-128-CBC ciphertext length ");
                text::push_decimal(&mut out, *n as u64);
                text::push_str(&mut out, " is not a multiple of 16");
                assert(Seq::<char>::empty() + "AES-128-CBC ciphertext length "@
                    =~= "AES-128-CBC ciphertext length "@);
            },
            CbcError::Padding => {
                text::push_str(&mut out, "AES-128-CBC unpad failed");
                assert(Seq::<char>::empty() + "AES-128-CBC unpad failed"@
                    =~= "AES-128-CBC unpad failed"@);
            },
        }
        out
    }
}

/// The bytes of a segment before its padding is taken off: every block is chained.
pub open spec fn unchained(ciphertext: Seq<u8>, key: Seq<u8>, iv: Seq<u8>) -> Seq<u8> {
    cenc::cbcs_from(key, ciphertext, 0, iv, 0, 0).bytes
}

/// Whether bytes end in the padding of PKCS#7: `n` bytes of the value `n`, for `n` from 1 to 16.
pub open spec fn is_padded(d: Seq<u8>) -> bool {
    &&& d.len() > 0
    &&& 1 <= d.last() <= 16
    &&& d.last() <= d.len()
    &&& forall|i: int| d.len() - d.last() <= i < d.len() ==> #[trigger] d[i] == d.last()
}

/// Bytes without their padding.
pub open spec fn unpadded(d: Seq<u8>) -> Seq<u8> {
    d.take(d.len() - d.last())
}

/// What a segment decrypts to. A segment without bytes has none.
pub open spec fn plain_segment(ciphertext: Seq<u8>, key: Seq<u8>, iv: Seq<u8>) -> Result<
    Seq<u8>,
    CbcError,
> {
    let d = unchained(ciphertext, key, iv);
    if ciphertext.len() == 0 {
        Ok(Seq::empty())
    } else if ciphertext.len() % 16 != 0 {
        Err(CbcError::Length(ciphertext.len() as usize))
    } else if is_padded(d) {
        Ok(unpadded(d))
    } else {
        Err(CbcError::Padding)
    }
}

/// The padding of PKCS#7 behind bytes.
pub open spec fn padded(p: Seq<u8>) -> Seq<u8> {
    let n = 16 - p.len() as int % 16;
    p + Seq::new(n as nat, |i: int| n as u8)
}

/// What is padded and encrypted in chained blocks, with the block function that AES decryption
/// under the key undoes, is given back.
pub proof fn law_segment_round_trip(
    key: Seq<u8>,
    e: spec_fn(Seq<u8>) -> Seq<u8>,
    p: Seq<u8>,
    iv: Seq<u8>,
)
    requires
        iv.len() == 16,
        forall|b: Seq<u8>|
            b.len() == 16 ==> (#[trigger] e(b)).len() == 16 && cenc::aes128_plain(key, e(b)) == b,
    ensures
        plain_segment(cenc::cbcs_encrypted(e, padded(p), 0, iv, 0, 0), key, iv) == Ok::<
            Seq<u8>,
            CbcError,
        >(p),
{
    let d = cenc::DecryptorView {
        key,
        constant_iv: None,
        mode: cenc::EncryptionMode::Cbcs { crypt_byte_block: 0, skip_byte_block: 0 },
    };
    let whole = padded(p);
    let c = cenc::cbcs_encrypted(e, whole, 0, iv, 0, 0);
    cenc::law_pattern_mode_round_trip(d, e, whole, iv, 0, 0);
    assert(iv.take(16) =~= iv);
    assert(unchained(c, key, iv) == whole);
    assert(unpadded(whole) =~= p);
}

/// The IV of a segment that states none: its media sequence number.
pub fn iv_from_media_sequence(seq: u64) -> (r: [u8; 16])
    ensures
        r@ == sequence_iv(seq),
{
    let mut b: Vec<u8> = vec![0u8; 8];
    wire::push_be32(&mut b, (seq / 0x1_0000_0000) as u32);
    wire::push_be32(&mut b, (seq % 0x1_0000_0000) as u32);
    assert(b@ =~= sequence_iv(seq));
    let r: [u8; 16] = crate::mp4::tenc::block_at(b.as_slice(), 0);
    assert(r@ =~= b@);
    r
}

/// Decrypts a segment of method `AES-128`.
pub fn decrypt_aes128_cbc_pkcs7(ciphertext: &[u8], key: [u8; 16], iv: [u8; 16]) -> (r: Result<
    Vec<u8>,
    CbcError,
>)
    ensures
        match r {
            Ok(p) => plain_segment(ciphertext@, key@, iv@) == Ok::<Seq<u8>, CbcError>(p@),
            Err(e) => plain_segment(ciphertext@, key@, iv@) == Err::<Seq<u8>, CbcError>(e),
        },
{
    let n: usize = ciphertext.len();
    if n == 0 {
        let none: Vec<u8> = Vec::new();
        assert(none@ =~= Seq::<u8>::empty());
        return Ok(none);
    }
    if n % 16 != 0 {
        return Err(CbcError::Length(n));
    }
    let out: Vec<u8> = cenc::unchain(ciphertext, &key, iv);
    let ghost d = unchained(ciphertext@, key@, iv@);
    assert(out@.len() == n) by {
        cenc::law_plain_keeps_length(
            cenc::DecryptorView {
                key: key@,
                constant_iv: None,
                mode: cenc::EncryptionMode::Cbcs { crypt_byte_block: 0, skip_byte_block: 0 },
            },
            ciphertext@,
            iv@,
            Seq::empty(),
        );
        assert(iv@.take(16) =~= iv@);
    }
    let pad: usize = out[n - 1] as usize;
    if pad == 0 || pad > 16 || pad > n {
        return Err(CbcError::Padding);
    }
    let mut i: usize = n - pad;
    while i < n
        invariant
            out@.len() == n,
            n == ciphertext@.len(),
            n % 16 == 0,
            d == out@,
            d == unchained(ciphertext@, key@, iv@),
            1 <= pad <= 16,
            pad <= n,
            n - pad <= i <= n,
            pad == d.last(),
            forall|j: int| n - pad <= j < i ==> #[trigger] d[j] == d.last(),
        decreases n - i,
    {
        if out[i] as usize != pad {
            assert(d[i as int] != d.last());
            return Err(CbcError::Padding);
        }
        i = i + 1;
    }
    let plain: Vec<u8> = wire::copy(vstd::slice::slice_subrange(out.as_slice(), 0, n - pad));
    assert(plain@ =~= unpadded(d));
    Ok(plain)
}

/// The IV of a segment that states none is its number, as one big-endian number of 128 bits.
pub proof fn law_sequence_iv_counts(seq: u64)
    ensures
        sequence_iv(seq).len() == 16,
        forall|i: int| 0 <= i < 8 ==> #[trigger] sequence_iv(seq)[i] == 0,
        wire::be64_at(sequence_iv(seq), 8) == seq,
{
    let s = sequence_iv(seq);
    let hi = seq as int / 0x1_0000_0000;
    let lo = seq as int % 0x1_0000_0000;
    wire::law_be32_round_trip(hi as u32);
    wire::law_be32_round_trip(lo as u32);
    let (a, b) = (wire::be32_bytes(hi), wire::be32_bytes(lo));
    assert(s[8] == a[0] && s[9] == a[1] && s[10] == a[2] && s[11] == a[3]);
    assert(s[12] == b[0] && s[13] == b[1] && s[14] == b[2] && s[15] == b[3]);
}

/// Segments of different numbers have different IVs.
pub proof fn law_sequence_ivs_differ(a: u64, b: u64)
    requires
        a != b,
    ensures
        sequence_iv(a) != sequence_iv(b),
{
    law_sequence_iv_counts(a);
    law_sequence_iv_counts(b);
}

/// A segment that is not made of whole blocks is refused, and so is one that does not end in
/// padding; an empty one stays empty.
pub proof fn law_broken_segment_is_refused(c: Seq<u8>, key: Seq<u8>, iv: Seq<u8>)
    ensures
        c.len() % 16 != 0 ==> plain_segment(c, key, iv) matches Err(CbcError::Length(_)),
        c.len() == 0 ==> plain_segment(c, key, iv) == Ok::<Seq<u8>, CbcError>(Seq::empty()),
        plain_segment(c, key, iv) matches Ok(p) ==> p.len() < c.len() || c.len() == 0,
        plain_segment(c, key, iv) matches Ok(p) ==> c.len() - p.len() <= 16,
{
    let d = cenc::DecryptorView {
        key,
        constant_iv: None,
        mode: cenc::EncryptionMode::Cbcs { crypt_byte_block: 0, skip_byte_block: 0 },
    };
    if c.len() > 0 {
        let first = cenc::DecryptorView { constant_iv: Some(iv), ..d };
        cenc::law_plain_keeps_length(first, c, Seq::empty(), Seq::empty());
    }
}

} // verus!
