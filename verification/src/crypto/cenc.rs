//! CENC and CBCS sample decryption, and the keys that users supply.

use aes::cipher::{BlockDecrypt, KeyInit, KeyIvInit, StreamCipher};
use vstd::prelude::*;

use crate::mp4::sample;
use crate::mp4::sample::{SampleInfo, SubSample};
use crate::text;
use crate::wire;

verus! {

/// The block that AES-128 decryption under `key` makes of `block`.
pub uninterp spec fn aes128_plain(key: Seq<u8>, block: Seq<u8>) -> Seq<u8>;

/// Calls `decrypt_block` of `aes::Aes128`. Claimed: the result depends on the key and the block
/// alone.
#[verifier::external_body]
pub(crate) fn aes128_decrypt_block(key: &[u8; 16], block: &[u8; 16]) -> (r: [u8; 16])
    ensures
        r@ == aes128_plain(key@, block@),
{
    let cipher = aes::Aes128::new(key.into());
    let mut b = aes::Block::from(*block);
    cipher.decrypt_block(&mut b);
    b.into()
}

/// Byte `i` of the keystream of AES-128 in counter mode, with a 128-bit big-endian counter that
/// starts at `counter`.
pub uninterp spec fn ctr_keystream(key: Seq<u8>, counter: Seq<u8>, i: int) -> u8;

/// Makes a `ctr::Ctr128BE<aes::Aes128>` and calls `apply_keystream` once. Claimed: each byte is
/// combined by exclusive or with the keystream byte at its place, which depends on the key, the
/// counter and the place alone.
#[verifier::external_body]
fn ctr_apply(key: &[u8; 16], counter: &[u8; 16], data: &[u8]) -> (r: Vec<u8>)
    ensures
        r@.len() == data@.len(),
        forall|i: int|
            0 <= i < data@.len() ==> #[trigger] r@[i] == data@[i] ^ ctr_keystream(
                key@,
                counter@,
                i,
            ),
{
    let mut cipher = ctr::Ctr128BE::<aes::Aes128>::new(key.into(), counter.into());
    let mut buf = data.to_vec();
    cipher.apply_keystream(&mut buf);
    buf
}

/// How samples are encrypted.
#[derive(Debug, Clone, Copy, PartialEq, Eq, Structural)]
pub enum EncryptionMode {
    CencCtr,
    /// A pattern of encrypted and clear blocks in cipher block chaining.
    Cbcs { crypt_byte_block: u8, skip_byte_block: u8 },
}

/// A key, and how it is used.
#[derive(Clone, Copy)]
pub struct Decryptor {
    key: [u8; 16],
    constant_iv: Option<[u8; 16]>,
    mode: EncryptionMode,
}

/// What a value of [`Decryptor`] holds.
#[verifier::ext_equal]
pub struct DecryptorView {
    pub key: Seq<u8>,
    pub constant_iv: Option<Seq<u8>>,
    pub mode: EncryptionMode,
}

impl View for Decryptor {
    type V = DecryptorView;

    closed spec fn view(&self) -> DecryptorView {
        DecryptorView {
            key: self.key@,
            constant_iv: crate::mp4::tenc::bytes_of(self.constant_iv),
            mode: self.mode,
        }
    }
}

/// `n` zeros.
pub open spec fn zeros(n: int) -> Seq<u8> {
    Seq::new(n as nat, |i: int| 0u8)
}

/// Bytes combined with the keystream from its byte `used` on.
pub open spec fn ctr_bytes(key: Seq<u8>, counter: Seq<u8>, data: Seq<u8>, used: int) -> Seq<u8> {
    Seq::new(data.len(), |i: int| data[i] ^ ctr_keystream(key, counter, used + i))
}

/// The exclusive or of two blocks.
pub open spec fn xor_block(a: Seq<u8>, b: Seq<u8>) -> Seq<u8> {
    Seq::new(16, |i: int| a[i] ^ b[i])
}

/// Bytes, and the chaining block behind them.
pub struct Chained {
    pub bytes: Seq<u8>,
    pub iv: Seq<u8>,
}

/// Whether block `j` of a region is encrypted. Without a pattern every block is.
pub open spec fn block_is_encrypted(j: int, crypt: int, skip: int) -> bool {
    if crypt == 0 {
        skip == 0
    } else {
        j % (crypt + skip) < crypt
    }
}

/// A region from its block `j` on. Clear blocks are not chained, and what does not fill a block is
/// clear.
pub open spec fn cbcs_from(
    key: Seq<u8>,
    d: Seq<u8>,
    j: int,
    iv: Seq<u8>,
    crypt: int,
    skip: int,
) -> Chained
    decreases d.len() - 16 * j,
{
    if j < 0 || 16 * j + 16 > d.len() {
        Chained { bytes: d.skip(16 * j), iv }
    } else {
        let block = d.subrange(16 * j, 16 * j + 16);
        let open = block_is_encrypted(j, crypt, skip);
        let rest = cbcs_from(
            key,
            d,
            j + 1,
            if open {
                block
            } else {
                iv
            },
            crypt,
            skip,
        );
        Chained {
            bytes: (if open {
                xor_block(aes128_plain(key, block), iv)
            } else {
                block
            }) + rest.bytes,
            iv: rest.iv,
        }
    }
}

/// Where the encrypted bytes of a map entry start and end, from `pos` on in `n` bytes.
pub open spec fn entry_bounds(s: SubSample, pos: int, n: int) -> (int, int) {
    let from = if pos + s.clear < n {
        pos + s.clear
    } else {
        n
    };
    let to = if from + s.encrypted < n {
        from + s.encrypted
    } else {
        n
    };
    (from, to)
}

/// A counter-mode sample from `pos` on, with the map entries from `k` on and `used` bytes of
/// keystream behind it. Clear bytes use up none.
pub open spec fn ctr_walk(
    key: Seq<u8>,
    counter: Seq<u8>,
    data: Seq<u8>,
    map: Seq<SubSample>,
    k: int,
    pos: int,
    used: int,
) -> Seq<u8>
    decreases map.len() - k,
{
    if k < 0 || k >= map.len() {
        data.skip(pos)
    } else {
        let (from, to) = entry_bounds(map[k], pos, data.len() as int);
        data.subrange(pos, from) + ctr_bytes(key, counter, data.subrange(from, to), used)
            + ctr_walk(key, counter, data, map, k + 1, to, used + to - from)
    }
}

/// A pattern-mode sample from `pos` on, with the map entries from `k` on. The chain goes on from
/// one entry to the next, the pattern starts anew.
pub open spec fn cbcs_walk(
    key: Seq<u8>,
    iv: Seq<u8>,
    data: Seq<u8>,
    map: Seq<SubSample>,
    k: int,
    pos: int,
    crypt: int,
    skip: int,
) -> Seq<u8>
    decreases map.len() - k,
{
    if k < 0 || k >= map.len() {
        data.skip(pos)
    } else {
        let (from, to) = entry_bounds(map[k], pos, data.len() as int);
        let region = cbcs_from(key, data.subrange(from, to), 0, iv, crypt, skip);
        data.subrange(pos, from) + region.bytes + cbcs_walk(
            key,
            region.iv,
            data,
            map,
            k + 1,
            to,
            crypt,
            skip,
        )
    }
}

impl DecryptorView {
    /// The first counter, or chaining block, of a sample with the IV `iv`: the IV filled up with
    /// zeros or cut, or else the constant IV, or else zeros.
    pub open spec fn start_block(self, iv: Seq<u8>) -> Seq<u8> {
        if iv.len() == 0 {
            match self.constant_iv {
                Some(c) => c,
                None => zeros(16),
            }
        } else if iv.len() >= 16 {
            iv.take(16)
        } else {
            iv + zeros(16 - iv.len())
        }
    }

    /// What a sample with the IV `iv` and the encryption map `map` decrypts to. Without a map all
    /// of it is encrypted.
    pub open spec fn plain(self, data: Seq<u8>, iv: Seq<u8>, map: Seq<SubSample>) -> Seq<u8> {
        let start = self.start_block(iv);
        match self.mode {
            EncryptionMode::CencCtr => if map.len() == 0 {
                ctr_bytes(self.key, start, data, 0)
            } else {
                ctr_walk(self.key, start, data, map, 0, 0, 0)
            },
            EncryptionMode::Cbcs { crypt_byte_block, skip_byte_block } => if map.len() == 0 {
                cbcs_from(
                    self.key,
                    data,
                    0,
                    start,
                    crypt_byte_block as int,
                    skip_byte_block as int,
                ).bytes
            } else {
                cbcs_walk(
                    self.key,
                    start,
                    data,
                    map,
                    0,
                    0,
                    crypt_byte_block as int,
                    skip_byte_block as int,
                )
            },
        }
    }

    /// A segment after its first `k` samples have been decrypted in place. A sample is cut at the
    /// end of the segment.
    pub open spec fn plain_segment(
        self,
        mdat: Seq<u8>,
        samples: Seq<sample::SampleView>,
        k: int,
    ) -> Seq<u8>
        decreases k,
    {
        if k <= 0 {
            mdat
        } else {
            let m = self.plain_segment(mdat, samples, k - 1);
            let s = samples[k - 1];
            let to = if s.to < m.len() {
                s.to
            } else {
                m.len() as int
            };
            if s.from < to {
                m.take(s.from) + self.plain(m.subrange(s.from, to), s.iv, s.subsamples) + m.skip(to)
            } else {
                m
            }
        }
    }
}

proof fn lemma_xor_twice(a: u8, b: u8)
    by (bit_vector)
    ensures
        (a ^ b) ^ b == a,
        0u8 ^ b == b,
{
}

proof fn lemma_cbcs_length(
    key: Seq<u8>,
    d: Seq<u8>,
    j: int,
    iv: Seq<u8>,
    crypt: int,
    skip: int,
)
    requires
        0 <= j,
        16 * j <= d.len(),
    ensures
        cbcs_from(key, d, j, iv, crypt, skip).bytes.len() == d.len() - 16 * j,
    decreases d.len() - 16 * j,
{
    if 16 * j + 16 <= d.len() {
        let block = d.subrange(16 * j, 16 * j + 16);
        lemma_cbcs_length(
            key,
            d,
            j + 1,
            if block_is_encrypted(j, crypt, skip) {
                block
            } else {
                iv
            },
            crypt,
            skip,
        );
    }
}

proof fn lemma_ctr_walk_length(
    key: Seq<u8>,
    counter: Seq<u8>,
    data: Seq<u8>,
    map: Seq<SubSample>,
    k: int,
    pos: int,
    used: int,
)
    requires
        0 <= k <= map.len(),
        0 <= pos <= data.len(),
    ensures
        ctr_walk(key, counter, data, map, k, pos, used).len() == data.len() - pos,
    decreases map.len() - k,
{
    if k < map.len() {
        let (from, to) = entry_bounds(map[k], pos, data.len() as int);
        lemma_ctr_walk_length(key, counter, data, map, k + 1, to, used + to - from);
    }
}

proof fn lemma_cbcs_walk_length(
    key: Seq<u8>,
    iv: Seq<u8>,
    data: Seq<u8>,
    map: Seq<SubSample>,
    k: int,
    pos: int,
    crypt: int,
    skip: int,
)
    requires
        0 <= k <= map.len(),
        0 <= pos <= data.len(),
    ensures
        cbcs_walk(key, iv, data, map, k, pos, crypt, skip).len() == data.len() - pos,
    decreases map.len() - k,
{
    if k < map.len() {
        let (from, to) = entry_bounds(map[k], pos, data.len() as int);
        let region = cbcs_from(key, data.subrange(from, to), 0, iv, crypt, skip);
        lemma_cbcs_length(key, data.subrange(from, to), 0, iv, crypt, skip);
        lemma_cbcs_walk_length(key, region.iv, data, map, k + 1, to, crypt, skip);
    }
}

/// Decryption does not change the length of a sample.
pub proof fn law_plain_keeps_length(
    d: DecryptorView,
    data: Seq<u8>,
    iv: Seq<u8>,
    map: Seq<SubSample>,
)
    ensures
        d.plain(data, iv, map).len() == data.len(),
{
    let start = d.start_block(iv);
    match d.mode {
        EncryptionMode::CencCtr => {
            lemma_ctr_walk_length(d.key, start, data, map, 0, 0, 0);
        },
        EncryptionMode::Cbcs { crypt_byte_block, skip_byte_block } => {
            lemma_cbcs_length(
                d.key,
                data,
                0,
                start,
                crypt_byte_block as int,
                skip_byte_block as int,
            );
            lemma_cbcs_walk_length(
                d.key,
                start,
                data,
                map,
                0,
                0,
                crypt_byte_block as int,
                skip_byte_block as int,
            );
        },
    }
}

/// Decryption does not change the length of a segment.
pub proof fn law_plain_segment_keeps_length(
    d: DecryptorView,
    mdat: Seq<u8>,
    samples: Seq<sample::SampleView>,
    k: int,
)
    requires
        0 <= k <= samples.len(),
        forall|i: int| 0 <= i < samples.len() ==> 0 <= (#[trigger] samples[i]).from,
    ensures
        d.plain_segment(mdat, samples, k).len() == mdat.len(),
    decreases k,
{
    if k > 0 {
        law_plain_segment_keeps_length(d, mdat, samples, k - 1);
        let m = d.plain_segment(mdat, samples, k - 1);
        let s = samples[k - 1];
        let to = if s.to < m.len() {
            s.to
        } else {
            m.len() as int
        };
        if s.from < to {
            law_plain_keeps_length(d, m.subrange(s.from, to), s.iv, s.subsamples);
        }
    }
}

proof fn lemma_ctr_walk_involution(
    key: Seq<u8>,
    counter: Seq<u8>,
    data: Seq<u8>,
    once: Seq<u8>,
    map: Seq<SubSample>,
    k: int,
    pos: int,
    used: int,
)
    requires
        0 <= k <= map.len(),
        0 <= pos <= data.len(),
        once.len() == data.len(),
        once.skip(pos) == ctr_walk(key, counter, data, map, k, pos, used),
    ensures
        ctr_walk(key, counter, once, map, k, pos, used) == data.skip(pos),
    decreases map.len() - k,
{
    if k < map.len() {
        let n = data.len() as int;
        let (from, to) = entry_bounds(map[k], pos, n);
        let rest = ctr_walk(key, counter, data, map, k + 1, to, used + to - from);
        let a = data.subrange(pos, from);
        let b = ctr_bytes(key, counter, data.subrange(from, to), used);
        let tail = once.skip(pos);
        assert(tail == a + b + rest);
        lemma_ctr_walk_length(key, counter, data, map, k + 1, to, used + to - from);
        assert(once.skip(to) =~= rest) by {
            assert(once.skip(to) =~= tail.skip(to - pos));
            assert((a + b + rest).skip(to - pos) =~= rest);
        }
        lemma_ctr_walk_involution(key, counter, data, once, map, k + 1, to, used + to - from);
        assert(once.subrange(pos, from) =~= a) by {
            assert(once.subrange(pos, from) =~= tail.take(from - pos));
            assert((a + b + rest).take(from - pos) =~= a);
        }
        assert(once.subrange(from, to) =~= b) by {
            assert(once.subrange(from, to) =~= tail.subrange(from - pos, to - pos));
            assert((a + b + rest).subrange(from - pos, to - pos) =~= b);
        }
        let back = ctr_bytes(key, counter, b, used);
        assert(back =~= data.subrange(from, to)) by {
            assert forall|i: int| 0 <= i < to - from implies back[i] == data.subrange(
                from,
                to,
            )[i] by {
                lemma_xor_twice(
                    data.subrange(from, to)[i],
                    ctr_keystream(key, counter, used + i),
                );
            }
        }
        assert(a + data.subrange(from, to) + data.skip(to) =~= data.skip(pos));
    } else {
        assert(once.skip(pos) =~= data.skip(pos));
    }
}

/// In counter mode decryption is its own inverse: a sample that was encrypted in the same way is
/// given back.
pub proof fn law_counter_mode_is_involution(
    d: DecryptorView,
    data: Seq<u8>,
    iv: Seq<u8>,
    map: Seq<SubSample>,
)
    requires
        d.mode == EncryptionMode::CencCtr,
    ensures
        d.plain(d.plain(data, iv, map), iv, map) == data,
{
    let start = d.start_block(iv);
    let once = d.plain(data, iv, map);
    law_plain_keeps_length(d, data, iv, map);
    if map.len() == 0 {
        let twice = d.plain(once, iv, map);
        assert forall|i: int| 0 <= i < data.len() implies twice[i] == data[i] by {
            lemma_xor_twice(data[i], ctr_keystream(d.key, start, i));
        }
        assert(twice =~= data);
    } else {
        assert(once.skip(0) =~= once);
        lemma_ctr_walk_involution(d.key, start, data, once, map, 0, 0, 0);
        assert(data.skip(0) =~= data);
    }
}

/// What chaining encryption, with the block function `e`, makes of a region from block `j` on: of
/// each `crypt + skip` blocks the first `crypt` are encrypted, without a pattern all of them.
pub open spec fn cbcs_encrypted(
    e: spec_fn(Seq<u8>) -> Seq<u8>,
    p: Seq<u8>,
    j: int,
    iv: Seq<u8>,
    crypt: int,
    skip: int,
) -> Seq<u8>
    decreases p.len() - 16 * j,
{
    if j < 0 || 16 * j + 16 > p.len() {
        p.skip(16 * j)
    } else {
        let block = p.subrange(16 * j, 16 * j + 16);
        if crypt + skip == 0 || j % (crypt + skip) < crypt {
            let c = e(xor_block(block, iv));
            c + cbcs_encrypted(e, p, j + 1, c, crypt, skip)
        } else {
            block + cbcs_encrypted(e, p, j + 1, iv, crypt, skip)
        }
    }
}

/// The chaining block behind a region that has been encrypted so.
pub open spec fn chain_behind(
    e: spec_fn(Seq<u8>) -> Seq<u8>,
    p: Seq<u8>,
    j: int,
    iv: Seq<u8>,
    crypt: int,
    skip: int,
) -> Seq<u8>
    decreases p.len() - 16 * j,
{
    if j < 0 || 16 * j + 16 > p.len() {
        iv
    } else if crypt + skip == 0 || j % (crypt + skip) < crypt {
        let c = e(xor_block(p.subrange(16 * j, 16 * j + 16), iv));
        chain_behind(e, p, j + 1, c, crypt, skip)
    } else {
        chain_behind(e, p, j + 1, iv, crypt, skip)
    }
}

proof fn lemma_cbcs_round_trip(
    key: Seq<u8>,
    e: spec_fn(Seq<u8>) -> Seq<u8>,
    p: Seq<u8>,
    c: Seq<u8>,
    j: int,
    iv: Seq<u8>,
    crypt: int,
    skip: int,
)
    requires
        forall|b: Seq<u8>| b.len() == 16 ==> (#[trigger] e(b)).len() == 16 && aes128_plain(key, e(b))
            == b,
        0 <= j,
        16 * j <= p.len(),
        iv.len() == 16,
        c.len() == p.len(),
        c.skip(16 * j) == cbcs_encrypted(e, p, j, iv, crypt, skip),
        0 <= crypt,
        0 <= skip,
    ensures
        cbcs_from(key, c, j, iv, crypt, skip).bytes == p.skip(16 * j),
        cbcs_from(key, c, j, iv, crypt, skip).iv == chain_behind(e, p, j, iv, crypt, skip),
        chain_behind(e, p, j, iv, crypt, skip).len() == 16,
    decreases p.len() - 16 * j,
{
    let from = 16 * j;
    if from + 16 <= p.len() {
        let block = p.subrange(from, from + 16);
        let tail = c.skip(from);
        let own = c.subrange(from, from + 16);
        assert(own =~= tail.take(16));
        let open = crypt + skip == 0 || j % (crypt + skip) < crypt;
        assert(j % (crypt + skip) >= 0 || crypt + skip == 0);
        assert(open == block_is_encrypted(j, crypt, skip));
        let mixed = xor_block(block, iv);
        let next_iv = if open {
            e(mixed)
        } else {
            iv
        };
        let head = if open {
            e(mixed)
        } else {
            block
        };
        assert(mixed.len() == 16);
        assert(e(mixed).len() == 16 && aes128_plain(key, e(mixed)) == mixed);
        let rest = cbcs_encrypted(e, p, j + 1, next_iv, crypt, skip);
        assert(tail == head + rest);
        assert(own =~= head);
        assert(c.skip(from + 16) =~= tail.skip(16));
        assert(tail.skip(16) =~= rest);
        lemma_cbcs_round_trip(key, e, p, c, j + 1, next_iv, crypt, skip);
        if open {
            let back = xor_block(aes128_plain(key, own), iv);
            assert forall|i: int| 0 <= i < 16 implies back[i] == block[i] by {
                lemma_xor_twice(block[i], iv[i]);
            }
            assert(back =~= block);
        }
        assert(block + p.skip(16 * (j + 1)) =~= p.skip(from));
    }
}

/// Pattern mode gives back what was encrypted with the block function that AES decryption under
/// the key undoes.
pub proof fn law_pattern_mode_round_trip(
    d: DecryptorView,
    e: spec_fn(Seq<u8>) -> Seq<u8>,
    p: Seq<u8>,
    iv: Seq<u8>,
    crypt: u8,
    skip: u8,
)
    requires
        d.mode == (EncryptionMode::Cbcs { crypt_byte_block: crypt, skip_byte_block: skip }),
        iv.len() == 16,
        forall|b: Seq<u8>|
            b.len() == 16 ==> (#[trigger] e(b)).len() == 16 && aes128_plain(d.key, e(b)) == b,
    ensures
        ({
            let c = cbcs_encrypted(e, p, 0, iv, crypt as int, skip as int);
            c.len() == p.len() && d.plain(c, iv, Seq::empty()) == p
        }),
{
    let c = cbcs_encrypted(e, p, 0, iv, crypt as int, skip as int);
    lemma_encrypted_length(d.key, e, p, 0, iv, crypt as int, skip as int);
    assert(c.skip(0) =~= c);
    lemma_cbcs_round_trip(d.key, e, p, c, 0, iv, crypt as int, skip as int);
    assert(p.skip(0) =~= p);
    assert(iv.take(16) =~= iv);
}

proof fn lemma_encrypted_length(
    key: Seq<u8>,
    e: spec_fn(Seq<u8>) -> Seq<u8>,
    p: Seq<u8>,
    j: int,
    iv: Seq<u8>,
    crypt: int,
    skip: int,
)
    requires
        forall|b: Seq<u8>| b.len() == 16 ==> (#[trigger] e(b)).len() == 16 && aes128_plain(key, e(b))
            == b,
        0 <= j,
        16 * j <= p.len(),
    ensures
        cbcs_encrypted(e, p, j, iv, crypt, skip).len() == p.len() - 16 * j,
    decreases p.len() - 16 * j,
{
    if 16 * j + 16 <= p.len() {
        let block = p.subrange(16 * j, 16 * j + 16);
        let c = e(xor_block(block, iv));
        assert(xor_block(block, iv).len() == 16);
        lemma_encrypted_length(
            key,
            e,
            p,
            j + 1,
            if crypt + skip == 0 || j % (crypt + skip) < crypt {
                c
            } else {
                iv
            },
            crypt,
            skip,
        );
    }
}

/// Pattern mode leaves clear blocks, and what does not fill a block, as they are.
pub proof fn law_pattern_mode_keeps_clear_bytes(
    key: Seq<u8>,
    d: Seq<u8>,
    j: int,
    iv: Seq<u8>,
    crypt: int,
    skip: int,
    i: int,
)
    requires
        0 <= j,
        16 * j <= i < d.len(),
        0 <= crypt,
        0 <= skip,
        !block_is_encrypted(i / 16, crypt, skip) || i / 16 * 16 + 16 > d.len(),
    ensures
        cbcs_from(key, d, j, iv, crypt, skip).bytes[i - 16 * j] == d[i],
    decreases d.len() - 16 * j,
{
    if 16 * j + 16 <= d.len() {
        let block = d.subrange(16 * j, 16 * j + 16);
        let open = block_is_encrypted(j, crypt, skip);
        let next = if open {
            block
        } else {
            iv
        };
        lemma_cbcs_length(key, d, j + 1, next, crypt, skip);
        if i < 16 * j + 16 {
            assert(i / 16 == j);
        } else {
            law_pattern_mode_keeps_clear_bytes(key, d, j + 1, next, crypt, skip, i);
        }
    }
}

/// Appends `data` from `from` on, combined with keystream bytes from `used` on.
/// How many bytes the first `k` entries of a map speak of.
pub open spec fn mapped_bytes(map: Seq<SubSample>, k: int) -> int
    decreases k,
{
    if k <= 0 {
        0
    } else {
        mapped_bytes(map, k - 1) + map[k - 1].clear + map[k - 1].encrypted
    }
}

/// How many of these are encrypted.
pub open spec fn protected_bytes(map: Seq<SubSample>, k: int) -> int
    decreases k,
{
    if k <= 0 {
        0
    } else {
        protected_bytes(map, k - 1) + map[k - 1].encrypted
    }
}

proof fn lemma_mapped_bytes_grow(map: Seq<SubSample>, a: int, b: int)
    requires
        0 <= a <= b,
    ensures
        0 <= mapped_bytes(map, a) <= mapped_bytes(map, b),
    decreases b,
{
    if a < b {
        lemma_mapped_bytes_grow(map, a, b - 1);
    } else if a > 0 {
        lemma_mapped_bytes_grow(map, a - 1, b - 1);
    }
}

proof fn lemma_ctr_byte(
    key: Seq<u8>,
    counter: Seq<u8>,
    data: Seq<u8>,
    map: Seq<SubSample>,
    at: int,
    k: int,
    i: int,
)
    requires
        0 <= at <= k <= map.len(),
        mapped_bytes(map, k) <= i < data.len(),
        k < map.len() ==> i < mapped_bytes(map, k + 1),
    ensures
        ({
            let pos = mapped_bytes(map, at);
            let b = ctr_walk(key, counter, data, map, at, pos, protected_bytes(map, at))[i - pos];
            let from = mapped_bytes(map, k) + map[k].clear;
            if k == map.len() || i < from {
                b == data[i]
            } else {
                b == data[i] ^ ctr_keystream(key, counter, protected_bytes(map, k) + i - from)
            }
        }),
    decreases k - at,
{
    let n = data.len() as int;
    let pos = mapped_bytes(map, at);
    let used = protected_bytes(map, at);
    lemma_mapped_bytes_grow(map, at, k);
    if at < map.len() {
        let (from, to) = entry_bounds(map[at], pos, n);
        let a = data.subrange(pos, from);
        let b = ctr_bytes(key, counter, data.subrange(from, to), used);
        let rest = ctr_walk(key, counter, data, map, at + 1, to, used + to - from);
        lemma_ctr_walk_length(key, counter, data, map, at + 1, to, used + to - from);
        if at < k {
            lemma_mapped_bytes_grow(map, at + 1, k);
            lemma_ctr_byte(key, counter, data, map, at + 1, k, i);
            assert(to == mapped_bytes(map, at + 1));
            assert(used + to - from == protected_bytes(map, at + 1));
            assert((a + b + rest)[i - pos] == rest[i - to]);
        } else if i < from {
            assert((a + b + rest)[i - pos] == a[i - pos]);
        } else {
            assert((a + b + rest)[i - pos] == b[i - from]);
        }
    }
}

/// In counter mode a byte in a clear stretch of the map, or behind the map, stays as it is. One in
/// an encrypted stretch is combined with the keystream, of which each encrypted byte before it has
/// used up one and no clear byte any.
pub proof fn law_counter_mode_goes_by_the_map(
    d: DecryptorView,
    data: Seq<u8>,
    iv: Seq<u8>,
    map: Seq<SubSample>,
    k: int,
    i: int,
)
    requires
        d.mode == EncryptionMode::CencCtr,
        map.len() > 0,
        0 <= k <= map.len(),
        mapped_bytes(map, k) <= i < data.len(),
        k < map.len() ==> i < mapped_bytes(map, k + 1),
    ensures
        k == map.len() || i < mapped_bytes(map, k) + map[k].clear ==> d.plain(data, iv, map)[i]
            == data[i],
        k < map.len() && mapped_bytes(map, k) + map[k].clear <= i ==> d.plain(data, iv, map)[i]
            == data[i] ^ ctr_keystream(
            d.key,
            d.start_block(iv),
            protected_bytes(map, k) + i - (mapped_bytes(map, k) + map[k].clear),
        ),
{
    lemma_ctr_byte(d.key, d.start_block(iv), data, map, 0, k, i);
}

/// In counter mode a sample without a map is encrypted from its first byte to its last.
pub proof fn law_counter_mode_without_map(d: DecryptorView, data: Seq<u8>, iv: Seq<u8>, i: int)
    requires
        d.mode == EncryptionMode::CencCtr,
        0 <= i < data.len(),
    ensures
        d.plain(data, iv, Seq::empty())[i] == data[i] ^ ctr_keystream(d.key, d.start_block(iv), i),
{
}

/// A sample starts from its own IV with zeros behind it, and from the constant IV only where it has
/// none.
pub proof fn law_sample_starts_from_its_iv(d: DecryptorView, iv: Seq<u8>, i: int)
    requires
        0 <= i < 16,
        d.constant_iv matches Some(c) ==> c.len() == 16,
    ensures
        d.start_block(iv).len() == 16,
        i < iv.len() ==> d.start_block(iv)[i] == iv[i],
        0 < iv.len() <= i ==> d.start_block(iv)[i] == 0,
        iv.len() == 0 && d.constant_iv is Some ==> d.start_block(iv) == d.constant_iv->0,
        iv.len() == 0 && d.constant_iv is None ==> d.start_block(iv)[i] == 0,
{
}

/// What pattern encryption, with the block function `e`, makes of a sample from `pos` on with the
/// map entries from `k` on: the clear bytes of an entry stay, its protected ones are encrypted as a
/// region of their own, and the chain goes on behind them.
pub open spec fn sample_encrypted(
    e: spec_fn(Seq<u8>) -> Seq<u8>,
    p: Seq<u8>,
    map: Seq<SubSample>,
    k: int,
    pos: int,
    iv: Seq<u8>,
    crypt: int,
    skip: int,
) -> Seq<u8>
    decreases map.len() - k,
{
    if k < 0 || k >= map.len() {
        p.skip(pos)
    } else {
        let left = p.len() - pos;
        let clear = if map[k].clear < left {
            map[k].clear as int
        } else {
            left
        };
        let protected = if map[k].encrypted < left - clear {
            map[k].encrypted as int
        } else {
            left - clear
        };
        let region = p.subrange(pos + clear, pos + clear + protected);
        p.subrange(pos, pos + clear) + cbcs_encrypted(e, region, 0, iv, crypt, skip)
            + sample_encrypted(
            e,
            p,
            map,
            k + 1,
            pos + clear + protected,
            chain_behind(e, region, 0, iv, crypt, skip),
            crypt,
            skip,
        )
    }
}

proof fn lemma_sample_encrypted_length(
    key: Seq<u8>,
    e: spec_fn(Seq<u8>) -> Seq<u8>,
    p: Seq<u8>,
    map: Seq<SubSample>,
    k: int,
    pos: int,
    iv: Seq<u8>,
    crypt: int,
    skip: int,
)
    requires
        forall|b: Seq<u8>| b.len() == 16 ==> (#[trigger] e(b)).len() == 16 && aes128_plain(key, e(b))
            == b,
        0 <= k <= map.len(),
        0 <= pos <= p.len(),
    ensures
        sample_encrypted(e, p, map, k, pos, iv, crypt, skip).len() == p.len() - pos,
    decreases map.len() - k,
{
    if k < map.len() {
        let (from, to) = entry_bounds(map[k], pos, p.len() as int);
        let region = p.subrange(from, to);
        lemma_encrypted_length(key, e, region, 0, iv, crypt, skip);
        lemma_sample_encrypted_length(
            key,
            e,
            p,
            map,
            k + 1,
            to,
            chain_behind(e, region, 0, iv, crypt, skip),
            crypt,
            skip,
        );
    }
}

proof fn lemma_sample_round_trip(
    key: Seq<u8>,
    e: spec_fn(Seq<u8>) -> Seq<u8>,
    p: Seq<u8>,
    c: Seq<u8>,
    map: Seq<SubSample>,
    k: int,
    pos: int,
    iv: Seq<u8>,
    crypt: int,
    skip: int,
)
    requires
        forall|b: Seq<u8>| b.len() == 16 ==> (#[trigger] e(b)).len() == 16 && aes128_plain(key, e(b))
            == b,
        0 <= k <= map.len(),
        0 <= pos <= p.len(),
        iv.len() == 16,
        0 <= crypt,
        0 <= skip,
        c.len() == p.len(),
        c.skip(pos) == sample_encrypted(e, p, map, k, pos, iv, crypt, skip),
    ensures
        cbcs_walk(key, iv, c, map, k, pos, crypt, skip) == p.skip(pos),
    decreases map.len() - k,
{
    if k < map.len() {
        let (from, to) = entry_bounds(map[k], pos, p.len() as int);
        let region = p.subrange(from, to);
        let a = p.subrange(pos, from);
        let b = cbcs_encrypted(e, region, 0, iv, crypt, skip);
        let next = chain_behind(e, region, 0, iv, crypt, skip);
        let rest = sample_encrypted(e, p, map, k + 1, to, next, crypt, skip);
        let tail = c.skip(pos);
        lemma_encrypted_length(key, e, region, 0, iv, crypt, skip);
        lemma_sample_encrypted_length(key, e, p, map, k + 1, to, next, crypt, skip);
        assert(tail == a + b + rest);
        assert(c.subrange(pos, from) =~= a) by {
            assert(c.subrange(pos, from) =~= tail.take(from - pos));
            assert((a + b + rest).take(from - pos) =~= a);
        }
        let own = c.subrange(from, to);
        assert(own =~= b) by {
            assert(own =~= tail.subrange(from - pos, to - pos));
            assert((a + b + rest).subrange(from - pos, to - pos) =~= b);
        }
        assert(c.skip(to) =~= rest) by {
            assert(c.skip(to) =~= tail.skip(to - pos));
            assert((a + b + rest).skip(to - pos) =~= rest);
        }
        assert(own.skip(0) =~= own);
        lemma_cbcs_round_trip(key, e, region, own, 0, iv, crypt, skip);
        assert(region.skip(0) =~= region);
        lemma_sample_round_trip(key, e, p, c, map, k + 1, to, next, crypt, skip);
        assert(a + region + p.skip(to) =~= p.skip(pos));
    } else {
        assert(c.skip(pos) =~= p.skip(pos));
    }
}

/// A sample whose protected ranges were encrypted one behind the other, each with the pattern from
/// its start and all with one chain, is given back.
pub proof fn law_mapped_sample_round_trip(
    d: DecryptorView,
    e: spec_fn(Seq<u8>) -> Seq<u8>,
    p: Seq<u8>,
    iv: Seq<u8>,
    map: Seq<SubSample>,
    crypt: u8,
    skip: u8,
)
    requires
        d.mode == (EncryptionMode::Cbcs { crypt_byte_block: crypt, skip_byte_block: skip }),
        iv.len() == 16,
        map.len() > 0,
        forall|b: Seq<u8>|
            b.len() == 16 ==> (#[trigger] e(b)).len() == 16 && aes128_plain(d.key, e(b)) == b,
    ensures
        ({
            let c = sample_encrypted(e, p, map, 0, 0, iv, crypt as int, skip as int);
            c.len() == p.len() && d.plain(c, iv, map) == p
        }),
{
    let c = sample_encrypted(e, p, map, 0, 0, iv, crypt as int, skip as int);
    lemma_sample_encrypted_length(d.key, e, p, map, 0, 0, iv, crypt as int, skip as int);
    assert(c.skip(0) =~= c);
    lemma_sample_round_trip(d.key, e, p, c, map, 0, 0, iv, crypt as int, skip as int);
    assert(p.skip(0) =~= p);
    assert(iv.take(16) =~= iv);
}

/// Whether byte `o` of a protected range of `n` bytes is left clear by the pattern: it lies in a
/// skipped block, or behind the last whole block.
pub open spec fn skipped_by_pattern(o: int, n: int, crypt: int, skip: int) -> bool {
    ||| n - n % 16 <= o
    ||| crypt + skip > 0 && o / 16 % (crypt + skip) >= crypt
}

proof fn lemma_cbcs_clear_byte(
    key: Seq<u8>,
    iv: Seq<u8>,
    data: Seq<u8>,
    map: Seq<SubSample>,
    at: int,
    k: int,
    i: int,
    crypt: int,
    skip: int,
)
    requires
        0 <= at <= k <= map.len(),
        0 <= crypt,
        0 <= skip,
        mapped_bytes(map, k) <= i < data.len(),
        k < map.len() ==> i < mapped_bytes(map, k + 1),
        k < map.len() ==> ({
            let from = mapped_bytes(map, k) + map[k].clear;
            let n = if map[k].encrypted < data.len() - from {
                map[k].encrypted as int
            } else {
                data.len() - from
            };
            i < from || skipped_by_pattern(i - from, n, crypt, skip)
        }),
    ensures
        ({
            let pos = mapped_bytes(map, at);
            cbcs_walk(key, iv, data, map, at, pos, crypt, skip)[i - pos] == data[i]
        }),
    decreases k - at,
{
    let n = data.len() as int;
    let pos = mapped_bytes(map, at);
    lemma_mapped_bytes_grow(map, at, k);
    if at < map.len() {
        let (from, to) = entry_bounds(map[at], pos, n);
        let a = data.subrange(pos, from);
        let own = data.subrange(from, to);
        let region = cbcs_from(key, own, 0, iv, crypt, skip);
        let b = region.bytes;
        let rest = cbcs_walk(key, region.iv, data, map, at + 1, to, crypt, skip);
        lemma_cbcs_length(key, own, 0, iv, crypt, skip);
        lemma_cbcs_walk_length(key, region.iv, data, map, at + 1, to, crypt, skip);
        if at < k {
            lemma_mapped_bytes_grow(map, at + 1, k);
            lemma_cbcs_clear_byte(key, region.iv, data, map, at + 1, k, i, crypt, skip);
            assert(to == mapped_bytes(map, at + 1));
            assert((a + b + rest)[i - pos] == rest[i - to]);
        } else if i < from {
            assert((a + b + rest)[i - pos] == a[i - pos]);
        } else {
            let o = i - from;
            assert((a + b + rest)[i - pos] == b[o]);
            if own.len() - own.len() % 16 > o {
                assert(!block_is_encrypted(o / 16, crypt, skip));
            }
            law_pattern_mode_keeps_clear_bytes(key, own, 0, iv, crypt, skip, o);
        }
    }
}

/// In pattern mode every clear byte stays as it is: those of the clear stretches of the map, those
/// behind it, those of the blocks that the pattern skips, and those that do not fill a block.
pub proof fn law_pattern_mode_goes_by_the_map(
    d: DecryptorView,
    data: Seq<u8>,
    iv: Seq<u8>,
    map: Seq<SubSample>,
    crypt: u8,
    skip: u8,
    k: int,
    i: int,
)
    requires
        d.mode == (EncryptionMode::Cbcs { crypt_byte_block: crypt, skip_byte_block: skip }),
        map.len() > 0,
        0 <= k <= map.len(),
        mapped_bytes(map, k) <= i < data.len(),
        k < map.len() ==> i < mapped_bytes(map, k + 1),
        k < map.len() ==> ({
            let from = mapped_bytes(map, k) + map[k].clear;
            let n = if map[k].encrypted < data.len() - from {
                map[k].encrypted as int
            } else {
                data.len() - from
            };
            i < from || skipped_by_pattern(i - from, n, crypt as int, skip as int)
        }),
    ensures
        d.plain(data, iv, map)[i] == data[i],
{
    lemma_cbcs_clear_byte(
        d.key,
        d.start_block(iv),
        data,
        map,
        0,
        k,
        i,
        crypt as int,
        skip as int,
    );
}

/// Without a map, too, the blocks that the pattern skips stay as they are.
pub proof fn law_pattern_mode_without_map(
    d: DecryptorView,
    data: Seq<u8>,
    iv: Seq<u8>,
    crypt: u8,
    skip: u8,
    i: int,
)
    requires
        d.mode == (EncryptionMode::Cbcs { crypt_byte_block: crypt, skip_byte_block: skip }),
        0 <= i < data.len(),
        skipped_by_pattern(i, data.len() as int, crypt as int, skip as int),
    ensures
        d.plain(data, iv, Seq::empty())[i] == data[i],
{
    let (c, s) = (crypt as int, skip as int);
    if data.len() - data.len() % 16 > i {
        assert(!block_is_encrypted(i / 16, c, s));
    }
    law_pattern_mode_keeps_clear_bytes(d.key, data, 0, d.start_block(iv), c, s, i);
}

/// The samples of a segment that do not overlap are decrypted each on its own, with its own IV and
/// map, and no byte outside of them is changed.
pub proof fn law_samples_are_decrypted_alone(
    d: DecryptorView,
    mdat: Seq<u8>,
    samples: Seq<sample::SampleView>,
    k: int,
)
    requires
        0 <= k <= samples.len(),
        forall|i: int|
            0 <= i < samples.len() ==> 0 <= (#[trigger] samples[i]).from <= samples[i].to
                <= mdat.len(),
        forall|i: int, j: int|
            0 <= i < j < samples.len() ==> (#[trigger] samples[i]).to <= (
            #[trigger] samples[j]).from,
    ensures
        d.plain_segment(mdat, samples, k).len() == mdat.len(),
        forall|i: int|
            #![trigger samples[i]]
            0 <= i < k ==> d.plain_segment(mdat, samples, k).subrange(
                samples[i].from,
                samples[i].to,
            ) == d.plain(
                mdat.subrange(samples[i].from, samples[i].to),
                samples[i].iv,
                samples[i].subsamples,
            ),
        forall|b: int|
            0 <= b < mdat.len() && (forall|i: int|
                0 <= i < k ==> !((#[trigger] samples[i]).from <= b < samples[i].to))
                ==> #[trigger] d.plain_segment(mdat, samples, k)[b] == mdat[b],
    decreases k,
{
    if k > 0 {
        law_samples_are_decrypted_alone(d, mdat, samples, k - 1);
        let m = d.plain_segment(mdat, samples, k - 1);
        let r = d.plain_segment(mdat, samples, k);
        let s = samples[k - 1];
        let own = m.subrange(s.from, s.to);
        law_plain_keeps_length(d, own, s.iv, s.subsamples);
        assert(own =~= mdat.subrange(s.from, s.to)) by {
            assert forall|b: int| s.from <= b < s.to implies m[b] == mdat[b] by {
                assert forall|i: int| 0 <= i < k - 1 implies !((#[trigger] samples[i]).from <= b
                    < samples[i].to) by {
                    assert(samples[i].to <= samples[k - 1].from);
                }
            }
        }
        law_plain_keeps_length(d, mdat.subrange(s.from, s.to), s.iv, s.subsamples);
        if s.from == s.to {
            assert(r == m);
            assert(r.subrange(s.from, s.to) =~= d.plain(own, s.iv, s.subsamples));
        } else {
            assert(r.subrange(s.from, s.to) =~= d.plain(own, s.iv, s.subsamples));
        }
        assert forall|i: int| #![trigger samples[i]] 0 <= i < k implies r.subrange(
            samples[i].from,
            samples[i].to,
        ) == d.plain(
            mdat.subrange(samples[i].from, samples[i].to),
            samples[i].iv,
            samples[i].subsamples,
        ) by {
            if i < k - 1 {
                assert(samples[i].to <= samples[k - 1].from);
                assert(r.subrange(samples[i].from, samples[i].to) =~= m.subrange(
                    samples[i].from,
                    samples[i].to,
                ));
            }
        }
        assert forall|b: int|
            0 <= b < mdat.len() && (forall|i: int|
                0 <= i < k ==> !((#[trigger] samples[i]).from <= b
                    < samples[i].to)) implies #[trigger] r[b] == mdat[b] by {
            assert(!(samples[k - 1].from <= b < samples[k - 1].to));
            assert(m[b] == mdat[b]);
        }
    }
}

fn push_xored(out: &mut Vec<u8>, data: &[u8], from: usize, to: usize, stream: &[u8], used: usize)
    requires
        from <= to <= data.len(),
        used + (to - from) <= stream.len(),
    ensures
        final(out)@ == old(out)@ + Seq::new(
            (to - from) as nat,
            |i: int| data@[from + i] ^ stream@[used + i],
        ),
{
    let ghost all = Seq::new((to - from) as nat, |i: int| data@[from + i] ^ stream@[used + i]);
    let mut i: usize = 0;
    while i < to - from
        invariant
            from <= to <= data.len(),
            used + (to - from) <= stream.len(),
            i <= to - from,
            all == Seq::new((to - from) as nat, |i: int| data@[from + i] ^ stream@[used + i]),
            out@ == old(out)@ + all.take(i as int),
        decreases to - from - i,
    {
        out.push(data[from + i] ^ stream[used + i]);
        assert(all.take(i + 1) =~= all.take(i as int).push(all[i as int]));
        i = i + 1;
    }
    assert(all.take(to - from) =~= all);
}

impl Decryptor {
    /// Counter mode.
    pub fn new(key: [u8; 16]) -> (r: Self)
        ensures
            r@.key == key@,
            r@.constant_iv is None,
            r@.mode == EncryptionMode::CencCtr,
    {
        Decryptor { key, constant_iv: None, mode: EncryptionMode::CencCtr }
    }

    /// Counter mode, with an IV for samples that carry none.
    pub fn with_constant_iv(key: [u8; 16], iv: [u8; 16]) -> (r: Self)
        ensures
            r@.key == key@,
            r@.constant_iv == Some(iv@),
            r@.mode == EncryptionMode::CencCtr,
    {
        Decryptor { key, constant_iv: Some(iv), mode: EncryptionMode::CencCtr }
    }

    /// Pattern mode.
    pub fn new_cbcs(key: [u8; 16], crypt_byte_block: u8, skip_byte_block: u8) -> (r: Self)
        ensures
            r@.key == key@,
            r@.constant_iv is None,
            r@.mode == (EncryptionMode::Cbcs { crypt_byte_block, skip_byte_block }),
    {
        Decryptor {
            key,
            constant_iv: None,
            mode: EncryptionMode::Cbcs { crypt_byte_block, skip_byte_block },
        }
    }

    /// Pattern mode, with an IV for samples that carry none.
    pub fn cbcs_with_constant_iv(
        key: [u8; 16],
        iv: [u8; 16],
        crypt_byte_block: u8,
        skip_byte_block: u8,
    ) -> (r: Self)
        ensures
            r@.key == key@,
            r@.constant_iv == Some(iv@),
            r@.mode == (EncryptionMode::Cbcs { crypt_byte_block, skip_byte_block }),
    {
        Decryptor {
            key,
            constant_iv: Some(iv),
            mode: EncryptionMode::Cbcs { crypt_byte_block, skip_byte_block },
        }
    }

    fn make_counter(&self, iv: &[u8]) -> (r: [u8; 16])
        ensures
            r@ == self@.start_block(iv@),
    {
        let mut c: [u8; 16] = [0u8; 16];
        if iv.len() == 0 {
            if let Some(civ) = self.constant_iv {
                return civ;
            }
            assert(c@ =~= zeros(16));
            return c;
        }
        let n: usize = if iv.len() < 16 {
            iv.len()
        } else {
            16
        };
        for i in 0..n
            invariant
                n <= iv.len(),
                n <= 16,
                c@.len() == 16,
                forall|j: int| 0 <= j < i ==> c@[j] == iv@[j],
                forall|j: int| i <= j < 16 ==> c@[j] == 0,
        {
            c[i] = iv[i];
        }
        assert(c@ =~= self@.start_block(iv@));
        c
    }

    fn ctr_sample(&self, data: &[u8], iv: &[u8], map: &[SubSample]) -> (r: Vec<u8>)
        requires
            self@.mode == EncryptionMode::CencCtr,
        ensures
            r@ == self@.plain(data@, iv@, map@),
    {
        let counter: [u8; 16] = self.make_counter(iv);
        if map.len() == 0 {
            let r: Vec<u8> = ctr_apply(&self.key, &counter, data);
            assert(r@ =~= ctr_bytes(self.key@, counter@, data@, 0));
            return r;
        }
        let n: usize = data.len();
        let blank: Vec<u8> = vec![0u8; n];
        let stream: Vec<u8> = ctr_apply(&self.key, &counter, blank.as_slice());
        let ghost key = self.key@;
        let ghost c = counter@;
        assert forall|i: int| 0 <= i < n implies #[trigger] stream@[i] == ctr_keystream(
            key,
            c,
            i,
        ) by {
            lemma_xor_twice(0, ctr_keystream(key, c, i));
            assert(blank@[i] == 0);
        }
        let mut out: Vec<u8> = Vec::new();
        let mut pos: usize = 0;
        let mut used: usize = 0;
        let ghost all = ctr_walk(key, c, data@, map@, 0, 0, 0);
        assert(out@ + all =~= all);
        for k in 0..map.len()
            invariant
                n == data@.len(),
                pos <= n,
                used <= pos,
                stream@.len() == n,
                forall|i: int| 0 <= i < n ==> #[trigger] stream@[i] == ctr_keystream(key, c, i),
                out@ + ctr_walk(key, c, data@, map@, k as int, pos as int, used as int) == all,
        {
            let clear: usize = map[k].clear as usize;
            let enc: usize = map[k].encrypted as usize;
            let from: usize = if clear < n - pos {
                pos + clear
            } else {
                n
            };
            let to: usize = if enc < n - from {
                from + enc
            } else {
                n
            };
            let ghost before = out@;
            wire::append(&mut out, vstd::slice::slice_subrange(data, pos, from));
            push_xored(&mut out, data, from, to, stream.as_slice(), used);
            proof {
                let rest = ctr_walk(key, c, data@, map@, k + 1, to as int, used + to - from);
                let plain = ctr_bytes(key, c, data@.subrange(from as int, to as int), used as int);
                assert(Seq::new(
                    (to - from) as nat,
                    |i: int| data@[from + i] ^ stream@[used + i],
                ) =~= plain);
                assert(out@ + rest =~= before + (data@.subrange(pos as int, from as int) + plain
                    + rest));
            }
            used = used + (to - from);
            pos = to;
        }
        let ghost before = out@;
        wire::append(&mut out, vstd::slice::slice_subrange(data, pos, n));
        assert(data@.subrange(pos as int, n as int) =~= data@.skip(pos as int));
        assert(out@ =~= all);
        out
    }

    /// Appends the plain region, and puts the chaining block behind it into `iv`.
    fn cbcs_region(&self, out: &mut Vec<u8>, region: &[u8], iv: &mut [u8; 16], crypt: u8, skip: u8)
        ensures
            final(out)@ == old(out)@ + cbcs_from(
                self@.key,
                region@,
                0,
                old(iv)@,
                crypt as int,
                skip as int,
            ).bytes,
            final(iv)@ == cbcs_from(
                self@.key,
                region@,
                0,
                old(iv)@,
                crypt as int,
                skip as int,
            ).iv,
    {
        let n: usize = region.len();
        let blocks: usize = n / 16;
        let ghost key = self.key@;
        let ghost all = cbcs_from(key, region@, 0, old(iv)@, crypt as int, skip as int);
        let period: usize = crypt as usize + skip as usize;
        for j in 0..blocks
            invariant
                n == region@.len(),
                blocks == n / 16,
                key == self.key@,
                period == crypt + skip,
                out@ + cbcs_from(key, region@, j as int, iv@, crypt as int, skip as int).bytes
                    == old(out)@ + all.bytes,
                cbcs_from(key, region@, j as int, iv@, crypt as int, skip as int).iv == all.iv,
        {
            let at: usize = 16 * j;
            let block: [u8; 16] = crate::mp4::tenc::block_at(region, at);
            let open: bool = if crypt == 0 {
                skip == 0
            } else {
                j % period < crypt as usize
            };
            assert(open == block_is_encrypted(j as int, crypt as int, skip as int));
            let ghost before = out@;
            let ghost next = if open {
                block@
            } else {
                iv@
            };
            let ghost rest = cbcs_from(key, region@, j + 1, next, crypt as int, skip as int);
            if open {
                let plain: [u8; 16] = aes128_decrypt_block(&self.key, &block);
                push_xored(out, plain.as_slice(), 0, 16, iv.as_slice(), 0);
                proof {
                    let mixed = xor_block(plain@, iv@);
                    assert(Seq::new(16, |i: int| plain@[0 + i] ^ iv@[0 + i]) =~= mixed);
                    assert(out@ + rest.bytes =~= before + (mixed + rest.bytes));
                }
                *iv = block;
            } else {
                wire::append(out, block.as_slice());
                assert(out@ + rest.bytes =~= before + (block@ + rest.bytes));
            }
        }
        let ghost before = out@;
        wire::append(out, vstd::slice::slice_subrange(region, 16 * blocks, n));
        assert(region@.subrange(16 * blocks as int, n as int) =~= region@.skip(16 * blocks as int));
        assert(out@ =~= old(out)@ + all.bytes);
    }

    fn cbcs_sample(&self, data: &[u8], iv: &[u8], map: &[SubSample], crypt: u8, skip: u8) -> (r: Vec<
        u8,
    >)
        requires
            self@.mode == (EncryptionMode::Cbcs {
                crypt_byte_block: crypt,
                skip_byte_block: skip,
            }),
        ensures
            r@ == self@.plain(data@, iv@, map@),
    {
        let mut chain: [u8; 16] = self.make_counter(iv);
        let mut out: Vec<u8> = Vec::new();
        let ghost key = self.key@;
        if map.len() == 0 {
            self.cbcs_region(&mut out, data, &mut chain, crypt, skip);
            assert(out@ =~= self@.plain(data@, iv@, map@));
            return out;
        }
        let n: usize = data.len();
        let mut pos: usize = 0;
        let ghost all = cbcs_walk(
            key,
            chain@,
            data@,
            map@,
            0,
            0,
            crypt as int,
            skip as int,
        );
        assert(out@ + all =~= all);
        for k in 0..map.len()
            invariant
                n == data@.len(),
                pos <= n,
                key == self@.key,
                out@ + cbcs_walk(
                    key,
                    chain@,
                    data@,
                    map@,
                    k as int,
                    pos as int,
                    crypt as int,
                    skip as int,
                ) == all,
        {
            let clear: usize = map[k].clear as usize;
            let enc: usize = map[k].encrypted as usize;
            let from: usize = if clear < n - pos {
                pos + clear
            } else {
                n
            };
            let to: usize = if enc < n - from {
                from + enc
            } else {
                n
            };
            let ghost before = out@;
            let ghost chain0 = chain@;
            wire::append(&mut out, vstd::slice::slice_subrange(data, pos, from));
            self.cbcs_region(
                &mut out,
                vstd::slice::slice_subrange(data, from, to),
                &mut chain,
                crypt,
                skip,
            );
            proof {
                let region = cbcs_from(
                    key,
                    data@.subrange(from as int, to as int),
                    0,
                    chain0,
                    crypt as int,
                    skip as int,
                );
                let rest = cbcs_walk(
                    key,
                    region.iv,
                    data@,
                    map@,
                    k + 1,
                    to as int,
                    crypt as int,
                    skip as int,
                );
                assert(out@ + rest =~= before + (data@.subrange(pos as int, from as int)
                    + region.bytes + rest));
            }
            pos = to;
        }
        wire::append(&mut out, vstd::slice::slice_subrange(data, pos, n));
        assert(data@.subrange(pos as int, n as int) =~= data@.skip(pos as int));
        assert(out@ =~= all);
        out
    }

    fn plain_of(&self, data: &[u8], iv: &[u8], map: &[SubSample]) -> (r: Vec<u8>)
        ensures
            r@ == self@.plain(data@, iv@, map@),
    {
        match self.mode {
            EncryptionMode::CencCtr => self.ctr_sample(data, iv, map),
            EncryptionMode::Cbcs { crypt_byte_block, skip_byte_block } => self.cbcs_sample(
                data,
                iv,
                map,
                crypt_byte_block,
                skip_byte_block,
            ),
        }
    }

    /// Decrypts one sample in place.
    pub fn decrypt_sample(&self, data: &mut [u8], info: &SampleInfo)
        ensures
            final(data)@ == self@.plain(old(data)@, info@.iv, info@.subsamples),
    {
        let plain: Vec<u8> = self.plain_of(data, info.iv.as_slice(), info.subsamples.as_slice());
        proof {
            law_plain_keeps_length(self@, data@, info@.iv, info@.subsamples);
        }
        write_at(data, 0, plain.as_slice());
        assert(data@ =~= plain@);
    }

    /// Decrypts all samples of a segment in place.
    pub fn decrypt_segment(&self, mdat: &mut [u8], samples: &[SampleInfo])
        ensures
            final(mdat)@ == self@.plain_segment(
                old(mdat)@,
                sample::sample_views(samples@),
                samples@.len() as int,
            ),
    {
        let ghost vs = sample::sample_views(samples@);
        for k in 0..samples.len()
            invariant
                vs == sample::sample_views(samples@),
                mdat@ == self@.plain_segment(old(mdat)@, vs, k as int),
        {
            let s: &SampleInfo = &samples[k];
            assert(vs[k as int] == s@);
            let a: usize = s.data_range.0;
            let b: usize = if s.data_range.1 < mdat.len() {
                s.data_range.1
            } else {
                mdat.len()
            };
            if a < b {
                let ghost before = mdat@;
                let part: Vec<u8> = wire::copy(vstd::slice::slice_subrange(mdat, a, b));
                let plain: Vec<u8> = self.plain_of(
                    part.as_slice(),
                    s.iv.as_slice(),
                    s.subsamples.as_slice(),
                );
                proof {
                    law_plain_keeps_length(self@, part@, s@.iv, s@.subsamples);
                }
                write_at(mdat, a, plain.as_slice());
                assert(mdat@ =~= before.take(a as int) + plain@ + before.skip(b as int));
            }
        }
    }
}

/// Undoes the chaining of every block.
pub(crate) fn unchain(ciphertext: &[u8], key: &[u8; 16], iv: [u8; 16]) -> (r: Vec<u8>)
    ensures
        r@ == cbcs_from(key@, ciphertext@, 0, iv@, 0, 0).bytes,
{
    let d: Decryptor = Decryptor::new_cbcs(*key, 0, 0);
    let mut out: Vec<u8> = Vec::new();
    let mut chain: [u8; 16] = iv;
    d.cbcs_region(&mut out, ciphertext, &mut chain, 0, 0);
    assert(out@ =~= cbcs_from(key@, ciphertext@, 0, iv@, 0, 0).bytes);
    out
}

/// Puts `src` over the bytes from `at` on.
fn write_at(data: &mut [u8], at: usize, src: &[u8])
    requires
        at + src.len() <= old(data)@.len(),
    ensures
        final(data)@ == old(data)@.take(at as int) + src@ + old(data)@.skip(at + src@.len()),
{
    for i in 0..src.len()
        invariant
            at + src@.len() <= old(data)@.len(),
            data@.len() == old(data)@.len(),
            forall|j: int| 0 <= j < i ==> data@[at + j] == src@[j],
            forall|j: int|
                0 <= j < data@.len() && !(at <= j < at + i) ==> data@[j] == old(data)@[j],
    {
        assert(at + i < data.len());
        data[at + i] = src[i];
    }
    assert(data@ =~= old(data)@.take(at as int) + src@ + old(data)@.skip(at + src@.len()));
}

/// A key identifier without white space around it and without hyphens, in lower case.
pub open spec fn normal_kid(kid: Seq<char>) -> Seq<char> {
    text::without(text::lowered(text::trimmed(kid)), '-')
}

/// The key of a line `KID:KEY` or `KEY`: 32 hexadecimal digits behind the last colon.
pub open spec fn line_key(s: Seq<char>) -> Option<Seq<u8>> {
    let k = text::trimmed(text::after_last(s, ':'));
    if k.len() == 32 && text::is_hex(k) {
        Some(text::hex_bytes(k))
    } else {
        None
    }
}

/// The key identifier of a line `KID:KEY`: what stands before the first colon.
pub open spec fn line_kid(s: Seq<char>) -> Option<Seq<char>> {
    match text::index_from(s, ':', 0) {
        Some(i) => Some(normal_kid(s.take(i))),
        None => None,
    }
}

/// Reads the key of a line `KID:KEY` or `KEY`.
pub fn parse_key_hex(s: &str) -> (r: Option<[u8; 16]>)
    ensures
        match r {
            None => line_key(s@) is None,
            Some(k) => line_key(s@) == Some(k@),
        },
{
    key_of_chars(text::to_chars(s).as_slice())
}

/// Reads the key of a line.
pub fn key_of_chars(s: &[char]) -> (r: Option<[u8; 16]>)
    ensures
        match r {
            None => line_key(s@) is None,
            Some(k) => line_key(s@) == Some(k@),
        },
{
    let last: Vec<char> = text::behind_last(s, ':');
    let part: Vec<char> = text::trim(last.as_slice());
    match text::from_hex(part.as_slice()) {
        None => None,
        Some(bytes) => {
            if bytes.len() != 16 {
                return None;
            }
            let k: [u8; 16] = crate::mp4::tenc::block_at(bytes.as_slice(), 0);
            assert(k@ =~= bytes@);
            Some(k)
        },
    }
}

fn normalize_kid(kid: &[char]) -> (r: String)
    ensures
        r@ == normal_kid(kid@),
{
    let t: Vec<char> = text::trim(kid);
    let l: String = text::to_lowercase(text::from_chars(t.as_slice()).as_str());
    let c: Vec<char> = text::remove(text::to_chars(l.as_str()).as_slice(), '-');
    text::from_chars(c.as_slice())
}

/// Reads the key identifier of a line `KID:KEY`.
pub fn parse_kid_hex(s: &str) -> (r: Option<String>)
    ensures
        match r {
            None => line_kid(s@) is None,
            Some(k) => line_kid(s@) == Some(k@),
        },
{
    kid_of_chars(text::to_chars(s).as_slice())
}

fn kid_of_chars(s: &[char]) -> (r: Option<String>)
    ensures
        match r {
            None => line_kid(s@) is None,
            Some(k) => line_kid(s@) == Some(k@),
        },
{
    match text::index_of(s, ':', 0) {
        None => None,
        Some(i) => {
            assert(s@.subrange(0, i as int) =~= s@.take(i as int));
            Some(normalize_kid(vstd::slice::slice_subrange(s, 0, i)))
        },
    }
}

/// A key under its identifier.
pub struct KeyEntry {
    kid: String,
    key: [u8; 16],
}

/// Keys by their identifiers, and keys without one.
pub struct KeyStore {
    entries: Vec<KeyEntry>,
    bare: Vec<[u8; 16]>,
}

/// What a value of [`KeyStore`] holds.
#[verifier::ext_equal]
pub struct KeyStoreView {
    pub map: Map<Seq<char>, Seq<u8>>,
    pub bare: Seq<Seq<u8>>,
}

/// The key under `kid`: the last entry holds.
closed spec fn lookup(e: Seq<KeyEntry>, kid: Seq<char>) -> Option<Seq<u8>>
    decreases e.len(),
{
    if e.len() == 0 {
        None
    } else if e.last().kid@ == kid {
        Some(e.last().key@)
    } else {
        lookup(e.drop_last(), kid)
    }
}

closed spec fn keyed(e: Seq<KeyEntry>) -> Map<Seq<char>, Seq<u8>> {
    Map::new(|k: Seq<char>| lookup(e, k) is Some, |k: Seq<char>| lookup(e, k)->0)
}

/// The keys of a list.
pub open spec fn key_views(v: Seq<[u8; 16]>) -> Seq<Seq<u8>> {
    v.map_values(|k: [u8; 16]| k@)
}

impl View for KeyStore {
    type V = KeyStoreView;

    closed spec fn view(&self) -> KeyStoreView {
        KeyStoreView { map: keyed(self.entries@), bare: key_views(self.bare@) }
    }
}

impl KeyStoreView {
    pub open spec fn none() -> Self {
        KeyStoreView { map: Map::empty(), bare: Seq::empty() }
    }

    /// The store with the key of one line. A line without a key changes nothing.
    pub open spec fn with_line(self, line: Seq<char>) -> Self {
        let t = text::trimmed(line);
        match line_key(t) {
            None => self,
            Some(key) => match line_kid(t) {
                Some(kid) => KeyStoreView { map: self.map.insert(normal_kid(kid), key), ..self },
                None => KeyStoreView { bare: self.bare.push(key), ..self },
            },
        }
    }

    /// The store with the keys of the first `n` lines.
    pub open spec fn with_lines(self, lines: Seq<Seq<char>>, n: int) -> Self
        decreases n,
    {
        if n <= 0 {
            self
        } else {
            self.with_lines(lines, n - 1).with_line(lines[n - 1])
        }
    }

    /// The store with the keys of a text.
    pub open spec fn with_text(self, s: Seq<char>) -> Self {
        self.with_lines(text::lines_of(s), text::lines_of(s).len() as int)
    }

    /// The store with the keys of another, which go before its own.
    pub open spec fn merged(self, other: Self) -> Self {
        KeyStoreView {
            map: self.map.union_prefer_right(other.map),
            bare: self.bare + other.bare,
        }
    }

    /// The key for an identifier: its own, or else the first without one.
    pub open spec fn key_for(self, kid: Seq<char>) -> Option<Seq<u8>> {
        if self.map.dom().contains(normal_kid(kid)) {
            Some(self.map[normal_kid(kid)])
        } else if self.bare.len() > 0 {
            Some(self.bare[0])
        } else {
            None
        }
    }

    /// Whether there is a key of its own for an identifier.
    pub open spec fn has(self, kid: Seq<char>) -> bool {
        self.map.dom().contains(normal_kid(kid))
    }
}

proof fn lemma_lookup_split(a: Seq<KeyEntry>, b: Seq<KeyEntry>, kid: Seq<char>)
    ensures
        lookup(a + b, kid) == if lookup(b, kid) is Some {
            lookup(b, kid)
        } else {
            lookup(a, kid)
        },
    decreases b.len(),
{
    if b.len() == 0 {
        assert(a + b =~= a);
    } else {
        assert((a + b).drop_last() =~= a + b.drop_last());
        lemma_lookup_split(a, b.drop_last(), kid);
    }
}

impl Default for KeyStore {
    fn default() -> (r: Self)
        ensures
            r@ == KeyStoreView::none(),
    {
        let r = KeyStore { entries: Vec::new(), bare: Vec::new() };
        assert(r@.map =~= Map::<Seq<char>, Seq<u8>>::empty());
        assert(r@.bare =~= Seq::<Seq<u8>>::empty());
        r
    }
}

impl KeyStore {
    /// Reads lines `KID:KEY` or `KEY`.
    pub fn parse(s: &str) -> (r: Self)
        ensures
            r@ == KeyStoreView::none().with_text(s@),
    {
        let mut store: KeyStore = KeyStore::default();
        store.extend_from_text(s);
        store
    }

    fn add(&mut self, kid: String, key: [u8; 16])
        ensures
            final(self)@ == (KeyStoreView {
                map: old(self)@.map.insert(kid@, key@),
                ..old(self)@
            }),
    {
        let ghost before = self.entries@;
        let e = KeyEntry { kid, key };
        self.entries.push(e);
        proof {
            assert(self.entries@.drop_last() =~= before);
            assert(keyed(self.entries@) =~= keyed(before).insert(kid@, key@));
        }
    }

    /// Adds the keys of lines `KID:KEY` or `KEY`.
    pub fn extend_from_text(&mut self, s: &str)
        ensures
            final(self)@ == old(self)@.with_text(s@),
    {
        let lines: Vec<Vec<char>> = text::split_lines(s);
        let ghost all = text::lines_of(s@);
        for i in 0..lines.len()
            invariant
                text::char_views(lines@) == all,
                self@ == old(self)@.with_lines(all, i as int),
        {
            assert(all[i as int] == lines@[i as int]@);
            let line: Vec<char> = text::trim(lines[i].as_slice());
            if let Some(key) = key_of_chars(line.as_slice()) {
                match kid_of_chars(line.as_slice()) {
                    Some(kid) => {
                        let k: Vec<char> = text::to_chars(kid.as_str());
                        self.add(normalize_kid(k.as_slice()), key);
                    },
                    None => {
                        let ghost before = self.bare@;
                        self.bare.push(key);
                        assert(key_views(self.bare@) =~= key_views(before).push(key@));
                    },
                }
            }
        }
        assert(all.len() == lines@.len());
    }

    /// Adds the keys of another store.
    pub fn merge(&mut self, other: KeyStore)
        ensures
            final(self)@ == old(self)@.merged(other@),
    {
        let ghost e0 = self.entries@;
        let ghost b0 = self.bare@;
        let mut i: usize = 0;
        while i < other.entries.len()
            invariant
                i <= other.entries@.len(),
                self.bare@ == b0,
                forall|k: Seq<char>|
                    lookup(self.entries@, k) == lookup(
                        e0 + other.entries@.take(i as int),
                        k,
                    ),
            decreases other.entries@.len() - i,
        {
            let ghost before = self.entries@;
            let kid: String = text::clone_text(&other.entries[i].kid);
            let key: [u8; 16] = other.entries[i].key;
            self.entries.push(KeyEntry { kid, key });
            proof {
                let joined = e0 + other.entries@.take(i as int + 1);
                assert(joined.drop_last() =~= e0 + other.entries@.take(i as int));
                assert(self.entries@.drop_last() =~= before);
                assert(joined.last() == other.entries@[i as int]);
                assert forall|k: Seq<char>| lookup(self.entries@, k) == lookup(joined, k) by {
                    assert(lookup(before, k) == lookup(e0 + other.entries@.take(i as int), k));
                }
            }
            i = i + 1;
        }
        let mut j: usize = 0;
        while j < other.bare.len()
            invariant
                j <= other.bare@.len(),
                self.bare@ == b0 + other.bare@.take(j as int),
                forall|k: Seq<char>|
                    lookup(self.entries@, k) == lookup(
                        e0 + other.entries@.take(other.entries@.len() as int),
                        k,
                    ),
            decreases other.bare@.len() - j,
        {
            self.bare.push(other.bare[j]);
            assert(self.bare@ =~= b0 + other.bare@.take(j as int + 1));
            j = j + 1;
        }
        proof {
            assert(other.entries@.take(other.entries@.len() as int) =~= other.entries@);
            assert(other.bare@.take(other.bare@.len() as int) =~= other.bare@);
            assert forall|k: Seq<char>| #[trigger] lookup(self.entries@, k) == if lookup(
                other.entries@,
                k,
            ) is Some {
                lookup(other.entries@, k)
            } else {
                lookup(e0, k)
            } by {
                lemma_lookup_split(e0, other.entries@, k);
            }
            assert(self@.map =~= old(self)@.map.union_prefer_right(other@.map));
            assert(self@.bare =~= old(self)@.bare + other@.bare);
        }
    }

    fn own_key(&self, kid: &str) -> (r: Option<[u8; 16]>)
        ensures
            match r {
                None => !self@.has(kid@),
                Some(k) => self@.has(kid@) && self@.map[normal_kid(kid@)] == k@,
            },
    {
        let wanted: String = normalize_kid(text::to_chars(kid).as_slice());
        let mut i: usize = self.entries.len();
        assert(self.entries@.take(i as int) =~= self.entries@);
        while i > 0
            invariant
                i <= self.entries@.len(),
                wanted@ == normal_kid(kid@),
                lookup(self.entries@, wanted@) == lookup(self.entries@.take(i as int), wanted@),
            decreases i,
        {
            let ghost part = self.entries@.take(i as int);
            assert(part.drop_last() =~= self.entries@.take(i - 1));
            if text::same(self.entries[i - 1].kid.as_str(), wanted.as_str()) {
                return Some(self.entries[i - 1].key);
            }
            i = i - 1;
        }
        None
    }

    /// The key for an identifier, or else the first key without one.
    pub fn get(&self, kid: &str) -> (r: Option<[u8; 16]>)
        ensures
            match r {
                None => self@.key_for(kid@) is None,
                Some(k) => self@.key_for(kid@) == Some(k@),
            },
    {
        match self.own_key(kid) {
            Some(k) => Some(k),
            None => {
                if self.bare.len() > 0 {
                    assert(key_views(self.bare@)[0] == self.bare@[0]@);
                    Some(self.bare[0])
                } else {
                    None
                }
            },
        }
    }

    pub fn is_empty(&self) -> (r: bool)
        ensures
            r == (self@ == KeyStoreView::none()),
    {
        let r: bool = self.entries.len() == 0 && self.bare.len() == 0;
        proof {
            let none = KeyStoreView::none();
            if r {
                assert(self@.map =~= none.map);
                assert(self@.bare =~= none.bare);
            } else if self.entries@.len() > 0 {
                let kid = self.entries@.last().kid@;
                assert(lookup(self.entries@, kid) is Some);
                assert(self@.map.dom().contains(kid));
                assert(!none.map.dom().contains(kid));
            } else {
                assert(self@.bare.len() > 0);
                assert(none.bare.len() == 0);
            }
        }
        r
    }

    /// Whether there is a key of its own for an identifier.
    pub fn has_kid(&self, kid: &str) -> (r: bool)
        ensures
            r == self@.has(kid@),
    {
        self.own_key(kid).is_some()
    }

    /// Whether there is a key without an identifier.
    pub fn has_bare_key(&self) -> (r: bool)
        ensures
            r == (self@.bare.len() > 0),
    {
        self.bare.len() > 0
    }
}

/// A key under its identifier is found under every spelling of the identifier that is normalised
/// to the same, whatever was there before.
pub proof fn law_key_is_found(store: KeyStoreView, line: Seq<char>, kid: Seq<char>)
    requires
        line_key(text::trimmed(line)) is Some,
        line_kid(text::trimmed(line)) is Some,
        normal_kid(kid) == normal_kid(line_kid(text::trimmed(line))->0),
    ensures
        store.with_line(line).key_for(kid) == line_key(text::trimmed(line)),
        store.with_line(line).has(kid),
{
}

/// A key without an identifier serves every identifier that has none of its own.
pub proof fn law_bare_key_serves_all(store: KeyStoreView, line: Seq<char>, kid: Seq<char>)
    requires
        line_key(text::trimmed(line)) is Some,
        line_kid(text::trimmed(line)) is None,
        store.bare.len() == 0,
        !store.has(kid),
    ensures
        store.with_line(line).key_for(kid) == line_key(text::trimmed(line)),
{
}

proof fn lemma_head_line(store: KeyStoreView, line: Seq<char>, rest: Seq<Seq<char>>, n: int)
    requires
        0 <= n <= rest.len(),
    ensures
        store.with_lines(seq![line] + rest, n + 1) == store.with_line(line).with_lines(rest, n),
    decreases n,
{
    let all = seq![line] + rest;
    assert(all[n] == if n == 0 {
        line
    } else {
        rest[n - 1]
    });
    if n > 0 {
        lemma_head_line(store, line, rest, n - 1);
    } else {
        assert(store.with_lines(all, 0) == store);
    }
}

proof fn lemma_line_end(store: KeyStoreView, line: Seq<char>)
    ensures
        store.with_line(text::without_return(line)) == store.with_line(line),
        line.len() == 0 ==> store.with_line(line) == store,
{
    if line.len() > 0 && line.last() == '\r' {
        text::lemma_trimmed_end(line);
    }
    if line.len() == 0 {
        assert(text::trimmed(line) =~= line);
        assert(text::after_last(line, ':') =~= line);
    }
}

/// Reading one text and then another leaves what reading both with a line break between them
/// leaves.
pub proof fn law_texts_add_up(store: KeyStoreView, a: Seq<char>, b: Seq<char>)
    ensures
        store.with_text(a).with_text(b) == store.with_text(a + seq!['\n'] + b),
    decreases a.len(),
{
    let c = a + seq!['\n'] + b;
    let rest = text::lines_of(b);
    text::lemma_index_shape(a, '\n', 0);
    match text::index_from(a, '\n', 0) {
        None => {
            text::lemma_only_line(a);
            text::lemma_first_line(a, b);
            lemma_line_end(store, a);
            lemma_head_line(store, text::without_return(a), rest, rest.len() as int);
            if a.len() > 0 {
                let none = Seq::<Seq<char>>::empty();
                lemma_head_line(store, a, none, 0);
                assert(seq![a] + none =~= seq![a]);
                assert(store.with_text(a) == store.with_line(a));
            } else {
                assert(store.with_text(a) == store);
            }
        },
        Some(e) => {
            let head = a.take(e);
            let tail = a.skip(e + 1);
            assert(a =~= head + seq!['\n'] + tail);
            assert(c =~= head + seq!['\n'] + (tail + seq!['\n'] + b));
            assert(!head.contains('\n'));
            let x = text::without_return(head);
            let more = text::lines_of(tail);
            let most = text::lines_of(tail + seq!['\n'] + b);
            text::lemma_first_line(head, tail);
            text::lemma_first_line(head, tail + seq!['\n'] + b);
            lemma_head_line(store, x, more, more.len() as int);
            lemma_head_line(store, x, most, most.len() as int);
            law_texts_add_up(store.with_line(x), tail, b);
        },
    }
}

/// Whether a line has a key for the identifier `kid`, which is in its normal form.
pub open spec fn names(line: Seq<char>, kid: Seq<char>) -> bool {
    let t = text::trimmed(line);
    &&& line_key(t) is Some
    &&& line_kid(t) matches Some(k)
    &&& normal_kid(k) == kid
}

proof fn lemma_unnamed(store: KeyStoreView, lines: Seq<Seq<char>>, from: int, n: int, kid: Seq<char>)
    requires
        0 <= from <= n <= lines.len(),
        forall|i: int| from <= i < n ==> !names(#[trigger] lines[i], kid),
    ensures
        store.with_lines(lines, n).map.dom().contains(kid) == store.with_lines(
            lines,
            from,
        ).map.dom().contains(kid),
        store.with_lines(lines, n).map[kid] == store.with_lines(lines, from).map[kid],
    decreases n - from,
{
    if from < n {
        lemma_unnamed(store, lines, from, n - 1, kid);
        assert(!names(lines[n - 1], kid));
    }
}

/// The key of an identifier that no line of a text names stays as it was.
pub proof fn law_unnamed_keys_stay(store: KeyStoreView, s: Seq<char>, kid: Seq<char>)
    requires
        forall|i: int|
            0 <= i < text::lines_of(s).len() ==> !names(
                #[trigger] text::lines_of(s)[i],
                normal_kid(kid),
            ),
    ensures
        store.with_text(s).has(kid) == store.has(kid),
        store.has(kid) ==> store.with_text(s).key_for(kid) == store.key_for(kid),
{
    let lines = text::lines_of(s);
    lemma_unnamed(store, lines, 0, lines.len() as int, normal_kid(kid));
}

/// Of the lines of a text that name an identifier, the last one gives its key.
pub proof fn law_last_line_wins(store: KeyStoreView, s: Seq<char>, i: int, kid: Seq<char>)
    requires
        0 <= i < text::lines_of(s).len(),
        names(text::lines_of(s)[i], normal_kid(kid)),
        forall|j: int|
            i < j < text::lines_of(s).len() ==> !names(
                #[trigger] text::lines_of(s)[j],
                normal_kid(kid),
            ),
    ensures
        store.with_text(s).has(kid),
        store.with_text(s).key_for(kid) == line_key(text::trimmed(text::lines_of(s)[i])),
{
    let lines = text::lines_of(s);
    lemma_unnamed(store, lines, i + 1, lines.len() as int, normal_kid(kid));
}

proof fn lemma_no_keys(store: KeyStoreView, lines: Seq<Seq<char>>, n: int)
    requires
        0 <= n <= lines.len(),
        forall|i: int| 0 <= i < n ==> line_key(text::trimmed(#[trigger] lines[i])) is None,
    ensures
        store.with_lines(lines, n) == store,
    decreases n,
{
    if n > 0 {
        lemma_no_keys(store, lines, n - 1);
        assert(line_key(text::trimmed(lines[n - 1])) is None);
    }
}

/// A text whose lines hold no key changes nothing.
pub proof fn law_lines_without_key_change_nothing(store: KeyStoreView, s: Seq<char>)
    requires
        forall|i: int|
            0 <= i < text::lines_of(s).len() ==> line_key(
                text::trimmed(#[trigger] text::lines_of(s)[i]),
            ) is None,
    ensures
        store.with_text(s) == store,
{
    lemma_no_keys(store, text::lines_of(s), text::lines_of(s).len() as int);
}

proof fn lemma_without_sum(a: Seq<char>, b: Seq<char>, c: char)
    ensures
        text::without(a + b, c) == text::without(a, c) + text::without(b, c),
    decreases b.len(),
{
    let s = a + b;
    if b.len() > 0 {
        let d = b.drop_last();
        lemma_without_sum(a, d, c);
        assert(s.drop_last() =~= a + d);
        assert(s.last() == b.last());
        assert((text::without(a, c) + text::without(d, c)).push(b.last()) =~= text::without(a, c)
            + text::without(d, c).push(b.last()));
    } else {
        assert(s =~= a);
        assert(text::without(a, c) + text::without(b, c) =~= text::without(a, c));
    }
}

proof fn lemma_without_none(s: Seq<char>, c: char)
    requires
        forall|i: int| 0 <= i < s.len() ==> #[trigger] s[i] != c,
    ensures
        text::without(s, c) == s,
    decreases s.len(),
{
    if s.len() > 0 {
        let d = s.drop_last();
        assert forall|i: int| 0 <= i < d.len() implies #[trigger] d[i] != c by {
            assert(d[i] == s[i]);
        }
        lemma_without_none(d, c);
        assert(s[s.len() - 1] != c);
        assert(d.push(s.last()) =~= s);
    }
}

/// Whether a text is not empty and made of hexadecimal digits and dashes.
pub open spec fn is_kid_text(s: Seq<char>) -> bool {
    &&& s.len() > 0
    &&& forall|i: int|
        0 <= i < s.len() ==> text::hex_value(#[trigger] s[i]) is Some || s[i] == '-'
}

/// A key identifier is the same with and without dashes, and in either case.
pub proof fn law_spelling_of_kid_does_not_matter(a: Seq<char>, b: Seq<char>)
    requires
        is_kid_text(a),
        is_kid_text(b),
    ensures
        normal_kid(a + seq!['-'] + b) == normal_kid(a + b),
        normal_kid(text::ascii_uppercase(a)) == normal_kid(a),
        normal_kid(text::ascii_lowercase(a)) == normal_kid(a),
{
    let s = a + seq!['-'] + b;
    let t = a + b;
    lemma_kid_text_sum(a, seq!['-']);
    lemma_kid_text_sum(a + seq!['-'], b);
    lemma_kid_text_sum(a, b);
    lemma_normal_kid(s);
    lemma_normal_kid(t);
    lemma_normal_kid(a);
    let (x, y, d) = (text::ascii_lowercase(a), text::ascii_lowercase(b), seq!['-']);
    assert(text::ascii_lowercase(s) =~= x + d + y);
    assert(text::ascii_lowercase(t) =~= x + y);
    lemma_without_sum(x + d, y, '-');
    lemma_without_sum(x, d, '-');
    lemma_without_sum(x, y, '-');
    assert(text::without(d, '-') =~= Seq::<char>::empty()) by {
        assert(d.drop_last() =~= Seq::<char>::empty());
        reveal_with_fuel(text::without, 2);
    }
    assert(text::without(x, '-') + Seq::<char>::empty() =~= text::without(x, '-'));
    let u = text::ascii_uppercase(a);
    assert forall|i: int| 0 <= i < u.len() implies text::hex_value(#[trigger] u[i]) is Some || u[i]
        == '-' by {
        assert(u[i] == text::ascii_upper(a[i]));
    }
    lemma_normal_kid(u);
    assert(text::ascii_lowercase(u) =~= x) by {
        assert forall|i: int| 0 <= i < a.len() implies text::ascii_lower(u[i]) == text::ascii_lower(
            a[i],
        ) by {
            assert(u[i] == text::ascii_upper(a[i]));
            assert(text::hex_value(a[i]) is Some || a[i] == '-');
        }
    }
    assert forall|i: int| 0 <= i < x.len() implies text::hex_value(#[trigger] x[i]) is Some || x[i]
        == '-' by {
        assert(x[i] == text::ascii_lower(a[i]));
    }
    lemma_normal_kid(x);
    assert(text::ascii_lowercase(x) =~= x);
}

proof fn lemma_kid_text_sum(a: Seq<char>, b: Seq<char>)
    requires
        is_kid_text(a),
        is_kid_text(b),
    ensures
        is_kid_text(a + b),
{
    let s = a + b;
    assert forall|i: int| 0 <= i < s.len() implies text::hex_value(#[trigger] s[i]) is Some || s[i]
        == '-' by {
        if i < a.len() {
            assert(s[i] == a[i]);
        } else {
            assert(s[i] == b[i - a.len()]);
        }
    }
}

proof fn lemma_normal_kid(s: Seq<char>)
    requires
        is_kid_text(s),
    ensures
        normal_kid(s) == text::without(text::ascii_lowercase(s), '-'),
{
    assert(text::hex_value(s[0]) is Some || s[0] == '-');
    assert(text::hex_value(s[s.len() - 1]) is Some || s[s.len() - 1] == '-');
    assert(text::trimmed(s) == s);
    assert(vstd::utf8::is_ascii_chars(s));
}

/// A line with an identifier and a key, both in hexadecimal, is read back: the key is found under
/// the identifier.
pub proof fn law_key_line_is_read_back(store: KeyStoreView, kid: Seq<u8>, key: Seq<u8>)
    requires
        kid.len() == 16,
        key.len() == 16,
    ensures
        ({
            let line = text::hex_lower(kid) + seq![':'] + text::hex_lower(key);
            let s = store.with_line(line);
            &&& s.key_for(text::hex_lower(kid)) == Some(key)
            &&& s.has(text::hex_lower(kid))
            &&& s.bare == store.bare
        }),
        ({
            let s = store.with_line(text::hex_lower(key));
            s.map == store.map && s.bare == store.bare.push(key)
        }),
{
    let (a, b) = (text::hex_lower(kid), text::hex_lower(key));
    let line = a + seq![':'] + b;
    text::law_hex_round_trip(kid);
    text::law_hex_round_trip(key);
    assert forall|i: int| 0 <= i < 32 implies (#[trigger] a[i]) != ':' && a[i] != '-'
        && !text::white(a[i]) by {
        assert(text::hex_value(a[i]) is Some);
    }
    assert forall|i: int| 0 <= i < 32 implies (#[trigger] b[i]) != ':' && !text::white(b[i]) by {
        assert(text::hex_value(b[i]) is Some);
    }
    assert(line[0] == a[0] && line.last() == b[31]);
    assert(text::trimmed(line) == line);
    assert(text::trimmed(b) == b);
    assert forall|j: int| 0 <= j < 32 implies #[trigger] line[j] != ':' by {
        assert(line[j] == a[j]);
    }
    assert(line[32] == ':');
    text::lemma_index_is(line, ':', 0, 32);
    assert(line.skip(33) =~= b);
    text::lemma_index_shape(b, ':', 0);
    assert(text::after_last(b, ':') == b);
    assert(text::after_last(line, ':') == b) by {
        reveal_with_fuel(text::after_last, 2);
    }
    assert(line.take(32) =~= a);
    lemma_normal_kid(a);
    assert(text::ascii_lowercase(a) =~= a) by {
        assert forall|i: int| 0 <= i < 32 implies text::ascii_lower(a[i]) == a[i] by {}
    }
    lemma_without_none(a, '-');
    assert(normal_kid(a) == a);
}

} // verus!
