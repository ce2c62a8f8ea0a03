//! The standard security handler: RC4 and AES, revisions 2 through 6.
//!
//! Everything here serves [`Decryptor`], which the file parser consults while loading objects.
//! Only password-based encryption is implemented; certificate-based files are refused.

use aes::cipher::block_padding::NoPadding;
use aes::cipher::{BlockDecryptMut, BlockEncryptMut, KeyIvInit};
use vstd::prelude::*;
use vstd::string::StringSliceAdditionalSpecFns;

use crate::error::Error;
use crate::filters::{entries_of, Resolve};
use crate::object::{dict_lookup, spec_as_int, Dict, Object, ObjectView};
use crate::lexer::opt_view;
use crate::text::{decimal_chars, message_with_number, str_eq};

verus! {

/// The 32-byte padding string of the standard security handler.
pub const PAD: [u8; 32] = [
    0x28, 0xBF, 0x4E, 0x5E, 0x4E, 0x75, 0x8A, 0x41, 0x64, 0x00, 0x4E, 0x56, 0xFF, 0xFA, 0x01, 0x08,
    0x2E, 0x2E, 0x00, 0xB6, 0xD0, 0x68, 0x3E, 0x80, 0x2F, 0x0C, 0xA9, 0xFE, 0x64, 0x53, 0x69, 0x7A,
];

pub open spec fn pad_bytes() -> Seq<u8> {
    seq![
        0x28u8, 0xBF, 0x4E, 0x5E, 0x4E, 0x75, 0x8A, 0x41, 0x64, 0x00, 0x4E, 0x56, 0xFF, 0xFA, 0x01, 0x08,
        0x2E, 0x2E, 0x00, 0xB6, 0xD0, 0x68, 0x3E, 0x80, 0x2F, 0x0C, 0xA9, 0xFE, 0x64, 0x53, 0x69, 0x7A,
    ]
}

fn pad_vec() -> (r: Vec<u8>)
    ensures
        r@ == pad_bytes(),
{
    let r = vstd::slice::slice_to_vec(PAD.as_slice());
    assert(r@ =~= pad_bytes());
    r
}

/// `s` with the entries at `a` and `b` exchanged.
pub open spec fn swap_at(s: Seq<u8>, a: int, b: int) -> Seq<u8> {
    s.update(a, s[b]).update(b, s[a])
}

/// The identity permutation of the 256 byte values.
pub open spec fn identity_perm() -> Seq<u8> {
    Seq::new(256, |i: int| i as u8)
}

/// The RC4 key schedule after its first `n` steps: the state and `j`.
pub open spec fn rc4_schedule(key: Seq<u8>, n: nat) -> (Seq<u8>, u8)
    decreases n,
{
    if n == 0 {
        (identity_perm(), 0u8)
    } else {
        let prev = rc4_schedule(key, (n - 1) as nat);
        let i = n - 1;
        let j = ((prev.1 + prev.0[i] + key[i % (key.len() as int)]) % 256) as u8;
        (swap_at(prev.0, i, j as int), j)
    }
}

/// The RC4 generator after `n` output bytes: the state, `i`, `j` and the keystream so far.
pub open spec fn rc4_stream(key: Seq<u8>, n: nat) -> (Seq<u8>, u8, u8, Seq<u8>)
    decreases n,
{
    if n == 0 {
        (rc4_schedule(key, 256).0, 0u8, 0u8, Seq::empty())
    } else {
        let prev = rc4_stream(key, (n - 1) as nat);
        let i = ((prev.1 + 1) % 256) as u8;
        let j = ((prev.2 + prev.0[i as int]) % 256) as u8;
        let s = swap_at(prev.0, i as int, j as int);
        let t = ((s[i as int] + s[j as int]) % 256) as u8;
        (s, i, j, prev.3.push(s[t as int]))
    }
}

/// The first `n` bytes of the RC4 keystream of `key`.
pub open spec fn rc4_keystream(key: Seq<u8>, n: nat) -> Seq<u8> {
    rc4_stream(key, n).3
}

/// RC4: `data` combined byte by byte with the keystream of `key` by exclusive or.
pub open spec fn spec_rc4(key: Seq<u8>, data: Seq<u8>) -> Seq<u8> {
    Seq::new(data.len(), |k: int| data[k] ^ rc4_keystream(key, data.len())[k])
}

/// RC4 with `key` (at least one byte) over `data`.
pub fn rc4(key: &[u8], data: &[u8]) -> (r: Vec<u8>)
    requires
        key@.len() > 0,
    ensures
        r@ == spec_rc4(key@, data@),
{
    let kl = key.len();
    let mut s: Vec<u8> = Vec::new();
    let mut v: u16 = 0;
    while v < 256
        invariant
            v <= 256,
            s@ == Seq::new(v as nat, |i: int| i as u8),
        decreases 256 - v,
    {
        s.push(v as u8);
        v = v + 1;
        assert(s@ =~= Seq::new(v as nat, |i: int| i as u8));
    }
    assert(s@ =~= identity_perm());
    let mut j: u8 = 0;
    let mut i: usize = 0;
    while i < 256
        invariant
            kl == key@.len(),
            kl > 0,
            i <= 256,
            (s@, j) == rc4_schedule(key@, i as nat),
            s@.len() == 256,
        decreases 256 - i,
    {
        let k = key[i % kl];
        j = ((j as u16 + s[i] as u16 + k as u16) % 256) as u8;
        let a = s[i];
        let b = s[j as usize];
        s.set(i, b);
        s.set(j as usize, a);
        i = i + 1;
    }
    let mut out: Vec<u8> = Vec::new();
    let mut si: u8 = 0;
    let mut sj: u8 = 0;
    let n = data.len();
    let mut k: usize = 0;
    while k < n
        invariant
            n == data@.len(),
            k <= n,
            s@.len() == 256,
            (s@, si, sj) == (rc4_stream(key@, k as nat).0, rc4_stream(key@, k as nat).1, rc4_stream(
                key@,
                k as nat,
            ).2),
            rc4_stream(key@, k as nat).3.len() == k,
            out@ == Seq::new(k as nat, |q: int| data@[q] ^ rc4_stream(key@, k as nat).3[q]),
        decreases n - k,
    {
        si = ((si as u16 + 1) % 256) as u8;
        sj = ((sj as u16 + s[si as usize] as u16) % 256) as u8;
        let a = s[si as usize];
        let b = s[sj as usize];
        s.set(si as usize, b);
        s.set(sj as usize, a);
        let t = ((s[si as usize] as u16 + s[sj as usize] as u16) % 256) as u8;
        out.push(data[k] ^ s[t as usize]);
        k = k + 1;
        assert(out@ =~= Seq::new(k as nat, |q: int| data@[q] ^ rc4_stream(key@, k as nat).3[q]));
    }
    out
}

/// RC4 undoes itself: encrypting twice with one key gives the data back.
pub proof fn rc4_is_an_involution(key: Seq<u8>, data: Seq<u8>)
    ensures
        spec_rc4(key, spec_rc4(key, data)) == data,
{
    let once = spec_rc4(key, data);
    let ks = rc4_keystream(key, data.len());
    assert forall|k: int| 0 <= k < data.len() implies #[trigger] spec_rc4(key, once)[k] == data[k] by {
        let x = data[k];
        let y = ks[k];
        assert((x ^ y) ^ y == x) by (bit_vector);
    }
    assert(spec_rc4(key, once) =~= data);
}

/// A password padded (or cut) to 32 bytes with the standard padding string.
pub open spec fn spec_padded(pw: Seq<u8>) -> Seq<u8> {
    let n = if pw.len() < 32 {
        pw.len() as int
    } else {
        32
    };
    Seq::new(
        32,
        |i: int|
            if i < n {
                pw[i]
            } else {
                pad_bytes()[i - n]
            },
    )
}

/// A padded password is 32 bytes: the password's own bytes (its first 32), then the padding
/// string from its start.
pub proof fn padded_password_is_password_then_padding(pw: Seq<u8>, i: int)
    requires
        0 <= i < 32,
    ensures
        spec_padded(pw).len() == 32,
        i < pw.len() ==> spec_padded(pw)[i] == pw[i],
        i >= pw.len() ==> spec_padded(pw)[i] == pad_bytes()[i - pw.len()],
{
}

/// A password padded (or cut) to 32 bytes with the standard padding string.
pub fn padded(pw: &[u8]) -> (r: Vec<u8>)
    ensures
        r@ == spec_padded(pw@),
{
    let n: usize = if pw.len() < 32 {
        pw.len()
    } else {
        32
    };
    let mut out: Vec<u8> = Vec::new();
    let mut i: usize = 0;
    while i < 32
        invariant
            n <= 32,
            n <= pw@.len(),
            n == (if pw@.len() < 32 {
                pw@.len() as int
            } else {
                32
            }),
            i <= 32,
            out@ == spec_padded(pw@).subrange(0, i as int),
        decreases 32 - i,
    {
        if i < n {
            out.push(pw[i]);
        } else {
            out.push(PAD[i - n]);
        }
        i = i + 1;
        assert(out@ =~= spec_padded(pw@).subrange(0, i as int));
    }
    assert(out@ =~= spec_padded(pw@));
    out
}

// ---- digests and block ciphers ---------------------------------------------------------------

/// The MD5 digest of `data`, as the `md-5` crate computes it.
pub uninterp spec fn md5_of(data: Seq<u8>) -> Seq<u8>;

/// `md5::Md5::digest`: the MD5 digest of `data`. Claimed: the result is `md5_of(data)` and is
/// sixteen bytes long.
#[verifier::external_body]
fn md5_digest(data: &[u8]) -> (r: Vec<u8>)
    ensures
        r@ == md5_of(data@),
        r@.len() == 16,
{
    <md5::Md5 as md5::Digest>::digest(data).to_vec()
}

/// The SHA-256 digest of `data`, as the `sha2` crate computes it.
pub uninterp spec fn sha256_of(data: Seq<u8>) -> Seq<u8>;

/// `sha2::Sha256::digest`. Claimed: the result is `sha256_of(data)`, 32 bytes long.
#[verifier::external_body]
fn sha256_digest(data: &[u8]) -> (r: Vec<u8>)
    ensures
        r@ == sha256_of(data@),
        r@.len() == 32,
{
    <sha2::Sha256 as sha2::Digest>::digest(data).to_vec()
}

/// The SHA-384 digest of `data`, as the `sha2` crate computes it.
pub uninterp spec fn sha384_of(data: Seq<u8>) -> Seq<u8>;

/// `sha2::Sha384::digest`. Claimed: the result is `sha384_of(data)`, 48 bytes long.
#[verifier::external_body]
fn sha384_digest(data: &[u8]) -> (r: Vec<u8>)
    ensures
        r@ == sha384_of(data@),
        r@.len() == 48,
{
    <sha2::Sha384 as sha2::Digest>::digest(data).to_vec()
}

/// The SHA-512 digest of `data`, as the `sha2` crate computes it.
pub uninterp spec fn sha512_of(data: Seq<u8>) -> Seq<u8>;

/// `sha2::Sha512::digest`. Claimed: the result is `sha512_of(data)`, 64 bytes long.
#[verifier::external_body]
fn sha512_digest(data: &[u8]) -> (r: Vec<u8>)
    ensures
        r@ == sha512_of(data@),
        r@.len() == 64,
{
    <sha2::Sha512 as sha2::Digest>::digest(data).to_vec()
}

/// AES-128 in CBC mode without padding, encrypting `data` under `key` and `iv`, as the `aes`
/// and `cbc` crates compute it.
pub uninterp spec fn aes128_cbc_encrypt_of(key: Seq<u8>, iv: Seq<u8>, data: Seq<u8>) -> Seq<u8>;

/// `cbc::Encryptor::<aes::Aes128>::new_from_slices` then `encrypt_padded_vec_mut::<NoPadding>`.
/// With a 16-byte key and IV the constructor cannot fail, and with whole blocks no padding is
/// needed. Claimed: the result is `aes128_cbc_encrypt_of(key, iv, data)`, as long as `data`.
#[verifier::external_body]
fn aes128_cbc_encrypt(key: &[u8], iv: &[u8], data: &[u8]) -> (r: Vec<u8>)
    requires
        key@.len() == 16,
        iv@.len() == 16,
        data@.len() % 16 == 0,
    ensures
        r@ == aes128_cbc_encrypt_of(key@, iv@, data@),
        r@.len() == data@.len(),
{
    match cbc::Encryptor::<aes::Aes128>::new_from_slices(key, iv) {
        Ok(c) => c.encrypt_padded_vec_mut::<NoPadding>(data),
        Err(_) => Vec::new(),
    }
}

/// AES-128 in CBC mode without padding, decrypting `data` under `key` and `iv`.
pub uninterp spec fn aes128_cbc_decrypt_of(key: Seq<u8>, iv: Seq<u8>, data: Seq<u8>) -> Seq<u8>;

/// `cbc::Decryptor::<aes::Aes128>::new_from_slices` then `decrypt_padded_mut::<NoPadding>`.
/// With a 16-byte key and IV and whole blocks neither step can fail. Claimed: the result is
/// `aes128_cbc_decrypt_of(key, iv, data)`, as long as `data`.
#[verifier::external_body]
fn aes128_cbc_decrypt(key: &[u8], iv: &[u8], data: &[u8]) -> (r: Vec<u8>)
    requires
        key@.len() == 16,
        iv@.len() == 16,
        data@.len() % 16 == 0,
    ensures
        r@ == aes128_cbc_decrypt_of(key@, iv@, data@),
        r@.len() == data@.len(),
{
    let mut buf = data.to_vec();
    match cbc::Decryptor::<aes::Aes128>::new_from_slices(key, iv) {
        Ok(c) => {
            let _ = c.decrypt_padded_mut::<NoPadding>(&mut buf);
        },
        Err(_) => {},
    }
    buf
}

/// AES-256 in CBC mode without padding, decrypting `data` under `key` and `iv`.
pub uninterp spec fn aes256_cbc_decrypt_of(key: Seq<u8>, iv: Seq<u8>, data: Seq<u8>) -> Seq<u8>;

/// `cbc::Decryptor::<aes::Aes256>::new_from_slices` then `decrypt_padded_mut::<NoPadding>`.
/// With a 32-byte key, a 16-byte IV and whole blocks neither step can fail. Claimed: the result
/// is `aes256_cbc_decrypt_of(key, iv, data)`, as long as `data`.
#[verifier::external_body]
fn aes256_cbc_decrypt(key: &[u8], iv: &[u8], data: &[u8]) -> (r: Vec<u8>)
    requires
        key@.len() == 32,
        iv@.len() == 16,
        data@.len() % 16 == 0,
    ensures
        r@ == aes256_cbc_decrypt_of(key@, iv@, data@),
        r@.len() == data@.len(),
{
    let mut buf = data.to_vec();
    match cbc::Decryptor::<aes::Aes256>::new_from_slices(key, iv) {
        Ok(c) => {
            let _ = c.decrypt_padded_mut::<NoPadding>(&mut buf);
        },
        Err(_) => {},
    }
    buf
}

/// How `{:?}` shows a string: quoted, with escapes.
pub uninterp spec fn debug_text_of(s: Seq<char>) -> Seq<char>;

/// `<str as Debug>::fmt`, through `format!("{:?}", s)`. Claimed: the result is
/// `debug_text_of(s)`.
#[verifier::external_body]
fn debug_text(s: &str) -> (r: String)
    ensures
        r@ == debug_text_of(s@),
{
    format!("{:?}", s)
}

// ---- buffers -----------------------------------------------------------------------------------

/// `data[from..to]`.
fn bytes_between(data: &[u8], from: usize, to: usize) -> (r: &[u8])
    requires
        from <= to <= data@.len(),
    ensures
        r@ == data@.subrange(from as int, to as int),
{
    vstd::slice::slice_subrange(data, from, to)
}

/// Appends `b` to `out`.
fn append(out: &mut Vec<u8>, b: &[u8])
    ensures
        final(out)@ == old(out)@ + b@,
{
    out.extend_from_slice(b);
}

pub open spec fn min_int(a: int, b: int) -> int {
    if a < b {
        a
    } else {
        b
    }
}

/// The four little-endian bytes of `p`.
pub open spec fn le_i32(p: i32) -> Seq<u8> {
    let u = p as u32;
    seq![(u % 256) as u8, (u / 256 % 256) as u8, (u / 65536 % 256) as u8, (u / 16777216) as u8]
}

/// `key` with every byte combined with `i` by exclusive or.
pub open spec fn xor_key(key: Seq<u8>, i: u8) -> Seq<u8> {
    key.map_values(|b: u8| b ^ i)
}

fn xor_key_vec(key: &[u8], i: u8) -> (r: Vec<u8>)
    ensures
        r@ == xor_key(key@, i),
{
    let mut out: Vec<u8> = Vec::new();
    let mut k: usize = 0;
    while k < key.len()
        invariant
            k <= key@.len(),
            out@ == key@.subrange(0, k as int).map_values(|b: u8| b ^ i),
        decreases key@.len() - k,
    {
        out.push(key[k] ^ i);
        k = k + 1;
        assert(out@ =~= key@.subrange(0, k as int).map_values(|b: u8| b ^ i));
    }
    assert(key@.subrange(0, k as int) =~= key@);
    out
}

// ---- legacy (R2-R4) key derivation ---------------------------------------------------------

/// What the file key's first digest covers: the padded password, the first 32 bytes of `O`,
/// `P` little-endian, the file identifier, and for revision 4 with metadata left in the clear
/// four `0xFF` bytes.
pub open spec fn file_key_input(pw: Seq<u8>, o: Seq<u8>, p: i32, id: Seq<u8>, r: i64, em: bool) -> Seq<
    u8,
> {
    spec_padded(pw) + o.subrange(0, min_int(o.len() as int, 32)) + le_i32(p) + id + if r >= 4
        && !em {
        seq![0xFFu8, 0xFF, 0xFF, 0xFF]
    } else {
        Seq::empty()
    }
}

/// `n` further digests, each of the first `key_len` bytes of the one before.
pub open spec fn md5_rehash(key: Seq<u8>, key_len: int, n: nat) -> Seq<u8>
    decreases n,
{
    if n == 0 {
        key
    } else {
        md5_of(md5_rehash(key, key_len, (n - 1) as nat).subrange(0, key_len))
    }
}

/// Algorithm 2: the file key from a user password.
pub open spec fn spec_legacy_file_key(
    pw: Seq<u8>,
    o: Seq<u8>,
    p: i32,
    id: Seq<u8>,
    r: i64,
    key_len: int,
    em: bool,
) -> Seq<u8> {
    let k0 = md5_of(file_key_input(pw, o, p, id, r, em));
    let k = if r >= 3 {
        md5_rehash(k0, key_len, 50)
    } else {
        k0
    };
    k.subrange(0, key_len)
}

fn legacy_file_key(
    password: &[u8],
    o_entry: &[u8],
    p: i32,
    file_id: &[u8],
    r: i64,
    key_len: usize,
    encrypt_metadata: bool,
) -> (k: Vec<u8>)
    requires
        5 <= key_len <= 16,
    ensures
        k@ == spec_legacy_file_key(password@, o_entry@, p, file_id@, r, key_len as int, encrypt_metadata),
        k@.len() == key_len,
{
    let mut input = padded(password);
    let ol = o_entry.len();
    append(&mut input, bytes_between(o_entry, 0, if ol < 32 { ol } else { 32 }));
    let u = p as u32;
    let le: [u8; 4] = [(u % 256) as u8, (u / 256 % 256) as u8, (u / 65536 % 256) as u8, (u / 16777216) as u8];
    append(&mut input, le.as_slice());
    append(&mut input, file_id);
    if r >= 4 && !encrypt_metadata {
        let ff: [u8; 4] = [0xFF, 0xFF, 0xFF, 0xFF];
        append(&mut input, ff.as_slice());
    }
    assert(input@ =~= file_key_input(password@, o_entry@, p, file_id@, r, encrypt_metadata));
    let mut key = md5_digest(input.as_slice());
    let ghost k0 = key@;
    if r >= 3 {
        let mut n: usize = 0;
        while n < 50
            invariant
                n <= 50,
                5 <= key_len <= 16,
                key@.len() == 16,
                key@ == md5_rehash(k0, key_len as int, n as nat),
            decreases 50 - n,
        {
            key = md5_digest(bytes_between(key.as_slice(), 0, key_len));
            n = n + 1;
        }
    }
    key.truncate(key_len);
    key
}

/// Each further digest of the key derivation is the MD5 of the first `key_len` bytes of the
/// digest before it; none further leaves the key as it was.
pub proof fn rehash_is_repeated_md5(key: Seq<u8>, key_len: int, n: nat)
    ensures
        md5_rehash(key, key_len, 0) == key,
        md5_rehash(key, key_len, n + 1) == md5_of(md5_rehash(key, key_len, n).subrange(0, key_len)),
{
}

/// Algorithm 2, revision 3 and later: the file key is the first `key_len` bytes of the digest
/// of the padded password, `O`, `P`, the identifier (and the metadata marker), digested 50 more
/// times, each time over its first `key_len` bytes.
pub proof fn file_key_rehashed_from_revision_3(
    pw: Seq<u8>,
    o: Seq<u8>,
    p: i32,
    id: Seq<u8>,
    r: i64,
    key_len: int,
    em: bool,
)
    requires
        r >= 3,
    ensures
        spec_legacy_file_key(pw, o, p, id, r, key_len, em) == md5_rehash(
            md5_of(file_key_input(pw, o, p, id, r, em)),
            key_len,
            50,
        ).subrange(0, key_len),
{
}

/// Algorithm 2, revision 2: the file key is the first `key_len` bytes of the one digest of the
/// padded password, `O`, `P` and the identifier.
pub proof fn file_key_single_digest_at_revision_2(
    pw: Seq<u8>,
    o: Seq<u8>,
    p: i32,
    id: Seq<u8>,
    key_len: int,
    em: bool,
)
    ensures
        spec_legacy_file_key(pw, o, p, id, 2, key_len, em) == md5_of(
            spec_padded(pw) + o.subrange(0, min_int(o.len() as int, 32)) + le_i32(p) + id,
        ).subrange(0, key_len),
{
    assert(file_key_input(pw, o, p, id, 2, em) =~= spec_padded(pw) + o.subrange(0, min_int(o.len() as int, 32)) + le_i32(p) + id);
}

/// Algorithm 3 in reverse, revision 3 and later: the owner key is the first `key_len` bytes of
/// the digest of the padded owner password, digested 50 more times in full.
pub proof fn owner_key_rehashed_from_revision_3(owner_pw: Seq<u8>, o: Seq<u8>, r: i64, key_len: int)
    requires
        r >= 3,
    ensures
        spec_owner_to_user(owner_pw, o, r, key_len) == rc4_rounds_down(
            md5_rehash(md5_of(spec_padded(owner_pw)), 16, 50).subrange(0, key_len),
            o.subrange(0, min_int(o.len() as int, 32)),
            20,
        ),
{
}

/// `n` rounds of RC4, round `i` (from 1) under the key combined with `i`.
pub open spec fn rc4_rounds_up(key: Seq<u8>, val: Seq<u8>, n: nat) -> Seq<u8>
    decreases n,
{
    if n == 0 {
        val
    } else {
        spec_rc4(xor_key(key, n as u8), rc4_rounds_up(key, val, (n - 1) as nat))
    }
}

/// Rounds `n - 1` down to `0` of RC4, round `i` under the key combined with `i`.
pub open spec fn rc4_rounds_down(key: Seq<u8>, val: Seq<u8>, n: nat) -> Seq<u8>
    decreases n,
{
    if n == 0 {
        val
    } else {
        rc4_rounds_down(key, spec_rc4(xor_key(key, (n - 1) as u8), val), (n - 1) as nat)
    }
}

/// Algorithm 3, revisions 3 and 4, forward: the `O` entry for an owner key `k` and a user
/// password: the padded user password encrypted under `k`, then under `k` combined with 1, 2,
/// ... 19 in turn.
pub open spec fn owner_entry_r3(k: Seq<u8>, user_pw: Seq<u8>) -> Seq<u8> {
    rc4_rounds_up(k, spec_rc4(k, spec_padded(user_pw)), 19)
}

/// Combining a key with 0 leaves it as it is.
proof fn lemma_xor_key_zero(key: Seq<u8>)
    ensures
        xor_key(key, 0) == key,
{
    assert forall|i: int| 0 <= i < key.len() implies #[trigger] xor_key(key, 0)[i] == key[i] by {
        let b = key[i];
        assert(b ^ 0u8 == b) by (bit_vector);
    }
    assert(xor_key(key, 0) =~= key);
}

/// Going down from round `n` undoes going up to it: what is left is the first round's input.
proof fn lemma_rounds_undo(k: Seq<u8>, w: Seq<u8>, n: nat)
    requires
        n < 256,
    ensures
        rc4_rounds_down(k, rc4_rounds_up(k, w, n), n + 1) == spec_rc4(xor_key(k, 0), w),
    decreases n,
{
    let top = rc4_rounds_up(k, w, n);
    assert(((n + 1 - 1) as nat) == n);
    assert(rc4_rounds_down(k, top, n + 1) == rc4_rounds_down(k, spec_rc4(xor_key(k, n as u8), top), n));
    if n == 0 {
        assert(top == w);
        assert(rc4_rounds_down(k, spec_rc4(xor_key(k, 0), w), 0) == spec_rc4(xor_key(k, 0), w));
    } else {
        let below = rc4_rounds_up(k, w, (n - 1) as nat);
        assert(top == spec_rc4(xor_key(k, n as u8), below));
        rc4_is_an_involution(xor_key(k, n as u8), below);
        lemma_rounds_undo(k, w, (n - 1) as nat);
        assert(((n - 1) + 1) as nat == n);
    }
}

/// Algorithm 7 undoes Algorithm 3 (revisions 3 and 4): given the owner password, the `O` entry
/// made from it and a user password gives that user password back, padded.
pub proof fn owner_password_recovers_the_user_password(
    owner_pw: Seq<u8>,
    user_pw: Seq<u8>,
    r: i64,
    key_len: int,
)
    requires
        r >= 3,
        5 <= key_len <= 16,
    ensures
        ({
            let k = md5_rehash(md5_of(spec_padded(owner_pw)), 16, 50).subrange(0, key_len);
            spec_owner_to_user(owner_pw, owner_entry_r3(k, user_pw), r, key_len) == spec_padded(user_pw)
        }),
{
    let k = md5_rehash(md5_of(spec_padded(owner_pw)), 16, 50).subrange(0, key_len);
    let w = spec_rc4(k, spec_padded(user_pw));
    let o = owner_entry_r3(k, user_pw);
    lemma_rounds_undo(k, w, 19);
    lemma_xor_key_zero(k);
    rc4_is_an_involution(k, spec_padded(user_pw));
    assert(o.subrange(0, min_int(o.len() as int, 32)) =~= o) by {
        lemma_rounds_len(k, w, 19);
    }
}

/// The rounds keep the length.
proof fn lemma_rounds_len(k: Seq<u8>, w: Seq<u8>, n: nat)
    ensures
        rc4_rounds_up(k, w, n).len() == w.len(),
    decreases n,
{
    if n > 0 {
        lemma_rounds_len(k, w, (n - 1) as nat);
    }
}

/// Algorithms 4 and 5: whether `key` is the file key, checked against `U`.
pub open spec fn spec_check_user(key: Seq<u8>, u: Seq<u8>, id: Seq<u8>, r: i64) -> bool {
    if u.len() < 16 {
        false
    } else if r == 2 {
        spec_rc4(key, pad_bytes()) == u.subrange(0, min_int(32, u.len() as int))
    } else {
        let v = rc4_rounds_up(key, spec_rc4(key, md5_of(pad_bytes() + id)), 19);
        v.subrange(0, 16) == u.subrange(0, 16)
    }
}

fn legacy_check_user(key: &[u8], u_entry: &[u8], file_id: &[u8], r: i64) -> (ok: bool)
    requires
        key@.len() > 0,
    ensures
        ok == spec_check_user(key@, u_entry@, file_id@, r),
{
    let ul = u_entry.len();
    if ul < 16 {
        return false;
    }
    let pad = pad_vec();
    if r == 2 {
        let enc = rc4(key, pad.as_slice());
        return crate::lexer::slice_eq(enc.as_slice(), bytes_between(u_entry, 0, if ul < 32 { ul } else { 32 }));
    }
    let mut input = pad;
    append(&mut input, file_id);
    let digest = md5_digest(input.as_slice());
    let mut val = rc4(key, digest.as_slice());
    let mut i: u8 = 1;
    while i <= 19
        invariant
            1 <= i <= 20,
            key@.len() > 0,
            val@.len() == 16,
            val@ == rc4_rounds_up(key@, spec_rc4(key@, md5_of(pad_bytes() + file_id@)), (i - 1) as nat),
        decreases 20 - i,
    {
        let k = xor_key_vec(key, i);
        val = rc4(k.as_slice(), val.as_slice());
        i = i + 1;
    }
    crate::lexer::slice_eq(bytes_between(val.as_slice(), 0, 16), bytes_between(u_entry, 0, 16))
}

/// Algorithm 7 in reverse: the padded user password recovered from `O` with the owner
/// password.
pub open spec fn spec_owner_to_user(owner_pw: Seq<u8>, o: Seq<u8>, r: i64, key_len: int) -> Seq<u8> {
    let k0 = md5_of(spec_padded(owner_pw));
    let full = if r >= 3 {
        md5_rehash(k0, 16, 50)
    } else {
        k0
    };
    let k = full.subrange(0, key_len);
    let val = o.subrange(0, min_int(o.len() as int, 32));
    if r == 2 {
        spec_rc4(k, val)
    } else {
        rc4_rounds_down(k, val, 20)
    }
}

/// Algorithm 7 in reverse: recovers the (padded) user password from `O` given the owner
/// password. Returns garbage for a wrong password, which the user check then rejects.
fn legacy_owner_to_user(owner_pw: &[u8], o_entry: &[u8], r: i64, key_len: usize) -> (v: Vec<u8>)
    requires
        5 <= key_len <= 16,
    ensures
        v@ == spec_owner_to_user(owner_pw@, o_entry@, r, key_len as int),
{
    let p = padded(owner_pw);
    let mut key = md5_digest(p.as_slice());
    let ghost k0 = key@;
    if r >= 3 {
        let mut n: usize = 0;
        while n < 50
            invariant
                n <= 50,
                key@.len() == 16,
                key@ == md5_rehash(k0, 16, n as nat),
            decreases 50 - n,
        {
            assert(key@.subrange(0, 16) =~= key@);
            key = md5_digest(key.as_slice());
            n = n + 1;
        }
    }
    key.truncate(key_len);
    let ol = o_entry.len();
    let mut val = vstd::slice::slice_to_vec(bytes_between(o_entry, 0, if ol < 32 { ol } else { 32 }));
    if r == 2 {
        val = rc4(key.as_slice(), val.as_slice());
    } else {
        let ghost v0 = val@;
        let mut i: u8 = 20;
        while i > 0
            invariant
                i <= 20,
                key@.len() == key_len,
                5 <= key_len,
                rc4_rounds_down(key@, val@, i as nat) == rc4_rounds_down(key@, v0, 20),
            decreases i,
        {
            let k = xor_key_vec(key.as_slice(), i - 1);
            val = rc4(k.as_slice(), val.as_slice());
            i = i - 1;
        }
    }
    val
}

// ---- V5 / AES-256 (R5, R6) -----------------------------------------------------------------

/// `s` repeated `n` times.
pub open spec fn repeat_seq(s: Seq<u8>, n: nat) -> Seq<u8>
    decreases n,
{
    if n == 0 {
        Seq::empty()
    } else {
        repeat_seq(s, (n - 1) as nat) + s
    }
}

/// The sum of the first `n` bytes of `s`.
pub open spec fn byte_sum(s: Seq<u8>, n: nat) -> int
    decreases n,
{
    if n == 0 {
        0
    } else {
        byte_sum(s, (n - 1) as nat) + s[n - 1]
    }
}

/// The rounds of algorithm 2.B from round `round` with the current hash `k`: each round
/// encrypts 64 copies of `pw || k || udata` with AES-128-CBC (key `k[0..16]`, IV `k[16..32]`)
/// and hashes the result with SHA-256, -384 or -512 by the sum of its first 16 bytes modulo 3.
/// The rounds end after round 64 at the first whose last encrypted byte is at most the round
/// number less 32, which happens by round 288 at the latest since a byte is at most 255.
pub open spec fn hash_2b_rounds(pw: Seq<u8>, udata: Seq<u8>, k: Seq<u8>, round: nat) -> Seq<u8>
    decreases 288 - round,
{
    let e = aes128_cbc_encrypt_of(k.subrange(0, 16), k.subrange(16, 32), repeat_seq(pw + k + udata, 64));
    let m = byte_sum(e, 16) % 3;
    let k2 = if m == 0 {
        sha256_of(e)
    } else if m == 1 {
        sha384_of(e)
    } else {
        sha512_of(e)
    };
    let next = round + 1;
    if next >= 64 && e.last() <= next - 32 {
        k2
    } else {
        hash_2b_rounds(pw, udata, k2, next)
    }
}

/// ISO 32000-2 algorithm 2.B: the hardened iterated hash used by revision 6.
pub open spec fn spec_hash_2b(pw: Seq<u8>, salt: Seq<u8>, udata: Seq<u8>) -> Seq<u8> {
    hash_2b_rounds(pw, udata, sha256_of(pw + salt + udata), 0).subrange(0, 32)
}

/// ISO 32000-2 algorithm 2.B: the hardened iterated hash used by revision 6.
fn hash_2b(pw: &[u8], salt: &[u8], udata: &[u8]) -> (h: Vec<u8>)
    ensures
        h@ == spec_hash_2b(pw@, salt@, udata@),
        h@.len() == 32,
{
    let mut first = vstd::slice::slice_to_vec(pw);
    append(&mut first, salt);
    append(&mut first, udata);
    let mut k = sha256_digest(first.as_slice());
    let ghost k0 = k@;
    let mut round: usize = 0;
    loop
        invariant_except_break
            round < 288,
            hash_2b_rounds(pw@, udata@, k@, round as nat) == hash_2b_rounds(pw@, udata@, k0, 0),
        invariant
            k@.len() >= 32,
        ensures
            k@ == hash_2b_rounds(pw@, udata@, k0, 0),
        decreases 288 - round,
    {
        let ghost kv = k@;
        let ghost rv = round as nat;
        // K1 = (pw || K || udata) repeated 64 times.
        let mut unit = vstd::slice::slice_to_vec(pw);
        append(&mut unit, k.as_slice());
        append(&mut unit, udata);
        assert(unit@ =~= pw@ + k@ + udata@);
        let mut k1: Vec<u8> = Vec::new();
        let mut c: usize = 0;
        while c < 64
            invariant
                c <= 64,
                k1@ == repeat_seq(unit@, c as nat),
                k1@.len() == c * unit@.len(),
            decreases 64 - c,
        {
            append(&mut k1, unit.as_slice());
            c = c + 1;
            assert(k1@.len() == c * unit@.len()) by (nonlinear_arith)
                requires
                    k1@.len() == (c - 1) * unit@.len() + unit@.len(),
            ;
        }
        assert(k1@.len() % 16 == 0) by (nonlinear_arith)
            requires
                k1@.len() == 64 * unit@.len(),
        ;
        assert(k1@.len() >= 16) by (nonlinear_arith)
            requires
                k1@.len() == 64 * unit@.len(),
                unit@.len() >= 32,
        ;
        // E = AES-128-CBC(key = K[0..16], iv = K[16..32], K1)
        let e = aes128_cbc_encrypt(bytes_between(k.as_slice(), 0, 16), bytes_between(k.as_slice(), 16, 32), k1.as_slice());
        let mut sum: u32 = 0;
        let mut q: usize = 0;
        while q < 16
            invariant
                q <= 16,
                e@.len() >= 16,
                sum == byte_sum(e@, q as nat),
                sum <= 255 * q,
            decreases 16 - q,
        {
            sum = sum + e[q] as u32;
            q = q + 1;
        }
        let m = sum % 3;
        k = if m == 0 {
            sha256_digest(e.as_slice())
        } else if m == 1 {
            sha384_digest(e.as_slice())
        } else {
            sha512_digest(e.as_slice())
        };
        round = round + 1;
        let last = e[e.len() - 1];
        assert(last == e@.last());
        if round >= 64 && (last as usize) <= round - 32 {
            assert(k@ == hash_2b_rounds(pw@, udata@, kv, rv));
            break;
        }
        assert(hash_2b_rounds(pw@, udata@, k@, round as nat) == hash_2b_rounds(pw@, udata@, kv, rv));
    }
    bytes_vec(bytes_between(k.as_slice(), 0, 32))
}

fn bytes_vec(b: &[u8]) -> (r: Vec<u8>)
    ensures
        r@ == b@,
{
    vstd::slice::slice_to_vec(b)
}

/// What deriving a file key comes to: the key, or why there is none.
pub enum KeyOutcome {
    Key(Seq<u8>),
    Unsupported(Seq<char>),
    Password,
}

/// The revision 5 (SHA-256) or revision 6 (algorithm 2.B) hash of a password with a salt.
pub open spec fn v5_hash(r: i64, pw: Seq<u8>, salt: Seq<u8>, udata: Seq<u8>) -> Seq<u8> {
    if r == 5 {
        sha256_of(pw + salt + udata)
    } else {
        spec_hash_2b(pw, salt, udata)
    }
}

/// The file key unwrapped from `OE` or `UE` with the intermediate key `ikey`.
pub open spec fn spec_unwrap_key(ikey: Seq<u8>, wrapped: Seq<u8>) -> KeyOutcome {
    if wrapped.len() % 16 != 0 || wrapped.len() == 0 {
        KeyOutcome::Unsupported("bad OE/UE length"@)
    } else {
        KeyOutcome::Key(aes256_cbc_decrypt_of(ikey, Seq::new(16, |i: int| 0u8), wrapped))
    }
}

/// The revision 5 and 6 file key: the password (at most 127 bytes) is tried as the owner
/// password first, whose hash covers the whole `U` entry, then as the user password.
pub open spec fn spec_derive_key_v5(
    password: Seq<u8>,
    r: i64,
    o: Seq<u8>,
    u: Seq<u8>,
    oe: Seq<u8>,
    ue: Seq<u8>,
) -> KeyOutcome {
    let pw = password.subrange(0, min_int(password.len() as int, 127));
    if o.len() < 48 || u.len() < 48 {
        KeyOutcome::Unsupported("short O/U entries"@)
    } else if v5_hash(r, pw, o.subrange(32, 40), u.subrange(0, 48)) == o.subrange(0, 32) {
        spec_unwrap_key(v5_hash(r, pw, o.subrange(40, 48), u.subrange(0, 48)), oe)
    } else if v5_hash(r, pw, u.subrange(32, 40), Seq::empty()) == u.subrange(0, 32) {
        spec_unwrap_key(v5_hash(r, pw, u.subrange(40, 48), Seq::empty()), ue)
    } else {
        KeyOutcome::Password
    }
}

/// Revision 5: a document whose `U` is the SHA-256 of the user password and an 8-byte
/// validation salt, followed by that salt and an 8-byte key salt, opens with that password
/// (when it is not also the owner password): the file key is `UE` decrypted with AES-256
/// (zero IV) under the SHA-256 of the password and the key salt.
pub proof fn a_user_password_opens_its_revision_5_document(
    pw: Seq<u8>,
    o: Seq<u8>,
    vsalt: Seq<u8>,
    ksalt: Seq<u8>,
    oe: Seq<u8>,
    ue: Seq<u8>,
)
    requires
        pw.len() <= 127,
        vsalt.len() == 8,
        ksalt.len() == 8,
        sha256_of(pw + vsalt).len() == 32,
        o.len() >= 48,
        sha256_of(pw + o.subrange(32, 40) + (sha256_of(pw + vsalt) + vsalt + ksalt)) != o.subrange(0, 32),
        ue.len() > 0,
        ue.len() % 16 == 0,
    ensures
        spec_derive_key_v5(pw, 5, o, sha256_of(pw + vsalt) + vsalt + ksalt, oe, ue) == KeyOutcome::Key(
            aes256_cbc_decrypt_of(sha256_of(pw + ksalt), Seq::new(16, |i: int| 0u8), ue),
        ),
{
    let u = sha256_of(pw + vsalt) + vsalt + ksalt;
    assert(pw.subrange(0, min_int(pw.len() as int, 127)) =~= pw);
    assert(u.subrange(0, 48) =~= u);
    assert(u.subrange(0, 32) =~= sha256_of(pw + vsalt));
    assert(u.subrange(32, 40) =~= vsalt);
    assert(u.subrange(40, 48) =~= ksalt);
    assert(pw + vsalt + Seq::<u8>::empty() =~= pw + vsalt);
    assert(pw + ksalt + Seq::<u8>::empty() =~= pw + ksalt);
}

/// Revision 6: as for revision 5, with algorithm 2.B's hash in place of SHA-256: a document
/// whose `U` is the hash of the user password and an 8-byte validation salt, followed by that
/// salt and an 8-byte key salt, opens with that password (when it is not also the owner
/// password), its file key being `UE` decrypted under the hash of the password and the key salt.
pub proof fn a_user_password_opens_its_revision_6_document(
    pw: Seq<u8>,
    o: Seq<u8>,
    vsalt: Seq<u8>,
    ksalt: Seq<u8>,
    oe: Seq<u8>,
    ue: Seq<u8>,
)
    requires
        pw.len() <= 127,
        vsalt.len() == 8,
        ksalt.len() == 8,
        spec_hash_2b(pw, vsalt, Seq::empty()).len() == 32,
        o.len() >= 48,
        spec_hash_2b(pw, o.subrange(32, 40), spec_hash_2b(pw, vsalt, Seq::empty()) + vsalt + ksalt)
            != o.subrange(0, 32),
        ue.len() > 0,
        ue.len() % 16 == 0,
    ensures
        spec_derive_key_v5(pw, 6, o, spec_hash_2b(pw, vsalt, Seq::empty()) + vsalt + ksalt, oe, ue)
            == KeyOutcome::Key(
            aes256_cbc_decrypt_of(spec_hash_2b(pw, ksalt, Seq::empty()), Seq::new(16, |i: int| 0u8), ue),
        ),
{
    let u = spec_hash_2b(pw, vsalt, Seq::empty()) + vsalt + ksalt;
    assert(pw.subrange(0, min_int(pw.len() as int, 127)) =~= pw);
    assert(u.subrange(0, 48) =~= u);
    assert(u.subrange(0, 32) =~= spec_hash_2b(pw, vsalt, Seq::empty()));
    assert(u.subrange(32, 40) =~= vsalt);
    assert(u.subrange(40, 48) =~= ksalt);
}

/// Revision 5: a document whose `O` is the SHA-256 of the owner password, an 8-byte validation
/// salt and the 48 bytes of `U`, followed by that salt and an 8-byte key salt, opens with the
/// owner password: the file key is `OE` decrypted with AES-256 (zero IV) under the SHA-256 of
/// the password, the key salt and `U`.
pub proof fn the_owner_password_opens_its_revision_5_document(
    pw: Seq<u8>,
    u: Seq<u8>,
    vsalt: Seq<u8>,
    ksalt: Seq<u8>,
    oe: Seq<u8>,
    ue: Seq<u8>,
)
    requires
        pw.len() <= 127,
        u.len() == 48,
        vsalt.len() == 8,
        ksalt.len() == 8,
        sha256_of(pw + vsalt + u).len() == 32,
        oe.len() > 0,
        oe.len() % 16 == 0,
    ensures
        spec_derive_key_v5(pw, 5, sha256_of(pw + vsalt + u) + vsalt + ksalt, u, oe, ue) == KeyOutcome::Key(
            aes256_cbc_decrypt_of(sha256_of(pw + ksalt + u), Seq::new(16, |i: int| 0u8), oe),
        ),
{
    let o = sha256_of(pw + vsalt + u) + vsalt + ksalt;
    assert(pw.subrange(0, min_int(pw.len() as int, 127)) =~= pw);
    assert(u.subrange(0, 48) =~= u);
    assert(o.subrange(0, 32) =~= sha256_of(pw + vsalt + u));
    assert(o.subrange(32, 40) =~= vsalt);
    assert(o.subrange(40, 48) =~= ksalt);
}

fn v5_hash_of(r: i64, pw: &[u8], salt: &[u8], udata: &[u8]) -> (h: Vec<u8>)
    ensures
        h@ == v5_hash(r, pw@, salt@, udata@),
        h@.len() == 32,
{
    if r == 5 {
        let mut input = vstd::slice::slice_to_vec(pw);
        append(&mut input, salt);
        append(&mut input, udata);
        sha256_digest(input.as_slice())
    } else {
        hash_2b(pw, salt, udata)
    }
}

fn unwrap_key(ikey: &[u8], wrapped: &[u8]) -> (r: Result<Vec<u8>, Error>)
    requires
        ikey@.len() == 32,
    ensures
        match r {
            Ok(k) => spec_unwrap_key(ikey@, wrapped@) == KeyOutcome::Key(k@) && k@.len() > 0,
            Err(e) => spec_unwrap_key(ikey@, wrapped@) matches KeyOutcome::Unsupported(m)
                && e.is_unsupported_with(m),
        },
{
    if wrapped.len() % 16 != 0 || wrapped.len() == 0 {
        return Err(Error::UnsupportedEncryption("bad OE/UE length".to_owned()));
    }
    let iv: [u8; 16] = [0, 0, 0, 0, 0, 0, 0, 0, 0, 0, 0, 0, 0, 0, 0, 0];
    assert(iv@ =~= Seq::new(16, |i: int| 0u8));
    Ok(aes256_cbc_decrypt(ikey, iv.as_slice(), wrapped))
}

/// The revision 5 and 6 file key.
fn derive_key_v5(
    password: &[u8],
    r: i64,
    o_entry: &[u8],
    u_entry: &[u8],
    oe: &[u8],
    ue: &[u8],
) -> (res: Result<Vec<u8>, Error>)
    ensures
        match res {
            Ok(k) => spec_derive_key_v5(password@, r, o_entry@, u_entry@, oe@, ue@) == KeyOutcome::Key(k@)
                && k@.len() > 0,
            Err(e) => match spec_derive_key_v5(password@, r, o_entry@, u_entry@, oe@, ue@) {
                KeyOutcome::Unsupported(m) => e.is_unsupported_with(m),
                KeyOutcome::Password => e is Password,
                KeyOutcome::Key(_) => false,
            },
        },
{
    // SASLprep is required by spec for passwords; ASCII passwords (the overwhelming case) are
    // unaffected. Non-ASCII passwords are passed through as UTF-8.
    let pl = password.len();
    let pw = bytes_between(password, 0, if pl < 127 { pl } else { 127 });
    let ol = o_entry.len();
    let ul = u_entry.len();
    if ol < 48 || ul < 48 {
        return Err(Error::UnsupportedEncryption("short O/U entries".to_owned()));
    }
    let empty: [u8; 0] = [];
    assert(empty@ =~= Seq::<u8>::empty());
    // Try owner password first: its hash covers the whole U entry.
    let u48 = bytes_between(u_entry, 0, 48);
    let check_o = v5_hash_of(r, pw, bytes_between(o_entry, 32, 40), u48);
    if crate::lexer::slice_eq(check_o.as_slice(), bytes_between(o_entry, 0, 32)) {
        let ikey = v5_hash_of(r, pw, bytes_between(o_entry, 40, 48), u48);
        return unwrap_key(ikey.as_slice(), oe);
    }
    let check_u = v5_hash_of(r, pw, bytes_between(u_entry, 32, 40), empty.as_slice());
    if crate::lexer::slice_eq(check_u.as_slice(), bytes_between(u_entry, 0, 32)) {
        let ikey = v5_hash_of(r, pw, bytes_between(u_entry, 40, 48), empty.as_slice());
        return unwrap_key(ikey.as_slice(), ue);
    }
    Err(Error::Password)
}

// ---- the decryptor ---------------------------------------------------------------------------

/// The cipher a class of objects (strings or streams) is encrypted with.
#[derive(Clone, Copy, PartialEq, Eq, Structural)]
pub enum Cipher {
    Rc4,
    Aes,
    Identity,
}

/// Decrypts the strings and streams of an encrypted document.
pub struct Decryptor {
    key: Vec<u8>,
    string_cipher: Cipher,
    stream_cipher: Cipher,
    /// V5 uses the file key directly; earlier versions derive a per-object key.
    per_object_key: bool,
    encrypt_metadata: bool,
}

/// What a [`Decryptor`] holds.
pub struct DecryptorView {
    pub key: Seq<u8>,
    pub string_cipher: Cipher,
    pub stream_cipher: Cipher,
    pub per_object_key: bool,
    pub encrypt_metadata: bool,
}

impl View for Decryptor {
    type V = DecryptorView;

    closed spec fn view(&self) -> DecryptorView {
        DecryptorView {
            key: self.key@,
            string_cipher: self.string_cipher,
            stream_cipher: self.stream_cipher,
            per_object_key: self.per_object_key,
            encrypt_metadata: self.encrypt_metadata,
        }
    }
}

impl Decryptor {
    /// The file key is never empty.
    #[verifier::type_invariant]
    closed spec fn key_present(self) -> bool {
        self.key@.len() > 0
    }

    pub closed spec fn key_len(self) -> nat {
        self.key@.len()
    }
}

/// Why an encryption dictionary does not open.
pub enum OpenFailure {
    Unsupported(Seq<char>),
    Password,
}

/// The entry `k` of the encryption dictionary, resolved.
pub open spec fn enc_get<R: Resolve>(enc: Seq<(Seq<char>, ObjectView)>, k: Seq<char>, r: R) -> Option<
    ObjectView,
> {
    match dict_lookup(enc, k) {
        Some(o) => Some(r.resolved(o)),
        None => None,
    }
}

pub open spec fn opt_int(o: Option<ObjectView>, default: i64) -> i64 {
    match o {
        Some(v) => match spec_as_int(v) {
            Some(i) => i,
            None => default,
        },
        None => default,
    }
}

pub open spec fn opt_bytes(o: Option<ObjectView>) -> Seq<u8> {
    match o {
        Some(ObjectView::Str(s)) => s,
        _ => Seq::empty(),
    }
}

pub open spec fn opt_name(o: Option<ObjectView>) -> Option<Seq<char>> {
    match o {
        Some(ObjectView::Name(n)) => Some(n),
        _ => None,
    }
}

pub open spec fn opt_bool(o: Option<ObjectView>, default: bool) -> bool {
    match o {
        Some(ObjectView::Bool(b)) => b,
        _ => default,
    }
}

/// The `/CFM` of the crypt filter `name` in `/CF`, resolved.
pub open spec fn crypt_method<R: Resolve>(cf: Seq<(Seq<char>, ObjectView)>, name: Seq<char>, r: R) -> Option<
    Seq<char>,
> {
    match dict_lookup(cf, name) {
        None => None,
        Some(o) => {
            let ro = r.resolved(o);
            if ro is Dict || ro is Stream {
                match dict_lookup(entries_of(ro), "CFM"@) {
                    Some(c) => match r.resolved(c) {
                        ObjectView::Name(m) => Some(m),
                        _ => None,
                    },
                    None => None,
                }
            } else {
                None
            }
        },
    }
}

/// The cipher of the crypt filter `name`: none for a missing name or `Identity`, RC4 for
/// `/CFM /V2`, AES for `/AESV2` and `/AESV3`, none otherwise.
#[verifier::opaque]
pub open spec fn spec_cipher_of<R: Resolve>(
    cf: Seq<(Seq<char>, ObjectView)>,
    name: Option<Seq<char>>,
    r: R,
) -> Cipher {
    match name {
        None => Cipher::Identity,
        Some(n) => if n == "Identity"@ {
            Cipher::Identity
        } else {
            match crypt_method(cf, n, r) {
                Some(m) => if m == "V2"@ {
                    Cipher::Rc4
                } else if m == "AESV2"@ || m == "AESV3"@ {
                    Cipher::Aes
                } else {
                    Cipher::Identity
                },
                None => Cipher::Identity,
            }
        },
    }
}

/// A signed decimal number as text.
pub open spec fn signed_decimal(v: int) -> Seq<char> {
    if v < 0 {
        seq!['-'] + decimal_chars((-v) as nat)
    } else {
        decimal_chars(v as nat)
    }
}

/// The key length of revisions 2 to 4 in bytes: 5 for revision 2, otherwise `/Length` in bits
/// divided by 8 (toward zero) and held between 5 and 16.
pub open spec fn legacy_key_len(r: i64, length_bits: i64) -> int {
    if r == 2 {
        5
    } else if length_bits < 40 {
        5
    } else if length_bits >= 128 {
        16
    } else {
        length_bits / 8
    }
}

pub open spec fn decryptor_with(
    key: Seq<u8>,
    ciphers: (Cipher, Cipher),
    per_object_key: bool,
    em: bool,
) -> DecryptorView {
    DecryptorView {
        key,
        string_cipher: ciphers.0,
        stream_cipher: ciphers.1,
        per_object_key,
        encrypt_metadata: em,
    }
}

/// The entries of an encryption dictionary the standard handler reads, resolved, with their
/// defaults: `/V` and `/R` 0, `/Length` 40, `/O`, `/U`, `/OE` and `/UE` empty, `/P` -1 (as a
/// 32-bit value), `/EncryptMetadata` true. `/V` 4 and 5 name the string and stream ciphers
/// through crypt filters; earlier versions use RC4 throughout.
pub struct EncParams {
    pub v: i64,
    pub r: i64,
    pub length_bits: i64,
    pub o: Seq<u8>,
    pub u: Seq<u8>,
    pub p: i32,
    pub em: bool,
    pub ciphers: (Cipher, Cipher),
    pub oe: Seq<u8>,
    pub ue: Seq<u8>,
}

pub open spec fn enc_ciphers<R: Resolve>(enc: Seq<(Seq<char>, ObjectView)>, v: i64, r: R) -> (
    Cipher,
    Cipher,
) {
    if v >= 4 {
        let cf = match enc_get(enc, "CF"@, r) {
            Some(c) => entries_of(c),
            None => Seq::empty(),
        };
        (
            spec_cipher_of(cf, opt_name(enc_get(enc, "StrF"@, r)), r),
            spec_cipher_of(cf, opt_name(enc_get(enc, "StmF"@, r)), r),
        )
    } else {
        (Cipher::Rc4, Cipher::Rc4)
    }
}

pub open spec fn enc_params<R: Resolve>(enc: Seq<(Seq<char>, ObjectView)>, r: R) -> EncParams {
    let v = opt_int(enc_get(enc, "V"@, r), 0);
    EncParams {
        v,
        r: opt_int(enc_get(enc, "R"@, r), 0),
        length_bits: opt_int(enc_get(enc, "Length"@, r), 40),
        o: opt_bytes(enc_get(enc, "O"@, r)),
        u: opt_bytes(enc_get(enc, "U"@, r)),
        p: opt_int(enc_get(enc, "P"@, r), -1i64) as i32,
        em: opt_bool(enc_get(enc, "EncryptMetadata"@, r), true),
        ciphers: enc_ciphers(enc, v, r),
        oe: opt_bytes(enc_get(enc, "OE"@, r)),
        ue: opt_bytes(enc_get(enc, "UE"@, r)),
    }
}

/// Revisions 2 to 4: the password tried as the user password, then as the owner password.
#[verifier::opaque]
pub open spec fn open_legacy(pr: EncParams, id: Seq<u8>, pw: Seq<u8>) -> Result<DecryptorView, OpenFailure> {
    let key_len = legacy_key_len(pr.r, pr.length_bits);
    let user_key = spec_legacy_file_key(pw, pr.o, pr.p, id, pr.r, key_len, pr.em);
    if spec_check_user(user_key, pr.u, id, pr.r) {
        Ok(decryptor_with(user_key, pr.ciphers, true, pr.em))
    } else {
        let recovered = spec_owner_to_user(pw, pr.o, pr.r, key_len);
        let owner_key = spec_legacy_file_key(recovered, pr.o, pr.p, id, pr.r, key_len, pr.em);
        if spec_check_user(owner_key, pr.u, id, pr.r) {
            Ok(decryptor_with(owner_key, pr.ciphers, true, pr.em))
        } else {
            Err(OpenFailure::Password)
        }
    }
}

/// A standard-handler dictionary opened with its parameters: revisions 5 and 6 (or `/V 5`)
/// derive the key with SHA-2, `/V` 1 to 4 use the legacy algorithms, other versions are
/// refused.
#[verifier::opaque]
pub open spec fn open_params(pr: EncParams, id: Seq<u8>, pw: Seq<u8>) -> Result<DecryptorView, OpenFailure> {
    if pr.v == 5 || pr.r >= 5 {
        match spec_derive_key_v5(pw, pr.r, pr.o, pr.u, pr.oe, pr.ue) {
            KeyOutcome::Key(k) => Ok(decryptor_with(k, pr.ciphers, false, pr.em)),
            KeyOutcome::Unsupported(m) => Err(OpenFailure::Unsupported(m)),
            KeyOutcome::Password => Err(OpenFailure::Password),
        }
    } else if !(1 <= pr.v <= 4) {
        Err(OpenFailure::Unsupported("V "@ + signed_decimal(pr.v as int)))
    } else {
        open_legacy(pr, id, pw)
    }
}

/// What an encryption dictionary opens to with `password` (its UTF-8 bytes, empty when none
/// is given) and the first file identifier `id`. The handler must be `/Standard`.
pub open spec fn spec_open<R: Resolve>(
    enc: Seq<(Seq<char>, ObjectView)>,
    id: Seq<u8>,
    pw: Seq<u8>,
    r: R,
) -> Result<DecryptorView, OpenFailure> {
    let filter = opt_name(enc_get(enc, "Filter"@, r));
    if filter != Some("Standard"@) {
        Err(
            OpenFailure::Unsupported(
                "security handler "@ + debug_text_of(
                    match filter {
                        Some(f) => f,
                        None => Seq::empty(),
                    },
                ),
            ),
        )
    } else {
        open_params(enc_params(enc, r), id, pw)
    }
}

/// How a result of [`Decryptor::new`] reads against [`spec_open`].
pub open spec fn open_matches(res: Result<Decryptor, Error>, s: Result<DecryptorView, OpenFailure>) -> bool {
    match (res, s) {
        (Ok(d), Ok(v)) => d@ == v,
        (Err(e), Err(OpenFailure::Unsupported(m))) => e.is_unsupported_with(m),
        (Err(e), Err(OpenFailure::Password)) => e is Password,
        _ => false,
    }
}

/// The key of object `num`, `gen`: the file key itself for revisions 5 and 6; otherwise the
/// first `min(key length + 5, 16)` bytes of the MD5 of the file key, the object number's three
/// low bytes, the generation's two bytes and, for AES, `sAlT`.
pub open spec fn spec_object_key(d: DecryptorView, num: u32, gen: u16, aes: bool) -> Seq<u8> {
    if !d.per_object_key {
        d.key
    } else {
        let input = d.key + seq![(num % 256) as u8, (num / 256 % 256) as u8, (num / 65536 % 256) as u8]
            + seq![(gen % 256) as u8, (gen / 256) as u8] + if aes {
            seq![0x73u8, 0x41, 0x6C, 0x54]
        } else {
            Seq::empty()
        };
        md5_of(input).subrange(0, min_int(d.key.len() as int + 5, 16))
    }
}

/// Algorithm 1: with a per-object key, object `num`, `gen` is keyed by the first
/// `min(n + 5, 16)` bytes (`n` the file key's length) of the MD5 of the file key, the object
/// number's low three bytes and the generation's two bytes, least significant first, and for
/// AES the four bytes `sAlT`.
pub proof fn object_key_digests_key_number_and_generation(d: DecryptorView, num: u32, gen: u16, aes: bool)
    requires
        d.per_object_key,
    ensures
        ({
            let n = d.key.len() as int;
            exists|x: Seq<u8>|
                #[trigger] md5_of(x).subrange(0, min_int(n + 5, 16)) == spec_object_key(d, num, gen, aes)
                    && x.len() == n + 5 + (if aes { 4int } else { 0int }) && x.subrange(0, n) == d.key
                    && x[n] + 256 * x[n + 1] + 65536 * x[n + 2] == num % 16777216 && x[n + 3] + 256 * x[n
                    + 4] == gen && (aes ==> x.subrange(n + 5, n + 9) == "sAlT"@.map_values(
                    |c: char| c as u8,
                ))
        }),
{
    let n = d.key.len() as int;
    let x = d.key + seq![(num % 256) as u8, (num / 256 % 256) as u8, (num / 65536 % 256) as u8]
        + seq![(gen % 256) as u8, (gen / 256) as u8] + if aes {
        seq![0x73u8, 0x41, 0x6C, 0x54]
    } else {
        Seq::empty()
    };
    assert(x.subrange(0, n) =~= d.key);
    assert(x[n] + 256 * x[n + 1] + 65536 * x[n + 2] == num % 16777216) by (nonlinear_arith)
        requires
            x[n] == (num % 256) as u8,
            x[n + 1] == (num / 256 % 256) as u8,
            x[n + 2] == (num / 65536 % 256) as u8,
    ;
    assert(x[n + 3] + 256 * x[n + 4] == gen) by (nonlinear_arith)
        requires
            x[n + 3] == (gen % 256) as u8,
            x[n + 4] == (gen / 256) as u8,
    ;
    if aes {
        reveal_strlit("sAlT");
        assert(x.subrange(n + 5, n + 9) =~= "sAlT"@.map_values(|c: char| c as u8));
    }
    assert(x.len() == n + 5 + (if aes { 4int } else { 0int }));
    assert(md5_of(x).subrange(0, min_int(n + 5, 16)) == spec_object_key(d, num, gen, aes));
}

/// `P` is written as four bytes, least significant first, that read back as `P`'s 32 bits.
pub proof fn permissions_are_little_endian(p: i32)
    ensures
        le_i32(p).len() == 4,
        le_i32(p)[0] + 256 * le_i32(p)[1] + 65536 * le_i32(p)[2] + 16777216 * le_i32(p)[3] == p as u32,
{
    let u = p as u32;
    assert(le_i32(p)[0] + 256 * le_i32(p)[1] + 65536 * le_i32(p)[2] + 16777216 * le_i32(p)[3] == u) by (nonlinear_arith)
        requires
            le_i32(p)[0] == (u % 256) as u8,
            le_i32(p)[1] == (u / 256 % 256) as u8,
            le_i32(p)[2] == (u / 65536 % 256) as u8,
            le_i32(p)[3] == (u / 16777216) as u8,
    ;
}

/// Algorithm 5 forward (revisions 3 and 4): the first 16 bytes of `U` for a file key: the MD5
/// of the padding string and the identifier, encrypted under the key, then under the key
/// combined with 1, 2, ... 19 in turn.
pub open spec fn user_entry_r3(key: Seq<u8>, id: Seq<u8>) -> Seq<u8> {
    rc4_rounds_up(key, spec_rc4(key, md5_of(pad_bytes() + id)), 19)
}

/// A document whose `U` was made (Algorithm 5, with any 16 bytes after) from the file key its
/// user password gives opens with that password, under that key.
pub proof fn a_user_password_opens_its_document(pr: EncParams, id: Seq<u8>, pw: Seq<u8>, tail: Seq<u8>)
    requires
        3 <= pr.r <= 4,
        md5_of(pad_bytes() + id).len() == 16,
        tail.len() == 16,
        pr.u == user_entry_r3(
            spec_legacy_file_key(pw, pr.o, pr.p, id, pr.r, legacy_key_len(pr.r, pr.length_bits), pr.em),
            id,
        ) + tail,
    ensures
        open_legacy(pr, id, pw) == Ok::<DecryptorView, OpenFailure>(
            decryptor_with(
                spec_legacy_file_key(pw, pr.o, pr.p, id, pr.r, legacy_key_len(pr.r, pr.length_bits), pr.em),
                pr.ciphers,
                true,
                pr.em,
            ),
        ),
{
    reveal(open_legacy);
    let key = spec_legacy_file_key(pw, pr.o, pr.p, id, pr.r, legacy_key_len(pr.r, pr.length_bits), pr.em);
    let v = user_entry_r3(key, id);
    lemma_rounds_len(key, spec_rc4(key, md5_of(pad_bytes() + id)), 19);
    assert(v.len() == 16);
    assert(pr.u.subrange(0, 16) =~= v.subrange(0, 16));
    assert(spec_check_user(key, pr.u, id, pr.r));
}

/// Revision 2: a document whose `U` is the padding string encrypted under the file key its user
/// password gives opens with that password, under that key.
pub proof fn a_user_password_opens_its_revision_2_document(pr: EncParams, id: Seq<u8>, pw: Seq<u8>)
    requires
        pr.r == 2,
        pr.u == spec_rc4(
            spec_legacy_file_key(pw, pr.o, pr.p, id, 2, legacy_key_len(2, pr.length_bits), pr.em),
            pad_bytes(),
        ),
    ensures
        open_legacy(pr, id, pw) == Ok::<DecryptorView, OpenFailure>(
            decryptor_with(
                spec_legacy_file_key(pw, pr.o, pr.p, id, 2, legacy_key_len(2, pr.length_bits), pr.em),
                pr.ciphers,
                true,
                pr.em,
            ),
        ),
{
    reveal(open_legacy);
    assert(pad_bytes().len() == 32);
    assert(pr.u.subrange(0, min_int(32, pr.u.len() as int)) =~= pr.u);
}

/// PKCS#5 padding comes off: data followed by `n` bytes of value `n` (1 to 16) loses exactly
/// them.
pub proof fn padding_comes_off(b: Seq<u8>, n: u8)
    requires
        1 <= n <= 16,
    ensures
        strip_padding(b + Seq::new(n as nat, |i: int| n)) == b,
{
    let t = b + Seq::new(n as nat, |i: int| n);
    assert(t.last() == n);
    assert(t.subrange(0, t.len() - n) =~= b);
}

/// Well-formed PKCS#5 padding removed; anything else kept as it is.
pub open spec fn strip_padding(b: Seq<u8>) -> Seq<u8> {
    if b.len() > 0 && 1 <= b.last() <= 16 && b.len() >= b.last() {
        b.subrange(0, b.len() - b.last())
    } else {
        b
    }
}

/// AES-CBC with the IV in the first block: nothing for data shorter than two blocks or not
/// whole blocks, or for a key of neither 16 nor 32 bytes.
pub open spec fn spec_aes_cbc_decrypt(key: Seq<u8>, data: Seq<u8>) -> Seq<u8> {
    if data.len() < 32 || (data.len() - 16) % 16 != 0 {
        Seq::empty()
    } else {
        let iv = data.subrange(0, 16);
        let body = data.subrange(16, data.len() as int);
        if key.len() == 16 {
            strip_padding(aes128_cbc_decrypt_of(key, iv, body))
        } else if key.len() == 32 {
            strip_padding(aes256_cbc_decrypt_of(key, iv, body))
        } else {
            Seq::empty()
        }
    }
}

/// `data` of object `num`, `gen` decrypted with `cipher`.
pub open spec fn spec_decrypt(d: DecryptorView, cipher: Cipher, num: u32, gen: u16, data: Seq<u8>) -> Seq<u8> {
    match cipher {
        Cipher::Identity => data,
        Cipher::Rc4 => spec_rc4(spec_object_key(d, num, gen, false), data),
        Cipher::Aes => spec_aes_cbc_decrypt(spec_object_key(d, num, gen, true), data),
    }
}

/// AES-CBC with the IV in the first block, PKCS#5 padding stripped leniently.
fn aes_cbc_decrypt(key: &[u8], data: &[u8]) -> (r: Vec<u8>)
    ensures
        r@ == spec_aes_cbc_decrypt(key@, data@),
{
    let dl = data.len();
    if dl < 32 || (dl - 16) % 16 != 0 {
        return Vec::new();
    }
    let iv = bytes_between(data, 0, 16);
    let body = bytes_between(data, 16, dl);
    let mut buf = if key.len() == 16 {
        aes128_cbc_decrypt(key, iv, body)
    } else if key.len() == 32 {
        aes256_cbc_decrypt(key, iv, body)
    } else {
        return Vec::new();
    };
    // Strip padding when it is well-formed; tolerate producers that omit it.
    let bl = buf.len();
    if bl > 0 {
        let pad = buf[bl - 1];
        if 1 <= pad && pad <= 16 && bl >= pad as usize {
            buf.truncate(bl - pad as usize);
        }
    }
    buf
}

fn signed_message(prefix: &str, v: i64) -> (s: String)
    ensures
        s@ == prefix@ + signed_decimal(v as int),
{
    if v < 0 {
        let mut s = String::new();
        crate::text::push_str_chars(&mut s, prefix);
        crate::text::string_push(&mut s, '-');
        let m: u64 = (0 - (v as i128)) as u64;
        crate::text::push_decimal(&mut s, m);
        assert(s@ =~= prefix@ + signed_decimal(v as int));
        s
    } else {
        message_with_number(prefix, v as u64)
    }
}

pub open spec fn opt_string_view(s: Option<String>) -> Option<Seq<char>> {
    match s {
        Some(x) => Some(x@),
        None => None,
    }
}

fn enc_get_of<R: Resolve>(enc: &Dict, k: &str, r: &R) -> (o: Option<Object>)
    ensures
        opt_view(o) == enc_get(enc@, k@, *r),
{
    match enc.get(k) {
        Some(x) => Some(r.resolve(x)),
        None => None,
    }
}

fn int_of(o: &Option<Object>, default: i64) -> (v: i64)
    ensures
        v == opt_int(opt_view(*o), default),
{
    match o {
        Some(x) => match x.as_int() {
            Some(i) => i,
            None => default,
        },
        None => default,
    }
}

fn bytes_of(o: &Option<Object>) -> (v: Vec<u8>)
    ensures
        v@ == opt_bytes(opt_view(*o)),
{
    match o {
        Some(x) => match x.as_string() {
            Some(s) => vstd::slice::slice_to_vec(s),
            None => Vec::new(),
        },
        None => Vec::new(),
    }
}

fn name_of(o: &Option<Object>) -> (v: Option<String>)
    ensures
        opt_string_view(v) == opt_name(opt_view(*o)),
{
    match o {
        Some(x) => match x.as_name() {
            Some(n) => Some(n.to_owned()),
            None => None,
        },
        None => None,
    }
}

fn bool_of(o: &Option<Object>, default: bool) -> (v: bool)
    ensures
        v == opt_bool(opt_view(*o), default),
{
    match o {
        Some(x) => match x.as_bool() {
            Some(b) => b,
            None => default,
        },
        None => default,
    }
}

#[verifier::rlimit(40)]
fn crypt_method_of<R: Resolve>(cf: &Dict, n: &String, r: &R) -> (m: Option<String>)
    ensures
        opt_string_view(m) == crypt_method(cf@, n@, *r),
{
    match cf.get(n.as_str()) {
        None => None,
        Some(o) => {
            let ro = r.resolve(o);
            match ro.as_dict() {
                Some(d) => match d.get("CFM") {
                    Some(c) => match r.resolve(c).as_name() {
                        Some(m) => Some(m.to_owned()),
                        None => None,
                    },
                    None => None,
                },
                None => None,
            }
        },
    }
}

fn cipher_of<R: Resolve>(cf: &Dict, name: &Option<String>, r: &R) -> (c: Cipher)
    ensures
        c == spec_cipher_of(cf@, opt_string_view(*name), *r),
{
    reveal(spec_cipher_of);
    let n = match name {
        None => {
            return Cipher::Identity;
        },
        Some(n) => n,
    };
    if str_eq(n.as_str(), "Identity") {
        return Cipher::Identity;
    }
    let cfm = crypt_method_of(cf, n, r);
    match cfm {
        Some(m) => {
            if str_eq(m.as_str(), "V2") {
                Cipher::Rc4
            } else if str_eq(m.as_str(), "AESV2") || str_eq(m.as_str(), "AESV3") {
                Cipher::Aes
            } else {
                Cipher::Identity
            }
        },
        None => Cipher::Identity,
    }
}

/// The parameters [`EncParams`] describes, as read.
struct Params {
    v: i64,
    r: i64,
    length_bits: i64,
    o_entry: Vec<u8>,
    u_entry: Vec<u8>,
    p: i32,
    encrypt_metadata: bool,
    string_cipher: Cipher,
    stream_cipher: Cipher,
    oe: Vec<u8>,
    ue: Vec<u8>,
}

spec fn params_view(p: Params) -> EncParams {
    EncParams {
        v: p.v,
        r: p.r,
        length_bits: p.length_bits,
        o: p.o_entry@,
        u: p.u_entry@,
        p: p.p,
        em: p.encrypt_metadata,
        ciphers: (p.string_cipher, p.stream_cipher),
        oe: p.oe@,
        ue: p.ue@,
    }
}

fn entries_dict(o: &Option<Object>) -> (d: Dict)
    ensures
        d@ == match opt_view(*o) {
            Some(c) => entries_of(c),
            None => Seq::empty(),
        },
{
    match o {
        Some(c) => match c.as_dict() {
            Some(d) => d.clone(),
            None => Dict::new(),
        },
        None => Dict::new(),
    }
}

fn read_ciphers<R: Resolve>(enc: &Dict, v: i64, resolve: &R) -> (c: (Cipher, Cipher))
    ensures
        c == enc_ciphers(enc@, v, *resolve),
{
    // Crypt-filter ciphers for V4/V5; earlier versions are RC4 throughout.
    if v >= 4 {
        let cf = entries_dict(&enc_get_of(enc, "CF", resolve));
        let strf = name_of(&enc_get_of(enc, "StrF", resolve));
        let stmf = name_of(&enc_get_of(enc, "StmF", resolve));
        (cipher_of(&cf, &strf, resolve), cipher_of(&cf, &stmf, resolve))
    } else {
        (Cipher::Rc4, Cipher::Rc4)
    }
}

#[verifier::rlimit(40)]
fn read_params<R: Resolve>(enc: &Dict, resolve: &R) -> (p: Params)
    ensures
        params_view(p) == enc_params(enc@, *resolve),
{
    let v = int_of(&enc_get_of(enc, "V", resolve), 0);
    let r = int_of(&enc_get_of(enc, "R", resolve), 0);
    let length_bits = int_of(&enc_get_of(enc, "Length", resolve), 40);
    let o_entry = bytes_of(&enc_get_of(enc, "O", resolve));
    let u_entry = bytes_of(&enc_get_of(enc, "U", resolve));
    let p = int_of(&enc_get_of(enc, "P", resolve), -1) as i32;
    let encrypt_metadata = bool_of(&enc_get_of(enc, "EncryptMetadata", resolve), true);
    let (string_cipher, stream_cipher) = read_ciphers(enc, v, resolve);
    let oe = bytes_of(&enc_get_of(enc, "OE", resolve));
    let ue = bytes_of(&enc_get_of(enc, "UE", resolve));
    Params {
        v,
        r,
        length_bits,
        o_entry,
        u_entry,
        p,
        encrypt_metadata,
        string_cipher,
        stream_cipher,
        oe,
        ue,
    }
}

#[verifier::rlimit(40)]
fn legacy_open(pr: Params, file_id: &[u8], pw: &[u8]) -> (res: Result<Decryptor, Error>)
    requires
        1 <= pr.v <= 4,
    ensures
        open_matches(res, open_legacy(params_view(pr), file_id@, pw@)),
{
    reveal(open_legacy);
    let r = pr.r;
    let length_bits = pr.length_bits;
    let key_len: usize = if r == 2 {
        5
    } else if length_bits < 40 {
        5
    } else if length_bits >= 128 {
        16
    } else {
        (length_bits / 8) as usize
    };
    let user_key = legacy_file_key(pw, pr.o_entry.as_slice(), pr.p, file_id, r, key_len, pr.encrypt_metadata);
    if legacy_check_user(user_key.as_slice(), pr.u_entry.as_slice(), file_id, r) {
        return Ok(
            Decryptor {
                key: user_key,
                string_cipher: pr.string_cipher,
                stream_cipher: pr.stream_cipher,
                per_object_key: true,
                encrypt_metadata: pr.encrypt_metadata,
            },
        );
    }
    let recovered = legacy_owner_to_user(pw, pr.o_entry.as_slice(), r, key_len);
    let owner_key = legacy_file_key(recovered.as_slice(), pr.o_entry.as_slice(), pr.p, file_id, r, key_len, pr.encrypt_metadata);
    if legacy_check_user(owner_key.as_slice(), pr.u_entry.as_slice(), file_id, r) {
        return Ok(
            Decryptor {
                key: owner_key,
                string_cipher: pr.string_cipher,
                stream_cipher: pr.stream_cipher,
                per_object_key: true,
                encrypt_metadata: pr.encrypt_metadata,
            },
        );
    }
    Err(Error::Password)
}

fn open_with(pr: Params, file_id: &[u8], pw: &[u8]) -> (res: Result<Decryptor, Error>)
    ensures
        open_matches(res, open_params(params_view(pr), file_id@, pw@)),
{
    reveal(open_params);
    if pr.v == 5 || pr.r >= 5 {
        let key = match derive_key_v5(pw, pr.r, pr.o_entry.as_slice(), pr.u_entry.as_slice(), pr.oe.as_slice(), pr.ue.as_slice()) {
            Ok(k) => k,
            Err(e) => {
                return Err(e);
            },
        };
        return Ok(
            Decryptor {
                key,
                string_cipher: pr.string_cipher,
                stream_cipher: pr.stream_cipher,
                per_object_key: false,
                encrypt_metadata: pr.encrypt_metadata,
            },
        );
    }
    if !(1 <= pr.v && pr.v <= 4) {
        return Err(Error::UnsupportedEncryption(signed_message("V ", pr.v)));
    }
    legacy_open(pr, file_id, pw)
}

impl Decryptor {
    /// Opens an encryption dictionary with `password` (none means the empty password) and the
    /// first element of the trailer's `/ID`.
    pub fn new<R: Resolve>(enc: &Dict, file_id: &[u8], password: Option<&str>, resolve: &R) -> (res:
        Result<Self, Error>)
        ensures
            open_matches(
                res,
                spec_open(
                    enc@,
                    file_id@,
                    match password {
                        Some(p) => p.spec_bytes(),
                        None => Seq::empty(),
                    },
                    *resolve,
                ),
            ),
    {
        let filter = name_of(&enc_get_of(enc, "Filter", resolve));
        let standard = match &filter {
            Some(f) => str_eq(f.as_str(), "Standard"),
            None => false,
        };
        if !standard {
            let shown = match &filter {
                Some(f) => debug_text(f.as_str()),
                None => debug_text(""),
            };
            proof {
                reveal_strlit("");
                assert(""@ =~= Seq::<char>::empty());
            }
            let ghost fv = opt_name(enc_get(enc@, "Filter"@, *resolve));
            assert(fv != Some("Standard"@));
            assert(shown@ == debug_text_of(
                match fv {
                    Some(f) => f,
                    None => Seq::empty(),
                },
            ));
            return Err(
                Error::UnsupportedEncryption(
                    crate::text::message_with_text("security handler ", shown.as_str()),
                ),
            );
        }
        let empty: [u8; 0] = [];
        assert(empty@ =~= Seq::<u8>::empty());
        let pw: &[u8] = match password {
            Some(s) => s.as_bytes(),
            None => empty.as_slice(),
        };
        open_with(read_params(enc, resolve), file_id, pw)
    }

    fn object_key(&self, num: u32, gen: u16, aes: bool) -> (k: Vec<u8>)
        ensures
            k@ == spec_object_key(self@, num, gen, aes),
            k@.len() > 0,
    {
        proof {
            use_type_invariant(self);
        }
        if !self.per_object_key {
            return vstd::slice::slice_to_vec(self.key.as_slice());
        }
        let mut input = vstd::slice::slice_to_vec(self.key.as_slice());
        let nb: [u8; 3] = [(num % 256) as u8, (num / 256 % 256) as u8, (num / 65536 % 256) as u8];
        append(&mut input, nb.as_slice());
        let gb: [u8; 2] = [(gen % 256) as u8, (gen / 256) as u8];
        append(&mut input, gb.as_slice());
        if aes {
            let salt: [u8; 4] = [0x73, 0x41, 0x6C, 0x54];
            append(&mut input, salt.as_slice());
        }
        let digest = md5_digest(input.as_slice());
        let kl = self.key.len();
        let n = if kl < 11 {
            kl + 5
        } else {
            16
        };
        bytes_vec(bytes_between(digest.as_slice(), 0, n))
    }

    fn decrypt(&self, cipher: Cipher, num: u32, gen: u16, data: &[u8]) -> (r: Vec<u8>)
        ensures
            r@ == spec_decrypt(self@, cipher, num, gen, data@),
    {
        match cipher {
            Cipher::Identity => vstd::slice::slice_to_vec(data),
            Cipher::Rc4 => rc4(self.object_key(num, gen, false).as_slice(), data),
            Cipher::Aes => aes_cbc_decrypt(self.object_key(num, gen, true).as_slice(), data),
        }
    }

    /// A string of object `num`, `gen` decrypted with the string cipher.
    pub fn decrypt_string(&self, num: u32, gen: u16, data: &[u8]) -> (r: Vec<u8>)
        ensures
            r@ == spec_decrypt(self@, self@.string_cipher, num, gen, data@),
    {
        self.decrypt(self.string_cipher, num, gen, data)
    }

    /// A stream of object `num`, `gen` decrypted with the stream cipher.
    pub fn decrypt_stream(&self, num: u32, gen: u16, data: &[u8]) -> (r: Vec<u8>)
        ensures
            r@ == spec_decrypt(self@, self@.stream_cipher, num, gen, data@),
    {
        self.decrypt(self.stream_cipher, num, gen, data)
    }

    /// Whether a stream of the given `/Type` is encrypted at all: every stream is, except
    /// `/Metadata` when the document keeps its metadata in the clear.
    pub fn stream_needs_decrypt(&self, stream_type: Option<&str>) -> (r: bool)
        ensures
            r == !(stream_type matches Some(t) && t@ == "Metadata"@ && !self@.encrypt_metadata),
    {
        // A document may declare that its metadata stays in the clear; every other stream is
        // encrypted. Naming the exemption keeps the negation readable.
        let is_metadata = match stream_type {
            Some(t) => str_eq(t, "Metadata"),
            None => false,
        };
        let metadata_exempt = is_metadata && !self.encrypt_metadata;
        !metadata_exempt
    }
}

} // verus!
