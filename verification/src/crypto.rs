//! End-to-end encryption of frames: AES-256-GCM under a key derived from a
//! shared secret, with a nonce made of a direction byte and a frame counter.

use crate::number::{
    be_bytes, law_bytes_of_numbers, law_numbers_of_bytes, lemma_be_bytes_value, lemma_byte_ranges,
    u64_be_bytes,
};
use crate::text::opt_string;
use aes_gcm::aead::Aead;
use aes_gcm::{Aes256Gcm, KeyInit, Nonce};
use sha2::{Digest, Sha256};
use vstd::prelude::*;
use vstd::string::*;
use vstd::utf8::encode_utf8;

verus! {

/// The error of the `aead` crate: it says nothing but that a call failed.
#[verifier::external_type_specification]
#[verifier::external_body]
pub struct ExAeadError(aes_gcm::Error);

/// The SHA-256 digest of some bytes.
pub uninterp spec fn sha256(data: Seq<u8>) -> Seq<u8>;

/// What AES-256-GCM makes of a plaintext, with no associated data: the
/// ciphertext with its tag, or nothing if the plaintext is too long.
pub uninterp spec fn aes256_gcm_encrypt(
    key: Seq<u8>,
    nonce: Seq<u8>,
    plaintext: Seq<u8>,
) -> Option<Seq<u8>>;

/// What AES-256-GCM makes of a ciphertext with its tag, with no associated
/// data: the plaintext, or nothing if the tag does not fit.
pub uninterp spec fn aes256_gcm_decrypt(
    key: Seq<u8>,
    nonce: Seq<u8>,
    ciphertext: Seq<u8>,
) -> Option<Seq<u8>>;

/// The longest plaintext that AES-GCM takes, in bytes.
pub const MAX_PLAINTEXT: u64 = 0x10_0000_0000;

/// The length of the tag that AES-GCM adds to a ciphertext, in bytes.
pub const TAG_LEN: usize = 16;

/// Calls `Sha256::digest` of the `sha2` crate. The result is a function of the
/// data alone and has 32 bytes; nothing else is said of it.
#[verifier::external_body]
fn sha256_digest(data: &[u8]) -> (r: [u8; 32])
    ensures
        r@ == sha256(data@),
{
    Sha256::digest(data).into()
}

/// Calls `Aead::encrypt` of an `Aes256Gcm` that holds `key`. The result is a
/// function of the three arguments. The call fails if and only if the plaintext
/// is longer than the cipher's maximum; otherwise the ciphertext is longer than
/// the plaintext by the tag, and decrypting it under the same key and nonce
/// gives the plaintext back. The cipher reserves room for the plaintext and the
/// tag in one vector, hence the bound on the length.
#[verifier::external_body]
fn encrypt_with(key: &[u8; 32], nonce: &[u8; 12], plaintext: &[u8]) -> (r: Result<
    Vec<u8>,
    aes_gcm::Error,
>)
    requires
        plaintext@.len() + TAG_LEN <= isize::MAX,
    ensures
        r is Ok <==> plaintext@.len() <= MAX_PLAINTEXT,
        r is Err ==> aes256_gcm_encrypt(key@, nonce@, plaintext@) is None,
        r matches Ok(c) ==> {
            &&& aes256_gcm_encrypt(key@, nonce@, plaintext@) == Some(c@)
            &&& aes256_gcm_decrypt(key@, nonce@, c@) == Some(plaintext@)
            &&& c@.len() == plaintext@.len() + TAG_LEN
        },
{
    Aes256Gcm::new(key.into()).encrypt(Nonce::from_slice(nonce), plaintext)
}

/// Calls `Aead::decrypt` of an `Aes256Gcm` that holds `key`. The result is a
/// function of the three arguments. A ciphertext shorter than the tag is
/// refused; what decrypts is shorter than the ciphertext by the tag, and
/// encrypting it under the same key and nonce gives the ciphertext back, unless
/// it is too long to be encrypted.
#[verifier::external_body]
fn decrypt_with(key: &[u8; 32], nonce: &[u8; 12], ciphertext: &[u8]) -> (r: Result<
    Vec<u8>,
    aes_gcm::Error,
>)
    ensures
        ciphertext@.len() < TAG_LEN ==> r is Err,
        r is Err ==> aes256_gcm_decrypt(key@, nonce@, ciphertext@) is None,
        r matches Ok(p) ==> {
            &&& aes256_gcm_decrypt(key@, nonce@, ciphertext@) == Some(p@)
            &&& ciphertext@.len() == p@.len() + TAG_LEN
            &&& p@.len() <= MAX_PLAINTEXT ==> aes256_gcm_encrypt(key@, nonce@, p@) == Some(
                ciphertext@,
            )
        },
{
    Aes256Gcm::new(key.into()).decrypt(Nonce::from_slice(nonce), ciphertext)
}

/// Why a frame could not be sealed or opened.
#[derive(Debug, Clone, Copy, PartialEq, Eq, Structural)]
pub enum CryptoError {
    /// The frame is too long to be encrypted.
    Encrypt,
    /// The frame does not decrypt: most often the two sides hold different secrets.
    Decrypt,
}

impl CryptoError {
    /// The error in words.
    pub open spec fn text(self) -> Seq<char> {
        match self {
            CryptoError::Encrypt => "failed to encrypt relay frame"@,
            CryptoError::Decrypt => "check that both sides use the same --secret"@,
        }
    }

    /// Gives the error in words.
    pub fn message(&self) -> (r: String)
        ensures
            r@ == self.text(),
    {
        match self {
            CryptoError::Encrypt => "failed to encrypt relay frame".to_owned(),
            CryptoError::Decrypt => "check that both sides use the same --secret".to_owned(),
        }
    }

    /// What lies under the error, in words, if there is anything to add.
    pub open spec fn cause_text(self) -> Option<Seq<char>> {
        match self {
            CryptoError::Encrypt => None,
            CryptoError::Decrypt => Some("failed to decrypt relay frame"@),
        }
    }

    /// Gives what lies under the error, in words.
    pub fn cause(&self) -> (r: Option<String>)
        ensures
            opt_string(r) == self.cause_text(),
    {
        match self {
            CryptoError::Encrypt => None,
            CryptoError::Decrypt => Some("failed to decrypt relay frame".to_owned()),
        }
    }
}

/// One side's state of an encrypted connection.
///
/// It cannot be cloned: two values that count on their own would use one nonce
/// twice.
pub struct FrameCrypto {
    key: [u8; 32],
    outbound_dir: u8,
    inbound_dir: u8,
    outbound_counter: u64,
}

/// What a `FrameCrypto` holds.
pub struct CryptoView {
    /// The AES-256 key.
    pub key: Seq<u8>,
    /// The direction byte of the frames that this side seals.
    pub outbound_dir: u8,
    /// The direction byte of the frames that this side opens.
    pub inbound_dir: u8,
    /// The counter of the next frame that this side seals.
    pub outbound_counter: u64,
}

impl View for FrameCrypto {
    type V = CryptoView;

    closed spec fn view(&self) -> CryptoView {
        CryptoView {
            key: self.key@,
            outbound_dir: self.outbound_dir,
            inbound_dir: self.inbound_dir,
            outbound_counter: self.outbound_counter,
        }
    }
}

/// The key that a secret stands for.
pub open spec fn secret_key(secret: Seq<char>) -> Seq<u8> {
    sha256(encode_utf8(secret))
}

/// The nonce of the frame with number `counter` in one direction: the direction
/// byte, three zero bytes and the counter.
pub open spec fn nonce_bytes(direction: u8, counter: u64) -> Seq<u8> {
    seq![direction, 0u8, 0u8, 0u8] + be_bytes(counter as nat, 8)
}

/// The counter behind `counter`; the last one is followed by zero.
pub open spec fn next_counter(counter: u64) -> u64 {
    if counter == u64::MAX {
        0
    } else {
        (counter + 1) as u64
    }
}

impl CryptoView {
    /// This side after it has sealed one frame.
    pub open spec fn sealed_once(self) -> CryptoView {
        CryptoView { outbound_counter: next_counter(self.outbound_counter), ..self }
    }

    /// The nonce of the next frame that this side seals.
    pub open spec fn outbound_nonce(self) -> Seq<u8> {
        nonce_bytes(self.outbound_dir, self.outbound_counter)
    }

    /// What this side gets out of a frame that claims the number `counter`.
    pub open spec fn opened(self, counter: u64, ciphertext: Seq<u8>) -> Option<Seq<u8>> {
        aes256_gcm_decrypt(self.key, nonce_bytes(self.inbound_dir, counter), ciphertext)
    }

    /// Whether this side opens what `sender` seals: they share the key, and one
    /// sends in the direction in which the other listens.
    pub open spec fn listens_to(self, sender: CryptoView) -> bool {
        self.key == sender.key && self.inbound_dir == sender.outbound_dir
    }
}

impl FrameCrypto {
    /// One side of a connection whose two sides share `secret`.
    pub fn from_secret(secret: &str, outbound_dir: u8, inbound_dir: u8) -> (r: Self)
        ensures
            r@ == (CryptoView {
                key: secret_key(secret@),
                outbound_dir,
                inbound_dir,
                outbound_counter: 0,
            }),
            r@.key == sha256(encode_utf8(secret@)),
    {
        let key = sha256_digest(secret.as_bytes());
        FrameCrypto { key, outbound_dir, inbound_dir, outbound_counter: 0 }
    }

    /// Encrypts a frame. Gives the frame's number and the ciphertext, which every
    /// side that listens to this one opens to the same frame.
    pub fn seal(&mut self, plaintext: &[u8]) -> (r: Result<(u64, Vec<u8>), CryptoError>)
        requires
            plaintext@.len() + TAG_LEN <= isize::MAX,
        ensures
            final(self)@ == old(self)@.sealed_once(),
            r is Ok <==> plaintext@.len() <= MAX_PLAINTEXT,
            r matches Err(e) ==> {
                &&& e == CryptoError::Encrypt
                &&& aes256_gcm_encrypt(old(self)@.key, old(self)@.outbound_nonce(), plaintext@) is None
            },
            r matches Ok((counter, ciphertext)) ==> {
                &&& counter == old(self)@.outbound_counter
                &&& aes256_gcm_encrypt(old(self)@.key, old(self)@.outbound_nonce(), plaintext@)
                    == Some(ciphertext@)
                &&& ciphertext@.len() == plaintext@.len() + TAG_LEN
                &&& forall|peer: CryptoView|
                    peer.listens_to(old(self)@) ==> #[trigger] peer.opened(counter, ciphertext@)
                        == Some(plaintext@)
            },
    {
        let counter: u64 = self.outbound_counter;
        self.outbound_counter = counter.wrapping_add(1);
        let nonce = make_nonce(self.outbound_dir, counter);
        match encrypt_with(&self.key, &nonce, plaintext) {
            Ok(ciphertext) => Ok((counter, ciphertext)),
            Err(_) => Err(CryptoError::Encrypt),
        }
    }

    /// Decrypts the frame with number `counter`.
    pub fn open(&self, counter: u64, ciphertext: &[u8]) -> (r: Result<Vec<u8>, CryptoError>)
        ensures
            r is Ok <==> self@.opened(counter, ciphertext@) is Some,
            r matches Err(e) ==> e == CryptoError::Decrypt,
            ciphertext@.len() < TAG_LEN ==> r is Err,
            r matches Ok(p) ==> {
                &&& self@.opened(counter, ciphertext@) == Some(p@)
                &&& ciphertext@.len() == p@.len() + TAG_LEN
                &&& p@.len() <= MAX_PLAINTEXT ==> aes256_gcm_encrypt(
                    self@.key,
                    nonce_bytes(self@.inbound_dir, counter),
                    p@,
                ) == Some(ciphertext@)
            },
    {
        let nonce = make_nonce(self.inbound_dir, counter);
        match decrypt_with(&self.key, &nonce, ciphertext) {
            Ok(plaintext) => Ok(plaintext),
            Err(_) => Err(CryptoError::Decrypt),
        }
    }
}

/// The nonce of the frame with number `counter` in one direction.
pub fn make_nonce(direction: u8, counter: u64) -> (r: [u8; 12])
    ensures
        r@ == nonce_bytes(direction, counter),
{
    let c = u64_be_bytes(counter);
    let r: [u8; 12] = [
        direction,
        0,
        0,
        0,
        c[0],
        c[1],
        c[2],
        c[3],
        c[4],
        c[5],
        c[6],
        c[7],
    ];
    proof {
        lemma_be_bytes_value(counter as nat, 8);
    }
    assert(r@ =~= nonce_bytes(direction, counter));
    r
}

/// Two frames have one nonce only if they go in the same direction and have the
/// same number.
pub proof fn law_nonces_differ(direction1: u8, counter1: u64, direction2: u8, counter2: u64)
    requires
        nonce_bytes(direction1, counter1) == nonce_bytes(direction2, counter2),
    ensures
        direction1 == direction2,
        counter1 == counter2,
{
    let a = nonce_bytes(direction1, counter1);
    let b = nonce_bytes(direction2, counter2);
    assert(a[0] == direction1 && b[0] == direction2);
    lemma_be_bytes_value(counter1 as nat, 8);
    lemma_be_bytes_value(counter2 as nat, 8);
    lemma_byte_ranges();
    assert(a.skip(4) =~= be_bytes(counter1 as nat, 8));
    assert(b.skip(4) =~= be_bytes(counter2 as nat, 8));
}

/// One side after it has sealed `n` frames.
pub open spec fn sealed_times(c: CryptoView, n: nat) -> CryptoView
    decreases n,
{
    if n == 0 {
        c
    } else {
        sealed_times(c, (n - 1) as nat).sealed_once()
    }
}

proof fn lemma_sealed_times(c: CryptoView, n: nat)
    ensures
        sealed_times(c, n).outbound_dir == c.outbound_dir,
        sealed_times(c, n).key == c.key,
        sealed_times(c, n).inbound_dir == c.inbound_dir,
        sealed_times(c, n).outbound_counter as int == (c.outbound_counter + n)
            % 0x1_0000_0000_0000_0000,
    decreases n,
{
    if n > 0 {
        lemma_sealed_times(c, (n - 1) as nat);
    }
}

/// Sealing changes neither the key nor the directions, and no two of the frames
/// that one side seals have the same nonce until all counters have been used.
pub proof fn law_sealed_frames_have_their_own_nonces(c: CryptoView, i: nat, j: nat)
    requires
        i < j,
        j - i < 0x1_0000_0000_0000_0000,
    ensures
        sealed_times(c, i).key == c.key,
        sealed_times(c, i).outbound_dir == c.outbound_dir,
        sealed_times(c, i).inbound_dir == c.inbound_dir,
        sealed_times(c, i).outbound_nonce() != sealed_times(c, j).outbound_nonce(),
{
    lemma_sealed_times(c, i);
    lemma_sealed_times(c, j);
    let a = sealed_times(c, i);
    let b = sealed_times(c, j);
    if a.outbound_nonce() == b.outbound_nonce() {
        law_nonces_differ(a.outbound_dir, a.outbound_counter, b.outbound_dir, b.outbound_counter);
        let m: int = 0x1_0000_0000_0000_0000;
        let x = c.outbound_counter + i;
        let y = c.outbound_counter + j;
        assert(x % m == y % m);
        assert(x == m * (x / m) + x % m) by {
            vstd::arithmetic::div_mod::lemma_fundamental_div_mod(x, m);
        }
        assert(y == m * (y / m) + y % m) by {
            vstd::arithmetic::div_mod::lemma_fundamental_div_mod(y, m);
        }
        assert(y - x == m * (y / m - x / m)) by (nonlinear_arith)
            requires
                x == m * (x / m) + x % m,
                y == m * (y / m) + y % m,
                x % m == y % m,
        ;
        let d = y / m - x / m;
        assert(d >= 1) by (nonlinear_arith)
            requires
                y - x == m * d,
                y - x > 0,
                m > 0,
        ;
        assert(m * d >= m) by (nonlinear_arith)
            requires
                d >= 1,
                m > 0,
        ;
    }
}

/// Two sides that derive their keys from one secret and take opposite directions
/// listen to each other.
pub proof fn law_same_secret_listens(secret: Seq<char>, dir1: u8, dir2: u8, n1: u64, n2: u64)
    ensures
        ({
            let a = CryptoView {
                key: secret_key(secret),
                outbound_dir: dir1,
                inbound_dir: dir2,
                outbound_counter: n1,
            };
            let b = CryptoView {
                key: secret_key(secret),
                outbound_dir: dir2,
                inbound_dir: dir1,
                outbound_counter: n2,
            };
            a.listens_to(b) && b.listens_to(a)
        }),
{
}

/// The key of a secret is the digest of its whole UTF-8 form, so secrets share a key
/// only if the digests of those forms are the same.
pub proof fn law_keys_are_digests_of_whole_secrets(secret: Seq<char>, other: Seq<char>)
    ensures
        secret_key(secret) == sha256(encode_utf8(secret)),
        secret_key(secret + other) == sha256(encode_utf8(secret + other)),
        secret_key(secret) == secret_key(other) <==> sha256(encode_utf8(secret)) == sha256(
            encode_utf8(other),
        ),
{
}

/// The twelve bytes of a nonce: the direction, three zeros and the counter, most
/// significant byte first.
pub proof fn law_nonces_hold_direction_and_counter(direction: u8, counter: u64)
    ensures
        ({
            let n = nonce_bytes(direction, counter);
            &&& n.len() == 12
            &&& n[0] == direction
            &&& n[1] == 0 && n[2] == 0 && n[3] == 0
            &&& 0x100_0000_0000_0000 * n[4] + 0x1_0000_0000_0000 * n[5] + 0x100_0000_0000 * n[6]
                + 0x1_0000_0000 * n[7] + 0x100_0000 * n[8] + 0x1_0000 * n[9] + 0x100 * n[10] + n[11]
                == counter
        }),
{
    law_bytes_of_numbers(counter as nat);
    let n = nonce_bytes(direction, counter);
    let c = be_bytes(counter as nat, 8);
    law_numbers_of_bytes(c[0], c[1], c[2], c[3], c[4], c[5], c[6], c[7]);
    assert(c =~= seq![c[0], c[1], c[2], c[3], c[4], c[5], c[6], c[7]]);
    assert(forall|i: int| 0 <= i < 8 ==> n[4 + i] == #[trigger] c[i]);
    assert(n[4] == c[0] && n[5] == c[1] && n[6] == c[2] && n[7] == c[3]);
    assert(n[8] == c[4] && n[9] == c[5] && n[10] == c[6] && n[11] == c[7]);
}

/// A side opens a frame by decrypting the whole ciphertext under its key and the
/// nonce of its inbound direction and the frame's number; it seals under the nonce
/// of its outbound direction and its counter, and counts up by one.
pub proof fn law_frames_are_opened_under_key_and_nonce(
    side: CryptoView,
    counter: u64,
    ciphertext: Seq<u8>,
)
    ensures
        side.opened(counter, ciphertext) == aes256_gcm_decrypt(
            side.key,
            nonce_bytes(side.inbound_dir, counter),
            ciphertext,
        ),
        side.outbound_nonce() == nonce_bytes(side.outbound_dir, side.outbound_counter),
        side.sealed_once().key == side.key,
        side.sealed_once().outbound_dir == side.outbound_dir,
        side.sealed_once().inbound_dir == side.inbound_dir,
        side.sealed_once().outbound_counter as int == (side.outbound_counter + 1)
            % 0x1_0000_0000_0000_0000,
{
}

/// A side listens to exactly those that share its key and send in the direction in
/// which it listens.
pub proof fn law_sides_listen_by_key_and_direction(side: CryptoView, sender: CryptoView)
    ensures
        side.key == sender.key && side.inbound_dir == sender.outbound_dir ==> side.listens_to(
            sender,
        ),
        side.key != sender.key ==> !side.listens_to(sender),
        side.inbound_dir != sender.outbound_dir ==> !side.listens_to(sender),
{
}

} // verus!
