//! A key pair for x25519 key agreement, with AES-256-GCM-SIV envelope encryption and
//! mnemonic backup.
use crate::arr::{random_array, wipe, SafeArray};
use crate::err::KeyPairError;
use aes_gcm_siv::aead::{AeadInPlace, NewAead};
use vstd::prelude::*;

verus! {

/// Length of the nonce that ends every envelope.
pub const NONCE_LEN: usize = 12;

/// Length of the authentication tag that AES-GCM-SIV adds.
pub const TAG_LEN: usize = 16;

/// Longest plaintext AES-GCM-SIV encrypts: 2^36 bytes.
pub const MAX_PLAINTEXT: u64 = 68719476736;

/// x25519 clamping of a secret scalar: the low three bits cleared, the top bit cleared and
/// the bit below it set.
pub open spec fn clamp(b: Seq<u8>) -> Seq<u8> {
    b.update(0, b[0] & 248u8).update(31, (b[31] & 127u8) | 64u8)
}

/// The x25519 public key of the secret key `sk`.
pub uninterp spec fn x25519_public(sk: Seq<u8>) -> Seq<u8>;

/// The x25519 shared secret of the secret key `sk` with the public key `pk`.
pub uninterp spec fn x25519_shared(sk: Seq<u8>, pk: Seq<u8>) -> Seq<u8>;

/// AES-256-GCM-SIV ciphertext and tag of `plain` under `key` and `nonce`, with empty
/// associated data.
pub uninterp spec fn aes_sealed(key: Seq<u8>, nonce: Seq<u8>, plain: Seq<u8>) -> Seq<u8>;

/// The plaintext that AES-256-GCM-SIV recovers from ciphertext-and-tag `ct` under `key` and
/// `nonce`, with empty associated data; `None` where authentication fails.
pub uninterp spec fn aes_opened(key: Seq<u8>, nonce: Seq<u8>, ct: Seq<u8>) -> Option<Seq<u8>>;

/// The mnemonic phrase (English words joined by single spaces) that encodes `entropy`.
pub uninterp spec fn mnemonic_phrase(entropy: Seq<u8>) -> Seq<char>;

/// The entropy that the mnemonic phrase `s` encodes; `None` where `s` is not a valid phrase.
pub uninterp spec fn phrase_entropy(s: Seq<char>) -> Option<Seq<u8>>;

/// Relies on x25519_dalek's `StaticSecret::from` and `StaticSecret::to_bytes`: the secret is
/// stored clamped, and handed back as such.
#[verifier::external_body]
fn clamped_secret(seed: [u8; 32]) -> (r: [u8; 32])
    ensures
        r@ == clamp(seed@),
{
    x25519_dalek::StaticSecret::from(seed).to_bytes()
}

/// Relies on x25519_dalek's `PublicKey::from(&StaticSecret)`: the public key of a secret.
#[verifier::external_body]
fn public_key_of(sk: [u8; 32]) -> (r: [u8; 32])
    ensures
        r@ == x25519_public(sk@),
{
    x25519_dalek::PublicKey::from(&x25519_dalek::StaticSecret::from(sk)).to_bytes()
}

/// Relies on x25519_dalek's `StaticSecret::diffie_hellman`: the shared secret of a secret key
/// and a public key, which both sides of an exchange compute alike (the crate's documented
/// Alice-and-Bob example).
#[verifier::external_body]
fn shared_secret(sk: [u8; 32], their: [u8; 32]) -> (r: [u8; 32])
    ensures
        r@ == x25519_shared(sk@, their@),
        forall|other: Seq<u8>|
            other.len() == 32 && their@ == #[trigger] x25519_public(other) ==> r@
                == x25519_shared(other, x25519_public(sk@)),
{
    let their = x25519_dalek::PublicKey::from(their);
    x25519_dalek::StaticSecret::from(sk).diffie_hellman(&their).to_bytes()
}

/// Relies on aes_gcm_siv's `Aes256GcmSiv::encrypt_in_place` with empty associated data: it
/// fails, leaving the buffer alone, on plaintexts over 2^36 bytes; otherwise the buffer
/// becomes the ciphertext followed by the 16-byte tag.
#[verifier::external_body]
fn aes_encrypt(key: &[u8; 32], nonce: &[u8; 12], data: &mut Vec<u8>) -> (r: Result<(), aes_gcm_siv::aead::Error>)
    ensures
        r is Ok <==> old(data)@.len() <= MAX_PLAINTEXT,
        r is Ok ==> final(data)@ == aes_sealed(key@, nonce@, old(data)@),
        r is Ok ==> final(data)@.len() == old(data)@.len() + TAG_LEN,
        r is Err ==> final(data)@ == old(data)@,
{
    let cipher = aes_gcm_siv::Aes256GcmSiv::new(&aes_gcm_siv::Key::from(*key));
    cipher.encrypt_in_place(&aes_gcm_siv::Nonce::from(*nonce), b"", data)
}

/// Relies on aes_gcm_siv's `Aes256GcmSiv::decrypt_in_place` with empty associated data: on
/// success the buffer becomes the plaintext; on failure it is left as it was (a failed tag
/// check re-encrypts it). What `aes_encrypt` sealed under the same key and nonce opens.
#[verifier::external_body]
fn aes_decrypt(key: &[u8; 32], nonce: &[u8; 12], data: &mut Vec<u8>) -> (r: Result<(), aes_gcm_siv::aead::Error>)
    ensures
        r is Ok <==> aes_opened(key@, nonce@, old(data)@) is Some,
        r is Ok ==> final(data)@ == aes_opened(key@, nonce@, old(data)@)->Some_0,
        r is Err ==> final(data)@ == old(data)@,
        forall|p: Seq<u8>|
            p.len() <= MAX_PLAINTEXT && #[trigger] aes_sealed(key@, nonce@, p) == old(data)@
                ==> r is Ok && final(data)@ == p,
{
    let cipher = aes_gcm_siv::Aes256GcmSiv::new(&aes_gcm_siv::Key::from(*key));
    cipher.decrypt_in_place(&aes_gcm_siv::Nonce::from(*nonce), b"", data)
}

/// Relies on aead's `Error`, the unit error of every AEAD failure, to report an envelope too
/// short to hold a nonce.
#[verifier::external_body]
fn aead_error() -> (r: aes_gcm_siv::aead::Error) {
    aes_gcm_siv::aead::Error
}

/// Relies on bip39's `Mnemonic::from_entropy` and its `Display`: 32 bytes of entropy always
/// make a 24-word English phrase.
#[verifier::external_body]
fn entropy_to_phrase(entropy: &[u8; 32]) -> (r: Result<String, bip39::Error>)
    ensures
        r is Ok,
        r is Ok ==> r->Ok_0@ == mnemonic_phrase(entropy@),
{
    bip39::Mnemonic::from_entropy(entropy).map(|m| m.to_string())
}

/// Relies on bip39's `Mnemonic::parse` and `Mnemonic::to_entropy`: a valid phrase gives back
/// 16 to 32 bytes of entropy, a multiple of 4, and the phrase that `entropy_to_phrase` made
/// gives back its entropy.
#[verifier::external_body]
fn phrase_to_entropy(phrase: &str) -> (r: Result<Vec<u8>, bip39::Error>)
    ensures
        r is Ok <==> phrase_entropy(phrase@) is Some,
        r is Ok ==> r->Ok_0@ == phrase_entropy(phrase@)->Some_0,
        r is Ok ==> 16 <= r->Ok_0@.len() <= 32 && r->Ok_0@.len() % 4 == 0,
        forall|e: Seq<u8>|
            e.len() == 32 && phrase@ == #[trigger] mnemonic_phrase(e) ==> r is Ok && r->Ok_0@
                == e,
{
    bip39::Mnemonic::parse(phrase).map(|m| m.to_entropy())
}

/// An envelope: the sealed `plain` followed by the nonce it was sealed under.
pub open spec fn envelope(key: Seq<u8>, nonce: Seq<u8>, plain: Seq<u8>) -> Seq<u8> {
    aes_sealed(key, nonce, plain) + nonce
}

/// What opening the envelope `env` under `key` gives: the last `NONCE_LEN` bytes are the
/// nonce, the rest is ciphertext and tag.
pub open spec fn open_envelope(key: Seq<u8>, env: Seq<u8>) -> Option<Seq<u8>> {
    if env.len() < NONCE_LEN {
        None
    } else {
        aes_opened(
            key,
            env.subrange(env.len() - NONCE_LEN, env.len() as int),
            env.subrange(0, env.len() - NONCE_LEN),
        )
    }
}

/// The outcome of sealing `before` into an envelope under `key`: it succeeds on plaintexts
/// AES-GCM-SIV takes, and `after` is then the envelope under the nonce that ends it.
pub open spec fn sealed_as(key: Seq<u8>, before: Seq<u8>, after: Seq<u8>, r: Result<(), KeyPairError>) -> bool {
    if before.len() <= MAX_PLAINTEXT {
        &&& r is Ok
        &&& after.len() == before.len() + TAG_LEN + NONCE_LEN
        &&& after == envelope(key, after.subrange(after.len() - NONCE_LEN, after.len() as int), before)
    } else {
        r matches Err(KeyPairError::AeadError(_)) && after == before
    }
}

/// The outcome of opening the envelope `before` under `key`. It succeeds exactly when the
/// envelope authenticates, and `after` is then the plaintext; on failure `after` holds no
/// plaintext, only what was left once the nonce was cut off. Any envelope sealed under
/// `key` opens to the plaintext it was sealed from.
pub open spec fn opened_as(key: Seq<u8>, before: Seq<u8>, after: Seq<u8>, r: Result<(), KeyPairError>) -> bool {
    &&& r is Ok <==> open_envelope(key, before) is Some
    &&& r is Ok ==> after == open_envelope(key, before)->Some_0
    &&& r is Err ==> (r matches Err(KeyPairError::AeadError(_))) && after == if before.len() < NONCE_LEN {
        before
    } else {
        before.subrange(0, before.len() - NONCE_LEN)
    }
    &&& forall|n: Seq<u8>, p: Seq<u8>|
        n.len() == NONCE_LEN && p.len() <= MAX_PLAINTEXT && before == #[trigger] envelope(key, n, p)
            ==> r is Ok && after == p
}

/// Seals `data` in place under `key` and `nonce`, then appends the nonce.
fn seal_envelope(key: &[u8; 32], nonce: &[u8; 12], data: &mut Vec<u8>) -> (r: Result<(), KeyPairError>)
    ensures
        old(data)@.len() <= MAX_PLAINTEXT ==> r is Ok && final(data)@ == envelope(key@, nonce@, old(data)@)
            && final(data)@.len() == old(data)@.len() + TAG_LEN + NONCE_LEN,
        old(data)@.len() > MAX_PLAINTEXT ==> (r matches Err(KeyPairError::AeadError(_)))
            && final(data)@ == old(data)@,
{
    match aes_encrypt(key, nonce, data) {
        Ok(()) => {
            data.extend_from_slice(nonce.as_slice());
            Ok(())
        },
        Err(e) => Err(KeyPairError::AeadError(e)),
    }
}

/// The outcome of restoring a key pair from the phrase `paper`: it fails on an invalid
/// phrase and on one that holds less than 32 bytes of entropy; otherwise the key pair is
/// made from that entropy and keeps it as its seed. The phrase that backs up a seed
/// restores the key pair of that seed.
pub open spec fn restored(paper: Seq<char>, r: Result<KeyPair, KeyPairError>) -> bool {
    &&& match phrase_entropy(paper) {
        None => r matches Err(KeyPairError::Bip39Error(_)),
        Some(e) => if e.len() < 32 {
            r matches Err(KeyPairError::InsufficientEntropy)
        } else {
            r matches Ok(ks) && ks.seed_bytes() == Some(e.subrange(0, 32)) && ks.made_from(
                e.subrange(0, 32),
            )
        },
    }
    &&& forall|e: Seq<u8>|
        e.len() == 32 && paper == #[trigger] mnemonic_phrase(e) ==> (r matches Ok(ks)
            && ks.seed_bytes() == Some(e) && ks.made_from(e))
}

/// The outcome `shared` of a Diffie-Hellman exchange of `ks` with the public key `their`:
/// the x25519 shared secret, which is also what any other key pair whose public key is
/// `their` gets from an exchange with the public key of `ks`.
pub open spec fn agreed(ks: KeyPair, their: Seq<u8>, shared: Seq<u8>) -> bool {
    &&& shared == x25519_shared(ks.secret(), their)
    &&& forall|other: KeyPair|
        other.wf() && #[trigger] other.public() == their ==> shared == x25519_shared(
            other.secret(),
            ks.public(),
        )
}

/// Diffie-Hellman symmetry: `a` agreeing with the public key of `b` gets the same secret as
/// `b` agreeing with the public key of `a`.
pub proof fn lemma_dh_symmetric(a: KeyPair, b: KeyPair, ab: Seq<u8>, ba: Seq<u8>)
    requires
        a.wf(),
        b.wf(),
        agreed(a, b.public(), ab),
        agreed(b, a.public(), ba),
    ensures
        ab == ba,
{
    assert(ab == x25519_shared(b.secret(), a.public()));
}

/// Round trip: an envelope sealed under a key opens under that key to the plaintext it was
/// sealed from.
pub proof fn lemma_envelope_round_trip(
    key: Seq<u8>,
    plain: Seq<u8>,
    env: Seq<u8>,
    after: Seq<u8>,
    r: Result<(), KeyPairError>,
)
    requires
        sealed_as(key, plain, env, Ok(())),
        opened_as(key, env, after, r),
    ensures
        r is Ok,
        after == plain,
{
    let n = env.subrange(env.len() - NONCE_LEN, env.len() as int);
    assert(env == envelope(key, n, plain));
}

/// Shared channel: with the secret each side derives from the other's public key, what one
/// side seals the other opens to the same plaintext, in either direction.
pub proof fn lemma_shared_channel(
    a: KeyPair,
    b: KeyPair,
    ab: Seq<u8>,
    ba: Seq<u8>,
    plain: Seq<u8>,
    env: Seq<u8>,
    after: Seq<u8>,
    r: Result<(), KeyPairError>,
)
    requires
        a.wf(),
        b.wf(),
        agreed(a, b.public(), ab),
        agreed(b, a.public(), ba),
        sealed_as(ab, plain, env, Ok(())) && opened_as(ba, env, after, r) || sealed_as(
            ba,
            plain,
            env,
            Ok(()),
        ) && opened_as(ab, env, after, r),
    ensures
        r is Ok,
        after == plain,
{
    lemma_dh_symmetric(a, b, ab, ba);
    lemma_envelope_round_trip(ab, plain, env, after, r);
}

/// Backup and restore: the phrase that backs up a key pair's own seed restores a key pair
/// with the same public key (and the same secret key and seed).
pub proof fn lemma_backup_restore(
    ks: KeyPair,
    backup: Result<String, KeyPairError>,
    restore: Result<KeyPair, KeyPairError>,
)
    requires
        ks.wf(),
        ks.seed_bytes() is Some,
        backed_up(ks, None, backup),
        backup is Ok,
        restored(backup->Ok_0@, restore),
    ensures
        restore is Ok,
        restore->Ok_0.public() == ks.public(),
        restore->Ok_0.secret() == ks.secret(),
        restore->Ok_0.seed_bytes() == ks.seed_bytes(),
{
    let s = ks.seed_bytes()->Some_0;
    assert(s.len() == 32);
}

/// The outcome of backing up `ks`, given `seed` for the case where it holds none: the
/// mnemonic phrase of its own seed, else of `seed`; `EmptySeed` where neither is there.
pub open spec fn backed_up(ks: KeyPair, seed: Option<[u8; 32]>, r: Result<String, KeyPairError>) -> bool {
    match (ks.seed_bytes(), seed) {
        (Some(s), _) => r is Ok && r->Ok_0@ == mnemonic_phrase(s),
        (None, Some(s)) => r is Ok && r->Ok_0@ == mnemonic_phrase(s@),
        (None, None) => r matches Err(KeyPairError::EmptySeed),
    }
}

/// Relies on zeroize's `Zeroize` for `Option`: the held value is overwritten with zeros and
/// the option left as `None`.
#[verifier::external_body]
fn wipe_seed(seed: &mut Option<[u8; 32]>)
    ensures
        *final(seed) is None,
    opens_invariants none
    no_unwind
{
    zeroize::Zeroize::zeroize(seed)
}

/// KeyPair (public key, secret key) which holds the seed used to generate the secret key.
pub struct KeyPair {
    pk: [u8; 32],
    sk: SafeArray<32>,
    seed: Option<[u8; 32]>,
}

impl KeyPair {
    /// The public key belongs to the secret key, which is clamped, and derives from the seed
    /// where there is one.
    pub closed spec fn wf(&self) -> bool {
        &&& self.pk@ == x25519_public(self.sk@)
        &&& self.sk@.len() == 32
        &&& clamp(self.sk@) == self.sk@
        &&& self.seed matches Some(s) ==> self.sk@ == clamp(s@)
    }

    pub closed spec fn public(&self) -> Seq<u8> {
        self.pk@
    }

    pub closed spec fn secret(&self) -> Seq<u8> {
        self.sk@
    }

    pub closed spec fn seed_bytes(&self) -> Option<Seq<u8>> {
        match self.seed {
            Some(s) => Some(s@),
            None => None,
        }
    }

    /// The key pair that the 32 bytes `s` make.
    pub open spec fn made_from(&self, s: Seq<u8>) -> bool {
        &&& self.wf()
        &&& self.secret() == clamp(s)
        &&& self.public() == x25519_public(clamp(s))
    }

    proof fn lemma_clamp_idempotent(b: Seq<u8>)
        requires
            b.len() == 32,
        ensures
            clamp(clamp(b)) == clamp(b),
    {
        let c = clamp(b);
        assert(forall|x: u8| #[trigger] (x & 248u8) & 248u8 == x & 248u8) by (bit_vector);
        assert(forall|x: u8| #[trigger] (((x & 127u8) | 64u8) & 127u8) | 64u8 == (x & 127u8) | 64u8)
            by (bit_vector);
        assert(clamp(c) =~= c);
    }

    fn from_parts(sk: [u8; 32], seed: Option<[u8; 32]>) -> (r: Self)
        requires
            seed matches Some(s) ==> s@ == sk@,
        ensures
            r.made_from(sk@),
            r.seed_bytes() == (match seed {
                Some(s) => Some(s@),
                None => None,
            }),
    {
        let clamped = clamped_secret(sk);
        let pk = public_key_of(clamped);
        proof {
            Self::lemma_clamp_idempotent(sk@);
        }
        KeyPair { pk, sk: SafeArray::new(clamped), seed }
    }

    /// Create a new `KeyPair` from a fresh random seed, which it keeps.
    pub fn new() -> (r: Self)
        ensures
            r.seed_bytes() matches Some(s) && r.made_from(s),
    {
        let mut seed: [u8; 32] = random_array();
        let ks = Self::from_parts(seed, Some(seed));
        wipe(&mut seed);
        ks
    }

    /// Init the `KeyPair` with existing secret key bytes. The created `KeyPair` holds no seed.
    pub fn init(secret_key: [u8; 32]) -> (r: Self)
        ensures
            r.made_from(secret_key@),
            r.seed_bytes() is None,
    {
        let mut secret_key = secret_key;
        let ks = Self::from_parts(secret_key, None);
        wipe(&mut secret_key);
        ks
    }

    pub fn public_key(&self) -> (r: [u8; 32])
        ensures
            r@ == self.public(),
    {
        self.pk
    }

    pub fn secret_key(&self) -> (r: [u8; 32])
        ensures
            r@ == self.secret(),
    {
        *self.sk.array()
    }

    /// The seed, for a `KeyPair` that was generated or restored.
    pub fn seed(&self) -> (r: Option<[u8; 32]>)
        ensures
            r matches Some(s) ==> self.seed_bytes() == Some(s@),
            r is None <==> self.seed_bytes() is None,
    {
        self.seed
    }

    /// The mnemonic backup of this key pair's seed or, where it holds none, of `seed`.
    pub fn backup(&self, seed: Option<[u8; 32]>) -> (r: Result<String, KeyPairError>)
        ensures
            backed_up(*self, seed, r),
    {
        let seed = match self.seed {
            Some(s) => s,
            None => match seed {
                Some(s) => s,
                None => return Err(KeyPairError::EmptySeed),
            },
        };
        match entropy_to_phrase(&seed) {
            Ok(p) => Ok(p),
            Err(e) => Err(KeyPairError::Bip39Error(e)),
        }
    }

    /// Restore a `KeyPair` from a mnemonic paper backup; it keeps the seed.
    pub fn restore(paper_key: String) -> (r: Result<Self, KeyPairError>)
        ensures
            restored(paper_key@, r),
    {
        let entropy = match phrase_to_entropy(paper_key.as_str()) {
            Ok(e) => e,
            Err(e) => return Err(KeyPairError::Bip39Error(e)),
        };
        let seed = match SafeArray::<32>::from_mnemonic(entropy.as_slice()) {
            Ok(s) => s,
            Err(_) => return Err(KeyPairError::InsufficientEntropy),
        };
        let mut bytes = *seed.array();
        let ks = Self::from_parts(bytes, Some(bytes));
        wipe(&mut bytes);
        proof {
            assert(entropy@.subrange(0, 32) =~= entropy@);
        }
        Ok(ks)
    }

    /// Perform a Diffie-Hellman exchange to derive the shared secret. The other party gets
    /// the same secret when it agrees with this key pair's public key.
    pub fn dh(&self, their_public: [u8; 32]) -> (r: [u8; 32])
        requires
            self.wf(),
        ensures
            agreed(*self, their_public@, r@),
    {
        let r = shared_secret(*self.sk.array(), their_public);
        assert forall|other: KeyPair|
            other.wf() && #[trigger] other.public() == their_public@ implies r@ == x25519_shared(
                other.secret(),
                self.public(),
            ) by {
            assert(their_public@ == x25519_public(other.secret()));
        }
        r
    }

    /// Encrypts `data` in place with this key pair's own secret key as the symmetric key.
    pub fn encrypt(&self, data: &mut Vec<u8>) -> (r: Result<(), KeyPairError>)
        ensures
            sealed_as(self.secret(), old(data)@, final(data)@, r),
    {
        let sk = self.secret_key();
        self.encrypt_with(sk, data)
    }

    /// Decrypts in place an envelope made by `encrypt`.
    pub fn decrypt(&self, data: &mut Vec<u8>) -> (r: Result<(), KeyPairError>)
        ensures
            opened_as(self.secret(), old(data)@, final(data)@, r),
    {
        let sk = self.secret_key();
        self.decrypt_with(sk, data)
    }

    /// Encrypts `data` in place under the symmetric key `sk`, with a fresh random nonce that
    /// is appended to the ciphertext and tag.
    pub fn encrypt_with(&self, sk: [u8; 32], data: &mut Vec<u8>) -> (r: Result<(), KeyPairError>)
        ensures
            sealed_as(sk@, old(data)@, final(data)@, r),
    {
        let mut sk = sk;
        let nonce: [u8; 12] = random_array();
        let r = seal_envelope(&sk, &nonce, data);
        proof {
            if old(data)@.len() <= MAX_PLAINTEXT {
                let after = data@;
                assert(after.subrange(after.len() - NONCE_LEN, after.len() as int) =~= nonce@);
            }
        }
        wipe(&mut sk);
        r
    }

    /// Decrypts in place an envelope made under the symmetric key `sk`: the last
    /// `NONCE_LEN` bytes are taken as the nonce and cut off, then the rest is opened.
    pub fn decrypt_with(&self, sk: [u8; 32], data: &mut Vec<u8>) -> (r: Result<(), KeyPairError>)
        ensures
            opened_as(sk@, old(data)@, final(data)@, r),
    {
        let mut sk = sk;
        if data.len() < NONCE_LEN {
            wipe(&mut sk);
            return Err(KeyPairError::AeadError(aead_error()));
        }
        let ghost env = data@;
        assert(env.len() == data.len());
        let cut = data.len() - NONCE_LEN;
        let mut nonce = [0u8; NONCE_LEN];
        let mut i: usize = 0;
        while i < NONCE_LEN
            invariant
                data@ == env,
                NONCE_LEN <= env.len() <= usize::MAX,
                cut == env.len() - NONCE_LEN,
                i <= NONCE_LEN,
                nonce@.len() == NONCE_LEN,
                forall|k: int| 0 <= k < i ==> nonce@[k] == env[cut + k],
            decreases NONCE_LEN - i,
        {
            nonce[i] = data[cut + i];
            i += 1;
        }
        assert(nonce@ =~= env.subrange(cut as int, env.len() as int));
        // remove the nonce, we got it now.
        data.truncate(cut);
        assert(data@ =~= env.subrange(0, cut as int));
        let r = match aes_decrypt(&sk, &nonce, data) {
            Ok(()) => Ok(()),
            Err(e) => Err(KeyPairError::AeadError(e)),
        };
        proof {
            assert forall|n: Seq<u8>, p: Seq<u8>|
                n.len() == NONCE_LEN && p.len() <= MAX_PLAINTEXT && env == #[trigger] envelope(
                    sk@,
                    n,
                    p,
                ) implies r is Ok && data@ == p by {
                let c = aes_sealed(sk@, n, p);
                assert(env.subrange(cut as int, env.len() as int) =~= n);
                assert(env.subrange(0, cut as int) =~= c);
            }
        }
        wipe(&mut sk);
        r
    }
}

impl Default for KeyPair {
    fn default() -> (r: Self)
        ensures
            r.seed_bytes() matches Some(s) && r.made_from(s),
    {
        Self::new()
    }
}

impl Drop for KeyPair {
    fn drop(&mut self)
        ensures
            final(self).seed_bytes() is None,
        opens_invariants none
        no_unwind
    {
        wipe_seed(&mut self.seed);
    }
}

impl From<[u8; 32]> for KeyPair {
    fn from(sk: [u8; 32]) -> (r: Self)
        ensures
            r.made_from(sk@),
            r.seed_bytes() is None,
    {
        let mut sk = sk;
        let ks = Self::init(sk);
        wipe(&mut sk);
        ks
    }
}

impl vstd::std_specs::convert::FromSpecImpl<[u8; 32]> for KeyPair {
    open spec fn obeys_from_spec() -> bool {
        false
    }

    open spec fn from_spec(v: [u8; 32]) -> KeyPair {
        vstd::pervasive::arbitrary()
    }
}

impl TryFrom<String> for KeyPair {
    type Error = KeyPairError;

    fn try_from(paper_key: String) -> (r: Result<Self, Self::Error>)
        ensures
            restored(paper_key@, r),
    {
        Self::restore(paper_key)
    }
}

impl vstd::std_specs::convert::TryFromSpecImpl<String> for KeyPair {
    open spec fn obeys_try_from_spec() -> bool {
        false
    }

    open spec fn try_from_spec(v: String) -> Result<KeyPair, KeyPairError> {
        vstd::pervasive::arbitrary()
    }
}

} // verus!
