//! A fixed-size container for secret bytes.
use vstd::prelude::*;

verus! {

/// The entropy handed in was shorter than the container.
#[derive(Debug)]
pub struct InsufficientEntropy;

/// The bytes handed in were not exactly as long as the container.
#[derive(Debug)]
pub struct SizeMismatch;

/// What a STROBE-128 instance under protocol label `label` squeezes out as `len` bytes of
/// PRF output after absorbing `input` as associated data.
pub uninterp spec fn strobe_output(label: Seq<char>, input: Seq<u8>, len: nat) -> Seq<u8>;

/// Relies on strobe_rs (`Strobe::new` with `SecParam::B128`, `ad`, `prf`): the output is
/// a function of the label, the input and the output length.
#[verifier::external_body]
fn strobe_prf<const N: usize>(label: &str, input: &[u8]) -> (r: [u8; N])
    ensures
        r@ == strobe_output(label@, input@, N as nat),
{
    let mut s = strobe_rs::Strobe::new(label.as_bytes(), strobe_rs::SecParam::B128);
    s.ad(input, false);
    let mut r = [0u8; N];
    s.prf(&mut r, false);
    r
}

/// Relies on rand's `OsRng` (`RngCore::fill_bytes`): bytes from the operating system's
/// secure source. Nothing is promised of their values.
#[verifier::external_body]
pub(crate) fn random_array<const N: usize>() -> (r: [u8; N]) {
    let mut r = [0u8; N];
    rand::RngCore::fill_bytes(&mut rand::rngs::OsRng, &mut r);
    r
}

/// Relies on subtle's `ConstantTimeEq` for byte slices: true exactly when the two are
/// equal, in time independent of where they first differ.
#[verifier::external_body]
fn ct_equal(a: &[u8], b: &[u8]) -> (r: bool)
    ensures
        r == (a@ == b@),
{
    subtle::ConstantTimeEq::ct_eq(a, b).into()
}

/// Relies on zeroize's `Zeroize` for byte arrays: every byte is overwritten with zero by
/// writes the compiler does not remove.
#[verifier::external_body]
pub(crate) fn wipe<const N: usize>(a: &mut [u8; N])
    ensures
        final(a)@ == Seq::new(N as nat, |i: int| 0u8),
    opens_invariants none
    no_unwind
{
    zeroize::Zeroize::zeroize(a)
}

/// Relies on parity_scale_codec's `Encode` for byte arrays: the bytes themselves, with no
/// length prefix.
#[verifier::external_body]
fn scale_encode<const N: usize>(a: &[u8; N]) -> (r: Vec<u8>)
    ensures
        r@ == a@,
{
    parity_scale_codec::Encode::encode(a)
}

#[verifier::external_type_specification]
#[verifier::external_body]
pub struct ExCodecError(parity_scale_codec::Error);

/// Relies on parity_scale_codec's `Input::read` for byte slices: it fails when fewer bytes
/// remain than asked for, and otherwise hands out the first ones.
#[verifier::external_body]
fn scale_read<const N: usize>(input: &[u8]) -> (r: Result<[u8; N], parity_scale_codec::Error>)
    ensures
        r is Ok <==> N <= input@.len(),
        r matches Ok(a) ==> a@ == input@.subrange(0, N as int),
{
    let mut a = [0u8; N];
    let mut rest = input;
    parity_scale_codec::Input::read(&mut rest, &mut a).map(|_| a)
}

/// A wrapper around a fixed-size byte array providing cryptographic functions.
///
/// Safe to use for secrets: it is zeroized on drop, and comparisons happen in constant time.
pub struct SafeArray<const N: usize>([u8; N]);

impl<const N: usize> View for SafeArray<N> {
    type V = Seq<u8>;

    closed spec fn view(&self) -> Seq<u8> {
        self.0@
    }
}

impl<const N: usize> Drop for SafeArray<N> {
    fn drop(&mut self)
        ensures
            final(self)@ == Seq::new(N as nat, |i: int| 0u8),
        opens_invariants none
        no_unwind
    {
        wipe(&mut self.0);
    }
}

impl<const N: usize> PartialEq for SafeArray<N> {
    fn eq(&self, other: &Self) -> (r: bool) {
        ct_equal(self.0.as_slice(), other.0.as_slice())
    }
}

impl<const N: usize> vstd::std_specs::cmp::PartialEqSpecImpl for SafeArray<N> {
    open spec fn obeys_eq_spec() -> bool {
        true
    }

    open spec fn eq_spec(&self, other: &SafeArray<N>) -> bool {
        self@ == other@
    }
}

impl<const N: usize> Eq for SafeArray<N> {
}

impl<const N: usize> SafeArray<N> {
    pub fn new(data: [u8; N]) -> (r: Self)
        ensures
            r@ == data@,
    {
        SafeArray(data)
    }

    /// A container filled from the operating system's secure random source.
    pub fn random() -> (r: Self)
        ensures
            r@.len() == N,
    {
        SafeArray(random_array())
    }

    pub fn from_slice(bytes: &[u8]) -> (r: Result<Self, SizeMismatch>)
        ensures
            r is Ok <==> bytes@.len() == N,
            r matches Ok(a) ==> a@ == bytes@,
    {
        if bytes.len() != N {
            return Err(SizeMismatch);
        }
        let mut ab = SafeArray([0u8; N]);
        ab.copy_from_slice(bytes);
        Ok(ab)
    }

    /// The first `N` bytes of a mnemonic's entropy.
    pub fn from_mnemonic(entropy: &[u8]) -> (r: Result<Self, InsufficientEntropy>)
        ensures
            r is Ok <==> N <= entropy@.len(),
            r matches Ok(a) ==> a@ == entropy@.subrange(0, N as int),
    {
        let mut res = SafeArray([0u8; N]);
        if entropy.len() < res.size() {
            return Err(InsufficientEntropy);
        }
        let n = res.size();
        res.copy_from_slice(slice_prefix(entropy, n));
        Ok(res)
    }

    pub fn copy_from_slice(&mut self, slice: &[u8])
        requires
            slice@.len() == N,
        ensures
            final(self)@ == slice@,
    {
        let mut i: usize = 0;
        while i < N
            invariant
                slice@.len() == N,
                i <= N,
                self.0@.len() == N,
                forall|k: int| 0 <= k < i ==> self.0@[k] == slice@[k],
            decreases N - i,
        {
            self.0[i] = slice[i];
            i += 1;
        }
        assert(self.0@ =~= slice@);
    }

    pub fn size(&self) -> (r: usize)
        ensures
            r == N,
    {
        N
    }

    pub fn xor(&self, other: &Self) -> (r: Self)
        ensures
            r@ == Seq::new(N as nat, |i: int| self@[i] ^ other@[i]),
    {
        let mut res = SafeArray([0u8; N]);
        let mut i: usize = 0;
        while i < res.size()
            invariant
                i <= N,
                res.0@.len() == N,
                self.0@.len() == N,
                other.0@.len() == N,
                forall|k: int| 0 <= k < i ==> res.0@[k] == self.0@[k] ^ other.0@[k],
            decreases N - i,
        {
            let x = self.0[i] ^ other.0[i];
            res.0[i] = x;
            i += 1;
        }
        assert(res@ =~= Seq::new(N as nat, |i: int| self@[i] ^ other@[i]));
        res
    }

    /// Derives a key from a password, under the label `DiscoKDF`.
    pub fn kdf(input: &str) -> (r: Self)
        ensures
            r@ == strobe_output("DiscoKDF"@, vstd::utf8::encode_utf8(input@), N as nat),
    {
        SafeArray(strobe_prf("DiscoKDF", input.as_bytes()))
    }

    /// Hashes content, under the label `DiscoHash`.
    pub fn hash(input: &[u8]) -> (r: Self)
        ensures
            r@ == strobe_output("DiscoHash"@, input@, N as nat),
    {
        SafeArray(strobe_prf("DiscoHash", input))
    }

    pub fn array(&self) -> (r: &[u8; N])
        ensures
            r@ == self@,
    {
        &self.0
    }

    pub fn to_vec(&self) -> (r: Vec<u8>)
        ensures
            r@ == self@,
    {
        vstd::slice::slice_to_vec(self.0.as_slice())
    }

    /// The fixed-width encoding: the `N` bytes as they are.
    pub fn encode(&self) -> (r: Vec<u8>)
        ensures
            r@ == self@,
    {
        scale_encode(&self.0)
    }

    pub fn decode(bytes: &[u8]) -> (r: Result<Self, SizeMismatch>)
        ensures
            r is Ok <==> bytes@.len() == N,
            r matches Ok(a) ==> a@ == bytes@,
    {
        if bytes.len() != N {
            return Err(SizeMismatch);
        }
        match scale_read(bytes) {
            Ok(a) => {
                assert(bytes@.subrange(0, N as int) =~= bytes@);
                Ok(SafeArray(a))
            },
            Err(_) => Err(SizeMismatch),
        }
    }
}

/// The first `n` elements of `s`.
fn slice_prefix(s: &[u8], n: usize) -> (r: &[u8])
    requires
        n <= s@.len(),
    ensures
        r@ == s@.subrange(0, n as int),
{
    vstd::slice::slice_subrange(s, 0, n)
}

} // verus!
