//! A Fiat-Shamir transcript: messages are absorbed into a running Keccak-256
//! computation, and every challenge is the digest of what was absorbed since
//! the previous challenge, which it then replaces.

use vstd::prelude::*;

verus! {

/// A running Keccak-256 computation of the `sha3` crate. Nothing of its state
/// is visible but what it has absorbed, named by [`absorbed`].
#[verifier::external_body]
pub struct Keccak256Hasher {
    inner: sha3::Keccak256,
}

/// The Keccak-256 digest of `message`, as the `sha3` crate computes it.
pub uninterp spec fn keccak256(message: Seq<u8>) -> Seq<u8>;

/// The bytes that `hasher` has absorbed since it was created or last reset.
pub uninterp spec fn absorbed(hasher: Keccak256Hasher) -> Seq<u8>;

/// `sha3::Digest::new` for `Keccak256`: a computation that has absorbed
/// nothing.
#[verifier::external_body]
fn hasher_new() -> (hasher: Keccak256Hasher)
    ensures
        absorbed(hasher) == Seq::<u8>::empty(),
{
    Keccak256Hasher { inner: <sha3::Keccak256 as sha3::Digest>::new() }
}

/// `sha3::Digest::update`: the computation absorbs `data` after what it had
/// absorbed before.
#[verifier::external_body]
fn hasher_update(hasher: &mut Keccak256Hasher, data: &[u8])
    ensures
        absorbed(*final(hasher)) == absorbed(*old(hasher)) + data@,
{
    sha3::Digest::update(&mut hasher.inner, data)
}

/// `sha3::Digest::finalize_reset`: returns the digest of what the
/// computation had absorbed and leaves it as if newly created.
#[verifier::external_body]
fn hasher_finalize_reset(hasher: &mut Keccak256Hasher) -> (digest: [u8; 32])
    ensures
        digest@ == keccak256(absorbed(*old(hasher))),
        absorbed(*final(hasher)) == Seq::<u8>::empty(),
{
    sha3::Digest::finalize_reset(&mut hasher.inner).into()
}

/// `Clone::clone` of `sha3::Keccak256`: a second computation that has
/// absorbed what the first has.
#[verifier::external_body]
fn hasher_clone(hasher: &Keccak256Hasher) -> (copy: Keccak256Hasher)
    ensures
        absorbed(copy) == absorbed(*hasher),
{
    Keccak256Hasher { inner: hasher.inner.clone() }
}

/// What a transcript in state `state` holds after `times` challenges: each
/// challenge replaces the state by its digest.
pub open spec fn state_after(state: Seq<u8>, times: nat) -> Seq<u8>
    decreases times,
{
    if times == 0 {
        state
    } else {
        keccak256(state_after(state, (times - 1) as nat))
    }
}

pub struct FiatShamirTranscript {
    hasher: Keccak256Hasher,
}

impl Clone for FiatShamirTranscript {
    fn clone(&self) -> (copy: Self)
        ensures
            copy@ == self@,
    {
        FiatShamirTranscript { hasher: hasher_clone(&self.hasher) }
    }
}

impl Default for FiatShamirTranscript {
    /// A transcript that has absorbed nothing.
    fn default() -> (transcript: Self)
        ensures
            transcript@ == Seq::<u8>::empty(),
    {
        FiatShamirTranscript { hasher: hasher_new() }
    }
}

impl View for FiatShamirTranscript {
    type V = Seq<u8>;

    /// The bytes that the next challenge will be the digest of.
    closed spec fn view(&self) -> Seq<u8> {
        absorbed(self.hasher)
    }
}

impl FiatShamirTranscript {
    /// A transcript that has absorbed `msg`.
    pub fn new(msg: Vec<u8>) -> (transcript: Self)
        ensures
            transcript@ == msg@,
    {
        let mut response = FiatShamirTranscript { hasher: hasher_new() };
        response.append(msg);
        response
    }

    /// Absorbs `msg` after what the transcript holds.
    pub fn append(&mut self, msg: Vec<u8>)
        ensures
            final(self)@ == old(self)@ + msg@,
    {
        hasher_update(&mut self.hasher, msg.as_slice());
    }

    /// The next challenge: the digest of what the transcript holds. The
    /// transcript then holds the challenge alone.
    pub fn sample(&mut self) -> (challenge: [u8; 32])
        ensures
            challenge@ == keccak256(old(self)@),
            final(self)@ == challenge@,
    {
        let response = hasher_finalize_reset(&mut self.hasher);
        hasher_update(&mut self.hasher, response.as_slice());
        response
    }

    /// The next `n` challenges, in the order in which they are drawn.
    pub fn sample_n(&mut self, n: usize) -> (challenges: Vec<[u8; 32]>)
        ensures
            challenges@.len() == n,
            forall|i: int|
                0 <= i < n ==> (#[trigger] challenges@[i])@ == state_after(old(self)@, (i + 1) as nat),
            final(self)@ == state_after(old(self)@, n as nat),
    {
        let mut response: Vec<[u8; 32]> = Vec::new();
        let mut drawn: usize = 0;
        while drawn < n
            invariant
                drawn <= n,
                response@.len() == drawn,
                forall|i: int|
                    0 <= i < drawn ==> (#[trigger] response@[i])@ == state_after(
                        old(self)@,
                        (i + 1) as nat,
                    ),
                self@ == state_after(old(self)@, drawn as nat),
            decreases n - drawn,
        {
            let challenge = self.sample();
            response.push(challenge);
            drawn = drawn + 1;
        }
        response
    }
}

} // verus!
