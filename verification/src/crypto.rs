//! Cryptographic state boundaries for carrier attachment.
use vstd::prelude::*;
use ring::hmac;
use crate::bytes::{be64, push_all, push_u64, read_array32};
use crate::protocol::{AttachmentId, Epoch, NegotiatedParameters, SessionId};

verus! {

pub const ATTACHMENT_PROOF_BYTES: usize = 32;

/// Messages and keys below this length never make HMAC-SHA-256 fail.
pub open spec fn hmac_input_bound() -> nat {
    0x1000_0000_0000_0000
}

/// The HMAC-SHA-256 tag of `data` under `key`, as `ring::hmac` computes it.
pub uninterp spec fn hmac_sha256_tag(key: Seq<u8>, data: Seq<u8>) -> Seq<u8>;

/// HMAC-SHA-256 of `data` under the key bytes `key_value`.
///
/// Builds a `ring::hmac::Key` for `HMAC_SHA256` from the key bytes and calls
/// `ring::hmac::sign`. The tag is a function of the key bytes and the data
/// alone, and is 32 bytes long (the SHA-256 output length). Both calls fail
/// only for inputs longer than the digest can count, which `requires` rules out.
#[verifier::external_body]
fn hmac_sha256(key_value: &[u8], data: &[u8]) -> (tag: Vec<u8>)
    requires
        key_value@.len() < hmac_input_bound(),
        data@.len() < hmac_input_bound(),
    ensures
        tag@ == hmac_sha256_tag(key_value@, data@),
        tag@.len() == 32,
{
    hmac::sign(&hmac::Key::new(hmac::HMAC_SHA256, key_value), data).as_ref().to_vec()
}

/// Checks a tag in constant time.
///
/// Builds a `ring::hmac::Key` for `HMAC_SHA256` from the key bytes and calls
/// `ring::hmac::verify`, which recomputes the HMAC of `data` and succeeds
/// exactly when it equals `tag`.
#[verifier::external_body]
fn hmac_sha256_verify(key_value: &[u8], data: &[u8], tag: &[u8]) -> (valid: bool)
    requires
        key_value@.len() < hmac_input_bound(),
        data@.len() < hmac_input_bound(),
    ensures
        valid == (tag@ == hmac_sha256_tag(key_value@, data@)),
{
    hmac::verify(&hmac::Key::new(hmac::HMAC_SHA256, key_value), data, tag).is_ok()
}

/// A proof that binds a carrier to a session, epoch, attachment attempt and
/// negotiation.
#[derive(Clone, Copy, Debug, PartialEq, Eq)]
pub struct AttachmentProof([u8; 32]);

impl View for AttachmentProof {
    type V = Seq<u8>;

    closed spec fn view(&self) -> Seq<u8> {
        self.0@
    }
}

impl AttachmentProof {
    pub fn from_bytes(bytes: [u8; 32]) -> (proof: Self)
        ensures
            proof@ == bytes@,
    {
        AttachmentProof(bytes)
    }

    pub fn bytes(self) -> (bytes: [u8; 32])
        ensures
            bytes@ == self@,
    {
        self.0
    }
}

#[derive(Clone, Copy, Debug, PartialEq, Eq, Structural)]
pub enum AttachmentAuthenticationError {
    EmptySecret,
    InvalidProof,
}

/// The label from which the attachment key is derived.
pub open spec fn key_label() -> Seq<u8> {
    seq![
        118u8, 101, 108, 117, 109, 32, 118, 48, 32, 97, 116, 116, 97, 99, 104, 109, 101, 110,
        116, 32, 107, 101, 121,
    ]
}

/// The label that starts every attachment context.
pub open spec fn context_label() -> Seq<u8> {
    seq![
        118u8, 101, 108, 117, 109, 32, 118, 48, 32, 99, 97, 114, 114, 105, 101, 114, 32, 97, 116,
        116, 97, 99, 104, 109, 101, 110, 116,
    ]
}

fn push_key_label(out: &mut Vec<u8>)
    ensures
        final(out)@ == old(out)@ + key_label(),
{
    let label: [u8; 23] = [
        118, 101, 108, 117, 109, 32, 118, 48, 32, 97, 116, 116, 97, 99, 104, 109, 101, 110, 116,
        32, 107, 101, 121,
    ];
    push_all(out, &label);
    assert(final(out)@ =~= old(out)@ + key_label());
}

fn push_context_label(out: &mut Vec<u8>)
    ensures
        final(out)@ == old(out)@ + context_label(),
{
    let label: [u8; 27] = [
        118, 101, 108, 117, 109, 32, 118, 48, 32, 99, 97, 114, 114, 105, 101, 114, 32, 97, 116,
        116, 97, 99, 104, 109, 101, 110, 116,
    ];
    push_all(out, &label);
    assert(final(out)@ =~= old(out)@ + context_label());
}

/// The transcript a proof covers: label, session, epoch, attachment
/// identifier and canonical negotiated parameters.
pub open spec fn spec_attachment_context(
    session: SessionId,
    epoch: Epoch,
    attachment_id: AttachmentId,
    parameters: NegotiatedParameters,
) -> Seq<u8> {
    context_label() + session.0@ + be64(epoch.0) + attachment_id@ + parameters.spec_canonical()
}

fn attachment_context(
    session: SessionId,
    epoch: Epoch,
    attachment_id: AttachmentId,
    parameters: NegotiatedParameters,
) -> (context: Vec<u8>)
    ensures
        context@ == spec_attachment_context(session, epoch, attachment_id, parameters),
        context@.len() == 27 + 16 + 8 + 16 + 42,
{
    let mut context: Vec<u8> = Vec::new();
    push_context_label(&mut context);
    push_all(&mut context, &session.0);
    push_u64(&mut context, epoch.0);
    let id = attachment_id.bytes();
    push_all(&mut context, &id);
    let canonical = parameters.canonical_bytes();
    push_all(&mut context, &canonical);
    assert(context@ =~= spec_attachment_context(session, epoch, attachment_id, parameters));
    context
}

/// Creates and verifies proofs that bind a carrier to one logical session,
/// epoch, and authenticated negotiation transcript.
///
/// The constructor takes a session-specific authentication secret. Its caller
/// owns initial authentication and secret rotation; this type derives a
/// domain-separated key only for attachment proofs.
pub struct AttachmentAuthenticator {
    key: Vec<u8>,
}

impl AttachmentAuthenticator {
    /// The derived attachment key.
    pub closed spec fn spec_key(&self) -> Seq<u8> {
        self.key@
    }

    /// Derives the attachment key from a non-empty secret.
    pub fn new(secret: &[u8]) -> (authenticator: Result<Self, AttachmentAuthenticationError>)
        requires
            secret@.len() < hmac_input_bound(),
        ensures
            authenticator is Ok <==> secret@.len() > 0,
            authenticator matches Ok(a) ==> a.spec_key() == hmac_sha256_tag(secret@, key_label()),
            authenticator matches Err(e) ==> e == AttachmentAuthenticationError::EmptySecret,
    {
        if secret.len() == 0 {
            return Err(AttachmentAuthenticationError::EmptySecret);
        }
        let mut label: Vec<u8> = Vec::new();
        push_key_label(&mut label);
        let key = hmac_sha256(secret, label.as_slice());
        Ok(AttachmentAuthenticator { key })
    }

    /// The proof for one attachment attempt.
    pub fn prove(
        &self,
        session: SessionId,
        epoch: Epoch,
        attachment_id: AttachmentId,
        parameters: NegotiatedParameters,
    ) -> (proof: AttachmentProof)
        requires
            self.spec_key().len() < hmac_input_bound(),
        ensures
            proof@ == hmac_sha256_tag(
                self.spec_key(),
                spec_attachment_context(session, epoch, attachment_id, parameters),
            ),
    {
        let context = attachment_context(session, epoch, attachment_id, parameters);
        let tag = hmac_sha256(self.key.as_slice(), context.as_slice());
        let bytes = read_array32(tag.as_slice(), 0);
        assert(tag@.subrange(0, 32) =~= tag@);
        AttachmentProof(bytes)
    }

    /// Accepts a proof exactly when it is the proof for these inputs.
    pub fn verify(
        &self,
        session: SessionId,
        epoch: Epoch,
        attachment_id: AttachmentId,
        parameters: NegotiatedParameters,
        proof: AttachmentProof,
    ) -> (verified: Result<(), AttachmentAuthenticationError>)
        requires
            self.spec_key().len() < hmac_input_bound(),
        ensures
            verified is Ok <==> proof@ == hmac_sha256_tag(
                self.spec_key(),
                spec_attachment_context(session, epoch, attachment_id, parameters),
            ),
            verified matches Err(e) ==> e == AttachmentAuthenticationError::InvalidProof,
    {
        let context = attachment_context(session, epoch, attachment_id, parameters);
        if hmac_sha256_verify(self.key.as_slice(), context.as_slice(), &proof.0) {
            Ok(())
        } else {
            Err(AttachmentAuthenticationError::InvalidProof)
        }
    }
}

/// Records the most recent accepted epoch.
#[derive(Clone, Copy, Debug, Default, PartialEq, Eq, Structural)]
pub struct ReplayWindow(Option<Epoch>);

impl ReplayWindow {
    /// The latest accepted epoch, if any.
    pub closed spec fn spec_latest(&self) -> Option<u64> {
        match self.0 {
            Some(e) => Some(e.0),
            None => None,
        }
    }

    pub open spec fn spec_accepts(&self, epoch: u64) -> bool {
        match self.spec_latest() {
            None => true,
            Some(latest) => epoch > latest,
        }
    }

    /// An empty window that accepts any epoch.
    pub fn new() -> (window: Self)
        ensures
            window.spec_latest() is None,
    {
        ReplayWindow(None)
    }

    pub fn is_empty(&self) -> (empty: bool)
        ensures
            empty == self.spec_latest() is None,
    {
        self.0.is_none()
    }

    /// Whether `epoch` is newer than every accepted epoch.
    pub fn accepts(&self, epoch: Epoch) -> (accepted: bool)
        ensures
            accepted == self.spec_accepts(epoch.0),
    {
        match self.0 {
            None => true,
            Some(latest) => epoch.0 > latest.0,
        }
    }

    /// Accepts a strictly newer epoch and records it; an older or repeated
    /// epoch is refused and changes nothing.
    pub fn accept(&mut self, epoch: Epoch) -> (accepted: bool)
        ensures
            accepted == old(self).spec_accepts(epoch.0),
            accepted ==> final(self).spec_latest() == Some(epoch.0),
            !accepted ==> final(self).spec_latest() == old(self).spec_latest(),
    {
        if !self.accepts(epoch) {
            return false;
        }
        self.0 = Some(epoch);
        true
    }
}

/// An accepted epoch can never be accepted again, nor any older one.
pub proof fn lemma_no_replay(before: ReplayWindow, after: ReplayWindow, epoch: u64, older: u64)
    requires
        before.spec_accepts(epoch),
        after.spec_latest() == Some(epoch),
        older <= epoch,
    ensures
        !after.spec_accepts(older),
{
}

/// The latest accepted epoch after `accept` was called with each of
/// `attempts` in turn on a new window.
pub open spec fn window_after(attempts: Seq<u64>) -> Option<u64>
    decreases attempts.len(),
{
    if attempts.len() == 0 {
        None
    } else {
        let before = window_after(attempts.drop_last());
        let e = attempts.last();
        match before {
            Some(latest) => if e > latest {
                Some(e)
            } else {
                before
            },
            None => Some(e),
        }
    }
}

/// The epochs that `accept` accepted, in order, for the same calls.
pub open spec fn accepted_after(attempts: Seq<u64>) -> Seq<u64>
    decreases attempts.len(),
{
    if attempts.len() == 0 {
        Seq::empty()
    } else {
        let before = accepted_after(attempts.drop_last());
        let e = attempts.last();
        if before.len() == 0 || e > before.last() {
            before.push(e)
        } else {
            before
        }
    }
}

/// One more `accept` call takes a window from `window_after(attempts)` to
/// `window_after(attempts.push(epoch))`.
pub proof fn lemma_accept_step(before: ReplayWindow, after: ReplayWindow, attempts: Seq<u64>, epoch: u64, accepted: bool)
    requires
        before.spec_latest() == window_after(attempts),
        accepted == before.spec_accepts(epoch),
        accepted ==> after.spec_latest() == Some(epoch),
        !accepted ==> after.spec_latest() == before.spec_latest(),
    ensures
        after.spec_latest() == window_after(attempts.push(epoch)),
{
    assert(attempts.push(epoch).drop_last() =~= attempts);
}

/// Over any history of `accept` calls on a new window: the accepted epochs
/// strictly increase; the window is empty exactly while none was accepted;
/// its latest epoch is the last accepted one; and it accepts an epoch exactly
/// when none was accepted yet or the epoch is newer than the last accepted.
pub proof fn lemma_replay_history(window: ReplayWindow, attempts: Seq<u64>)
    requires
        window.spec_latest() == window_after(attempts),
    ensures
        forall|i: int, j: int|
            0 <= i < j < accepted_after(attempts).len() ==> accepted_after(attempts)[i]
                < accepted_after(attempts)[j],
        (window.spec_latest() is None) == (accepted_after(attempts).len() == 0),
        accepted_after(attempts).len() > 0 ==> window.spec_latest() == Some(
            accepted_after(attempts).last(),
        ),
        forall|e: u64|
            window.spec_accepts(e) == (accepted_after(attempts).len() == 0 || e > accepted_after(
                attempts,
            ).last()),
{
    lemma_history_shape(attempts);
}

proof fn lemma_history_shape(attempts: Seq<u64>)
    ensures
        forall|i: int, j: int|
            0 <= i < j < accepted_after(attempts).len() ==> accepted_after(attempts)[i]
                < accepted_after(attempts)[j],
        (window_after(attempts) is None) == (accepted_after(attempts).len() == 0),
        accepted_after(attempts).len() > 0 ==> window_after(attempts) == Some(
            accepted_after(attempts).last(),
        ),
    decreases attempts.len(),
{
    if attempts.len() > 0 {
        lemma_history_shape(attempts.drop_last());
        let before = accepted_after(attempts.drop_last());
        let e = attempts.last();
        if before.len() == 0 || e > before.last() {
            let after = before.push(e);
            assert forall|i: int, j: int| 0 <= i < j < after.len() implies after[i] < after[j] by {
                if j == after.len() - 1 {
                    assert(after[i] == before[i]);
                    if i < before.len() - 1 {
                        assert(before[i] < before[before.len() - 1]);
                    }
                } else {
                    assert(after[i] == before[i] && after[j] == before[j]);
                }
            }
        }
    }
}

} // verus!
