//! The inbound channel protocol: exactly-once, in-order admission of foreign
//! messages. A channel accepts an envelope iff its nonce equals the stored
//! next-expected nonce; on success the nonce advances by one and the payload
//! is handed to dispatch. A failed submission mutates nothing.

use vstd::prelude::*;
use crate::types::{AccountId, Address, ChannelError, ChannelId, Envelope, MessageId};

verus! {

/// One dispatched message, at the specification level.
pub struct DispatchRecord {
    pub source: Address,
    pub message_id: MessageId,
    pub payload: Seq<u8>,
}

/// Message dispatch: routes an admitted payload, tagged with its unique
/// message id, to the local handler registered for it. Fire-and-forget from
/// the channel's perspective. The ghost `dispatched` log records every
/// invocation, so the channel's contract can state exactly which messages
/// were handed over, and that a refused submission handed over none.
pub trait MessageDispatch {
    spec fn dispatched(&self) -> Seq<DispatchRecord>;

    fn dispatch(&mut self, source: Address, message_id: MessageId, payload: &Vec<u8>)
        ensures
            final(self).dispatched() == old(self).dispatched().push(
                DispatchRecord { source, message_id, payload: payload@ },
            ),
    ;
}

/// Reward policy consulted by the incentivized channel: credits a relayer
/// fee for the submission. Its failure is explicitly non-fatal — it must
/// never block message admission or the nonce advance.
pub trait RewardPolicy {
    fn reward_relayer(&mut self, relayer: &AccountId, envelope: &Envelope) -> Result<(), ()>;
}

/// Whether a channel expecting `stored` admits a submission carrying `submitted`.
pub open spec fn submission_accepted(stored: u64, submitted: u64) -> bool {
    submitted == stored
}

/// The nonce a channel expects after a submission: advanced by one on an
/// exact match, unchanged otherwise.
pub open spec fn nonce_after_submission(stored: u64, submitted: u64) -> u64
    recommends
        stored < u64::MAX,
{
    if submission_accepted(stored, submitted) {
        (stored + 1) as u64
    } else {
        stored
    }
}

/// Law: state only advances on an exact-match nonce. Submitting anything
/// other than the stored nonce is refused and leaves the nonce in place;
/// a match advances it by exactly one. The stored nonce never decreases.
/// The bound on `submitted` is the machine limit `submit` itself imposes.
pub proof fn lemma_nonce_monotonic(stored: u64, submitted: u64)
    requires
        submitted < u64::MAX,
    ensures
        nonce_after_submission(stored, submitted) >= stored,
        submission_accepted(stored, submitted) <==> submitted == stored,
        submitted != stored ==> nonce_after_submission(stored, submitted) == stored,
        submitted == stored ==> nonce_after_submission(stored, submitted) == stored + 1,
{
}

/// The nonce a channel expects after a whole sequence of submissions, each
/// applied to the state the previous one left behind.
pub open spec fn nonce_after_submissions(stored: u64, submitted: Seq<u64>) -> u64
    decreases submitted.len(),
{
    if submitted.len() == 0 {
        stored
    } else {
        nonce_after_submissions(
            nonce_after_submission(stored, submitted.first()),
            submitted.drop_first(),
        )
    }
}

/// Law: across any sequence of `submit` calls on one channel the stored
/// nonce never decreases, whatever mixture of matching, stale and
/// skipped-ahead nonces the relayers present.
pub proof fn lemma_nonce_monotonic_sequence(stored: u64, submitted: Seq<u64>)
    requires
        forall|k: int| 0 <= k < submitted.len() ==> submitted[k] < u64::MAX,
    ensures
        nonce_after_submissions(stored, submitted) >= stored,
    decreases submitted.len(),
{
    if submitted.len() > 0 {
        lemma_nonce_monotonic(stored, submitted.first());
        lemma_nonce_monotonic_sequence(
            nonce_after_submission(stored, submitted.first()),
            submitted.drop_first(),
        );
    }
}

/// The stored protocol state of both inbound channels: for each variant, the
/// next nonce it will accept. Created at zero and mutated only by a
/// successful `submit`.
pub struct InboundChannels {
    basic_nonce: u64,
    incentivized_nonce: u64,
}

impl InboundChannels {
    /// The next nonce the given channel will accept.
    pub closed spec fn nonce_of(self, channel_id: ChannelId) -> u64 {
        match channel_id {
            ChannelId::Basic => self.basic_nonce,
            ChannelId::Incentivized => self.incentivized_nonce,
        }
    }

    pub fn new() -> (r: InboundChannels)
        ensures
            forall|c: ChannelId| #[trigger] r.nonce_of(c) == 0,
    {
        InboundChannels { basic_nonce: 0, incentivized_nonce: 0 }
    }

    /// Read the stored nonce of one channel.
    pub fn nonce(&self, channel_id: ChannelId) -> (r: u64)
        ensures
            r == self.nonce_of(channel_id),
    {
        match channel_id {
            ChannelId::Basic => self.basic_nonce,
            ChannelId::Incentivized => self.incentivized_nonce,
        }
    }

    /// Submit a validated envelope to one channel. Admission succeeds iff
    /// the envelope's nonce equals the stored nonce; then the stored nonce
    /// advances by one and the payload is dispatched under the message id
    /// `(channel_id, envelope.nonce)`. On the incentivized channel a relayer
    /// reward is additionally requested from the policy; its outcome never
    /// affects admission. A mismatched nonce is refused with `BadNonce` and
    /// nothing — no nonce, no dispatch — changes.
    pub fn submit<D: MessageDispatch, R: RewardPolicy>(
        &mut self,
        channel_id: ChannelId,
        relayer: &AccountId,
        envelope: &Envelope,
        dispatcher: &mut D,
        rewards: &mut R,
    ) -> (r: Result<(), ChannelError>)
        requires
            envelope.nonce < u64::MAX,
        ensures
            r is Ok <==> submission_accepted(old(self).nonce_of(channel_id), envelope.nonce),
            final(self).nonce_of(channel_id) == nonce_after_submission(
                old(self).nonce_of(channel_id),
                envelope.nonce,
            ),
            forall|c: ChannelId|
                c != channel_id ==> #[trigger] final(self).nonce_of(c) == old(self).nonce_of(c),
            match r {
                Ok(()) => final(dispatcher).dispatched() == old(dispatcher).dispatched().push(
                    DispatchRecord {
                        source: envelope.source,
                        message_id: MessageId { channel_id, nonce: envelope.nonce },
                        payload: envelope.payload@,
                    },
                ),
                Err(e) => {
                    &&& e == ChannelError::BadNonce
                    &&& *final(self) == *old(self)
                    &&& final(dispatcher).dispatched() == old(dispatcher).dispatched()
                },
            },
    {
        let current = self.nonce(channel_id);
        if envelope.nonce != current {
            return Err(ChannelError::BadNonce);
        }
        let next = current + 1;
        match channel_id {
            ChannelId::Basic => {
                self.basic_nonce = next;
            },
            ChannelId::Incentivized => {
                self.incentivized_nonce = next;
                // The reward is a non-blocking side effect: a failing policy
                // must not undo the admission already decided above.
                let _ = rewards.reward_relayer(relayer, envelope);
            },
        }
        let message_id = MessageId { channel_id, nonce: envelope.nonce };
        dispatcher.dispatch(envelope.source, message_id, &envelope.payload);
        Ok(())
    }
}

} // verus!
