//! Substitutable in-memory collaborators, mirroring the capability
//! interfaces the core depends on: a dispatch that records every message it
//! is handed, and trivially-succeeding stand-ins for the outbound paths
//! (commitment and submission), which lie outside this core.

use vstd::prelude::*;
use crate::channel::{DispatchRecord, MessageDispatch, RewardPolicy};
use crate::types::{AccountId, Address, ChannelId, Envelope, MessageId};

verus! {

/// One recorded dispatch invocation.
#[derive(PartialEq, Eq, Debug)]
pub struct DispatchEvent {
    pub source: Address,
    pub message_id: MessageId,
    pub payload: Vec<u8>,
}

impl DispatchEvent {
    /// The specification-level record this event stands for.
    pub open spec fn record(self) -> DispatchRecord {
        DispatchRecord { source: self.source, message_id: self.message_id, payload: self.payload@ }
    }
}

/// Copy a byte vector element by element.
fn copy_bytes(src: &Vec<u8>) -> (r: Vec<u8>)
    ensures
        r@ == src@,
{
    let mut r: Vec<u8> = Vec::new();
    let mut i: usize = 0;
    while i < src.len()
        invariant
            i <= src.len(),
            r@ == src@.subrange(0, i as int),
        decreases src.len() - i,
    {
        r.push(src[i]);
        i = i + 1;
        proof {
            assert(r@ =~= src@.subrange(0, i as int));
        }
    }
    proof {
        assert(r@ =~= src@);
    }
    r
}

/// A dispatch collaborator that routes nowhere and instead records every
/// message handed to it, in order.
pub struct MockMessageDispatch {
    events: Vec<DispatchEvent>,
}

impl MockMessageDispatch {
    pub fn new() -> (r: MockMessageDispatch)
        ensures
            r.dispatched() == Seq::<DispatchRecord>::empty(),
    {
        let r = MockMessageDispatch { events: Vec::new() };
        proof {
            assert(r.dispatched() =~= Seq::<DispatchRecord>::empty());
        }
        r
    }

    /// The number of recorded dispatch invocations.
    pub fn len(&self) -> (r: usize)
        ensures
            r == self.dispatched().len(),
    {
        self.events.len()
    }
}

impl MessageDispatch for MockMessageDispatch {
    closed spec fn dispatched(&self) -> Seq<DispatchRecord> {
        self.events@.map(|i: int, e: DispatchEvent| e.record())
    }

    fn dispatch(&mut self, source: Address, message_id: MessageId, payload: &Vec<u8>) {
        let event = DispatchEvent { source, message_id, payload: copy_bytes(payload) };
        self.events.push(event);
        proof {
            assert(self.dispatched() =~= old(self).dispatched().push(
                DispatchRecord { source, message_id, payload: payload@ },
            ));
        }
    }
}

/// The most recently recorded dispatch, if any.
pub fn last_event(dispatcher: &MockMessageDispatch) -> (r: Option<&DispatchEvent>)
    ensures
        match r {
            Some(e) => {
                &&& dispatcher.dispatched().len() > 0
                &&& e.record() == dispatcher.dispatched().last()
            },
            None => dispatcher.dispatched().len() == 0,
        },
{
    if dispatcher.events.len() == 0 {
        None
    } else {
        Some(&dispatcher.events[dispatcher.events.len() - 1])
    }
}

/// A reward policy that always credits successfully.
pub struct MockRewardPolicy;

impl RewardPolicy for MockRewardPolicy {
    fn reward_relayer(&mut self, relayer: &AccountId, envelope: &Envelope) -> (r: Result<(), ()>)
        ensures
            r is Ok,
    {
        Ok(())
    }
}

/// A reward policy that always fails, for exercising the rule that a failing
/// reward computation never blocks message admission.
pub struct FailingRewardPolicy;

impl RewardPolicy for FailingRewardPolicy {
    fn reward_relayer(&mut self, relayer: &AccountId, envelope: &Envelope) -> (r: Result<(), ()>)
        ensures
            r is Err,
    {
        Err(())
    }
}

/// Commitment of outbound messages for relay to the foreign chain. The
/// outbound path is outside this core; implementations only promise to
/// answer every call.
pub trait MessageCommitment {
    fn add(
        &mut self,
        channel_id: ChannelId,
        target: Address,
        nonce: u64,
        payload: &Vec<u8>,
    ) -> Result<(), ()>;
}

/// A commitment stand-in that accepts everything.
pub struct MockMessageCommitment;

impl MessageCommitment for MockMessageCommitment {
    fn add(
        &mut self,
        channel_id: ChannelId,
        target: Address,
        nonce: u64,
        payload: &Vec<u8>,
    ) -> (r: Result<(), ()>)
        ensures
            r is Ok,
    {
        Ok(())
    }
}

/// Submission of outbound messages toward the foreign chain; also outside
/// this core.
pub trait SubmitOutbound {
    fn submit(&mut self, channel_id: ChannelId, target: Address, payload: &Vec<u8>) -> Result<
        (),
        (),
    >;
}

/// An outbound stand-in that accepts everything.
pub struct MockSubmitOutbound;

impl SubmitOutbound for MockSubmitOutbound {
    fn submit(&mut self, channel_id: ChannelId, target: Address, payload: &Vec<u8>) -> (r: Result<
        (),
        (),
    >)
        ensures
            r is Ok,
    {
        Ok(())
    }
}

} // verus!
