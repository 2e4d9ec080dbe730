use bridge_core::channel::InboundChannels;
use bridge_core::mocks::{
    last_event, FailingRewardPolicy, MessageCommitment, MockMessageCommitment,
    MockMessageDispatch, MockRewardPolicy, MockSubmitOutbound, SubmitOutbound,
};
use bridge_core::types::{AccountId, Address, ChannelError, ChannelId, Envelope, MessageId};

fn relayer() -> AccountId {
    AccountId { hi: 1, lo: 42 }
}

fn source() -> Address {
    Address { hi: 0, lo: 5 }
}

fn envelope(nonce: u64) -> Envelope {
    Envelope { source: source(), nonce, payload: vec![1, 2, 3], metadata: Vec::new() }
}

#[test]
fn submit_accepts_exact_nonce_and_rejects_replay() {
    let mut channels = InboundChannels::new();
    let mut dispatcher = MockMessageDispatch::new();
    let mut rewards = MockRewardPolicy;
    let env = envelope(0);

    assert_eq!(channels.nonce(ChannelId::Basic), 0);
    assert!(channels
        .submit(ChannelId::Basic, &relayer(), &env, &mut dispatcher, &mut rewards)
        .is_ok());
    assert_eq!(channels.nonce(ChannelId::Basic), 1);

    let recorded = last_event(&dispatcher).expect("dispatch expected");
    assert_eq!(recorded.source, source());
    assert_eq!(recorded.message_id, MessageId { channel_id: ChannelId::Basic, nonce: 0 });
    assert_eq!(recorded.payload, vec![1, 2, 3]);

    // Re-submitting the identical envelope is a replay and must be refused
    // without moving the nonce or dispatching anything.
    assert_eq!(
        channels.submit(ChannelId::Basic, &relayer(), &env, &mut dispatcher, &mut rewards),
        Err(ChannelError::BadNonce)
    );
    assert_eq!(channels.nonce(ChannelId::Basic), 1);
    assert_eq!(dispatcher.len(), 1);
}

#[test]
fn submit_rejects_skipped_and_stale_nonces() {
    let mut channels = InboundChannels::new();
    let mut dispatcher = MockMessageDispatch::new();
    let mut rewards = MockRewardPolicy;

    assert!(channels
        .submit(ChannelId::Basic, &relayer(), &envelope(0), &mut dispatcher, &mut rewards)
        .is_ok());
    assert!(channels
        .submit(ChannelId::Basic, &relayer(), &envelope(1), &mut dispatcher, &mut rewards)
        .is_ok());
    assert_eq!(channels.nonce(ChannelId::Basic), 2);

    // One behind the stored nonce.
    assert_eq!(
        channels.submit(ChannelId::Basic, &relayer(), &envelope(1), &mut dispatcher, &mut rewards),
        Err(ChannelError::BadNonce)
    );
    // One ahead of the stored nonce.
    assert_eq!(
        channels.submit(ChannelId::Basic, &relayer(), &envelope(3), &mut dispatcher, &mut rewards),
        Err(ChannelError::BadNonce)
    );
    assert_eq!(channels.nonce(ChannelId::Basic), 2);
    assert_eq!(dispatcher.len(), 2);
}

#[test]
fn channels_have_independent_nonces() {
    let mut channels = InboundChannels::new();
    let mut dispatcher = MockMessageDispatch::new();
    let mut rewards = MockRewardPolicy;

    assert!(channels
        .submit(ChannelId::Incentivized, &relayer(), &envelope(0), &mut dispatcher, &mut rewards)
        .is_ok());
    assert_eq!(channels.nonce(ChannelId::Incentivized), 1);
    assert_eq!(channels.nonce(ChannelId::Basic), 0);

    let recorded = last_event(&dispatcher).expect("dispatch expected");
    assert_eq!(recorded.message_id, MessageId { channel_id: ChannelId::Incentivized, nonce: 0 });
}

#[test]
fn failing_reward_policy_does_not_block_admission() {
    let mut channels = InboundChannels::new();
    let mut dispatcher = MockMessageDispatch::new();
    let mut rewards = FailingRewardPolicy;

    assert!(channels
        .submit(ChannelId::Incentivized, &relayer(), &envelope(0), &mut dispatcher, &mut rewards)
        .is_ok());
    assert_eq!(channels.nonce(ChannelId::Incentivized), 1);
    assert_eq!(dispatcher.len(), 1);
}

#[test]
fn last_event_is_none_before_any_dispatch() {
    let dispatcher = MockMessageDispatch::new();
    assert!(last_event(&dispatcher).is_none());
}

#[test]
fn outbound_stand_ins_accept_everything() {
    let mut commitment = MockMessageCommitment;
    assert!(commitment.add(ChannelId::Basic, source(), 0, &vec![1]).is_ok());
    let mut outbound = MockSubmitOutbound;
    assert!(outbound.submit(ChannelId::Incentivized, source(), &vec![2]).is_ok());
}
