use occult_core::gate::AccessGate;
use occult_core::ledger::Channel;
use occult_core::requests::CreateChannelRequest;
use occult_core::wire::ChannelType;
use occult_core::ChatError;

const SERVER: u128 = 77;
const OWNER: u128 = 1;
const USER_A: u128 = 10;
const USER_B: u128 = 11;
const USER_C: u128 = 12;
const MSG: u128 = 900;

fn channel_with_message() -> Channel {
    let mut gate = AccessGate::new();
    gate.add_server(SERVER, OWNER).unwrap();
    let req = CreateChannelRequest {
        name: "general".to_string(),
        channel_type: ChannelType::Text,
        topic: None,
        is_private: None,
    };
    let mut chan = Channel::new(500, SERVER, req, 90);
    chan.append_with_id(&gate, MSG, OWNER, "react to me".to_string(), None, 100, vec![])
        .unwrap();
    chan
}

#[test]
fn aggregate_groups_in_first_seen_order() {
    let mut chan = channel_with_message();
    chan.add_reaction(MSG, USER_A, "👍".to_string()).unwrap();
    chan.add_reaction(MSG, USER_B, "👍".to_string()).unwrap();
    chan.add_reaction(MSG, USER_A, "🎉".to_string()).unwrap();

    let as_a = chan.aggregate(MSG, USER_A).unwrap();
    assert_eq!(as_a.len(), 2);
    assert_eq!(as_a[0].emoji, "👍");
    assert_eq!(as_a[0].count, 2);
    assert!(as_a[0].has_reacted);
    assert_eq!(as_a[1].emoji, "🎉");
    assert_eq!(as_a[1].count, 1);
    assert!(as_a[1].has_reacted);

    let as_c = chan.aggregate(MSG, USER_C).unwrap();
    assert_eq!(as_c.len(), 2);
    assert!(!as_c[0].has_reacted);
    assert!(!as_c[1].has_reacted);
    assert_eq!(as_c[0].count, 2);
    assert_eq!(as_c[1].count, 1);
}

#[test]
fn add_reaction_twice_is_idempotent() {
    let mut chan = channel_with_message();
    chan.add_reaction(MSG, USER_A, "👍".to_string()).unwrap();
    let once = chan.aggregate(MSG, USER_A).unwrap();
    let r = chan.add_reaction(MSG, USER_A, "👍".to_string());
    assert_eq!(r, Ok(()));
    let twice = chan.aggregate(MSG, USER_A).unwrap();
    assert_eq!(once.len(), twice.len());
    assert_eq!(once[0].emoji, twice[0].emoji);
    assert_eq!(once[0].count, twice[0].count);
    assert_eq!(once[0].has_reacted, twice[0].has_reacted);
    assert_eq!(chan.msgs[0].reactions.len(), 1);
}

#[test]
fn remove_missing_reaction_is_noop_not_error() {
    let mut chan = channel_with_message();
    chan.add_reaction(MSG, USER_A, "👍".to_string()).unwrap();
    let r = chan.remove_reaction(MSG, USER_B, "👍");
    assert_eq!(r, Ok(()));
    assert_eq!(chan.msgs[0].reactions.len(), 1);
    let r2 = chan.remove_reaction(MSG, USER_A, "🎉");
    assert_eq!(r2, Ok(()));
    assert_eq!(chan.msgs[0].reactions.len(), 1);
}

#[test]
fn remove_reaction_deletes_the_fact() {
    let mut chan = channel_with_message();
    chan.add_reaction(MSG, USER_A, "👍".to_string()).unwrap();
    chan.add_reaction(MSG, USER_B, "👍".to_string()).unwrap();
    chan.remove_reaction(MSG, USER_A, "👍").unwrap();
    let agg = chan.aggregate(MSG, USER_A).unwrap();
    assert_eq!(agg.len(), 1);
    assert_eq!(agg[0].count, 1);
    assert!(!agg[0].has_reacted);
}

#[test]
fn reactions_on_missing_message_not_found() {
    let mut chan = channel_with_message();
    assert_eq!(
        chan.add_reaction(1, USER_A, "👍".to_string()),
        Err(ChatError::NotFound)
    );
    assert_eq!(chan.remove_reaction(1, USER_A, "👍"), Err(ChatError::NotFound));
    assert!(matches!(chan.aggregate(1, USER_A), Err(ChatError::NotFound)));
}

#[test]
fn aggregate_of_no_reactions_is_empty() {
    let chan = channel_with_message();
    assert!(chan.aggregate(MSG, USER_A).unwrap().is_empty());
}
