use occult_core::gate::AccessGate;
use occult_core::ledger::{create_server, Channel};
use occult_core::model::{Attachment, Cursor};
use occult_core::wire::AttachmentType;
use occult_core::requests::{CreateChannelRequest, UpdateChannelRequest};
use occult_core::wire::ChannelType;
use occult_core::ChatError;

const SERVER: u128 = 77;
const OWNER: u128 = 1;
const ALICE: u128 = 2;
const BOB: u128 = 3;
const CAROL: u128 = 4;

fn test_channel() -> (AccessGate, Channel) {
    let mut gate = AccessGate::new();
    gate.add_server(SERVER, OWNER).unwrap();
    gate.add_member(ALICE, SERVER, 100);
    gate.add_member(BOB, SERVER, 110);
    let req = CreateChannelRequest {
        name: "general".to_string(),
        channel_type: ChannelType::Text,
        topic: None,
        is_private: None,
    };
    let chan = Channel::new(500, SERVER, req, 90);
    (gate, chan)
}

fn fill(gate: &AccessGate, chan: &mut Channel, n: u128) {
    for k in 0..n {
        chan.append_with_id(
            gate,
            1000 + k,
            ALICE,
            format!("message {k}"),
            None,
            2000 + k as u64,
            vec![],
        )
        .unwrap();
    }
}

#[test]
fn new_channel_has_null_pointer() {
    let (_gate, chan) = test_channel();
    assert_eq!(chan.last_message_id, None);
    assert!(chan.msgs.is_empty());
}

#[test]
fn append_updates_pointer() {
    let (gate, mut chan) = test_channel();
    fill(&gate, &mut chan, 3);
    assert_eq!(chan.last_message_id, Some(1002));
    assert_eq!(chan.msgs.len(), 3);
}

#[test]
fn append_forbidden_for_stranger() {
    let (gate, mut chan) = test_channel();
    let r = chan.append_with_id(&gate, 1, CAROL, "hi".to_string(), None, 10, vec![]);
    assert_eq!(r, Err(ChatError::Forbidden));
    assert!(chan.msgs.is_empty());
}

#[test]
fn append_missing_reply_target_not_found() {
    let (gate, mut chan) = test_channel();
    let r = chan.append_with_id(&gate, 1, ALICE, "hi".to_string(), Some(999), 10, vec![]);
    assert_eq!(r, Err(ChatError::NotFound));
}

#[test]
fn append_duplicate_id_conflict() {
    let (gate, mut chan) = test_channel();
    fill(&gate, &mut chan, 1);
    let r = chan.append_with_id(&gate, 1000, ALICE, "again".to_string(), None, 50, vec![]);
    assert_eq!(r, Err(ChatError::Conflict));
    assert_eq!(chan.msgs.len(), 1);
}

#[test]
fn out_of_order_append_keeps_pointer_at_max_key() {
    let (gate, mut chan) = test_channel();
    chan.append_with_id(&gate, 10, ALICE, "late".to_string(), None, 5000, vec![])
        .unwrap();
    // An older message arrives afterward; the pointer must stay at the newest.
    chan.append_with_id(&gate, 11, BOB, "early".to_string(), None, 1000, vec![])
        .unwrap();
    assert_eq!(chan.last_message_id, Some(10));
    assert_eq!(chan.msgs[0].id, 11);
    assert_eq!(chan.msgs[1].id, 10);
}

#[test]
fn tie_on_created_at_breaks_by_id() {
    let (gate, mut chan) = test_channel();
    chan.append_with_id(&gate, 20, ALICE, "b".to_string(), None, 3000, vec![])
        .unwrap();
    chan.append_with_id(&gate, 7, BOB, "a".to_string(), None, 3000, vec![])
        .unwrap();
    assert_eq!(chan.msgs[0].id, 7);
    assert_eq!(chan.msgs[1].id, 20);
    assert_eq!(chan.last_message_id, Some(20));
}

#[test]
fn mentions_are_deduplicated_at_creation() {
    let (gate, mut chan) = test_channel();
    chan.append_with_id(
        &gate,
        1,
        ALICE,
        "hi".to_string(),
        None,
        10,
        vec![BOB, OWNER, BOB],
    )
    .unwrap();
    assert_eq!(chan.msgs[0].mentions, vec![BOB, OWNER]);
}

#[test]
fn edit_replaces_content_and_stamps_time() {
    let (gate, mut chan) = test_channel();
    fill(&gate, &mut chan, 2);
    chan.edit(1000, ALICE, "edited".to_string(), 9999).unwrap();
    assert_eq!(chan.msgs[0].content, "edited");
    assert_eq!(chan.msgs[0].edited_at, Some(9999));
    assert_eq!(chan.msgs[0].created_at, 2000);
    assert_eq!(chan.msgs[0].id, 1000);
}

#[test]
fn edit_does_not_recompute_mentions() {
    let (gate, mut chan) = test_channel();
    chan.append_with_id(&gate, 1, ALICE, "hi".to_string(), None, 10, vec![BOB])
        .unwrap();
    chan.edit(1, ALICE, "no mentions anymore".to_string(), 20)
        .unwrap();
    assert_eq!(chan.msgs[0].mentions, vec![BOB]);
}

#[test]
fn edit_by_non_author_forbidden() {
    let (gate, mut chan) = test_channel();
    fill(&gate, &mut chan, 1);
    let r = chan.edit(1000, BOB, "hijack".to_string(), 50);
    assert_eq!(r, Err(ChatError::Forbidden));
    assert_eq!(chan.msgs[0].content, "message 0");
}

#[test]
fn edit_missing_message_not_found() {
    let (gate, mut chan) = test_channel();
    fill(&gate, &mut chan, 1);
    assert_eq!(
        chan.edit(42, ALICE, "x".to_string(), 50),
        Err(ChatError::NotFound)
    );
}

#[test]
fn delete_by_author_removes_message() {
    let (gate, mut chan) = test_channel();
    fill(&gate, &mut chan, 3);
    chan.delete(&gate, 1001, ALICE).unwrap();
    assert_eq!(chan.msgs.len(), 2);
    assert!(chan.find_index(1001).is_none());
}

#[test]
fn delete_pointer_target_recomputes_pointer() {
    let (gate, mut chan) = test_channel();
    fill(&gate, &mut chan, 3);
    assert_eq!(chan.last_message_id, Some(1002));
    chan.delete(&gate, 1002, ALICE).unwrap();
    // The pointer moves to the next-latest remaining message.
    assert_eq!(chan.last_message_id, Some(1001));
}

#[test]
fn delete_only_message_nulls_pointer() {
    let (gate, mut chan) = test_channel();
    fill(&gate, &mut chan, 1);
    chan.delete(&gate, 1000, ALICE).unwrap();
    assert_eq!(chan.last_message_id, None);
    assert!(chan.msgs.is_empty());
}

#[test]
fn delete_by_moderator_allowed_by_stranger_not() {
    let (gate, mut chan) = test_channel();
    fill(&gate, &mut chan, 2);
    assert_eq!(chan.delete(&gate, 1000, BOB), Err(ChatError::Forbidden));
    // The server owner can moderate.
    chan.delete(&gate, 1000, OWNER).unwrap();
    assert_eq!(chan.msgs.len(), 1);
}

#[test]
fn delete_cascades_reactions() {
    let (gate, mut chan) = test_channel();
    fill(&gate, &mut chan, 2);
    chan.add_reaction(1000, BOB, "👍".to_string()).unwrap();
    chan.delete(&gate, 1000, ALICE).unwrap();
    assert!(matches!(chan.aggregate(1000, BOB), Err(ChatError::NotFound)));
}

#[test]
fn pin_and_unpin() {
    let (gate, mut chan) = test_channel();
    fill(&gate, &mut chan, 1);
    chan.set_pinned(1000, true).unwrap();
    assert!(chan.msgs[0].is_pinned);
    chan.set_pinned(1000, false).unwrap();
    assert!(!chan.msgs[0].is_pinned);
    assert_eq!(chan.set_pinned(9, true), Err(ChatError::NotFound));
}

#[test]
fn update_channel_attributes() {
    let (_gate, mut chan) = test_channel();
    chan.update(UpdateChannelRequest {
        name: Some("renamed".to_string()),
        topic: Some("the topic".to_string()),
        slow_mode: Some(5),
    });
    assert_eq!(chan.name, "renamed");
    assert_eq!(chan.topic, Some("the topic".to_string()));
    assert_eq!(chan.slow_mode, Some(5));
    chan.update(UpdateChannelRequest {
        name: None,
        topic: None,
        slow_mode: None,
    });
    assert_eq!(chan.name, "renamed");
}

#[test]
fn paginate_rejects_bad_limits_and_double_cursor() {
    let (gate, mut chan) = test_channel();
    fill(&gate, &mut chan, 2);
    assert_eq!(
        chan.paginate(None, None, 0).unwrap_err(),
        ChatError::Validation
    );
    assert_eq!(
        chan.paginate(None, None, -3).unwrap_err(),
        ChatError::Validation
    );
    let c = Cursor {
        created_at: 2001,
        id: 1001,
    };
    assert_eq!(
        chan.paginate(Some(c), Some(c), 1).unwrap_err(),
        ChatError::Validation
    );
}

#[test]
fn paginate_newest_first() {
    let (gate, mut chan) = test_channel();
    fill(&gate, &mut chan, 5);
    let page = chan.paginate(None, None, 3).unwrap();
    let ids: Vec<u128> = page.iter().map(|m| m.id).collect();
    assert_eq!(ids, vec![1004, 1003, 1002]);
}

#[test]
fn paginate_backward_reconstructs_everything() {
    let (gate, mut chan) = test_channel();
    fill(&gate, &mut chan, 7);
    let mut collected: Vec<u128> = Vec::new();
    let mut cursor: Option<Cursor> = None;
    loop {
        let page = chan.paginate(cursor, None, 2).unwrap();
        if page.is_empty() {
            break;
        }
        for m in &page {
            collected.push(m.id);
        }
        let oldest = page.last().unwrap();
        cursor = Some(Cursor {
            created_at: oldest.created_at,
            id: oldest.id,
        });
    }
    // The full ledger, newest first, no duplicates and no omissions.
    assert_eq!(
        collected,
        vec![1006, 1005, 1004, 1003, 1002, 1001, 1000]
    );
}

#[test]
fn paginate_forward_reconstructs_everything() {
    let (gate, mut chan) = test_channel();
    fill(&gate, &mut chan, 7);
    let mut collected: Vec<u128> = Vec::new();
    // Start from a cursor below every stored key.
    let mut cursor = Cursor {
        created_at: 0,
        id: 0,
    };
    loop {
        let page = chan.paginate(None, Some(cursor), 3).unwrap();
        if page.is_empty() {
            break;
        }
        // Pages come newest-first; the newest element resumes the walk.
        let newest = page.first().unwrap();
        let next = Cursor {
            created_at: newest.created_at,
            id: newest.id,
        };
        let mut ascending: Vec<u128> = page.iter().map(|m| m.id).collect();
        ascending.reverse();
        collected.extend(ascending);
        cursor = next;
    }
    assert_eq!(
        collected,
        vec![1000, 1001, 1002, 1003, 1004, 1005, 1006]
    );
}

#[test]
fn paginate_strictly_one_side_of_cursor() {
    let (gate, mut chan) = test_channel();
    fill(&gate, &mut chan, 4);
    let c = Cursor {
        created_at: 2002,
        id: 1002,
    };
    let before = chan.paginate(Some(c), None, 10).unwrap();
    let before_ids: Vec<u128> = before.iter().map(|m| m.id).collect();
    assert_eq!(before_ids, vec![1001, 1000]);
    let after = chan.paginate(None, Some(c), 10).unwrap();
    let after_ids: Vec<u128> = after.iter().map(|m| m.id).collect();
    assert_eq!(after_ids, vec![1003]);
}

#[test]
fn paginate_clamps_limit() {
    let (gate, mut chan) = test_channel();
    fill(&gate, &mut chan, 3);
    let page = chan.paginate(None, None, 1_000_000).unwrap();
    assert_eq!(page.len(), 3);
}

#[test]
fn append_with_fresh_id_lands_in_ledger() {
    let (gate, mut chan) = test_channel();
    let id = chan
        .append(&gate, ALICE, "drawn id".to_string(), None, 42, vec![])
        .unwrap();
    assert!(chan.find_index(id).is_some());
    assert_eq!(chan.last_message_id, Some(id));
}

#[test]
fn create_server_makes_general_channel() {
    let mut gate = AccessGate::new();
    let chan = create_server(&mut gate, SERVER, OWNER, 600, 10).unwrap();
    assert_eq!(chan.name, "general");
    assert_eq!(chan.channel_type, ChannelType::Text);
    assert_eq!(chan.server_id, SERVER);
    assert_eq!(chan.last_message_id, None);
    assert!(!chan.is_private);
    assert!(gate.can_moderate(OWNER, SERVER));
    // A second server under the same identifier is refused.
    assert!(matches!(
        create_server(&mut gate, SERVER, BOB, 601, 11),
        Err(ChatError::Conflict)
    ));
}

#[test]
fn attachments_attach_to_one_message() {
    let (gate, mut chan) = test_channel();
    fill(&gate, &mut chan, 1);
    let a = Attachment {
        id: 9000,
        attachment_type: AttachmentType::Image,
        url: "https://cdn.example.net/a.png".to_string(),
        filename: "a.png".to_string(),
        size: 1234,
        mime_type: "image/png".to_string(),
        width: Some(64),
        height: Some(64),
        duration: None,
    };
    chan.add_attachment(1000, a.clone()).unwrap();
    assert_eq!(chan.msgs[0].attachments.len(), 1);
    assert_eq!(chan.msgs[0].attachments[0].filename, "a.png");
    // The same attachment identifier on the same message is refused.
    assert_eq!(chan.add_attachment(1000, a.clone()), Err(ChatError::Conflict));
    assert_eq!(chan.add_attachment(77, a), Err(ChatError::NotFound));
}

#[test]
fn paginate_empty_channel_returns_empty_page() {
    let (_gate, chan) = test_channel();
    assert!(chan.paginate(None, None, 10).unwrap().is_empty());
    let c = Cursor {
        created_at: 100,
        id: 1,
    };
    assert!(chan.paginate(Some(c), None, 10).unwrap().is_empty());
    assert!(chan.paginate(None, Some(c), 10).unwrap().is_empty());
}

#[test]
fn delete_clears_surviving_reply_references() {
    let (gate, mut chan) = test_channel();
    fill(&gate, &mut chan, 1);
    chan.append_with_id(&gate, 1001, BOB, "reply one".to_string(), Some(1000), 2001, vec![])
        .unwrap();
    chan.append_with_id(&gate, 1002, ALICE, "reply two".to_string(), Some(1000), 2002, vec![])
        .unwrap();
    chan.append_with_id(&gate, 1003, BOB, "other".to_string(), Some(1002), 2003, vec![])
        .unwrap();
    chan.delete(&gate, 1000, ALICE).unwrap();
    // The replies to the removed message no longer dangle; others are intact.
    assert_eq!(chan.msgs[0].id, 1001);
    assert_eq!(chan.msgs[0].reply_to_id, None);
    assert_eq!(chan.msgs[1].id, 1002);
    assert_eq!(chan.msgs[1].reply_to_id, None);
    assert_eq!(chan.msgs[2].id, 1003);
    assert_eq!(chan.msgs[2].reply_to_id, Some(1002));
    assert_eq!(chan.last_message_id, Some(1003));
}
