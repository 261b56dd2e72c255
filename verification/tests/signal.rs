use bitpart::error::BitpartError;
use bitpart::metrics::{ChannelMetrics, ConnectionStatus};
use bitpart::store::Thread;
use bitpart::json::{Json, JsonValue};
use bitpart::signal::{
    conversation_client, conversation_user_id, decoded_pointers, reply_plan, ReplyStep, counts_as_received, describe_attachments, expire_timer_update, format_data_message, reaction_lookup,
    reply_deletes_conversation, reply_get_attachments, reply_get_text, reply_get_user_id, reply_messages, reply_text, session_address_uuid,
    try_user_id_to_recipient, unescape, on_receive_event, ReceiveAction, ReceiveEvent, AttachmentInfo, DataMessageInfo, IncomingBody, ReactionInfo, Recipient,
};

fn s(text: &str) -> Json {
    Json { value: JsonValue::Str(text.to_owned()), text: format!("\"{text}\"") }
}

fn obj(members: Vec<(&str, Json)>) -> Json {
    let text = format!(
        "{{{}}}",
        members.iter().map(|(k, v)| format!("\"{k}\":{}", v.text)).collect::<Vec<_>>().join(",")
    );
    Json { value: JsonValue::Object(members.into_iter().map(|(k, v)| (k.to_owned(), v)).collect()), text }
}

fn arr(items: Vec<Json>) -> Json {
    let text = format!("[{}]", items.iter().map(|v| v.text.clone()).collect::<Vec<_>>().join(","));
    Json { value: JsonValue::Array(items), text }
}

const UUID: &str = "67e55044-10b1-426f-9247-bb680e5fe0c8";
const UUID_N: u128 = 0x67e55044_10b1_426f_9247_bb680e5fe0c8;

#[test]
fn unescape_trims_quotes_and_replaces_escapes() {
    assert_eq!(unescape("\"hello\""), "hello");
    assert_eq!(unescape("'''hi'"), "hi");
    assert_eq!(unescape("\"a\\nb\\tc\""), "a\nb\tc");
    assert_eq!(unescape("a\\\"b"), "a\"b");
    // The closing quote is trimmed before escapes are read.
    assert_eq!(unescape("say \\\"yes\\\""), "say \"yes\\");
    assert_eq!(unescape("back\\\\slash"), "back\\slash");
    assert_eq!(unescape("\"\""), "");
    assert_eq!(unescape(""), "");
}

#[test]
fn unescape_replaces_in_order() {
    // `\\n` is read as `\` followed by the escape `\n`.
    assert_eq!(unescape("x\\\\ny"), "x\\\ny");
}

#[test]
fn user_id_names_contact_or_group() {
    assert_eq!(try_user_id_to_recipient(UUID), Ok(Recipient::Contact(UUID_N)));
    let key = "abcdefghijklmnopqrstuvwxyz012345";
    let mut expected = [0u8; 32];
    expected.copy_from_slice(key.as_bytes());
    assert_eq!(try_user_id_to_recipient(key), Ok(Recipient::Group(expected)));
    assert_eq!(try_user_id_to_recipient("short"), Err(BitpartError::InvalidRecipient));
}

#[test]
fn session_address_names_its_account() {
    assert_eq!(session_address_uuid(&format!("{UUID}.2")), Some(UUID_N));
    assert_eq!(session_address_uuid(UUID), Some(UUID_N));
    assert_eq!(session_address_uuid("not-a-uuid.1"), None);
}

#[test]
fn reply_parts_are_read_from_the_payload() {
    let res = obj(vec![(
        "payload",
        obj(vec![(
            "content",
            obj(vec![("text", s("Hi\nthere")), ("client", obj(vec![("user_id", s("user-1"))]))]),
        )]),
    )]);
    assert_eq!(reply_get_user_id(&res, "default"), "user-1");
    assert_eq!(reply_get_text(&res), "Hi\nthere");
    let empty = obj(vec![]);
    assert_eq!(reply_get_user_id(&empty, "default"), "default");
    assert_eq!(reply_get_text(&empty), "");
    let tab = obj(vec![("payload", obj(vec![("content", obj(vec![("text", s("a\tb \"c\""))]))]))]);
    // The closing escaped quote is trimmed with the string's own quotes.
    assert_eq!(reply_get_text(&tab), "a\tb \"c\\");
    let number = obj(vec![(
        "payload",
        obj(vec![("content", obj(vec![("text", Json { value: JsonValue::Number(Some(42)), text: "42".to_owned() })]))]),
    )]);
    assert_eq!(reply_get_text(&number), "42");
}

#[test]
fn reply_attachments_are_decoded_from_base64() {
    let res = obj(vec![(
        "payload",
        obj(vec![(
            "content",
            obj(vec![(
                "attachments",
                arr(vec![
                    obj(vec![("_ref", s("AQID"))]),
                    obj(vec![("_ref", s("!!"))]),
                    obj(vec![("other", s("x"))]),
                    obj(vec![("_ref", s("aGk="))]),
                ]),
            )]),
        )]),
    )]);
    assert_eq!(reply_get_attachments(&res), vec![vec![1u8, 2, 3], b"hi".to_vec()]);
    assert!(reply_get_attachments(&obj(vec![])).is_empty());
}

#[test]
fn attachments_are_described_with_base64_refs() {
    let a = vec![
        AttachmentInfo {
            encoded: vec![1, 2, 3],
            content_type: Some("image/png".to_owned()),
            file_name: None,
            size: Some(3),
        },
        AttachmentInfo { encoded: b"hi".to_vec(), content_type: None, file_name: Some("f.txt".to_owned()), size: None },
    ];
    let d = describe_attachments(Some(&a));
    assert_eq!(d.len(), 2);
    assert_eq!(d[0].reference, "AQID");
    assert_eq!(d[0].content_type.as_deref(), Some("image/png"));
    assert_eq!(d[0].size, Some(3));
    assert_eq!(d[1].reference, "aGk=");
    assert_eq!(d[1].file_name.as_deref(), Some("f.txt"));
    assert!(describe_attachments(None).is_empty());
}

#[test]
fn expire_timer_is_set_only_on_first_contact() {
    assert_eq!(expire_timer_update(true, UUID, Some(604800), None), Some((UUID_N, 604800)));
    assert_eq!(expire_timer_update(true, UUID, Some(604800), Some(0)), Some((UUID_N, 604800)));
    assert_eq!(expire_timer_update(false, UUID, Some(604800), None), None);
    assert_eq!(expire_timer_update(true, UUID, Some(604800), Some(60)), None);
    assert_eq!(expire_timer_update(true, UUID, Some(0), None), None);
    assert_eq!(expire_timer_update(true, UUID, None, None), None);
    assert_eq!(expire_timer_update(true, "abcdefghijklmnopqrstuvwxyz012345", Some(60), None), None);
    let member = format!("{UUID}@{}", "00".repeat(32));
    assert_eq!(expire_timer_update(true, &member, Some(60), None), None);
}

fn dm(body: Option<&str>, quote: bool, reaction: Option<(Option<u64>, Option<&str>)>) -> DataMessageInfo {
    DataMessageInfo {
        body: body.map(|b| b.to_owned()),
        quote_has_text: quote,
        reaction: reaction.map(|(t, e)| ReactionInfo { target_sent_timestamp: t, emoji: e.map(|x| x.to_owned()) }),
        mentions: vec![],
    }
}

#[test]
fn data_messages_are_described() {
    assert_eq!(format_data_message(&dm(Some("hi"), false, None), false).as_deref(), Some("hi"));
    assert_eq!(
        format_data_message(&dm(Some("hi"), true, None), false).as_deref(),
        Some("Answer to message \"REDACTED\": REDACTED")
    );
    let r = dm(None, false, Some((Some(42), Some("👍"))));
    assert_eq!(reaction_lookup(&r), Some(42));
    assert_eq!(format_data_message(&r, true).as_deref(), Some("Reacted with 👍 to message: \"REDACTED\""));
    assert_eq!(format_data_message(&r, false), None);
    assert_eq!(format_data_message(&dm(None, false, None), false), None);
    let half = dm(Some("b"), false, Some((None, Some("x"))));
    assert_eq!(reaction_lookup(&half), None);
    assert_eq!(format_data_message(&half, false).as_deref(), Some("b"));
}

const BOT: u128 = 0x11111111_2222_3333_4444_555555555555;

#[test]
fn contact_data_messages_get_replies() {
    let contact = Thread::Contact(UUID_N);
    let body = IncomingBody::Data(dm(Some("hi"), false, None));
    assert_eq!(reply_text(&contact, BOT, &body, false).as_deref(), Some("hi"));
    assert_eq!(reply_text(&contact, BOT, &IncomingBody::Edit(Some(dm(Some("hi"), false, None))), false), None);
    assert_eq!(reply_text(&contact, BOT, &IncomingBody::SyncSent(Some(dm(Some("hi"), false, None))), false), None);
    assert_eq!(reply_text(&contact, BOT, &IncomingBody::Typing, false), None);
    assert!(counts_as_received(&body));
    assert!(!counts_as_received(&IncomingBody::Call));
}

#[test]
fn group_messages_get_replies_only_when_mentioning_the_bot() {
    let group = Thread::Group([3u8; 32]);
    let plain = IncomingBody::Data(dm(Some("hi all"), false, None));
    assert_eq!(reply_text(&group, BOT, &plain, false), None);
    let mut m = dm(Some("\u{fffc} hello"), false, None);
    m.mentions = vec![UUID_N];
    assert_eq!(reply_text(&group, BOT, &IncomingBody::Data(m.clone()), false), None);
    m.mentions.push(BOT);
    assert_eq!(reply_text(&group, BOT, &IncomingBody::Data(m), false).as_deref(), Some("\u{fffc} hello"));
}

#[test]
fn group_members_have_their_own_conversations() {
    let key = [0xabu8; 32];
    let group = Thread::Group(key);
    let id = conversation_user_id(&group, UUID_N);
    assert_eq!(id, format!("{UUID}@{}", "ab".repeat(32)));
    assert_eq!(try_user_id_to_recipient(&id), Ok(Recipient::Group(key)));
    assert_eq!(conversation_user_id(&Thread::Contact(UUID_N), BOT), UUID);
    assert_ne!(conversation_user_id(&group, BOT), id);
    assert_ne!(conversation_user_id(&Thread::Group([0xacu8; 32]), UUID_N), id);
}

#[test]
fn conversations_are_kept_per_channel() {
    let a = conversation_client("bot", "signal", &Thread::Contact(UUID_N), UUID_N);
    let b = conversation_client("bot", "backup", &Thread::Contact(UUID_N), UUID_N);
    assert_eq!((a.bot_id.as_str(), a.channel_id.as_str(), a.user_id.as_str()), ("bot", "signal", UUID));
    assert_eq!(b.channel_id, "backup");
    assert_eq!(a.user_id, b.user_id);
}

#[test]
fn malformed_group_conversation_ids_fall_back() {
    assert_eq!(try_user_id_to_recipient(&format!("{UUID}@abc")), Err(BitpartError::InvalidRecipient));
    assert_eq!(
        try_user_id_to_recipient(&format!("{UUID}@{}", "AB".repeat(32))),
        Err(BitpartError::InvalidRecipient)
    );
}

#[test]
fn response_messages_must_be_an_array() {
    let res = obj(vec![("messages", arr(vec![s("a"), s("b")]))]);
    let msgs = reply_messages(&res).unwrap().unwrap();
    assert_eq!(msgs.len(), 2);
    assert!(reply_messages(&obj(vec![])).unwrap().is_none());
    let bad = obj(vec![("messages", s("x"))]);
    assert_eq!(
        reply_messages(&bad).unwrap_err(),
        BitpartError::Signal("Got invalid message from interpreter".to_owned())
    );
}

#[test]
fn deleted_response_purges_the_conversation() {
    assert!(reply_deletes_conversation(&obj(vec![("deleted", b(true))])));
    assert!(!reply_deletes_conversation(&obj(vec![("deleted", b(false))])));
    assert!(!reply_deletes_conversation(&obj(vec![("deleted", s("true"))])));
    assert!(!reply_deletes_conversation(&obj(vec![])));
}

#[test]
fn receiving_loop_tracks_the_channel() {
    let mut m = ChannelMetrics::default();
    assert_eq!(on_receive_event(&mut m, &ReceiveEvent::Connected), ReceiveAction::Continue);
    assert_eq!(m.snapshot().status, ConnectionStatus::Linked);
    let data = ReceiveEvent::Content(IncomingBody::Data(dm(Some("hi"), false, None)));
    assert_eq!(on_receive_event(&mut m, &data), ReceiveAction::AcknowledgeAndProcess);
    assert_eq!(on_receive_event(&mut m, &ReceiveEvent::Content(IncomingBody::Typing)), ReceiveAction::AcknowledgeAndProcess);
    assert_eq!(m.snapshot().received, 1);
    assert_eq!(on_receive_event(&mut m, &ReceiveEvent::QueueEmpty), ReceiveAction::Continue);
    assert_eq!(on_receive_event(&mut m, &ReceiveEvent::Failed), ReceiveAction::WaitAndReconnect(30));
    assert_eq!(m.snapshot().status, ConnectionStatus::Failing);
    assert_eq!(m.snapshot().received, 1);
}

fn b(v: bool) -> Json {
    Json { value: JsonValue::Bool(v), text: v.to_string() }
}

#[test]
fn direct_replies_go_back_to_the_sender() {
    let id = conversation_user_id(&Thread::Contact(UUID_N), BOT);
    assert_eq!(try_user_id_to_recipient(&id), Ok(Recipient::Contact(UUID_N)));
    let other = conversation_user_id(&Thread::Contact(BOT), UUID_N);
    assert_eq!(try_user_id_to_recipient(&other), Ok(Recipient::Contact(BOT)));
    assert_eq!(try_user_id_to_recipient(&UUID.to_uppercase()), Ok(Recipient::Contact(UUID_N)));
}

#[test]
fn only_decoded_pointers_are_kept() {
    assert_eq!(decoded_pointers(vec![Some(1), None, Some(3)]), vec![1, 3]);
    assert_eq!(decoded_pointers::<u8>(vec![]), Vec::<u8>::new());
}

fn message(user: Option<&str>, text: &str) -> Json {
    let mut content = vec![("text", s(text))];
    if let Some(u) = user {
        content.push(("client", obj(vec![("user_id", s(u))])));
    }
    obj(vec![("payload", obj(vec![("content", obj(content))]))])
}

#[test]
fn reply_sets_the_timer_first_then_sends_and_counts() {
    let res = obj(vec![("messages", arr(vec![message(None, "one"), message(None, "two")])), ("deleted", b(true))]);
    let plan = reply_plan(Some((UUID_N, 60)), &res, UUID);
    assert_eq!(plan.error, None);
    assert_eq!(plan.steps.len(), 6);
    assert_eq!(plan.steps[0], ReplyStep::SetTimer { contact: UUID_N, timer: 60 });
    assert_eq!(
        plan.steps[1],
        ReplyStep::Send { recipient: Recipient::Contact(UUID_N), text: "one".to_owned(), attachments: vec![] }
    );
    assert_eq!(plan.steps[2], ReplyStep::CountSent);
    assert!(matches!(&plan.steps[3], ReplyStep::Send { text, .. } if text == "two"));
    assert_eq!(plan.steps[4], ReplyStep::CountSent);
    assert_eq!(plan.steps[5], ReplyStep::Purge);
}

#[test]
fn reply_stops_at_a_message_without_recipient() {
    let res = obj(vec![("messages", arr(vec![message(None, "one"), message(Some("nobody"), "two")])), ("deleted", b(true))]);
    let plan = reply_plan(None, &res, UUID);
    assert_eq!(plan.error, Some(BitpartError::InvalidRecipient));
    assert_eq!(plan.steps.len(), 2);
    let bad = obj(vec![("messages", s("x"))]);
    let plan = reply_plan(Some((UUID_N, 5)), &bad, UUID);
    assert_eq!(plan.steps, vec![ReplyStep::SetTimer { contact: UUID_N, timer: 5 }]);
    assert_eq!(plan.error, Some(BitpartError::Signal("Got invalid message from interpreter".to_owned())));
    let empty = reply_plan(None, &obj(vec![]), UUID);
    assert_eq!((empty.steps.len(), empty.error), (0, None));
}
