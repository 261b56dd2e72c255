use bitpart::error::BitpartError;
use bitpart::flows::{CsmlBot, CsmlFlow, MultiBot};
use bitpart::event::Client;
use bitpart::interpret::{messages_formatter, find_next_bot, ContextStepInfo, InterpreterMessage, Memory, Settle, StepAction, StepState};

type Msg = InterpreterMessage<String, u32, i64>;

fn flow(id: &str, name: &str) -> CsmlFlow {
    CsmlFlow { id: id.to_owned(), name: name.to_owned(), content: String::new(), commands: vec![] }
}

fn bot(multibot: Option<Vec<MultiBot>>) -> CsmlBot {
    CsmlBot {
        id: "bot".to_owned(),
        name: "Bot".to_owned(),
        apps_endpoint: None,
        flows: vec![flow("id-1", "Default"), flow("id-2", "Weather")],
        native_components: None,
        custom_components: None,
        default_flow: "Default".to_owned(),
        bot_ast: None,
        no_interruption_delay: None,
        env: None,
        modules: None,
        multibot,
    }
}

fn start(b: &CsmlBot) -> StepState<i64, u32> {
    StepState::start("Default".to_owned(), ContextStepInfo::Normal("start".to_owned()), None, b).unwrap()
}

fn mem(key: &str, value: i64) -> Msg {
    Msg::Remember(Memory { key: key.to_owned(), value })
}

fn recall(s: &StepState<i64, u32>, key: &str) -> Option<i64> {
    s.memories().iter().find(|m| m.key == key).map(|m| m.value)
}

#[test]
fn step_starts_in_the_named_flow() {
    let b = bot(None);
    let s = start(&b);
    assert_eq!(s.flow(), "Default");
    assert_eq!(s.current_flow(&b).id, "id-1");
    assert_eq!(s.interaction_order(), 0);
    assert!(!s.conversation_end());
    assert!(s.memories().is_empty());
    assert!(s.switch_bot().is_none());
    let e = StepState::<i64, u32>::start("nope".to_owned(), ContextStepInfo::Normal("start".to_owned()), None, &b);
    assert_eq!(e.unwrap_err(), BitpartError::Interpreter("Flow 'nope' does not exist".to_owned()));
}

#[test]
fn remembered_values_are_recalled() {
    let b = bot(None);
    let mut s = start(&b);
    let out = s.handle_message(mem("a", 1), &b);
    assert!(out.actions.is_empty());
    s.handle_message(mem("b", 2), &b);
    s.handle_message(mem("a", 3), &b);
    assert_eq!(recall(&s, "a"), Some(3));
    assert_eq!(recall(&s, "b"), Some(2));
    assert_eq!(s.memories().len(), 2);
}

#[test]
fn forgetting_removes_memories() {
    let b = bot(None);
    let mut s = start(&b);
    s.handle_message(mem("a", 1), &b);
    s.handle_message(mem("b", 2), &b);
    s.handle_message(mem("c", 3), &b);
    let out = s.handle_message(Msg::ForgetOne("a".to_owned()), &b);
    assert!(matches!(out.actions.as_slice(), [StepAction::ForgetMemory(k)] if k == "a"));
    assert!(out.failure_is_fatal);
    assert_eq!(recall(&s, "a"), None);
    assert_eq!(recall(&s, "b"), Some(2));
    let out = s.handle_message(Msg::ForgetList(vec!["b".to_owned(), "z".to_owned()]), &b);
    assert_eq!(out.actions.len(), 2);
    assert_eq!(recall(&s, "b"), None);
    assert_eq!(recall(&s, "c"), Some(3));
    let out = s.handle_message(Msg::ForgetAll, &b);
    assert!(matches!(out.actions.as_slice(), [StepAction::ForgetAllMemories]));
    assert!(s.memories().is_empty());
}

#[test]
fn messages_are_delivered_with_the_interaction_order() {
    let b = bot(None);
    let mut s = start(&b);
    let out = s.handle_message(Msg::Message("hi".to_owned()), &b);
    assert!(matches!(
        out.actions.as_slice(),
        [StepAction::Deliver { message, interaction_order: 0, end: false }] if message == "hi"
    ));
    let out = s.handle_message(Msg::Shout("all".to_owned()), &b);
    assert!(matches!(out.actions.as_slice(), [StepAction::Shout { interaction_order: 0, .. }]));
    let out = s.handle_message(Msg::Log, &b);
    assert!(out.actions.is_empty());
}

#[test]
fn hold_is_stored() {
    let b = bot(None);
    let mut s = start(&b);
    let out = s.handle_message(Msg::Hold(7), &b);
    assert!(matches!(out.actions.as_slice(), [StepAction::StoreHold]));
    assert_eq!(*s.hold(), Some(7));
}

#[test]
fn error_ends_the_conversation() {
    let b = bot(None);
    let mut s = start(&b);
    let out = s.handle_message(Msg::Error("boom".to_owned()), &b);
    assert!(matches!(
        out.actions.as_slice(),
        [StepAction::Deliver { end: true, .. }, StepAction::CloseConversation]
    ));
    assert!(s.conversation_end());
}

#[test]
fn jump_to_end_ends_the_loop() {
    let b = bot(None);
    let mut s = start(&b);
    let out = s.handle_message(Msg::Next { flow: None, step: None, bot: None }, &b);
    assert!(matches!(
        out.actions.as_slice(),
        [StepAction::NotifyEnd { interaction_order: 0 }, StepAction::CloseConversation]
    ));
    assert!(s.conversation_end());
    assert!(s.settle(out.on_success));
}

#[test]
fn jump_to_step_moves_to_next_interaction() {
    let b = bot(None);
    let mut s = start(&b);
    let out = s.handle_message(
        Msg::Next { flow: None, step: Some(ContextStepInfo::Normal("ask".to_owned())), bot: None },
        &b,
    );
    assert!(matches!(
        out.actions.as_slice(),
        [StepAction::UpdateConversation { flow_id: None, step }] if step == "ask"
    ));
    assert_eq!(s.step().get_step(), "ask");
    assert!(!s.settle(out.on_success));
    assert_eq!(s.interaction_order(), 1);
}

#[test]
fn jump_to_flow_changes_current_flow() {
    let b = bot(None);
    let mut s = start(&b);
    let out = s.handle_message(Msg::Next { flow: Some("weather".to_owned()), step: None, bot: None }, &b);
    assert!(matches!(
        out.actions.as_slice(),
        [StepAction::LoadMemoriesIntoContext, StepAction::UpdateConversation { flow_id: Some(id), step }]
            if id == "id-2" && step == "start"
    ));
    assert_eq!(s.flow(), "weather");
    assert_eq!(s.current_flow(&b).id, "id-2");
    assert!(s.step().is_step("start"));
    assert!(matches!(out.on_success, Settle::NextInteraction));
}

#[test]
fn jump_to_unknown_flow_only_loads_memories() {
    let b = bot(None);
    let mut s = start(&b);
    let out = s.handle_message(Msg::Next { flow: Some("nope".to_owned()), step: None, bot: None }, &b);
    assert!(matches!(out.actions.as_slice(), [StepAction::LoadMemoriesIntoContext]));
    assert_eq!(s.flow(), "Default");
    assert!(matches!(out.on_success, Settle::Nothing));
}

#[test]
fn switching_bot_needs_permission() {
    let b = bot(None);
    let mut s = start(&b);
    let out = s.handle_message(Msg::Next { flow: None, step: None, bot: Some("other".to_owned()) }, &b);
    assert!(matches!(out.actions.as_slice(), [StepAction::RefuseSwitch { target, .. }] if target == "other"));
    assert!(!s.settle(out.on_success));
    assert!(s.switch_bot().is_none());
}

#[test]
fn switching_to_allowed_bot_hands_over() {
    let bots = vec![MultiBot { id: "b2".to_owned(), name: Some("Helper".to_owned()), version_id: Some("v9".to_owned()) }];
    let b = bot(Some(bots));
    let mut s = start(&b);
    let out = s.handle_message(Msg::Next { flow: None, step: None, bot: Some("Helper".to_owned()) }, &b);
    assert!(matches!(
        out.actions.as_slice(),
        [StepAction::AnnounceSwitch { bot_id, .. }, StepAction::CloseConversation, StepAction::SetPreviousBot { next_bot_id, flow, .. }]
            if bot_id == "b2" && next_bot_id == "b2" && flow == "Default"
    ));
    assert!(s.settle(out.on_success));
    let sb = s.switch_bot().clone().unwrap();
    assert_eq!(sb.bot_id, "b2");
    assert_eq!(sb.version_id.as_deref(), Some("v9"));
    assert_eq!(sb.step, "start");
}

#[test]
fn next_bot_is_found_by_id_or_name() {
    let bots = Some(vec![
        MultiBot { id: "b1".to_owned(), name: None, version_id: None },
        MultiBot { id: "b2".to_owned(), name: Some("b1".to_owned()), version_id: None },
    ]);
    assert_eq!(find_next_bot(&bots, "b1").unwrap().id, "b1");
    assert_eq!(find_next_bot(&bots, "b2").unwrap().id, "b2");
    assert!(find_next_bot(&bots, "b3").is_none());
    assert!(find_next_bot(&None, "b1").is_none());
}

#[test]
fn step_names_and_copies() {
    let s = ContextStepInfo::InsertedStep { step: "greet".to_owned(), flow: "Lib".to_owned() };
    assert_eq!(s.get_step(), "greet");
    assert!(s.is_step("greet"));
    assert!(!s.is_step("Lib"));
    assert!(ContextStepInfo::Normal("greet".to_owned()).is_step("greet"));
    assert_eq!(s.copy().get_step(), "greet");
}

fn client() -> Client {
    Client { bot_id: "bot".to_owned(), channel_id: "signal".to_owned(), user_id: "u1".to_owned() }
}

#[test]
fn formatter_tags_each_message() {
    let r = messages_formatter(vec!["a".to_owned(), "b".to_owned()], 3, true, "conv", "req", "2025-01-01T00:00:00.000Z", &client());
    assert_eq!(r.messages.len(), 2);
    assert_eq!(r.messages[1].payload, "b");
    assert_eq!(r.messages[0].interaction_order, 3);
    assert_eq!(r.messages[0].conversation_id, "conv");
    assert_eq!(r.messages[0].direction, "SEND");
    assert!(r.conversation_end);
    assert_eq!(r.request_id, "req");
    assert_eq!(r.received_at, "2025-01-01T00:00:00.000Z");
    assert_eq!((r.client.bot_id.as_str(), r.client.channel_id.as_str(), r.client.user_id.as_str()), ("bot", "signal", "u1"));
}

#[test]
fn finishing_a_run_keeps_memories_and_the_end() {
    let b = bot(None);
    let mut s = start(&b);
    s.handle_message(mem("a", 1), &b);
    s.handle_message(mem("b", 2), &b);
    s.handle_message(Msg::ForgetOne("a".to_owned()), &b);
    let out = s.handle_message(Msg::Next { flow: None, step: Some(ContextStepInfo::Normal("ask".to_owned())), bot: None }, &b);
    s.settle(out.on_success);
    let out = s.handle_message(Msg::Next { flow: None, step: None, bot: None }, &b);
    assert!(s.settle(out.on_success));
    let run = s.finish(vec!["hi".to_owned()], "conv", "req", "now", &client());
    assert!(run.result.conversation_end);
    assert_eq!(run.result.messages[0].interaction_order, 1);
    assert_eq!(run.memories.len(), 1);
    assert_eq!(run.memories[0].key, "b");
    assert!(run.switch_bot.is_none());
}
