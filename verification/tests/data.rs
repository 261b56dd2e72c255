use bitpart::data::{search_bot, version_expire_timer, BotLookup, BotOpt, Request};
use bitpart::error::BitpartError;
use bitpart::event::{Client, SerializedEvent};
use bitpart::flows::{CsmlBot, MultiBot};
use bitpart::json::{Json, JsonValue};

fn event() -> SerializedEvent {
    SerializedEvent {
        id: "e".to_owned(),
        client: Client { bot_id: "b".to_owned(), channel_id: "c".to_owned(), user_id: "u".to_owned() },
        metadata: Json { value: JsonValue::Null, text: "null".to_owned() },
        payload: Json { value: JsonValue::Null, text: "null".to_owned() },
        step_limit: None,
        callback_url: None,
    }
}

fn bot(id: &str) -> CsmlBot {
    CsmlBot {
        id: id.to_owned(),
        name: "Bot".to_owned(),
        apps_endpoint: Some("old".to_owned()),
        flows: vec![],
        native_components: None,
        custom_components: None,
        default_flow: "Default".to_owned(),
        bot_ast: None,
        no_interruption_delay: None,
        env: None,
        modules: None,
        multibot: None,
    }
}

fn multibot() -> Option<Vec<MultiBot>> {
    Some(vec![MultiBot { id: "other".to_owned(), name: None, version_id: None }])
}

fn request(bot_: Option<CsmlBot>, bot_id: Option<&str>, version_id: Option<&str>) -> Request {
    Request {
        bot: bot_,
        bot_id: bot_id.map(|s| s.to_owned()),
        version_id: version_id.map(|s| s.to_owned()),
        apps_endpoint: Some("endpoint".to_owned()),
        multibot: multibot(),
        event: event(),
    }
}

#[test]
fn bot_given_in_full_comes_first() {
    match request(Some(bot("given")), Some("id"), Some("v")).get_bot_opt().unwrap() {
        BotOpt::CsmlBot(b) => {
            assert_eq!(b.id, "given");
            assert_eq!(b.multibot.unwrap()[0].id, "other");
        }
        other => panic!("unexpected {other:?}"),
    }
}

#[test]
fn version_and_bot_id_name_a_version() {
    let opt = request(None, Some("id"), Some("v")).get_bot_opt().unwrap();
    assert!(matches!(opt.lookup(), BotLookup::Version(v) if v == "v"));
    let found = opt.search_bot(Some(bot("stored"))).unwrap();
    assert_eq!(found.id, "stored");
    assert_eq!(found.apps_endpoint.as_deref(), Some("endpoint"));
    assert_eq!(found.multibot.unwrap()[0].id, "other");
}

#[test]
fn bot_id_names_its_latest_version() {
    let opt = request(None, Some("id"), None).get_bot_opt().unwrap();
    assert!(matches!(opt.lookup(), BotLookup::Latest(b) if b == "id"));
    assert_eq!(opt.search_bot(None).unwrap_err(), BitpartError::Manager("bot (id) not found in db".to_owned()));
}

#[test]
fn missing_version_is_reported() {
    let opt = request(None, Some("id"), Some("v7")).get_bot_opt().unwrap();
    assert_eq!(
        opt.search_bot(None).unwrap_err(),
        BitpartError::Manager("bot version (v7) not found in db".to_owned())
    );
}

#[test]
fn request_without_bot_is_refused() {
    let e = request(None, None, Some("v")).get_bot_opt();
    assert_eq!(e.unwrap_err(), BitpartError::Interpreter("Invalid bot_opt format".to_owned()));
}

#[test]
fn given_bot_needs_no_lookup() {
    let opt = request(Some(bot("given")), None, None).get_bot_opt().unwrap();
    assert!(matches!(opt.lookup(), BotLookup::Given));
    assert_eq!(opt.search_bot(None).unwrap().id, "given");
}

#[test]
fn stored_bot_is_used_as_stored() {
    let opt = request(None, Some("id"), None).get_bot_opt().unwrap();
    let found = search_bot(opt, Some(bot("stored"))).unwrap();
    assert_eq!(found.apps_endpoint.as_deref(), Some("old"));
    assert!(found.multibot.is_none());
    let opt = request(None, Some("id"), Some("v3")).get_bot_opt().unwrap();
    assert_eq!(
        search_bot(opt, None).unwrap_err(),
        BitpartError::Interpreter("bot version (v3) not found in db".to_owned())
    );
    let opt = request(None, Some("id"), None).get_bot_opt().unwrap();
    assert_eq!(search_bot(opt, None).unwrap_err(), BitpartError::Interpreter("bot (id) not found in db".to_owned()));
}

#[test]
fn new_versions_keep_or_change_the_expire_timer() {
    assert_eq!(version_expire_timer(Some(604800), None), Some(604800));
    assert_eq!(version_expire_timer(Some(604800), Some(60)), Some(60));
    assert_eq!(version_expire_timer(Some(604800), Some(0)), None);
    assert_eq!(version_expire_timer(None, None), None);
    assert_eq!(version_expire_timer(None, Some(30)), Some(30));
}
