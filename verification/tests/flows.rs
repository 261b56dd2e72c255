use bitpart::error::BitpartError;
use bitpart::event::Event;
use bitpart::flows::{
    get_default_flow, get_flow_by_id, search_flow, to_ascii_lowercase, CsmlBot, CsmlFlow, FlowTrigger,
};
use bitpart::json::{Json, JsonValue};

fn flow(id: &str, name: &str, commands: &[&str]) -> CsmlFlow {
    CsmlFlow {
        id: id.to_owned(),
        name: name.to_owned(),
        content: String::new(),
        commands: commands.iter().map(|c| c.to_string()).collect(),
    }
}

fn bot(default_flow: &str) -> CsmlBot {
    CsmlBot {
        id: "bot".to_owned(),
        name: "Bot".to_owned(),
        apps_endpoint: None,
        flows: vec![
            flow("id-1", "Default", &["/start"]),
            flow("id-2", "Weather", &["/Weather", "forecast"]),
            flow("id-3", "News", &["/news"]),
        ],
        native_components: None,
        custom_components: None,
        default_flow: default_flow.to_owned(),
        bot_ast: None,
        no_interruption_delay: None,
        env: None,
        modules: None,
        multibot: None,
    }
}

fn event(content_type: &str, value: &str) -> Event {
    Event {
        content_type: content_type.to_owned(),
        content_value: value.to_owned(),
        content: Json { value: JsonValue::Null, text: "null".to_owned() },
        ttl_duration: None,
        low_data_mode: None,
        step_limit: None,
        secure: true,
    }
}

#[test]
fn ascii_lowercase_leaves_other_characters() {
    assert_eq!(to_ascii_lowercase("HeLLo Ä1"), "hello Ä1".chars().collect::<Vec<_>>());
}

#[test]
fn flows_are_found_by_id_or_name_case_insensitively() {
    let b = bot("Default");
    assert_eq!(get_flow_by_id("WEATHER", &b.flows).unwrap().id, "id-2");
    assert_eq!(get_flow_by_id("id-3", &b.flows).unwrap().name, "News");
    assert_eq!(
        get_flow_by_id("sports", &b.flows).unwrap_err(),
        BitpartError::Interpreter("Flow 'sports' does not exist".to_owned())
    );
}

#[test]
fn default_flow_is_matched_exactly() {
    assert_eq!(get_default_flow(&bot("Default")).unwrap().id, "id-1");
    assert_eq!(get_default_flow(&bot("id-3")).unwrap().name, "News");
    assert_eq!(
        get_default_flow(&bot("default")).unwrap_err(),
        BitpartError::Interpreter("The bot's default_flow does not exist".to_owned())
    );
}

#[test]
fn flow_trigger_goes_to_named_flow_and_step() {
    let b = bot("Default");
    let t = FlowTrigger { flow_id: "news".to_owned(), step_id: Some("latest".to_owned()) };
    let r = search_flow(&event("flow_trigger", "{}"), Some(&t), &b);
    assert!(r.clear_hold);
    let (f, step) = r.found.unwrap();
    assert_eq!((f.id.as_str(), step.as_str()), ("id-3", "latest"));

    let t = FlowTrigger { flow_id: "news".to_owned(), step_id: None };
    let (f, step) = search_flow(&event("flow_trigger", "{}"), Some(&t), &b).found.unwrap();
    assert_eq!((f.id.as_str(), step.as_str()), ("id-3", "start"));
}

#[test]
fn flow_trigger_to_unknown_flow_goes_to_default() {
    let b = bot("Default");
    let t = FlowTrigger { flow_id: "sports".to_owned(), step_id: Some("x".to_owned()) };
    let (f, step) = search_flow(&event("flow_trigger", "{}"), Some(&t), &b).found.unwrap();
    assert_eq!((f.id.as_str(), step.as_str()), ("id-1", "start"));

    let nb = bot("Missing");
    let r = search_flow(&event("flow_trigger", "{}"), Some(&t), &nb);
    assert_eq!(r.found.unwrap_err(), BitpartError::Interpreter("Flow 'Missing' does not exist".to_owned()));
    let r = search_flow(&event("flow_trigger", "{}"), None, &b);
    assert!(r.clear_hold);
    assert_eq!(r.found.unwrap_err(), BitpartError::Serde);
}

#[test]
fn commands_start_flows_case_insensitively() {
    let b = bot("Default");
    let r = search_flow(&event("text", "/weather"), None, &b);
    assert!(r.clear_hold);
    let (f, step) = r.found.unwrap();
    assert_eq!((f.id.as_str(), step.as_str()), ("id-2", "start"));

    let r = search_flow(&event("text", "hello"), None, &b);
    assert!(!r.clear_hold);
    assert_eq!(r.found.unwrap_err(), BitpartError::Interpreter("Flow 'hello' does not exist".to_owned()));
}

#[test]
fn regex_events_match_commands() {
    let b = bot("Default");
    let (f, _) = search_flow(&event("regex", "^fore"), None, &b).found.unwrap();
    assert_eq!(f.id, "id-2");
    let r = search_flow(&event("regex", "^zzz"), None, &b);
    assert_eq!(r.found.unwrap_err(), BitpartError::Interpreter("no match found for regex: ^zzz".to_owned()));
}

#[test]
fn several_matching_flows_pick_one_of_them() {
    let mut b = bot("Default");
    b.flows.push(flow("id-4", "Weather2", &["FORECAST"]));
    for _ in 0..20 {
        let (f, _) = search_flow(&event("text", "forecast"), None, &b).found.unwrap();
        assert!(f.id == "id-2" || f.id == "id-4");
    }
}
