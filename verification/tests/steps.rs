use bitpart::error::BitpartError;
use bitpart::flows::{CsmlBot, CsmlFlow};
use bitpart::interpret::ContextStepInfo;
use bitpart::steps::{current_step_source, step_hash};

fn flow(id: &str, name: &str) -> CsmlFlow {
    CsmlFlow { id: id.to_owned(), name: name.to_owned(), content: format!("start: say \"{name}\""), commands: vec![] }
}

fn bot() -> CsmlBot {
    CsmlBot {
        id: "bot".to_owned(),
        name: "Bot".to_owned(),
        apps_endpoint: None,
        flows: vec![flow("f-main", "Main"), flow("f-other", "Other"), flow("f-lib", "Lib")],
        native_components: None,
        custom_components: None,
        default_flow: "Main".to_owned(),
        bot_ast: None,
        no_interruption_delay: None,
        env: None,
        modules: None,
        multibot: None,
    }
}

fn names(v: &[&str]) -> Vec<String> {
    v.iter().map(|s| s.to_string()).collect()
}

fn interp(msg: &str) -> BitpartError {
    BitpartError::Interpreter(msg.to_owned())
}

#[test]
fn step_hash_is_md5_in_hex() {
    assert_eq!(step_hash(""), "d41d8cd98f00b204e9800998ecf8427e");
    assert_eq!(step_hash("hello"), "5d41402abc4b2a76b9719d911017c592");
}

#[test]
fn normal_step_reads_its_own_flow() {
    let b = bot();
    let ast = names(&["Other", "Main"]);
    let s = current_step_source(&ContextStepInfo::Normal("start".to_owned()), "Other", &b, Some(&ast), None).unwrap();
    assert_eq!(s.raw_flow, 1);
    assert_eq!(s.ast_flow, "Other");
    let s = current_step_source(&ContextStepInfo::Normal("start".to_owned()), "other", &b, Some(&ast), None).unwrap();
    assert_eq!(s.raw_flow, 1);
    assert_eq!(s.ast_flow, "Main");
}

#[test]
fn normal_step_falls_back_to_default_compiled_flow() {
    let b = bot();
    let ast = names(&["Main"]);
    let s = current_step_source(&ContextStepInfo::Normal("start".to_owned()), "Other", &b, Some(&ast), None).unwrap();
    assert_eq!(s.raw_flow, 1);
    assert_eq!(s.ast_flow, "Main");
    let none = names(&["Lib"]);
    let e = current_step_source(&ContextStepInfo::Normal("start".to_owned()), "Other", &b, Some(&none), None);
    assert_eq!(e.unwrap_err(), interp("Error falling back to default flow"));
}

#[test]
fn missing_flow_or_ast_is_an_error() {
    let b = bot();
    let ast = names(&["Main"]);
    let e = current_step_source(&ContextStepInfo::Normal("start".to_owned()), "nope", &b, Some(&ast), None);
    assert_eq!(e.unwrap_err(), interp("Flow 'nope' does not exist"));
    let e = current_step_source(&ContextStepInfo::Normal("start".to_owned()), "Main", &b, None, None);
    assert_eq!(e.unwrap_err(), interp("not valid ast"));
}

#[test]
fn inserted_step_reads_the_flow_it_came_from() {
    let b = bot();
    let ast = names(&["Main", "Lib"]);
    let step = ContextStepInfo::InsertedStep { step: "greet".to_owned(), flow: "Lib".to_owned() };
    let s = current_step_source(&step, "Main", &b, Some(&ast), None).unwrap();
    assert_eq!(s.raw_flow, 2);
    assert_eq!(s.ast_flow, "Lib");
}

#[test]
fn step_of_unknown_flow_follows_insertion() {
    let b = bot();
    let ast = names(&["Main", "Other", "Lib"]);
    let step = ContextStepInfo::UnknownFlow("greet".to_owned());
    let s = current_step_source(&step, "Other", &b, Some(&ast), Some("Lib")).unwrap();
    assert_eq!((s.raw_flow, s.ast_flow.as_str()), (2, "Lib"));
    let s = current_step_source(&step, "Other", &b, Some(&ast), None).unwrap();
    assert_eq!((s.raw_flow, s.ast_flow.as_str()), (1, "Other"));
    let s = current_step_source(&step, "Other", &b, Some(&ast), Some("Gone")).unwrap();
    assert_eq!((s.raw_flow, s.ast_flow.as_str()), (1, "Main"));
    let partial = names(&["Main"]);
    let s = current_step_source(&step, "Other", &b, Some(&partial), None).unwrap();
    assert_eq!((s.raw_flow, s.ast_flow.as_str()), (1, "Main"));
}

#[test]
fn step_of_unknown_flow_needs_default_compiled_flow() {
    let b = bot();
    let ast = names(&["Other"]);
    let step = ContextStepInfo::UnknownFlow("greet".to_owned());
    let e = current_step_source(&step, "Other", &b, Some(&ast), None);
    assert_eq!(e.unwrap_err(), interp("Error falling back to default flow"));
    let mut no_default = bot();
    no_default.default_flow = "Missing".to_owned();
    let e = current_step_source(&step, "Other", &no_default, Some(&ast), None);
    assert_eq!(e.unwrap_err(), interp("The bot's default_flow does not exist"));
}
