//! Bots, their conversation flows, and the choice of the flow that an
//! incoming event starts.
use vstd::prelude::*;

use rand::Rng;

use crate::error::BitpartError;
use crate::event::Event;
use crate::text::{chars_of, str_is};

verus! {

/// A conversation flow of a bot: its id, its display name, its CSML source
/// and the commands that start it.
#[derive(Debug, Clone)]
pub struct CsmlFlow {
    pub id: String,
    pub name: String,
    pub content: String,
    pub commands: Vec<String>,
}

/// A bot that a conversation may be handed over to.
#[derive(Debug, Clone)]
pub struct MultiBot {
    pub id: String,
    pub name: Option<String>,
    pub version_id: Option<String>,
}

/// A bot: its flows, the flow that new conversations start in, and the bots
/// it may hand conversations over to. Parts the library does not read are
/// kept as their JSON text.
#[derive(Debug, Clone)]
pub struct CsmlBot {
    pub id: String,
    pub name: String,
    pub apps_endpoint: Option<String>,
    pub flows: Vec<CsmlFlow>,
    pub native_components: Option<String>,
    pub custom_components: Option<String>,
    pub default_flow: String,
    pub bot_ast: Option<String>,
    pub no_interruption_delay: Option<i32>,
    pub env: Option<String>,
    pub modules: Option<String>,
    pub multibot: Option<Vec<MultiBot>>,
}

/// An event's request to jump to a given flow, and optionally a given step.
#[derive(Debug, Clone)]
pub struct FlowTrigger {
    pub flow_id: String,
    pub step_id: Option<String>,
}

/// An ASCII letter made lower case; every other character unchanged.
pub open spec fn ascii_lower(c: char) -> char {
    if 0x41 <= (c as u32) && (c as u32) <= 0x5A {
        ((c as u32) + 32) as char
    } else {
        c
    }
}

/// A text with its ASCII letters made lower case.
pub open spec fn ascii_lowercase(s: Seq<char>) -> Seq<char> {
    s.map_values(|c: char| ascii_lower(c))
}

/// Whether a flow is the one called `id`: its id or its name equals `id`,
/// ASCII case ignored.
pub open spec fn flow_called(f: CsmlFlow, id: Seq<char>) -> bool {
    ascii_lowercase(f.id@) == ascii_lowercase(id) || ascii_lowercase(f.name@) == ascii_lowercase(id)
}

/// Whether a flow is the bot's default flow: its id or its name equals the
/// default flow's name exactly.
pub open spec fn flow_is_default(f: CsmlFlow, default_flow: Seq<char>) -> bool {
    f.id@ == default_flow || f.name@ == default_flow
}

/// `i` is the first position in `flows` that satisfies `p`.
pub open spec fn first_with(flows: Seq<CsmlFlow>, i: int, p: spec_fn(CsmlFlow) -> bool) -> bool {
    &&& 0 <= i < flows.len()
    &&& p(flows[i])
    &&& forall|k: int| 0 <= k < i ==> !p(#[trigger] flows[k])
}

fn lower_char(c: char) -> (r: char)
    ensures
        r == ascii_lower(c),
{
    if c >= 'A' && c <= 'Z' {
        let b: u8 = (c as u8) + 32;
        assert((b as char) == (((c as u32) + 32) as char));
        b as char
    } else {
        c
    }
}

/// The text with its ASCII letters made lower case.
pub fn to_ascii_lowercase(s: &str) -> (r: Vec<char>)
    ensures
        r@ == ascii_lowercase(s@),
{
    let v = chars_of(s);
    let mut out: Vec<char> = Vec::new();
    let n = v.len();
    let mut i: usize = 0;
    while i < n
        invariant
            n == v.len(),
            v@ == s@,
            i <= n,
            out@ == ascii_lowercase(v@.take(i as int)),
        decreases n - i,
    {
        let c = lower_char(v[i]);
        out.push(c);
        assert(ascii_lowercase(v@.take(i as int + 1)) =~= ascii_lowercase(v@.take(i as int)).push(ascii_lower(v@[i as int])));
        i = i + 1;
    }
    assert(v@.take(n as int) =~= v@);
    out
}

/// The position of the first flow whose id or name equals `f_id`, ASCII
/// case ignored.
pub fn flow_index_by_id(f_id: &str, flows: &[CsmlFlow]) -> (r: Result<usize, BitpartError>)
    ensures
        match r {
            Ok(i) => first_with(flows@, i as int, |g: CsmlFlow| flow_called(g, f_id@)),
            Err(e) => {
                &&& forall|i: int| 0 <= i < flows@.len() ==> !flow_called(#[trigger] flows@[i], f_id@)
                &&& e is Interpreter
                &&& e->Interpreter_0@ == "Flow '"@ + f_id@ + "' does not exist"@
            },
        },
{
    let id = to_ascii_lowercase(f_id);
    let n = flows.len();
    let mut i: usize = 0;
    while i < n
        invariant
            n == flows@.len(),
            id@ == ascii_lowercase(f_id@),
            i <= n,
            forall|k: int| 0 <= k < i ==> !flow_called(#[trigger] flows@[k], f_id@),
        decreases n - i,
    {
        let fid = to_ascii_lowercase(flows[i].id.as_str());
        let fname = to_ascii_lowercase(flows[i].name.as_str());
        if crate::text::chars_eq(&fid, &id) || crate::text::chars_eq(&fname, &id) {
            assert(first_with(flows@, i as int, |g: CsmlFlow| flow_called(g, f_id@)));
            return Ok(i);
        }
        i = i + 1;
    }
    let mut msg = String::from_str("Flow '");
    msg.append(f_id);
    msg.append("' does not exist");
    Err(BitpartError::Interpreter(msg))
}

/// Retrieves a flow of a bot by an identifier: the first flow whose id or
/// name equals it, ASCII case ignored.
pub fn get_flow_by_id<'a>(f_id: &str, flows: &'a [CsmlFlow]) -> (r: Result<&'a CsmlFlow, BitpartError>)
    ensures
        match r {
            Ok(f) => exists|i: int| first_with(flows@, i, |g: CsmlFlow| flow_called(g, f_id@)) && *f == flows@[i],
            Err(e) => {
                &&& forall|i: int| 0 <= i < flows@.len() ==> !flow_called(#[trigger] flows@[i], f_id@)
                &&& e is Interpreter
                &&& e->Interpreter_0@ == "Flow '"@ + f_id@ + "' does not exist"@
            },
        },
{
    match flow_index_by_id(f_id, flows) {
        Ok(i) => Ok(&flows[i]),
        Err(e) => Err(e),
    }
}

/// Retrieves the bot's default flow: the first flow whose id or name is the
/// bot's `default_flow`.
pub fn get_default_flow(bot: &CsmlBot) -> (r: Result<&CsmlFlow, BitpartError>)
    ensures
        match r {
            Ok(f) => exists|i: int| first_with(bot.flows@, i, |g: CsmlFlow| flow_is_default(g, bot.default_flow@)) && *f == bot.flows@[i],
            Err(e) => {
                &&& forall|i: int| 0 <= i < bot.flows@.len() ==> !flow_is_default(#[trigger] bot.flows@[i], bot.default_flow@)
                &&& e == BitpartError::Interpreter(e->Interpreter_0)
                &&& e->Interpreter_0@ == "The bot's default_flow does not exist"@
            },
        },
{
    let n = bot.flows.len();
    let mut i: usize = 0;
    while i < n
        invariant
            n == bot.flows@.len(),
            i <= n,
            forall|k: int| 0 <= k < i ==> !flow_is_default(#[trigger] bot.flows@[k], bot.default_flow@),
        decreases n - i,
    {
        if bot.flows[i].id == bot.default_flow || bot.flows[i].name == bot.default_flow {
            assert(first_with(bot.flows@, i as int, |g: CsmlFlow| flow_is_default(g, bot.default_flow@)));
            return Ok(&bot.flows[i]);
        }
        i = i + 1;
    }
    Err(BitpartError::Interpreter(String::from_str("The bot's default_flow does not exist")))
}

/// Whether `pattern` compiles as a regular expression (`regex::Regex::new`)
/// and finds a match in `text` (`Regex::is_match`).
pub uninterp spec fn regex_finds(pattern: Seq<char>, text: Seq<char>) -> bool;

/// Compiles `pattern` with `regex::Regex::new` and, where it compiles, tells
/// whether it matches somewhere in `text` (`Regex::is_match`); false where
/// it does not compile. The result is claimed to depend on the two texts
/// alone; nothing else is claimed of it.
#[verifier::external_body]
fn regex_match(pattern: &str, text: &str) -> (r: bool)
    ensures
        r == regex_finds(pattern@, text@),
{
    match regex::Regex::new(pattern) {
        Ok(re) => re.is_match(text),
        Err(_) => false,
    }
}

/// A text in lower case as `str::to_lowercase` writes it (Unicode case
/// mapping).
pub uninterp spec fn unicode_lowercase(text: Seq<char>) -> Seq<char>;

/// The text in lower case (`str::to_lowercase`). The result is claimed to
/// depend on the text alone; nothing else is claimed of it.
#[verifier::external_body]
fn lowercase(text: &str) -> (r: String)
    ensures
        r@ == unicode_lowercase(text@),
{
    text.to_lowercase()
}

/// A number picked at random below `n` (`rand::thread_rng().gen_range`).
/// Nothing is claimed of which one.
#[verifier::external_body]
fn random_index(n: usize) -> (r: usize)
    requires
        n > 0,
    ensures
        r < n,
{
    rand::thread_rng().gen_range(0..n)
}

/// Whether one of the flow's commands, as a regular expression `pattern`,
/// matches.
pub open spec fn regex_starts(f: CsmlFlow, pattern: Seq<char>) -> bool {
    exists|j: int| 0 <= j < f.commands@.len() && regex_finds(pattern, (#[trigger] f.commands@[j])@)
}

/// Whether one of the flow's commands equals `value`, case ignored.
pub open spec fn command_starts(f: CsmlFlow, value: Seq<char>) -> bool {
    exists|j: int| 0 <= j < f.commands@.len() && unicode_lowercase((#[trigger] f.commands@[j])@) == unicode_lowercase(value)
}

/// Commands are matched with case ignored on both sides: a value starts
/// the same flows as any value that differs from it only in letter case
/// (the same text in lower case), and a command typed exactly as the flow
/// lists it always starts that flow.
pub proof fn lemma_commands_ignore_case(f: CsmlFlow, value: Seq<char>, other: Seq<char>)
    ensures
        unicode_lowercase(value) == unicode_lowercase(other) ==> (command_starts(f, value) <==> command_starts(f, other)),
        (exists|j: int| 0 <= j < f.commands@.len() && (#[trigger] f.commands@[j])@ == value) ==> command_starts(f, value),
{
    if exists|j: int| 0 <= j < f.commands@.len() && (#[trigger] f.commands@[j])@ == value {
        let j = choose|j: int| 0 <= j < f.commands@.len() && (#[trigger] f.commands@[j])@ == value;
        assert(unicode_lowercase(f.commands@[j]@) == unicode_lowercase(value));
    }
}

/// Whether `f` is started by `event`: by regex for regex events, by command
/// otherwise.
pub open spec fn flow_started_by(f: CsmlFlow, event: Event) -> bool {
    if event.content_type@ == "regex"@ {
        regex_starts(f, event.content_value@)
    } else {
        command_starts(f, event.content_value@)
    }
}

fn flow_matches_event(f: &CsmlFlow, event: &Event, is_regex: bool, value_lower: &String) -> (r: bool)
    requires
        is_regex == (event.content_type@ == "regex"@),
        value_lower@ == unicode_lowercase(event.content_value@),
    ensures
        r == flow_started_by(*f, *event),
{
    let n = f.commands.len();
    let mut j: usize = 0;
    while j < n
        invariant
            n == f.commands@.len(),
            is_regex == (event.content_type@ == "regex"@),
            value_lower@ == unicode_lowercase(event.content_value@),
            j <= n,
            is_regex ==> forall|k: int| 0 <= k < j ==> !regex_finds(event.content_value@, (#[trigger] f.commands@[k])@),
            !is_regex ==> forall|k: int|
                0 <= k < j ==> unicode_lowercase((#[trigger] f.commands@[k])@) != unicode_lowercase(event.content_value@),
        decreases n - j,
    {
        if is_regex {
            if regex_match(event.content_value.as_str(), f.commands[j].as_str()) {
                return true;
            }
        } else {
            let c = lowercase(f.commands[j].as_str());
            if c == *value_lower {
                return true;
            }
        }
        j = j + 1;
    }
    false
}

/// The outcome of looking for the flow that an event starts: the flow and
/// step to go to, or why there is none; and whether the conversation's hold
/// position is to be cleared.
#[derive(Debug)]
pub struct FlowSearch<'a> {
    pub found: Result<(&'a CsmlFlow, String), BitpartError>,
    pub clear_hold: bool,
}

/// Finds the flow that `event` starts, and its first step.
///
/// A flow trigger (whose content, read as a `FlowTrigger`, is `trigger`)
/// goes to the named flow and step (step `start` where none is named), or to
/// the default flow's `start` where no flow has that name; it always clears
/// the hold position. Any other event goes to the `start` step of one of the
/// flows that it starts (picked at random where several are), and clears the
/// hold position when there is one; a regex event starts the flows one of
/// whose commands its pattern matches, any other event the flows one of
/// whose commands equals its value, case ignored.
pub fn search_flow<'a>(event: &Event, trigger: Option<&FlowTrigger>, bot: &'a CsmlBot) -> (r: FlowSearch<'a>)
    ensures
        event.content_type@ == "flow_trigger"@ ==> {
            &&& r.clear_hold
            &&& match trigger {
                None => r.found == Err::<(&CsmlFlow, String), BitpartError>(BitpartError::Serde),
                Some(t) => if exists|i: int| 0 <= i < bot.flows@.len() && flow_called(#[trigger] bot.flows@[i], t.flow_id@) {
                    r.found is Ok && flow_called(*r.found->Ok_0.0, t.flow_id@)
                        && (exists|i: int| first_with(bot.flows@, i, |g: CsmlFlow| flow_called(g, t.flow_id@)) && *r.found->Ok_0.0 == bot.flows@[i])
                        && r.found->Ok_0.1@ == match t.step_id {
                            Some(s) => s@,
                            None => "start"@,
                        }
                } else if exists|i: int| 0 <= i < bot.flows@.len() && flow_called(#[trigger] bot.flows@[i], bot.default_flow@) {
                    r.found is Ok && (exists|i: int| first_with(bot.flows@, i, |g: CsmlFlow| flow_called(g, bot.default_flow@)) && *r.found->Ok_0.0 == bot.flows@[i])
                        && r.found->Ok_0.1@ == "start"@
                } else {
                    r.found is Err && r.found->Err_0 is Interpreter
                        && r.found->Err_0->Interpreter_0@ == "Flow '"@ + bot.default_flow@ + "' does not exist"@
                },
            }
        },
        event.content_type@ != "flow_trigger"@ ==> {
            &&& r.clear_hold == r.found is Ok
            &&& match r.found {
                Ok((f, step)) => step@ == "start"@ && exists|i: int|
                    0 <= i < bot.flows@.len() && flow_started_by(#[trigger] bot.flows@[i], *event) && *f == bot.flows@[i],
                Err(e) => {
                    &&& forall|i: int| 0 <= i < bot.flows@.len() ==> !flow_started_by(#[trigger] bot.flows@[i], *event)
                    &&& e is Interpreter
                    &&& e->Interpreter_0@ == if event.content_type@ == "regex"@ {
                        "no match found for regex: "@ + event.content_value@
                    } else {
                        "Flow '"@ + event.content_value@ + "' does not exist"@
                    }
                },
            }
        },
        event.content_type@ != "flow_trigger"@ && event.content_type@ != "regex"@ && (exists|i: int, j: int|
            0 <= i < bot.flows@.len() && 0 <= j < bot.flows@[i].commands@.len() && unicode_lowercase(
                (#[trigger] bot.flows@[i].commands@[j])@,
            ) == unicode_lowercase(event.content_value@)) ==> r.found is Ok && r.clear_hold,
        event.content_type@ != "flow_trigger"@ && event.content_type@ != "regex"@ && (exists|i: int, j: int|
            0 <= i < bot.flows@.len() && 0 <= j < bot.flows@[i].commands@.len() && (#[trigger] bot.flows@[i].commands@[j])@
                == event.content_value@) ==> r.found is Ok && r.clear_hold,
{
    if str_is(event.content_type.as_str(), "flow_trigger") {
        let found = match trigger {
            None => Err(BitpartError::Serde),
            Some(t) => match get_flow_by_id(t.flow_id.as_str(), bot.flows.as_slice()) {
                Ok(f) => {
                    let step = match &t.step_id {
                        Some(s) => s.clone(),
                        None => String::from_str("start"),
                    };
                    Ok((f, step))
                },
                Err(_) => match get_flow_by_id(bot.default_flow.as_str(), bot.flows.as_slice()) {
                    Ok(f) => Ok((f, String::from_str("start"))),
                    Err(e) => Err(e),
                },
            },
        };
        return FlowSearch { found, clear_hold: true };
    }
    let is_regex = str_is(event.content_type.as_str(), "regex");
    let value_lower = lowercase(event.content_value.as_str());
    let mut candidates: Vec<usize> = Vec::new();
    let n = bot.flows.len();
    let mut i: usize = 0;
    while i < n
        invariant
            n == bot.flows@.len(),
            is_regex == (event.content_type@ == "regex"@),
            value_lower@ == unicode_lowercase(event.content_value@),
            i <= n,
            forall|k: int| 0 <= k < candidates@.len() ==> (#[trigger] candidates@[k]) < n && flow_started_by(bot.flows@[candidates@[k] as int], *event),
            forall|k: int| 0 <= k < i && flow_started_by(#[trigger] bot.flows@[k], *event) ==> candidates@.len() > 0,
        decreases n - i,
    {
        if flow_matches_event(&bot.flows[i], event, is_regex, &value_lower) {
            candidates.push(i);
        }
        i = i + 1;
    }
    if candidates.len() > 0 {
        let k = random_index(candidates.len());
        let idx = candidates[k];
        FlowSearch { found: Ok((&bot.flows[idx], String::from_str("start"))), clear_hold: true }
    } else {
        let msg = if is_regex {
            let mut m = String::from_str("no match found for regex: ");
            m.append(event.content_value.as_str());
            m
        } else {
            let mut m = String::from_str("Flow '");
            m.append(event.content_value.as_str());
            m.append("' does not exist");
            m
        };
        proof {
            if !is_regex && exists|i: int, j: int|
                0 <= i < bot.flows@.len() && 0 <= j < bot.flows@[i].commands@.len() && unicode_lowercase(
                    (#[trigger] bot.flows@[i].commands@[j])@,
                ) == unicode_lowercase(event.content_value@) {
                let (i, j) = choose|i: int, j: int|
                    0 <= i < bot.flows@.len() && 0 <= j < bot.flows@[i].commands@.len() && unicode_lowercase(
                        (#[trigger] bot.flows@[i].commands@[j])@,
                    ) == unicode_lowercase(event.content_value@);
                assert(command_starts(bot.flows@[i], event.content_value@));
                assert(flow_started_by(bot.flows@[i], *event));
            }
        }
        FlowSearch { found: Err(BitpartError::Interpreter(msg)), clear_hold: false }
    }
}

} // verus!
