//! The current step of a conversation: which flow its source is read from,
//! and the hash that identifies its source text.
use vstd::prelude::*;

use md5::Digest;
use vstd::string::StringSliceAdditionalSpecFns;

use crate::error::BitpartError;
use crate::flows::{first_with, flow_called, flow_index_by_id, flow_is_default, get_default_flow, CsmlBot, CsmlFlow};
use crate::interpret::ContextStepInfo;
use crate::store::{hex_lower, to_hex_lower};
use crate::text::str_is;

verus! {

/// `i` is the first position of a flow called `id` (id or name, ASCII case
/// ignored).
pub open spec fn first_called(flows: Seq<CsmlFlow>, i: int, id: Seq<char>) -> bool {
    &&& 0 <= i < flows.len()
    &&& flow_called(flows[i], id)
    &&& forall|k: int| 0 <= k < i ==> !flow_called(#[trigger] flows[k], id)
}

/// Some flow of the bot is called `id`.
pub open spec fn has_flow_called(flows: Seq<CsmlFlow>, id: Seq<char>) -> bool {
    exists|i: int| 0 <= i < flows.len() && flow_called(flows[i], id)
}

/// `i` is the position of the bot's default flow: the first flow whose id
/// or name is `default_flow`.
pub open spec fn first_default(flows: Seq<CsmlFlow>, i: int, default_flow: Seq<char>) -> bool {
    &&& 0 <= i < flows.len()
    &&& flow_is_default(flows[i], default_flow)
    &&& forall|k: int| 0 <= k < i ==> !flow_is_default(#[trigger] flows[k], default_flow)
}

/// The name of the bot's default flow, where the bot has one.
pub open spec fn default_name(bot: CsmlBot) -> Option<Seq<char>> {
    if exists|i: int| first_default(bot.flows@, i, bot.default_flow@) {
        Some(bot.flows@[choose|i: int| first_default(bot.flows@, i, bot.default_flow@)].name@)
    } else {
        None
    }
}

/// One of the names is `name`.
pub open spec fn names_have(names: Seq<String>, name: Seq<char>) -> bool {
    exists|i: int| 0 <= i < names.len() && names[i]@ == name
}

/// The message for a flow that the bot does not have.
pub open spec fn flow_missing(id: Seq<char>) -> Seq<char> {
    "Flow '"@ + id + "' does not exist"@
}

/// The compiled flow that locates a step of flow `f`: `f` itself where the
/// compiled bot has it, else the bot's default flow, which the compiled bot
/// must have.
pub open spec fn ast_or_default(names: Seq<String>, f: Seq<char>, bot: CsmlBot) -> Result<Seq<char>, Seq<char>> {
    if names_have(names, f) {
        Ok(f)
    } else {
        match default_name(bot) {
            None => Err("The bot's default_flow does not exist"@),
            Some(d) => if names_have(names, d) {
                Ok(d)
            } else {
                Err("Error falling back to default flow"@)
            },
        }
    }
}

/// Where the source of the current step is read, as the identifier of the
/// flow whose text holds it and the name of the compiled flow that locates
/// it; or the message of the error.
///
/// The text is that of the context's flow (of the flow a step was inserted
/// from, for an inserted step), which the bot must have, and the bot must
/// have a compiled form. For a step of a known or inserted flow, the
/// compiled flow is that flow, else the default one. For a step of a flow
/// not known yet, the compiled bot must have the default flow; where it has
/// the context's flow and that flow has a step of the same name inserted
/// from a flow it also has, both are read from that flow; where it has the
/// context's flow otherwise, from the context's flow; else the default
/// compiled flow locates the step in the context's flow's text.
pub open spec fn step_source_of(
    step: ContextStepInfo,
    context_flow: Seq<char>,
    bot: CsmlBot,
    ast_flows: Option<Seq<String>>,
    inserted_from: Option<Seq<char>>,
) -> Result<(Seq<char>, Seq<char>), Seq<char>> {
    let raw = match step {
        ContextStepInfo::InsertedStep { step, flow } => flow@,
        _ => context_flow,
    };
    if !has_flow_called(bot.flows@, raw) {
        Err(flow_missing(raw))
    } else {
        match ast_flows {
            None => Err("not valid ast"@),
            Some(names) => match step {
                ContextStepInfo::UnknownFlow(_) => match default_name(bot) {
                    None => Err("The bot's default_flow does not exist"@),
                    Some(d) => if !names_have(names, d) {
                        Err("Error falling back to default flow"@)
                    } else if names_have(names, raw) {
                        match inserted_from {
                            Some(from) => if names_have(names, from) {
                                if has_flow_called(bot.flows@, from) {
                                    Ok((from, from))
                                } else {
                                    Err(flow_missing(from))
                                }
                            } else {
                                Ok((raw, d))
                            },
                            None => Ok((raw, raw)),
                        }
                    } else {
                        Ok((raw, d))
                    },
                },
                _ => match ast_or_default(names, raw, bot) {
                    Ok(a) => Ok((raw, a)),
                    Err(e) => Err(e),
                },
            },
        }
    }
}

/// Where the source of the current step is read: the position, in the
/// bot's flows, of the flow whose text holds it, and the name of the
/// compiled flow that locates it.
#[derive(Debug, Clone)]
pub struct StepSource {
    pub raw_flow: usize,
    pub ast_flow: String,
}

fn names_contain(names: &Vec<String>, name: &str) -> (r: bool)
    ensures
        r == names_have(names@, name@),
{
    let n = names.len();
    let mut i: usize = 0;
    while i < n
        invariant
            n == names.len(),
            i <= n,
            forall|k: int| 0 <= k < i ==> names@[k]@ != name@,
        decreases n - i,
    {
        if str_is(names[i].as_str(), name) {
            return true;
        }
        i = i + 1;
    }
    false
}

fn default_flow_name(bot: &CsmlBot) -> (r: Result<String, BitpartError>)
    ensures
        match r {
            Ok(d) => default_name(*bot) == Some(d@),
            Err(e) => default_name(*bot) is None && e == BitpartError::Interpreter(e->Interpreter_0)
                && e->Interpreter_0@ == "The bot's default_flow does not exist"@,
        },
{
    match get_default_flow(bot) {
        Ok(f) => {
            proof {
                let i = choose|i: int|
                    first_with(bot.flows@, i, |g: CsmlFlow| flow_is_default(g, bot.default_flow@)) && *f == bot.flows@[i];
                assert(first_default(bot.flows@, i, bot.default_flow@));
                let j = choose|j: int| first_default(bot.flows@, j, bot.default_flow@);
                if j < i {
                    assert(!flow_is_default(bot.flows@[j], bot.default_flow@));
                } else if i < j {
                    assert(!flow_is_default(bot.flows@[i], bot.default_flow@));
                }
            }
            Ok(f.name.clone())
        },
        Err(e) => {
            proof {
                if exists|i: int| first_default(bot.flows@, i, bot.default_flow@) {
                    let i = choose|i: int| first_default(bot.flows@, i, bot.default_flow@);
                    assert(!flow_is_default(bot.flows@[i], bot.default_flow@));
                }
            }
            Err(e)
        },
    }
}

fn raw_flow_index(id: &str, bot: &CsmlBot) -> (r: Result<usize, BitpartError>)
    ensures
        match r {
            Ok(i) => has_flow_called(bot.flows@, id@) && first_called(bot.flows@, i as int, id@),
            Err(e) => !has_flow_called(bot.flows@, id@) && e == BitpartError::Interpreter(e->Interpreter_0)
                && e->Interpreter_0@ == flow_missing(id@),
        },
{
    match flow_index_by_id(id, bot.flows.as_slice()) {
        Ok(i) => {
            assert(first_called(bot.flows@, i as int, id@));
            Ok(i)
        },
        Err(e) => {
            proof {
                if has_flow_called(bot.flows@, id@) {
                    let k = choose|k: int| 0 <= k < bot.flows@.len() && flow_called(bot.flows@[k], id@);
                    assert(!flow_called(bot.flows@[k], id@));
                }
            }
            Err(e)
        },
    }
}

fn interpreter_error(msg: &str) -> (e: BitpartError)
    ensures
        e == BitpartError::Interpreter(e->Interpreter_0),
        e->Interpreter_0@ == msg@,
{
    BitpartError::Interpreter(String::from_str(msg))
}

/// Chooses where the source of the current step is read, as
/// `step_source_of` states. `ast_flows` holds the names of the flows of the
/// bot's compiled form, where it has one; `inserted_from` the flow from
/// which the compiled context flow inserted a step of the step's name,
/// where it did.
pub fn current_step_source(
    step: &ContextStepInfo,
    context_flow: &str,
    bot: &CsmlBot,
    ast_flows: Option<&Vec<String>>,
    inserted_from: Option<&str>,
) -> (r: Result<StepSource, BitpartError>)
    ensures
        ({
            let spec = step_source_of(
                *step,
                context_flow@,
                *bot,
                match ast_flows {
                    Some(v) => Some(v@),
                    None => None,
                },
                match inserted_from {
                    Some(f) => Some(f@),
                    None => None,
                },
            );
            match r {
                Ok(s) => spec matches Ok((raw, ast)) && s.ast_flow@ == ast && first_called(
                    bot.flows@,
                    s.raw_flow as int,
                    raw,
                ),
                Err(e) => spec matches Err(msg) && e == BitpartError::Interpreter(e->Interpreter_0)
                    && e->Interpreter_0@ == msg,
            }
        }),
{
    let raw_id: &str = match step {
        ContextStepInfo::InsertedStep { step: _, flow } => flow.as_str(),
        _ => context_flow,
    };
    let raw = match raw_flow_index(raw_id, bot) {
        Ok(i) => i,
        Err(e) => return Err(e),
    };
    let names = match ast_flows {
        Some(v) => v,
        None => return Err(interpreter_error("not valid ast")),
    };
    match step {
        ContextStepInfo::UnknownFlow(_) => {
            let d = match default_flow_name(bot) {
                Ok(d) => d,
                Err(e) => return Err(e),
            };
            if !names_contain(names, d.as_str()) {
                return Err(interpreter_error("Error falling back to default flow"));
            }
            if names_contain(names, raw_id) {
                match inserted_from {
                    Some(from) => {
                        if names_contain(names, from) {
                            match raw_flow_index(from, bot) {
                                Ok(j) => Ok(StepSource { raw_flow: j, ast_flow: String::from_str(from) }),
                                Err(e) => Err(e),
                            }
                        } else {
                            Ok(StepSource { raw_flow: raw, ast_flow: d })
                        }
                    },
                    None => Ok(StepSource { raw_flow: raw, ast_flow: String::from_str(raw_id) }),
                }
            } else {
                Ok(StepSource { raw_flow: raw, ast_flow: d })
            }
        },
        _ => {
            if names_contain(names, raw_id) {
                Ok(StepSource { raw_flow: raw, ast_flow: String::from_str(raw_id) })
            } else {
                let d = match default_flow_name(bot) {
                    Ok(d) => d,
                    Err(e) => return Err(e),
                };
                if names_contain(names, d.as_str()) {
                    Ok(StepSource { raw_flow: raw, ast_flow: d })
                } else {
                    Err(interpreter_error("Error falling back to default flow"))
                }
            }
        },
    }
}

/// The MD5 digest of some bytes (`md5::Md5`).
pub uninterp spec fn md5_of(data: Seq<u8>) -> Seq<u8>;

/// Hashes bytes with MD5 (`md5::Md5::digest`). Claimed: the digest depends
/// on the bytes alone and is 16 bytes long.
#[verifier::external_body]
fn md5_digest(data: &[u8]) -> (r: Vec<u8>)
    ensures
        r@ == md5_of(data@),
        r@.len() == 16,
{
    md5::Md5::digest(data).to_vec()
}

/// The hash that identifies a step's source text: the MD5 digest of its
/// UTF-8 bytes in lower-case hexadecimal.
pub fn step_hash(step_source: &str) -> (r: String)
    ensures
        r@ == hex_lower(md5_of(step_source.spec_bytes())),
        r@.len() == 32,
{
    let d = md5_digest(step_source.as_bytes());
    proof {
        crate::store::lemma_hex_lower_len(d@);
    }
    to_hex_lower(&d)
}

} // verus!
