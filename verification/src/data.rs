//! Chat requests and the choice of the bot that answers them.
use vstd::prelude::*;

use crate::error::BitpartError;
use crate::event::SerializedEvent;
use crate::flows::{CsmlBot, MultiBot};

verus! {

/// A chat request: the event, and which bot is to answer it (given in full,
/// by version, or by bot id for its latest version), with the endpoint and
/// the bots it may hand over to.
#[derive(Debug)]
pub struct Request {
    pub bot: Option<CsmlBot>,
    pub bot_id: Option<String>,
    pub version_id: Option<String>,
    pub apps_endpoint: Option<String>,
    pub multibot: Option<Vec<MultiBot>>,
    pub event: SerializedEvent,
}

/// How a request names its bot.
#[derive(Debug)]
pub enum BotOpt {
    CsmlBot(CsmlBot),
    Id { version_id: String, bot_id: String, apps_endpoint: Option<String>, multibot: Option<Vec<MultiBot>> },
    BotId { bot_id: String, apps_endpoint: Option<String>, multibot: Option<Vec<MultiBot>> },
}

/// Which stored bot a `BotOpt` asks for.
#[derive(Debug, Clone)]
pub enum BotLookup {
    /// None: the bot is given in full.
    Given,
    /// The bot version with this id.
    Version(String),
    /// The latest version of the bot with this id.
    Latest(String),
}

impl Request {
    /// How the request names its bot: a bot given in full comes first (with
    /// the request's hand-over bots); else a version id together with a bot
    /// id names a version; else a bot id names its latest version. A request
    /// that gives none of these is refused.
    pub fn get_bot_opt(self) -> (r: Result<BotOpt, BitpartError>)
        ensures
            match self.bot {
                Some(b) => r == Ok::<BotOpt, BitpartError>(BotOpt::CsmlBot(CsmlBot { multibot: self.multibot, ..b })),
                None => match (self.version_id, self.bot_id) {
                    (Some(v), Some(id)) => r == Ok::<BotOpt, BitpartError>(
                        BotOpt::Id {
                            version_id: v,
                            bot_id: id,
                            apps_endpoint: self.apps_endpoint,
                            multibot: self.multibot,
                        },
                    ),
                    (_, Some(id)) => r == Ok::<BotOpt, BitpartError>(
                        BotOpt::BotId { bot_id: id, apps_endpoint: self.apps_endpoint, multibot: self.multibot },
                    ),
                    (_, None) => r is Err && r->Err_0 is Interpreter && r->Err_0->Interpreter_0@
                        == "Invalid bot_opt format"@,
                },
            },
    {
        match self.bot {
            Some(mut csml_bot) => {
                csml_bot.multibot = self.multibot;
                Ok(BotOpt::CsmlBot(csml_bot))
            },
            None => match (self.version_id, self.bot_id) {
                (Some(version_id), Some(bot_id)) => Ok(
                    BotOpt::Id { version_id, bot_id, apps_endpoint: self.apps_endpoint, multibot: self.multibot },
                ),
                (_, Some(bot_id)) => Ok(
                    BotOpt::BotId { bot_id, apps_endpoint: self.apps_endpoint, multibot: self.multibot },
                ),
                (_, None) => Err(BitpartError::Interpreter(String::from_str("Invalid bot_opt format"))),
            },
        }
    }
}

impl BotOpt {
    /// Which stored bot is to be fetched to answer.
    pub fn lookup(&self) -> (r: BotLookup)
        ensures
            match *self {
                BotOpt::CsmlBot(_) => r is Given,
                BotOpt::Id { version_id, .. } => r is Version && r->Version_0 == version_id,
                BotOpt::BotId { bot_id, .. } => r is Latest && r->Latest_0 == bot_id,
            },
    {
        match self {
            BotOpt::CsmlBot(_) => BotLookup::Given,
            BotOpt::Id { version_id, .. } => BotLookup::Version(version_id.clone()),
            BotOpt::BotId { bot_id, .. } => BotLookup::Latest(bot_id.clone()),
        }
    }

    /// The bot that answers, given what was fetched for `lookup()`: the bot
    /// given in full, or the fetched bot with the request's endpoint and
    /// hand-over bots; an error naming the bot or version where nothing was
    /// fetched.
    pub fn search_bot(self, fetched: Option<CsmlBot>) -> (r: Result<CsmlBot, BitpartError>)
        ensures
            match self {
                BotOpt::CsmlBot(b) => r == Ok::<CsmlBot, BitpartError>(b),
                BotOpt::Id { version_id, bot_id, apps_endpoint, multibot } => match fetched {
                    Some(f) => r == Ok::<CsmlBot, BitpartError>(CsmlBot { apps_endpoint, multibot, ..f }),
                    None => r is Err && r->Err_0 is Manager && r->Err_0->Manager_0@ == "bot version ("@
                        + version_id@ + ") not found in db"@,
                },
                BotOpt::BotId { bot_id, apps_endpoint, multibot } => match fetched {
                    Some(f) => r == Ok::<CsmlBot, BitpartError>(CsmlBot { apps_endpoint, multibot, ..f }),
                    None => r is Err && r->Err_0 is Manager && r->Err_0->Manager_0@ == "bot ("@ + bot_id@
                        + ") not found in db"@,
                },
            },
    {
        match self {
            BotOpt::CsmlBot(b) => Ok(b),
            BotOpt::Id { version_id, bot_id: _, apps_endpoint, multibot } => match fetched {
                Some(mut f) => {
                    f.apps_endpoint = apps_endpoint;
                    f.multibot = multibot;
                    Ok(f)
                },
                None => {
                    let mut m = String::from_str("bot version (");
                    m.append(version_id.as_str());
                    m.append(") not found in db");
                    Err(BitpartError::Manager(m))
                },
            },
            BotOpt::BotId { bot_id, apps_endpoint, multibot } => match fetched {
                Some(mut f) => {
                    f.apps_endpoint = apps_endpoint;
                    f.multibot = multibot;
                    Ok(f)
                },
                None => {
                    let mut m = String::from_str("bot (");
                    m.append(bot_id.as_str());
                    m.append(") not found in db");
                    Err(BitpartError::Manager(m))
                },
            },
        }
    }
}

/// The bot that a conversation runs, given what was fetched for the
/// option's `lookup()`: the bot given in full, or the fetched bot as it was
/// stored (the request's endpoint and hand-over bots are not applied); an
/// interpreter error naming the bot or version where nothing was fetched.
pub fn search_bot(bot: BotOpt, fetched: Option<CsmlBot>) -> (r: Result<CsmlBot, BitpartError>)
    ensures
        match bot {
            BotOpt::CsmlBot(b) => r == Ok::<CsmlBot, BitpartError>(b),
            BotOpt::Id { version_id, .. } => match fetched {
                Some(f) => r == Ok::<CsmlBot, BitpartError>(f),
                None => r is Err && r->Err_0 is Interpreter && r->Err_0->Interpreter_0@ == "bot version ("@
                    + version_id@ + ") not found in db"@,
            },
            BotOpt::BotId { bot_id, .. } => match fetched {
                Some(f) => r == Ok::<CsmlBot, BitpartError>(f),
                None => r is Err && r->Err_0 is Interpreter && r->Err_0->Interpreter_0@ == "bot ("@ + bot_id@
                    + ") not found in db"@,
            },
        },
{
    match bot {
        BotOpt::CsmlBot(b) => Ok(b),
        BotOpt::Id { version_id, .. } => match fetched {
            Some(f) => Ok(f),
            None => {
                let mut m = String::from_str("bot version (");
                m.append(version_id.as_str());
                m.append(") not found in db");
                Err(BitpartError::Interpreter(m))
            },
        },
        BotOpt::BotId { bot_id, .. } => match fetched {
            Some(f) => Ok(f),
            None => {
                let mut m = String::from_str("bot (");
                m.append(bot_id.as_str());
                m.append(") not found in db");
                Err(BitpartError::Interpreter(m))
            },
        },
    }
}

/// The disappearing-message timer of a new version of a bot: the timer
/// asked for with the new version, where one is; no timer where 0 is asked
/// for; and the previous version's timer where none is asked for.
pub open spec fn version_timer(previous: Option<u32>, requested: Option<u32>) -> Option<u32> {
    match requested {
        Some(t) => if t == 0 {
            None
        } else {
            Some(t)
        },
        None => previous,
    }
}

/// Decides the disappearing-message timer of a new version of a bot, as
/// `version_timer` states.
pub fn version_expire_timer(previous: Option<u32>, requested: Option<u32>) -> (r: Option<u32>)
    ensures
        r == version_timer(previous, requested),
{
    match requested {
        Some(t) => {
            if t == 0 {
                None
            } else {
                Some(t)
            }
        },
        None => previous,
    }
}

/// Adding versions without asking for a timer keeps the timer of the last
/// version that asked for one, and a version that asks for 0 removes it:
/// whatever happened before, the timer after a request of `t > 0` is `t`,
/// after a request of 0 it is none, and a version that asks for nothing
/// changes nothing.
pub proof fn lemma_version_timer_inheritance(previous: Option<u32>, t: u32)
    ensures
        t > 0 ==> version_timer(previous, Some(t)) == Some(t),
        version_timer(previous, Some(0)) is None,
        version_timer(previous, None) == previous,
        version_timer(version_timer(previous, Some(t)), None) == version_timer(previous, Some(t)),
{
}

} // verus!
