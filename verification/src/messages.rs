//! Messages of the management socket: pagination options and channel
//! requests, and the commands handed to a channel backend.
use vstd::prelude::*;

use crate::text::str_is;

verus! {

/// Which page of a listing to return.
#[derive(Debug, Clone, Copy, PartialEq, Eq)]
pub struct PaginateMessage {
    pub limit: Option<u64>,
    pub offset: Option<u64>,
}

/// A request to create a channel for a bot.
#[derive(Debug, Clone)]
pub struct CreateChannelMessage {
    pub id: String,
    pub bot_id: String,
}

/// A request to link a channel to a Signal account as a new device.
#[derive(Debug, Clone)]
pub struct LinkChannelMessage {
    pub id: String,
    pub device_name: String,
}

/// The limit and offset that optional pagination options ask for: none of
/// either where no options are given.
pub fn page_bounds(options: Option<PaginateMessage>) -> (r: (Option<u64>, Option<u64>))
    ensures
        r == match options {
            Some(p) => (p.limit, p.offset),
            None => (None, None),
        },
{
    match options {
        Some(p) => (p.limit, p.offset),
        None => (None, None),
    }
}

/// A command for the Signal channel backend.
#[derive(Debug, Clone)]
pub enum ChannelMessageContents {
    LinkChannel { id: String, device_name: String },
    StartChannel { id: String },
    ResetSessions { id: String },
}

/// A channel backend that does nothing but acknowledge each command.
#[derive(Debug, Clone, Copy)]
pub struct MockChannelBackend;

impl MockChannelBackend {
    /// Acknowledges a command with an empty reply.
    pub fn send(&self, msg: &ChannelMessageContents) -> (r: String)
        ensures
            r@ == Seq::<char>::empty(),
    {
        String::new()
    }
}

/// How a websocket close frame is answered: a normal close (code 1000) ends
/// the session quietly; any other code, or a close without a frame, is an
/// error.
pub fn close_is_normal(code: Option<u16>) -> (r: bool)
    ensures
        r == (code == Some(1000u16)),
{
    match code {
        Some(c) => c == 1000,
        None => false,
    }
}

/// A frame received on the management websocket, as far as the server
/// reads it.
#[derive(Debug, Clone)]
pub enum SocketFrame {
    Text(String),
    Binary(Vec<u8>),
    /// A close frame, with its code where it carries one.
    Close(Option<u16>),
    Ping(Vec<u8>),
    Pong(Vec<u8>),
}

/// What the server does with a received frame.
#[derive(Debug, Clone, PartialEq, Eq)]
pub enum FrameAction {
    /// Read the text as a socket request and answer it.
    Request(String),
    /// Answer with an error response of the given type and message.
    Error { response_type: String, message: String },
    /// Answer with the given text, as a JSON string.
    Reply(String),
    /// End the session quietly.
    Close,
    /// End the session on a websocket close error.
    Fail,
}

/// Decides what the server does with a received frame: a text is a
/// request; a binary frame is answered with a `BinaryFrame` error; pings and
/// pongs are acknowledged; a normal close (code 1000) ends the session and
/// any other close, or one without a code, is an error.
pub fn frame_action(frame: SocketFrame) -> (r: FrameAction)
    ensures
        match frame {
            SocketFrame::Text(t) => r == FrameAction::Request(t),
            SocketFrame::Binary(_) => r matches FrameAction::Error { response_type, message }
                && response_type@ == "BinaryFrame"@ && message@ == "Server doesn't accept binary frames"@,
            SocketFrame::Close(code) => if code == Some(1000u16) {
                r == FrameAction::Close
            } else {
                r == FrameAction::Fail
            },
            SocketFrame::Ping(_) => r matches FrameAction::Reply(t) && t@ == "Ping received"@,
            SocketFrame::Pong(_) => r matches FrameAction::Reply(t) && t@ == "Pong received"@,
        },
{
    match frame {
        SocketFrame::Text(t) => FrameAction::Request(t),
        SocketFrame::Binary(_) => FrameAction::Error {
            response_type: String::from_str("BinaryFrame"),
            message: String::from_str("Server doesn't accept binary frames"),
        },
        SocketFrame::Close(code) => {
            if close_is_normal(code) {
                FrameAction::Close
            } else {
                FrameAction::Fail
            }
        },
        SocketFrame::Ping(_) => FrameAction::Reply(String::from_str("Ping received")),
        SocketFrame::Pong(_) => FrameAction::Reply(String::from_str("Pong received")),
    }
}

/// The kind of a request read from a text frame.
#[derive(Debug, Clone, Copy, PartialEq, Eq, Structural)]
pub enum SocketRequest {
    CreateBot,
    ReadBot,
    BotVersions,
    RollbackBot,
    DiffBot,
    DeleteBot,
    ListBots,
    CreateChannel,
    ReadChannel,
    ResetChannel,
    ListChannels,
    DeleteChannel,
    ChatRequest,
    LinkChannel,
    /// A socket message that is no request, such as a response.
    Other,
}

/// The response type that answers a request: the request's own name; none
/// for a socket message that is no request.
pub open spec fn response_type_of(req: SocketRequest) -> Option<Seq<char>> {
    match req {
        SocketRequest::CreateBot => Some("CreateBot"@),
        SocketRequest::ReadBot => Some("ReadBot"@),
        SocketRequest::BotVersions => Some("BotVersions"@),
        SocketRequest::RollbackBot => Some("RollbackBot"@),
        SocketRequest::DiffBot => Some("DiffBot"@),
        SocketRequest::DeleteBot => Some("DeleteBot"@),
        SocketRequest::ListBots => Some("ListBots"@),
        SocketRequest::CreateChannel => Some("CreateChannel"@),
        SocketRequest::ReadChannel => Some("ReadChannel"@),
        SocketRequest::ResetChannel => Some("ResetChannel"@),
        SocketRequest::ListChannels => Some("ListChannels"@),
        SocketRequest::DeleteChannel => Some("DeleteChannel"@),
        SocketRequest::ChatRequest => Some("ChatRequest"@),
        SocketRequest::LinkChannel => Some("LinkChannel"@),
        SocketRequest::Other => None,
    }
}

/// Each request is answered under its own name: every request but a
/// socket message that is no request has a response type, and distinct
/// requests have distinct response types, so a response always tells which
/// request it answers.
pub proof fn lemma_response_types_distinct(a: SocketRequest, b: SocketRequest)
    ensures
        response_type_of(a) is None <==> a == SocketRequest::Other,
        a != b && response_type_of(a) is Some ==> response_type_of(a) != response_type_of(b),
{
    reveal_strlit("CreateBot");
    reveal_strlit("ReadBot");
    reveal_strlit("BotVersions");
    reveal_strlit("RollbackBot");
    reveal_strlit("DiffBot");
    reveal_strlit("DeleteBot");
    reveal_strlit("ListBots");
    reveal_strlit("CreateChannel");
    reveal_strlit("ReadChannel");
    reveal_strlit("ResetChannel");
    reveal_strlit("ListChannels");
    reveal_strlit("DeleteChannel");
    reveal_strlit("ChatRequest");
    reveal_strlit("LinkChannel");
    if a != b && response_type_of(a) is Some && response_type_of(b) is Some {
        let x = response_type_of(a)->Some_0;
        let y = response_type_of(b)->Some_0;
        if x.len() == y.len() {
            assert(x[0] != y[0] || x[1] != y[1] || x[2] != y[2] || x[4] != y[4]);
        }
    }
}

/// Whether `word` occurs in `text`.
pub open spec fn mentions(text: Seq<char>, word: Seq<char>) -> bool {
    exists|k: int| 0 <= k && k + word.len() <= text.len() && #[trigger] text.subrange(k, k + word.len()) == word
}

/// A request on a channel is answered under a name that mentions
/// `Channel`, a request on a bot under one that mentions `Bot`.
pub proof fn lemma_response_types_name_their_object(req: SocketRequest)
    ensures
        match req {
            SocketRequest::CreateChannel | SocketRequest::ReadChannel | SocketRequest::ResetChannel
            | SocketRequest::ListChannels | SocketRequest::DeleteChannel | SocketRequest::LinkChannel => response_type_of(req)
                matches Some(t) && mentions(t, "Channel"@),
            SocketRequest::CreateBot | SocketRequest::ReadBot | SocketRequest::BotVersions | SocketRequest::RollbackBot
            | SocketRequest::DiffBot | SocketRequest::DeleteBot | SocketRequest::ListBots => response_type_of(req) matches Some(t)
                && mentions(t, "Bot"@),
            _ => true,
        },
{
    reveal_strlit("Channel");
    reveal_strlit("Bot");
    match req {
        SocketRequest::CreateChannel => {
            reveal_strlit("CreateChannel");
            assert("CreateChannel"@.subrange(6int, 6int + "Channel"@.len()) =~= "Channel"@);
        },
        SocketRequest::ReadChannel => {
            reveal_strlit("ReadChannel");
            assert("ReadChannel"@.subrange(4int, 4int + "Channel"@.len()) =~= "Channel"@);
        },
        SocketRequest::ResetChannel => {
            reveal_strlit("ResetChannel");
            assert("ResetChannel"@.subrange(5int, 5int + "Channel"@.len()) =~= "Channel"@);
        },
        SocketRequest::ListChannels => {
            reveal_strlit("ListChannels");
            assert("ListChannels"@.subrange(4int, 4int + "Channel"@.len()) =~= "Channel"@);
        },
        SocketRequest::DeleteChannel => {
            reveal_strlit("DeleteChannel");
            assert("DeleteChannel"@.subrange(6int, 6int + "Channel"@.len()) =~= "Channel"@);
        },
        SocketRequest::LinkChannel => {
            reveal_strlit("LinkChannel");
            assert("LinkChannel"@.subrange(4int, 4int + "Channel"@.len()) =~= "Channel"@);
        },
        SocketRequest::CreateBot => {
            reveal_strlit("CreateBot");
            assert("CreateBot"@.subrange(6int, 6int + "Bot"@.len()) =~= "Bot"@);
        },
        SocketRequest::ReadBot => {
            reveal_strlit("ReadBot");
            assert("ReadBot"@.subrange(4int, 4int + "Bot"@.len()) =~= "Bot"@);
        },
        SocketRequest::BotVersions => {
            reveal_strlit("BotVersions");
            assert("BotVersions"@.subrange(0int, 0int + "Bot"@.len()) =~= "Bot"@);
        },
        SocketRequest::RollbackBot => {
            reveal_strlit("RollbackBot");
            assert("RollbackBot"@.subrange(8int, 8int + "Bot"@.len()) =~= "Bot"@);
        },
        SocketRequest::DiffBot => {
            reveal_strlit("DiffBot");
            assert("DiffBot"@.subrange(4int, 4int + "Bot"@.len()) =~= "Bot"@);
        },
        SocketRequest::DeleteBot => {
            reveal_strlit("DeleteBot");
            assert("DeleteBot"@.subrange(6int, 6int + "Bot"@.len()) =~= "Bot"@);
        },
        SocketRequest::ListBots => {
            reveal_strlit("ListBots");
            assert("ListBots"@.subrange(4int, 4int + "Bot"@.len()) =~= "Bot"@);
        },
        _ => {},
    }
}

/// Whether `text` begins with `word`.
pub open spec fn begins_with(text: Seq<char>, word: Seq<char>) -> bool {
    word.len() <= text.len() && text.subrange(0, word.len() as int) == word
}

/// A request is answered under a name that begins with what it does:
/// creating, reading, deleting, listing, resetting, rolling back, comparing,
/// linking or chatting.
pub proof fn lemma_response_types_name_their_action(req: SocketRequest)
    ensures
        match req {
            SocketRequest::CreateBot | SocketRequest::CreateChannel => response_type_of(req) matches Some(t) && begins_with(t, "Create"@),
            SocketRequest::ReadBot | SocketRequest::ReadChannel => response_type_of(req) matches Some(t) && begins_with(t, "Read"@),
            SocketRequest::DeleteBot | SocketRequest::DeleteChannel => response_type_of(req) matches Some(t) && begins_with(t, "Delete"@),
            SocketRequest::ListBots | SocketRequest::ListChannels => response_type_of(req) matches Some(t) && begins_with(t, "List"@),
            SocketRequest::ResetChannel => response_type_of(req) matches Some(t) && begins_with(t, "Reset"@),
            SocketRequest::RollbackBot => response_type_of(req) matches Some(t) && begins_with(t, "Rollback"@),
            SocketRequest::DiffBot => response_type_of(req) matches Some(t) && begins_with(t, "Diff"@),
            SocketRequest::LinkChannel => response_type_of(req) matches Some(t) && begins_with(t, "Link"@),
            SocketRequest::ChatRequest => response_type_of(req) matches Some(t) && begins_with(t, "Chat"@),
            _ => true,
        },
{
    match req {
        SocketRequest::CreateBot => {
            reveal_strlit("CreateBot");
            reveal_strlit("Create");
            assert("CreateBot"@.subrange(0, "Create"@.len() as int) =~= "Create"@);
        },
        SocketRequest::CreateChannel => {
            reveal_strlit("CreateChannel");
            reveal_strlit("Create");
            assert("CreateChannel"@.subrange(0, "Create"@.len() as int) =~= "Create"@);
        },
        SocketRequest::ReadBot => {
            reveal_strlit("ReadBot");
            reveal_strlit("Read");
            assert("ReadBot"@.subrange(0, "Read"@.len() as int) =~= "Read"@);
        },
        SocketRequest::ReadChannel => {
            reveal_strlit("ReadChannel");
            reveal_strlit("Read");
            assert("ReadChannel"@.subrange(0, "Read"@.len() as int) =~= "Read"@);
        },
        SocketRequest::DeleteBot => {
            reveal_strlit("DeleteBot");
            reveal_strlit("Delete");
            assert("DeleteBot"@.subrange(0, "Delete"@.len() as int) =~= "Delete"@);
        },
        SocketRequest::DeleteChannel => {
            reveal_strlit("DeleteChannel");
            reveal_strlit("Delete");
            assert("DeleteChannel"@.subrange(0, "Delete"@.len() as int) =~= "Delete"@);
        },
        SocketRequest::ListBots => {
            reveal_strlit("ListBots");
            reveal_strlit("List");
            assert("ListBots"@.subrange(0, "List"@.len() as int) =~= "List"@);
        },
        SocketRequest::ListChannels => {
            reveal_strlit("ListChannels");
            reveal_strlit("List");
            assert("ListChannels"@.subrange(0, "List"@.len() as int) =~= "List"@);
        },
        SocketRequest::ResetChannel => {
            reveal_strlit("ResetChannel");
            reveal_strlit("Reset");
            assert("ResetChannel"@.subrange(0, "Reset"@.len() as int) =~= "Reset"@);
        },
        SocketRequest::RollbackBot => {
            reveal_strlit("RollbackBot");
            reveal_strlit("Rollback");
            assert("RollbackBot"@.subrange(0, "Rollback"@.len() as int) =~= "Rollback"@);
        },
        SocketRequest::DiffBot => {
            reveal_strlit("DiffBot");
            reveal_strlit("Diff");
            assert("DiffBot"@.subrange(0, "Diff"@.len() as int) =~= "Diff"@);
        },
        SocketRequest::LinkChannel => {
            reveal_strlit("LinkChannel");
            reveal_strlit("Link");
            assert("LinkChannel"@.subrange(0, "Link"@.len() as int) =~= "Link"@);
        },
        SocketRequest::ChatRequest => {
            reveal_strlit("ChatRequest");
            reveal_strlit("Chat");
            assert("ChatRequest"@.subrange(0, "Chat"@.len() as int) =~= "Chat"@);
        },
        _ => {},
    }
}

/// How a request is answered: with a response, or an error, of the
/// request's own type; a socket message that is no request gets the
/// `SocketMessage` error `Invalid SocketMessage`.
pub fn request_response_type(req: SocketRequest) -> (r: Result<String, (String, String)>)
    ensures
        match response_type_of(req) {
            Some(t) => r matches Ok(x) && x@ == t,
            None => r matches Err((t, m)) && t@ == "SocketMessage"@ && m@ == "Invalid SocketMessage"@,
        },
{
    let t = match req {
        SocketRequest::CreateBot => "CreateBot",
        SocketRequest::ReadBot => "ReadBot",
        SocketRequest::BotVersions => "BotVersions",
        SocketRequest::RollbackBot => "RollbackBot",
        SocketRequest::DiffBot => "DiffBot",
        SocketRequest::DeleteBot => "DeleteBot",
        SocketRequest::ListBots => "ListBots",
        SocketRequest::CreateChannel => "CreateChannel",
        SocketRequest::ReadChannel => "ReadChannel",
        SocketRequest::ResetChannel => "ResetChannel",
        SocketRequest::ListChannels => "ListChannels",
        SocketRequest::DeleteChannel => "DeleteChannel",
        SocketRequest::ChatRequest => "ChatRequest",
        SocketRequest::LinkChannel => "LinkChannel",
        SocketRequest::Other => {
            return Err((String::from_str("SocketMessage"), String::from_str("Invalid SocketMessage")));
        },
    };
    Ok(String::from_str(t))
}

/// A registered channel task: the bot, the channel and the token that
/// cancels the task.
pub type TaskRow = (Seq<char>, Seq<char>, u64);

/// The token registered last for a bot's channel, if any.
pub open spec fn token_of(rows: Seq<TaskRow>, bot_id: Seq<char>, channel_id: Seq<char>) -> Option<u64>
    decreases rows.len(),
{
    if rows.len() == 0 {
        None
    } else if rows.last().0 == bot_id && rows.last().1 == channel_id {
        Some(rows.last().2)
    } else {
        token_of(rows.drop_last(), bot_id, channel_id)
    }
}

#[derive(Debug)]
struct ChannelTask {
    bot_id: String,
    channel_id: String,
    token: u64,
}

/// The cancellation tokens of the tasks that run a bot's channels. Tokens
/// are numbers handed out in increasing order, so a new one is never one
/// already in use; the caller keeps the actual cancellation handle of each.
#[derive(Debug)]
pub struct ChannelTasks {
    tasks: Vec<ChannelTask>,
    next: u64,
}

impl View for ChannelTasks {
    type V = Seq<TaskRow>;

    closed spec fn view(&self) -> Seq<TaskRow> {
        self.tasks@.map_values(|t: ChannelTask| (t.bot_id@, t.channel_id@, t.token))
    }
}

impl ChannelTasks {
    /// The token that the next new task gets.
    pub closed spec fn next_token(&self) -> u64 {
        self.next
    }

    /// Every registered token was handed out before the next one.
    pub open spec fn wf(&self) -> bool {
        forall|i: int| 0 <= i < self@.len() ==> (#[trigger] self@[i]).2 < self.next_token()
    }

    /// No task is registered yet.
    pub fn new() -> (r: Self)
        ensures
            r.wf(),
            r@ == Seq::<TaskRow>::empty(),
            r.next_token() == 0,
    {
        ChannelTasks { tasks: Vec::new(), next: 0 }
    }

    fn lookup(&self, bot_id: &str, channel_id: &str) -> (r: Option<u64>)
        ensures
            r == token_of(self@, bot_id@, channel_id@),
    {
        let n = self.tasks.len();
        let mut i: usize = n;
        proof {
            assert(self@.take(n as int) =~= self@);
        }
        while i > 0
            invariant
                n == self.tasks.len(),
                i <= n,
                token_of(self@, bot_id@, channel_id@) == token_of(self@.take(i as int), bot_id@, channel_id@),
            decreases i,
        {
            let t = &self.tasks[i - 1];
            proof {
                assert(self@.take(i as int).drop_last() =~= self@.take(i as int - 1));
                assert(self@.take(i as int).last() == self@[i as int - 1]);
            }
            if str_is(t.bot_id.as_str(), bot_id) && str_is(t.channel_id.as_str(), channel_id) {
                return Some(t.token);
            }
            i = i - 1;
        }
        proof {
            assert(self@.take(0) =~= Seq::<TaskRow>::empty());
        }
        None
    }

    fn register(&mut self, bot_id: &str, channel_id: &str) -> (r: u64)
        requires
            old(self).wf(),
            old(self).next_token() < u64::MAX,
        ensures
            final(self).wf(),
            r == old(self).next_token(),
            final(self).next_token() == old(self).next_token() + 1,
            final(self)@ == old(self)@.push((bot_id@, channel_id@, r)),
    {
        let token = self.next;
        self.tasks.push(ChannelTask { bot_id: String::from_str(bot_id), channel_id: String::from_str(channel_id), token });
        self.next = self.next + 1;
        proof {
            assert(self@ =~= old(self)@.push((bot_id@, channel_id@, token)));
        }
        token
    }

    /// Relinks a bot's channel: the task running it, if any, is to be
    /// stopped with the token returned first, and the new task gets the new
    /// token returned second. The tasks of every other channel keep their
    /// tokens.
    pub fn relink(&mut self, bot_id: &str, channel_id: &str) -> (r: (Option<u64>, u64))
        requires
            old(self).wf(),
            old(self).next_token() < u64::MAX,
        ensures
            final(self).wf(),
            r.0 == token_of(old(self)@, bot_id@, channel_id@),
            r.1 == old(self).next_token(),
            token_of(final(self)@, bot_id@, channel_id@) == Some(r.1),
            final(self).next_token() == old(self).next_token() + 1,
            forall|b: Seq<char>, c: Seq<char>|
                !(b == bot_id@ && c == channel_id@) ==> #[trigger] token_of(final(self)@, b, c) == token_of(
                    old(self)@,
                    b,
                    c,
                ),
    {
        let old_token = self.lookup(bot_id, channel_id);
        let token = self.register(bot_id, channel_id);
        proof {
            assert(self@.drop_last() =~= old(self)@);
        }
        (old_token, token)
    }

    /// The token of the task that runs a bot's channel: the registered one,
    /// or a new one where none is registered yet.
    pub fn start(&mut self, bot_id: &str, channel_id: &str) -> (r: u64)
        requires
            old(self).wf(),
            old(self).next_token() < u64::MAX,
        ensures
            final(self).wf(),
            match token_of(old(self)@, bot_id@, channel_id@) {
                Some(t) => r == t && final(self)@ == old(self)@ && final(self).next_token() == old(self).next_token(),
                None => r == old(self).next_token() && token_of(final(self)@, bot_id@, channel_id@) == Some(r)
                    && final(self).next_token() == old(self).next_token() + 1 && forall|b: Seq<char>, c: Seq<char>|
                    !(b == bot_id@ && c == channel_id@) ==> #[trigger] token_of(final(self)@, b, c) == token_of(
                        old(self)@,
                        b,
                        c,
                    ),
            },
    {
        match self.lookup(bot_id, channel_id) {
            Some(t) => t,
            None => {
                let token = self.register(bot_id, channel_id);
                proof {
                    assert(self@.drop_last() =~= old(self)@);
                }
                token
            },
        }
    }

    /// The token of the task to stop when a bot's channel is deleted, if a
    /// task was registered for it.
    pub fn stop(&self, bot_id: &str, channel_id: &str) -> (r: Option<u64>)
        ensures
            r == token_of(self@, bot_id@, channel_id@),
    {
        self.lookup(bot_id, channel_id)
    }
}

/// Work that relinking a channel calls for, in order.
#[derive(Debug, Clone, PartialEq, Eq)]
pub enum RelinkStep {
    /// Stop the task that holds this token.
    StopTask(u64),
    /// Discard the Signal keys and sessions stored for the channel; its
    /// conversations with users are kept.
    DiscardSignalState { channel_id: String },
    /// Link the channel as a new device, in a task that holds this token.
    LinkDevice { channel_id: String, token: u64 },
}

impl ChannelTasks {
    /// Relinks a bot's channel: stops the task running it, if any, discards
    /// its Signal keys and sessions (keeping its conversations), and links it
    /// again in a new task. Only that channel is stopped: every other
    /// channel's task keeps its token.
    pub fn relink_plan(&mut self, bot_id: &str, channel_id: &str) -> (r: Vec<RelinkStep>)
        requires
            old(self).wf(),
            old(self).next_token() < u64::MAX,
        ensures
            final(self).wf(),
            token_of(final(self)@, bot_id@, channel_id@) == Some(old(self).next_token()),
            forall|b: Seq<char>, c: Seq<char>|
                !(b == bot_id@ && c == channel_id@) ==> #[trigger] token_of(final(self)@, b, c) == token_of(
                    old(self)@,
                    b,
                    c,
                ),
            r@.len() == (if token_of(old(self)@, bot_id@, channel_id@) is Some { 3int } else { 2int }),
            token_of(old(self)@, bot_id@, channel_id@) matches Some(t) ==> r@[0] == RelinkStep::StopTask(t),
            r@[r@.len() - 2] matches RelinkStep::DiscardSignalState { channel_id: c } && c@ == channel_id@,
            r@[r@.len() - 1] matches RelinkStep::LinkDevice { channel_id: c, token } && c@ == channel_id@ && token
                == old(self).next_token(),
    {
        let (stop, token) = self.relink(bot_id, channel_id);
        let mut steps: Vec<RelinkStep> = Vec::new();
        match stop {
            Some(t) => steps.push(RelinkStep::StopTask(t)),
            None => {},
        }
        steps.push(RelinkStep::DiscardSignalState { channel_id: String::from_str(channel_id) });
        steps.push(RelinkStep::LinkDevice { channel_id: String::from_str(channel_id), token });
        steps
    }
}

/// A token of a registered task was handed out before the next one, so a
/// new token is never one that a running task holds.
pub proof fn lemma_new_token_is_fresh(tasks: ChannelTasks, bot_id: Seq<char>, channel_id: Seq<char>)
    requires
        tasks.wf(),
    ensures
        token_of(tasks@, bot_id, channel_id) matches Some(t) ==> t < tasks.next_token(),
{
    lemma_token_of_is_registered(tasks@, bot_id, channel_id);
}

proof fn lemma_token_of_is_registered(rows: Seq<TaskRow>, bot_id: Seq<char>, channel_id: Seq<char>)
    ensures
        token_of(rows, bot_id, channel_id) matches Some(t) ==> exists|i: int| 0 <= i < rows.len() && rows[i].2 == t,
    decreases rows.len(),
{
    if rows.len() > 0 {
        lemma_token_of_is_registered(rows.drop_last(), bot_id, channel_id);
        if !(rows.last().0 == bot_id && rows.last().1 == channel_id) {
            if let Some(t) = token_of(rows.drop_last(), bot_id, channel_id) {
                let i = choose|i: int| 0 <= i < rows.drop_last().len() && rows.drop_last()[i].2 == t;
                assert(rows[i] == rows.drop_last()[i]);
            }
        } else {
            assert(rows[rows.len() - 1] == rows.last());
        }
    }
}

} // verus!
