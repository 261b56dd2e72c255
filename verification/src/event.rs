//! Incoming chat requests turned into interpreter events.
use vstd::prelude::*;

use crate::error::BitpartError;
use crate::flows::FlowTrigger;
use crate::json::{member, str_of, Json, JsonValue};
use crate::text::str_is;

verus! {

/// Who a conversation is with: the bot, the channel and the user.
#[derive(Debug, Clone)]
pub struct Client {
    pub bot_id: String,
    pub channel_id: String,
    pub user_id: String,
}

/// A chat request as it arrives from a channel or the API.
#[derive(Debug)]
pub struct SerializedEvent {
    pub id: String,
    pub client: Client,
    pub metadata: Json,
    pub payload: Json,
    pub step_limit: Option<usize>,
    pub callback_url: Option<String>,
}

/// An event as the interpreter takes it.
#[derive(Debug)]
pub struct Event {
    pub content_type: String,
    pub content_value: String,
    pub content: Json,
    pub ttl_duration: Option<i64>,
    pub low_data_mode: Option<bool>,
    pub step_limit: Option<usize>,
    pub secure: bool,
}

/// The text of the string member `key` of `j`, if there is one.
pub open spec fn member_str(j: Json, key: Seq<char>) -> Option<Seq<char>> {
    match member(j, key) {
        Some(x) => str_of(x),
        None => None,
    }
}

/// Whether a content type names a file-like event, whose content is a URL.
pub open spec fn is_file_type(ct: Seq<char>) -> bool {
    ct == "file"@ || ct == "audio"@ || ct == "video"@ || ct == "image"@ || ct == "url"@
}

/// The content an event carries, by content type, or the message of the
/// error where the event does not carry it. `is_trigger` says whether the
/// metadata reads as a flow trigger.
#[verifier::opaque]
pub open spec fn event_content(ct: Seq<char>, metadata: Json, is_trigger: bool) -> Result<Seq<char>, Seq<char>> {
    if is_file_type(ct) {
        match member_str(metadata, "url"@) {
            Some(v) => Ok(v),
            None => Err("no url content in event"@),
        }
    } else if ct == "payload"@ {
        match member_str(metadata, "payload"@) {
            Some(v) => Ok(v),
            None => Err("no payload content in event"@),
        }
    } else if ct == "text"@ {
        match member_str(metadata, "text"@) {
            Some(v) => Ok(v),
            None => Err("no text content in event"@),
        }
    } else if ct == "regex"@ {
        match member_str(metadata, "payload"@) {
            Some(v) => Ok(v),
            None => Err("invalid payload for event type regex"@),
        }
    } else if ct == "flow_trigger"@ {
        if is_trigger {
            Ok(metadata.text@)
        } else {
            Err("invalid content for event type flow_trigger: expect flow_id and optional step_id"@)
        }
    } else {
        Err(ct + " is not a valid content_type"@)
    }
}

/// Files, audio, video, images and links are carried by their URL: an event
/// of any of these content types whose metadata has a string `url` member
/// has that URL as its content, whatever else the metadata holds; without
/// one it carries nothing and is refused.
pub proof fn lemma_media_events_carry_their_url(ct: Seq<char>, metadata: Json, is_trigger: bool)
    requires
        ct == "file"@ || ct == "audio"@ || ct == "video"@ || ct == "image"@ || ct == "url"@,
    ensures
        match member_str(metadata, "url"@) {
            Some(u) => event_content(ct, metadata, is_trigger) == Ok::<Seq<char>, Seq<char>>(u),
            None => event_content(ct, metadata, is_trigger) is Err,
        },
{
    reveal(event_content);
}

fn member_string(j: &Json, key: &str) -> (r: Option<String>)
    ensures
        match r {
            Some(s) => member_str(*j, key@) == Some(s@),
            None => member_str(*j, key@) is None,
        },
{
    match j.get(key) {
        Some(x) => match x.as_str() {
            Some(s) => Some(s.clone()),
            None => None,
        },
        None => None,
    }
}

/// The content of an event of type `content_type` with metadata `metadata`:
/// the URL of files, the payload of payloads and regex events, the text of
/// text events, and the metadata's JSON text of flow triggers.
/// `metadata_is_flow_trigger` says whether the metadata reads as a
/// `FlowTrigger`.
pub fn get_event_content(content_type: &str, metadata: &Json, metadata_is_flow_trigger: bool) -> (r: Result<String, BitpartError>)
    ensures
        match r {
            Ok(v) => event_content(content_type@, *metadata, metadata_is_flow_trigger) == Ok::<Seq<char>, Seq<char>>(v@),
            Err(e) => e is Interpreter && event_content(content_type@, *metadata, metadata_is_flow_trigger)
                == Err::<Seq<char>, Seq<char>>(e->Interpreter_0@),
        },
        content_type@ == "file"@ || content_type@ == "audio"@ || content_type@ == "video"@ || content_type@ == "image"@
            || content_type@ == "url"@ ==> match member_str(*metadata, "url"@) {
            Some(u) => r matches Ok(v) && v@ == u,
            None => r matches Err(e) && e is Interpreter && e->Interpreter_0@ == "no url content in event"@,
        },
        content_type@ == "payload"@ || content_type@ == "regex"@ ==> match member_str(*metadata, "payload"@) {
            Some(p) => r matches Ok(v) && v@ == p,
            None => r is Err,
        },
        content_type@ == "text"@ ==> match member_str(*metadata, "text"@) {
            Some(t) => r matches Ok(v) && v@ == t,
            None => r matches Err(e) && e is Interpreter && e->Interpreter_0@ == "no text content in event"@,
        },
        content_type@ == "flow_trigger"@ ==> (r is Ok <==> metadata_is_flow_trigger),
        content_type@ == "flow_trigger"@ && metadata_is_flow_trigger ==> (r matches Ok(v) && v@ == metadata.text@),
{
    reveal(event_content);
    proof {
        reveal_strlit("file");
        reveal_strlit("audio");
        reveal_strlit("video");
        reveal_strlit("image");
        reveal_strlit("url");
        reveal_strlit("payload");
        reveal_strlit("text");
        reveal_strlit("regex");
        reveal_strlit("flow_trigger");
        assert("text"@[0] != "file"@[0]);
        assert("regex"@[0] != "audio"@[0] && "regex"@[0] != "video"@[0] && "regex"@[0] != "image"@[0]);
        assert("flow_trigger"@.len() == 12);
        assert("flow_trigger"@ != "file"@ && "flow_trigger"@ != "audio"@ && "flow_trigger"@ != "video"@);
        assert("flow_trigger"@ != "image"@ && "flow_trigger"@ != "url"@ && "flow_trigger"@ != "payload"@);
        assert("flow_trigger"@ != "text"@ && "flow_trigger"@ != "regex"@);
    }
    if str_is(content_type, "file") || str_is(content_type, "audio") || str_is(content_type, "video")
        || str_is(content_type, "image") || str_is(content_type, "url") {
        match member_string(metadata, "url") {
            Some(v) => Ok(v),
            None => Err(BitpartError::Interpreter(String::from_str("no url content in event"))),
        }
    } else if str_is(content_type, "payload") {
        match member_string(metadata, "payload") {
            Some(v) => Ok(v),
            None => Err(BitpartError::Interpreter(String::from_str("no payload content in event"))),
        }
    } else if str_is(content_type, "text") {
        match member_string(metadata, "text") {
            Some(v) => Ok(v),
            None => Err(BitpartError::Interpreter(String::from_str("no text content in event"))),
        }
    } else if str_is(content_type, "regex") {
        match member_string(metadata, "payload") {
            Some(v) => Ok(v),
            None => Err(BitpartError::Interpreter(String::from_str("invalid payload for event type regex"))),
        }
    } else if str_is(content_type, "flow_trigger") {
        if metadata_is_flow_trigger {
            Ok(metadata.text.clone())
        } else {
            Err(
                BitpartError::Interpreter(
                    String::from_str("invalid content for event type flow_trigger: expect flow_id and optional step_id"),
                ),
            )
        }
    } else {
        let mut msg = String::from_str(content_type);
        msg.append(" is not a valid content_type");
        Err(BitpartError::Interpreter(msg))
    }
}

/// Moves the member `key` out of an object.
fn take_member(j: Json, key: &str) -> (r: Option<Json>)
    ensures
        r == member(j, key@),
{
    match j.value {
        JsonValue::Object(mut entries) => {
            let k = key.to_owned();
            let n = entries.len();
            let mut i: usize = 0;
            while i < n
                invariant
                    n == entries.len(),
                    j.value == JsonValue::Object(entries),
                    k@ == key@,
                    i <= n,
                    forall|m: int| 0 <= m < i ==> (#[trigger] entries@[m]).0@ != key@,
                decreases n - i,
            {
                if entries[i].0 == k {
                    proof {
                        assert(entries@[i as int].0@ == key@);
                        crate::json::lemma_first_index_unique(entries@, key@, i as int);
                    }
                    let (_, v) = entries.remove(i);
                    return Some(v);
                }
                i = i + 1;
            }
            None
        },
        _ => None,
    }
}

/// Whether `c` is the content of a request payload: its `content` member, or
/// JSON null where it has none.
pub open spec fn is_content_of(payload: Json, c: Json) -> bool {
    match member(payload, "content"@) {
        Some(x) => c == x,
        None => c.value == JsonValue::Null && c.text@ == "null"@,
    }
}

/// Whether a request asks for secure handling: its `secure` member where
/// that is a boolean, else true.
pub open spec fn secure_flag(payload: Json) -> bool {
    match member(payload, "secure"@) {
        Some(x) => match x.value {
            JsonValue::Bool(b) => b,
            _ => true,
        },
        None => true,
    }
}

/// The event that a chat request stands for: the payload's `content_type`
/// and `content` (JSON null where it has none), the content's value by
/// type, the request's step limit, and `secure` unless the payload says
/// otherwise. `content_is_flow_trigger` says whether the payload's content
/// reads as a `FlowTrigger`.
pub fn request_to_event(request: SerializedEvent, content_is_flow_trigger: bool) -> (r: Result<Event, BitpartError>)
    ensures
        member_str(request.payload, "content_type"@) is None ==> r is Err && r->Err_0 is Interpreter
            && r->Err_0->Interpreter_0@ == "no content_type in event payload"@,
        member_str(request.payload, "content_type"@) is Some ==> match r {
            Ok(e) => {
                &&& Some(e.content_type@) == member_str(request.payload, "content_type"@)
                &&& is_content_of(request.payload, e.content)
                &&& event_content(e.content_type@, e.content, content_is_flow_trigger) == Ok::<Seq<char>, Seq<char>>(
                    e.content_value@,
                )
                &&& e.ttl_duration is None
                &&& e.low_data_mode is None
                &&& e.step_limit == request.step_limit
                &&& e.secure == secure_flag(request.payload)
            },
            Err(e) => e is Interpreter && exists|c: Json|
                is_content_of(request.payload, c) && event_content(
                    member_str(request.payload, "content_type"@)->Some_0,
                    c,
                    content_is_flow_trigger,
                ) == Err::<Seq<char>, Seq<char>>(e->Interpreter_0@),
        },
{
    let step_limit = request.step_limit;
    let content_type = match member_string(&request.payload, "content_type") {
        Some(ct) => ct,
        None => {
            return Err(BitpartError::Interpreter(String::from_str("no content_type in event payload")));
        },
    };
    let secure = match request.payload.get("secure") {
        Some(x) => match x.as_bool() {
            Some(b) => b,
            None => true,
        },
        None => true,
    };
    let ghost payload0 = request.payload;
    let content = match take_member(request.payload, "content") {
        Some(c) => c,
        None => Json { value: JsonValue::Null, text: String::from_str("null") },
    };
    proof {
        reveal_strlit("null");
    }
    assert(is_content_of(payload0, content));
    let content_value = match get_event_content(content_type.as_str(), &content, content_is_flow_trigger) {
        Ok(v) => v,
        Err(e) => {
            return Err(e);
        },
    };
    Ok(Event {
        content_type,
        content_value,
        content,
        ttl_duration: None,
        low_data_mode: None,
        step_limit,
        secure,
    })
}

/// The number of days that conversation data is kept: the event's own
/// `ttl_duration` where it has one, else the configured value where one is
/// configured and reads as an integer, else none.
pub fn get_ttl_duration_value(event: Option<&Event>, configured: Option<&str>) -> (r: Option<i64>)
    ensures
        r == match event {
            Some(e) if e.ttl_duration is Some => e.ttl_duration,
            _ => match configured {
                Some(c) => crate::text::decimal_i64(c@),
                None => None,
            },
        },
{
    if let Some(e) = event {
        if let Some(ttl) = e.ttl_duration {
            return Some(ttl);
        }
    }
    match configured {
        Some(c) => crate::text::parse_i64(c),
        None => None,
    }
}

} // verus!
