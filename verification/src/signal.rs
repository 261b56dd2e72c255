//! The Signal channel's own logic: reading interpreter replies and undoing
//! their escaping, telling where a reply goes by user id, naming the
//! conversation a message belongs to (per contact, and per member in a
//! group), describing attachments, choosing what gets a reply, setting
//! disappearing-message timers, and the receiving loop's decisions.
use vstd::prelude::*;

use base64::Engine;

use crate::json::{json_text, json_text_of, member, str_of, Json, JsonValue};
use crate::event::Client;
use crate::store::{base64_standard, hex_digit, hex_lower, to_hex_lower, uuid_digits, uuid_hyphenated, uuid_text, Thread};
use crate::text::{chars_of, string_of};
use vstd::string::StringSliceAdditionalSpecFns;

verus! {

/// A quote character, as stripped from both ends of interpreter output.
pub open spec fn is_quote(c: char) -> bool {
    c == '"' || c == '\''
}

/// `s` without its leading quote characters.
pub open spec fn trim_start_quotes(s: Seq<char>) -> Seq<char>
    decreases s.len(),
{
    if s.len() > 0 && is_quote(s[0]) {
        trim_start_quotes(s.drop_first())
    } else {
        s
    }
}

/// `s` without its trailing quote characters.
pub open spec fn trim_end_quotes(s: Seq<char>) -> Seq<char>
    decreases s.len(),
{
    if s.len() > 0 && is_quote(s.last()) {
        trim_end_quotes(s.drop_last())
    } else {
        s
    }
}

/// `s` with every leading and trailing quote character removed.
pub open spec fn trim_quotes(s: Seq<char>) -> Seq<char> {
    trim_end_quotes(trim_start_quotes(s))
}

/// `s` with each occurrence of the two-character sequence `a b` replaced by
/// `r`, occurrences taken left to right without overlap.
pub open spec fn replace_pair(s: Seq<char>, a: char, b: char, r: char) -> Seq<char>
    decreases s.len(),
{
    if s.len() == 0 {
        s
    } else if s.len() >= 2 && s[0] == a && s[1] == b {
        seq![r] + replace_pair(s.skip(2), a, b, r)
    } else {
        seq![s[0]] + replace_pair(s.skip(1), a, b, r)
    }
}

/// Interpreter output made readable: quotes trimmed from both ends, then the
/// escapes `\n`, `\t`, `\"` and `\\` replaced by what they stand for, in this
/// order.
pub open spec fn unescaped(s: Seq<char>) -> Seq<char> {
    replace_pair(
        replace_pair(replace_pair(replace_pair(trim_quotes(s), '\\', 'n', '\n'), '\\', 't', '\t'), '\\', '"', '"'),
        '\\',
        '\\',
        '\\',
    )
}

proof fn lemma_trim_start_skip(s: Seq<char>, i: int)
    requires
        0 <= i <= s.len(),
        forall|k: int| 0 <= k < i ==> is_quote(#[trigger] s[k]),
        i == s.len() || !is_quote(s[i]),
    ensures
        trim_start_quotes(s) == s.skip(i),
    decreases i,
{
    if i == 0 {
        assert(s.skip(0) =~= s);
    } else {
        let t = s.drop_first();
        assert forall|k: int| 0 <= k < i - 1 implies is_quote(#[trigger] t[k]) by {
            assert(t[k] == s[k + 1]);
        }
        lemma_trim_start_skip(t, i - 1);
        assert(t.skip(i - 1) =~= s.skip(i));
    }
}

proof fn lemma_trim_end_take(s: Seq<char>, j: int)
    requires
        0 <= j <= s.len(),
        forall|k: int| j <= k < s.len() ==> is_quote(#[trigger] s[k]),
        j == 0 || !is_quote(s[j - 1]),
    ensures
        trim_end_quotes(s) == s.take(j),
    decreases s.len() - j,
{
    if j == s.len() {
        assert(s.take(j) =~= s);
        if s.len() > 0 {
            assert(s.last() == s[j - 1]);
        }
    } else {
        let t = s.drop_last();
        assert(s.last() == s[s.len() - 1]);
        assert forall|k: int| j <= k < t.len() implies is_quote(#[trigger] t[k]) by {
            assert(t[k] == s[k]);
        }
        if j > 0 {
            assert(t[j - 1] == s[j - 1]);
        }
        lemma_trim_end_take(t, j);
        assert(t.take(j) =~= s.take(j));
    }
}

fn trim_quote_chars(v: &Vec<char>) -> (r: Vec<char>)
    ensures
        r@ == trim_quotes(v@),
{
    let n = v.len();
    let mut i: usize = 0;
    while i < n && (v[i] == '"' || v[i] == '\'')
        invariant
            n == v.len(),
            i <= n,
            forall|k: int| 0 <= k < i ==> is_quote(#[trigger] v@[k]),
        decreases n - i,
    {
        i = i + 1;
    }
    proof {
        lemma_trim_start_skip(v@, i as int);
    }
    let ghost t = v@.skip(i as int);
    let mut j: usize = n;
    while j > i && (v[j - 1] == '"' || v[j - 1] == '\'')
        invariant
            n == v.len(),
            i <= j <= n,
            forall|k: int| j <= k < n ==> is_quote(#[trigger] v@[k]),
        decreases j,
    {
        j = j - 1;
    }
    proof {
        assert forall|k: int| (j - i) <= k < t.len() implies is_quote(#[trigger] t[k]) by {
            assert(t[k] == v@[k + i]);
        }
        if j > i {
            assert(t[j - i - 1] == v@[j - 1]);
        }
        lemma_trim_end_take(t, (j - i) as int);
    }
    let mut r: Vec<char> = Vec::new();
    let mut k: usize = i;
    while k < j
        invariant
            n == v.len(),
            i <= k <= j <= n,
            r@ == v@.subrange(i as int, k as int),
        decreases j - k,
    {
        r.push(v[k]);
        assert(v@.subrange(i as int, k as int + 1) =~= v@.subrange(i as int, k as int).push(v@[k as int]));
        k = k + 1;
    }
    assert(r@ =~= t.take(j - i));
    r
}

proof fn lemma_replace_step(s: Seq<char>, i: int, a: char, b: char, r: char)
    requires
        0 <= i < s.len(),
    ensures
        (i + 1 < s.len() && s[i] == a && s[i + 1] == b) ==> replace_pair(s.skip(i), a, b, r) == seq![r]
            + replace_pair(s.skip(i + 2), a, b, r),
        !(i + 1 < s.len() && s[i] == a && s[i + 1] == b) ==> replace_pair(s.skip(i), a, b, r) == seq![s[i]]
            + replace_pair(s.skip(i + 1), a, b, r),
{
    let t = s.skip(i);
    assert(t[0] == s[i]);
    if t.len() >= 2 {
        assert(t[1] == s[i + 1]);
    }
    if i + 2 <= s.len() {
        assert(t.skip(2) =~= s.skip(i + 2));
    }
    assert(t.skip(1) =~= s.skip(i + 1));
}

fn replace_chars(v: &Vec<char>, a: char, b: char, r: char) -> (out: Vec<char>)
    ensures
        out@ == replace_pair(v@, a, b, r),
{
    let n = v.len();
    let mut out: Vec<char> = Vec::new();
    let mut i: usize = 0;
    assert(v@.skip(0) =~= v@);
    while i < n
        invariant
            n == v.len(),
            i <= n,
            replace_pair(v@, a, b, r) == out@ + replace_pair(v@.skip(i as int), a, b, r),
        decreases n - i,
    {
        proof {
            lemma_replace_step(v@, i as int, a, b, r);
        }
        if i + 1 < n && v[i] == a && v[i + 1] == b {
            let ghost before = out@;
            out.push(r);
            assert(before + (seq![r] + replace_pair(v@.skip(i + 2), a, b, r)) =~= out@ + replace_pair(
                v@.skip(i + 2),
                a,
                b,
                r,
            ));
            i = i + 2;
        } else {
            let ghost before = out@;
            out.push(v[i]);
            assert(before + (seq![v@[i as int]] + replace_pair(v@.skip(i + 1), a, b, r)) =~= out@
                + replace_pair(v@.skip(i + 1), a, b, r));
            i = i + 1;
        }
    }
    assert(v@.skip(n as int) =~= Seq::<char>::empty());
    assert(out@ + Seq::<char>::empty() =~= out@);
    out
}

/// Makes interpreter output readable: trims quotes from both ends, then
/// replaces the escapes `\n`, `\t`, `\"` and `\\` by the characters they
/// stand for.
pub fn unescape(input: &str) -> (r: String)
    ensures
        r@ == unescaped(input@),
{
    let v = chars_of(input);
    let t = trim_quote_chars(&v);
    let s1 = replace_chars(&t, '\\', 'n', '\n');
    let s2 = replace_chars(&s1, '\\', 't', '\t');
    let s3 = replace_chars(&s2, '\\', '"', '"');
    let s4 = replace_chars(&s3, '\\', '\\', '\\');
    string_of(&s4)
}

} // verus!

verus! {

/// The UUID that `uuid::Uuid::try_parse` reads from a text, as a 128-bit
/// number, or `None` where it reads none.
pub uninterp spec fn uuid_parsed(text: Seq<char>) -> Option<u128>;

/// Parses a UUID (`uuid::Uuid::try_parse`, any of its accepted text forms)
/// and returns it as a number. Claimed: the result depends on the text
/// alone; the hyphenated lower-case form that `Uuid`'s `Display` writes
/// (`uuid_text`) reads back to the UUID it was written from; and no text
/// holding an `@` is read, since none of the accepted forms has one.
#[verifier::external_body]
fn uuid_try_parse(text: &str) -> (r: Option<u128>)
    ensures
        r == uuid_parsed(text@),
        forall|u: u128| text@ == #[trigger] uuid_text(u) ==> r == Some(u),
        text@.contains('@') ==> r is None,
{
    match uuid::Uuid::try_parse(text) {
        Ok(u) => Some(u.as_u128()),
        Err(_) => None,
    }
}

/// Where a reply goes: a contact, by UUID, or a group, by master key.
#[derive(Debug, Clone, PartialEq, Eq)]
pub enum Recipient {
    Contact(u128),
    Group([u8; 32]),
}

/// The value of a lower-case hexadecimal digit.
pub open spec fn hex_value(c: char) -> Option<int> {
    if '0' <= c && c <= '9' {
        Some(c as int - 48)
    } else if 'a' <= c && c <= 'f' {
        Some(c as int - 87)
    } else {
        None
    }
}

/// The bytes that a text of lower-case hexadecimal digit pairs stands for.
pub open spec fn hex_bytes(t: Seq<char>) -> Option<Seq<u8>>
    decreases t.len(),
{
    if t.len() == 0 {
        Some(seq![])
    } else if t.len() == 1 {
        None
    } else {
        match (hex_value(t[0]), hex_value(t[1]), hex_bytes(t.skip(2))) {
            (Some(h), Some(l), Some(rest)) => Some(seq![(h * 16 + l) as u8] + rest),
            _ => None,
        }
    }
}

/// The text after the first `@` of a user id, where it has one.
pub open spec fn after_first_at(u: Seq<char>) -> Option<Seq<char>> {
    if exists|i: int| 0 <= i < u.len() && u[i] == '@' {
        Some(
            u.skip(
                (choose|i: int| 0 <= i < u.len() && u[i] == '@' && forall|k: int| 0 <= k < i ==> u[k] != '@')
                    + 1,
            ),
        )
    } else {
        None
    }
}

/// The group that a group member's conversation id names: the 32 bytes
/// written in lower-case hexadecimal after its first `@`.
pub open spec fn group_member_key(u: Seq<char>) -> Option<Seq<u8>> {
    match after_first_at(u) {
        Some(t) => match hex_bytes(t) {
            Some(b) => if b.len() == 32 {
                Some(b)
            } else {
                None
            },
            None => None,
        },
        None => None,
    }
}

fn hex_value_of(c: char) -> (r: Option<u8>)
    ensures
        match hex_value(c) {
            Some(v) => r == Some(v as u8),
            None => r is None,
        },
{
    if c >= '0' && c <= '9' {
        Some(((c as u32) - 48) as u8)
    } else if c >= 'a' && c <= 'f' {
        Some(((c as u32) - 87) as u8)
    } else {
        None
    }
}

proof fn lemma_hex_bytes_len(t: Seq<char>)
    ensures
        hex_bytes(t) matches Some(b) ==> 2 * b.len() == t.len(),
    decreases t.len(),
{
    if t.len() >= 2 {
        lemma_hex_bytes_len(t.skip(2));
    }
}

/// Reads the 32 bytes written in lower-case hexadecimal in `t`, where it is
/// exactly that.
fn group_key_of_hex(t: &Vec<char>, from: usize) -> (r: Option<[u8; 32]>)
    requires
        from <= t@.len(),
    ensures
        match hex_bytes(t@.skip(from as int)) {
            Some(b) => if b.len() == 32 {
                r matches Some(k) && k@ == b
            } else {
                r is None
            },
            None => r is None,
        },
{
    let n = t.len();
    if n - from != 64 {
        proof {
            lemma_hex_bytes_len(t@.skip(from as int));
        }
        return None;
    }
    let mut key = [0u8; 32];
    let mut j: usize = 0;
    proof {
        assert(t@.skip(from as int).skip(0) =~= t@.skip(from as int));
    }
    while j < 32
        invariant
            n == t@.len(),
            n - from == 64,
            from <= n,
            j <= 32,
            hex_bytes(t@.skip(from as int)) == match hex_bytes(t@.skip(from as int + 2 * j)) {
                Some(rest) => Some(key@.take(j as int) + rest),
                None => None::<Seq<u8>>,
            },
        decreases 32 - j,
    {
        let p = from + 2 * j;
        let ghost tail = t@.skip(p as int);
        let h = hex_value_of(t[p]);
        let l = hex_value_of(t[p + 1]);
        proof {
            assert(tail[0] == t@[p as int]);
            assert(tail[1] == t@[p as int + 1]);
            assert(tail.skip(2) =~= t@.skip(p as int + 2));
        }
        match (h, l) {
            (Some(hv), Some(lv)) => {
                let b: u8 = hv * 16 + lv;
                let ghost before = key@;
                key[j] = b;
                proof {
                    assert(key@.take(j as int + 1) =~= before.take(j as int).push(b));
                    match hex_bytes(t@.skip(p as int + 2)) {
                        Some(rest) => {
                            assert(before.take(j as int) + (seq![b] + rest) =~= before.take(j as int).push(b) + rest);
                        },
                        None => {},
                    }
                }
                j = j + 1;
            },
            _ => {
                return None;
            },
        }
    }
    proof {
        assert(t@.skip(from as int + 64) =~= Seq::<char>::empty());
        assert(key@.take(32) =~= key@);
    }
    Some(key)
}

/// Whether a user id names `r` as where a reply goes (see
/// `try_user_id_to_recipient`).
pub open spec fn names_recipient(user_id: Seq<char>, r: Recipient) -> bool {
    match uuid_parsed(user_id) {
        Some(u) => r == Recipient::Contact(u),
        None => match group_member_key(user_id) {
            Some(k) => r matches Recipient::Group(g) && g@ == k,
            None => r matches Recipient::Group(g) && g@ == vstd::utf8::encode_utf8(user_id),
        },
    }
}

/// Whether a user id names no recipient at all.
pub open spec fn refuses_recipient(user_id: Seq<char>) -> bool {
    uuid_parsed(user_id) is None && group_member_key(user_id) is None && vstd::utf8::encode_utf8(user_id).len() != 32
}

/// Reads the recipient out of a user id: a UUID names a contact; otherwise
/// a group member's conversation id (see `group_conversation_id`) names its
/// group; otherwise the id's 32 bytes are a group master key; anything else
/// is refused. A reply in a conversation goes back where the conversation
/// came from: to the contact whose UUID text is the id, or to the group
/// whose member conversation id it is.
pub fn try_user_id_to_recipient(user_id: &str) -> (r: Result<Recipient, crate::error::BitpartError>)
    ensures
        match uuid_parsed(user_id@) {
            Some(u) => r == Ok::<Recipient, crate::error::BitpartError>(Recipient::Contact(u)),
            None => match group_member_key(user_id@) {
                Some(k) => r matches Ok(Recipient::Group(g)) && g@ == k,
                None => if user_id.spec_bytes().len() == 32 {
                    r matches Ok(Recipient::Group(g)) && g@ == user_id.spec_bytes()
                } else {
                    r == Err::<Recipient, crate::error::BitpartError>(crate::error::BitpartError::InvalidRecipient)
                },
            },
        },
        match r {
            Ok(rec) => names_recipient(user_id@, rec),
            Err(e) => refuses_recipient(user_id@) && e == crate::error::BitpartError::InvalidRecipient,
        },
        forall|s: u128|
            user_id@ == #[trigger] uuid_text(s) ==> r == Ok::<Recipient, crate::error::BitpartError>(
                Recipient::Contact(s),
            ),
        forall|k: Seq<u8>, s: u128|
            k.len() == 32 && user_id@ == #[trigger] group_conversation_id(k, s) ==> (r matches Ok(
                Recipient::Group(g),
            ) && g@ == k),
{
    proof {
        assert forall|k: Seq<u8>, s: u128|
            k.len() == 32 && user_id@ == #[trigger] group_conversation_id(k, s) implies user_id@.contains('@')
            && group_member_key(user_id@) == Some(k) by {
            lemma_uuid_text_shape(s);
            lemma_group_replies_go_to_group(k, s);
            assert(user_id@[36] == '@');
        }
    }
    match uuid_try_parse(user_id) {
        Some(u) => {
            return Ok(Recipient::Contact(u));
        },
        None => {},
    }
    let v = chars_of(user_id);
    let n = v.len();
    let mut i: usize = 0;
    while i < n && v[i] != '@'
        invariant
            n == v.len(),
            i <= n,
            forall|k: int| 0 <= k < i ==> v@[k] != '@',
        decreases n - i,
    {
        i = i + 1;
    }
    if i < n {
        proof {
            assert(v@[i as int] == '@');
            let j = choose|j: int| 0 <= j < v@.len() && v@[j] == '@' && forall|k: int| 0 <= k < j ==> v@[k] != '@';
            assert(j == i) by {
                if j < i {
                    assert(v@[j] != '@');
                } else if j > i {
                    assert(v@[i as int] != '@');
                }
            }
        }
        match group_key_of_hex(&v, i + 1) {
            Some(k) => {
                return Ok(Recipient::Group(k));
            },
            None => {},
        }
    }
    let bytes = user_id.as_bytes();
    if bytes.len() != 32 {
        return Err(crate::error::BitpartError::InvalidRecipient);
    }
    let mut key = [0u8; 32];
    let mut i: usize = 0;
    while i < 32
        invariant
            bytes@.len() == 32,
            i <= 32,
            forall|k: int| 0 <= k < i ==> key@[k] == bytes@[k],
        decreases 32 - i,
    {
        key[i] = bytes[i];
        i = i + 1;
    }
    assert(key@ =~= bytes@);
    Ok(Recipient::Group(key))
}

/// The account part of a stored session address `account.device`: the text
/// before the first `.`, or all of it where there is none.
pub open spec fn session_account(address: Seq<char>) -> Seq<char> {
    if exists|i: int| 0 <= i < address.len() && address[i] == '.' {
        address.take(choose|i: int| 0 <= i < address.len() && address[i] == '.' && forall|k: int| 0 <= k < i ==> address[k] != '.')
    } else {
        address
    }
}

/// The UUID of the account that a stored session belongs to, read from its
/// address `uuid.device`; `None` where the part before the first `.` is not a
/// UUID.
pub fn session_address_uuid(address: &str) -> (r: Option<u128>)
    ensures
        r == uuid_parsed(session_account(address@)),
{
    let v = chars_of(address);
    let n = v.len();
    let mut i: usize = 0;
    while i < n && v[i] != '.'
        invariant
            n == v.len(),
            i <= n,
            forall|k: int| 0 <= k < i ==> v@[k] != '.',
        decreases n - i,
    {
        i = i + 1;
    }
    let mut head: Vec<char> = Vec::new();
    let mut k: usize = 0;
    while k < i
        invariant
            n == v.len(),
            k <= i <= n,
            head@ == v@.take(k as int),
        decreases i - k,
    {
        head.push(v[k]);
        assert(v@.take(k as int + 1) =~= v@.take(k as int).push(v@[k as int]));
        k = k + 1;
    }
    proof {
        if i < n {
            assert(v@[i as int] == '.');
            let j = choose|j: int| 0 <= j < v@.len() && v@[j] == '.' && forall|k: int| 0 <= k < j ==> v@[k] != '.';
            assert(j == i) by {
                if j < i {
                    assert(v@[j] != '.');
                } else if j > i {
                    assert(v@[i as int] != '.');
                }
            }
        } else {
            assert(v@.take(n as int) =~= v@);
        }
    }
    let s = string_of(&head);
    uuid_try_parse(s.as_str())
}

/// The member at the end of a path of keys, where each step finds one.
pub open spec fn at_path(j: Json, path: Seq<Seq<char>>) -> Option<Json>
    decreases path.len(),
{
    if path.len() == 0 {
        Some(j)
    } else {
        match member(j, path[0]) {
            Some(x) => at_path(x, path.drop_first()),
            None => None,
        }
    }
}

/// The user an interpreter reply goes to: the JSON text of its
/// `payload.content.client.user_id` (see `json_text_of`), made readable,
/// where it has one; otherwise the user that was talked to.
pub fn reply_get_user_id(res: &Json, default_user_id: &str) -> (r: String)
    ensures
        r@ == match at_path(*res, seq!["payload"@, "content"@, "client"@, "user_id"@]) {
            Some(u) => unescaped(json_text_of(u)),
            None => default_user_id@,
        },
{
    proof {
        reveal_with_fuel(at_path, 5);
    }
    if let Some(payload) = res.get("payload") {
        if let Some(content) = payload.get("content") {
            if let Some(client) = content.get("client") {
                if let Some(user_id) = client.get("user_id") {
                    let t = json_text(user_id);
                    return unescape(t.as_str());
                }
            }
        }
    }
    String::from_str(default_user_id)
}

/// The text of an interpreter reply: the JSON text of its
/// `payload.content.text` (see `json_text_of`), made readable, where it has
/// one; otherwise empty. For a string member this is the string itself but
/// for leading and trailing quote characters and the escapes `unescape`
/// reads.
pub fn reply_get_text(res: &Json) -> (r: String)
    ensures
        r@ == match at_path(*res, seq!["payload"@, "content"@, "text"@]) {
            Some(t) => unescaped(json_text_of(t)),
            None => Seq::<char>::empty(),
        },
{
    proof {
        reveal_with_fuel(at_path, 4);
    }
    if let Some(payload) = res.get("payload") {
        if let Some(content) = payload.get("content") {
            if let Some(text) = content.get("text") {
                let t = json_text(text);
                return unescape(t.as_str());
            }
        }
    }
    String::new()
}

/// The bytes that a text decodes to in standard Base64, or `None` where it is
/// not valid standard Base64.
pub uninterp spec fn base64_decoded(text: Seq<char>) -> Option<Seq<u8>>;

/// Decodes standard Base64 (`base64`'s `BASE64_STANDARD.decode`). Claimed:
/// the result depends on the text alone; the encoding of some bytes decodes
/// back to those bytes; and, since that engine requires canonical padding
/// and no trailing bits, a text decodes only where it is the encoding of
/// what it decodes to.
#[verifier::external_body]
fn base64_decode(text: &str) -> (r: Option<Vec<u8>>)
    ensures
        match r {
            Some(v) => base64_decoded(text@) == Some(v@),
            None => base64_decoded(text@) is None,
        },
        forall|b: Seq<u8>| text@ == #[trigger] base64_standard(b) ==> r is Some && r->Some_0@ == b,
        r matches Some(v) ==> text@ == base64_standard(v@),
{
    match base64::prelude::BASE64_STANDARD.decode(text) {
        Ok(v) => Some(v),
        Err(_) => None,
    }
}

/// The text of the `_ref` string member of an item, where it has one.
pub open spec fn ref_text(item: Json) -> Option<Seq<char>> {
    match member(item, "_ref"@) {
        Some(x) => str_of(x),
        None => None,
    }
}

/// A reply whose attachment items refer, in order, to encoded pointers
/// gives back those pointers, in order.
pub proof fn lemma_attachment_round_trip(items: Seq<Json>, pointers: Seq<Seq<u8>>)
    requires
        items.len() == pointers.len(),
        forall|i: int| 0 <= i < items.len() ==> attachment_ref(#[trigger] items[i]) == Some(pointers[i]),
    ensures
        attachment_refs(items) == pointers,
    decreases items.len(),
{
    if items.len() > 0 {
        let n = items.len() - 1;
        assert forall|i: int| 0 <= i < items.drop_last().len() implies attachment_ref(#[trigger] items.drop_last()[i])
            == Some(pointers.drop_last()[i]) by {
            assert(items.drop_last()[i] == items[i]);
        }
        lemma_attachment_round_trip(items.drop_last(), pointers.drop_last());
        assert(items.last() == items[n]);
        assert(pointers.drop_last().push(pointers[n]) =~= pointers);
    }
}

/// The encoded attachment an item of a reply refers to: the Base64 bytes of
/// its `_ref` text, where it has one that decodes.
pub open spec fn attachment_ref(item: Json) -> Option<Seq<u8>> {
    match member(item, "_ref"@) {
        Some(x) => match str_of(x) {
            Some(t) => base64_decoded(t),
            None => None,
        },
        None => None,
    }
}

/// The encoded attachments that the items refer to, in order, skipping
/// items that refer to none.
pub open spec fn attachment_refs(items: Seq<Json>) -> Seq<Seq<u8>>
    decreases items.len(),
{
    if items.len() == 0 {
        seq![]
    } else {
        let rest = attachment_refs(items.drop_last());
        match attachment_ref(items.last()) {
            Some(b) => rest.push(b),
            None => rest,
        }
    }
}

/// The attachments of an interpreter reply, as encoded attachment pointers:
/// for each item of its `payload.content.attachments` array, in order, the
/// bytes its `_ref` decodes to; items without a valid `_ref` are skipped.
pub fn reply_get_attachments(res: &Json) -> (r: Vec<Vec<u8>>)
    ensures
        r@.map_values(|v: Vec<u8>| v@) == match at_path(*res, seq!["payload"@, "content"@, "attachments"@]) {
            Some(a) => match a.value {
                JsonValue::Array(items) => attachment_refs(items@),
                _ => Seq::<Seq<u8>>::empty(),
            },
            None => Seq::<Seq<u8>>::empty(),
        },
        at_path(*res, seq!["payload"@, "content"@, "attachments"@]) matches Some(a) ==> (a.value matches JsonValue::Array(
            items,
        ) ==> forall|i: int, b: Seq<u8>|
            #![trigger ref_text(items@[i]), base64_standard(b)]
            0 <= i < items@.len() && ref_text(items@[i]) == Some(base64_standard(b)) ==> attachment_ref(items@[i])
                == Some(b)),
{
    proof {
        reveal_with_fuel(at_path, 4);
    }
    let mut out: Vec<Vec<u8>> = Vec::new();
    let items = match res.get("payload") {
        Some(payload) => match payload.get("content") {
            Some(content) => match content.get("attachments") {
                Some(a) => match a.as_array() {
                    Some(items) => items,
                    None => {
                        return out;
                    },
                },
                None => {
                    return out;
                },
            },
            None => {
                return out;
            },
        },
        None => {
            return out;
        },
    };
    let n = items.len();
    let mut i: usize = 0;
    while i < n
        invariant
            n == items@.len(),
            i <= n,
            out@.map_values(|v: Vec<u8>| v@) == attachment_refs(items@.take(i as int)),
            forall|k: int, b: Seq<u8>|
                #![trigger ref_text(items@[k]), base64_standard(b)]
                0 <= k < i && ref_text(items@[k]) == Some(base64_standard(b)) ==> attachment_ref(items@[k]) == Some(b),
        decreases n - i,
    {
        let item = &items[i];
        proof {
            assert(items@.take(i as int + 1).drop_last() =~= items@.take(i as int));
            assert(items@.take(i as int + 1).last() == items@[i as int]);
        }
        let ghost before = out@;
        match item.get("_ref") {
            Some(x) => match x.as_str() {
                Some(t) => match base64_decode(t.as_str()) {
                    Some(bytes) => {
                        out.push(bytes);
                        assert(out@.map_values(|v: Vec<u8>| v@) =~= before.map_values(|v: Vec<u8>| v@).push(
                            out@[out@.len() - 1]@,
                        ));
                    },
                    None => {},
                },
                None => {},
            },
            None => {},
        }
        i = i + 1;
    }
    assert(items@.take(n as int) =~= items@);
    out
}

/// The values that decoded, in order.
pub open spec fn decoded_values<P>(decoded: Seq<Option<P>>) -> Seq<P>
    decreases decoded.len(),
{
    if decoded.len() == 0 {
        seq![]
    } else {
        let rest = decoded_values(decoded.drop_last());
        match decoded.last() {
            Some(p) => rest.push(p),
            None => rest,
        }
    }
}

/// The attachment pointers of a reply: of the encodings that
/// `reply_get_attachments` hands back, each decoded as a Signal attachment
/// pointer by the caller, those that decode, in order; the others are
/// dropped.
pub fn decoded_pointers<P>(decoded: Vec<Option<P>>) -> (r: Vec<P>)
    ensures
        r@ == decoded_values(decoded@),
{
    let ghost all = decoded@;
    let n = decoded.len();
    let mut rest = decoded;
    let mut out: Vec<P> = Vec::new();
    let mut i: usize = 0;
    while i < n
        invariant
            n == all.len(),
            i <= n,
            rest@ == all.skip(i as int),
            out@ == decoded_values(all.take(i as int)),
        decreases n - i,
    {
        let d = rest.remove(0);
        proof {
            assert(all.skip(i as int)[0] == all[i as int]);
            assert(rest@ =~= all.skip(i as int + 1));
            assert(all.take(i as int + 1).drop_last() =~= all.take(i as int));
            assert(all.take(i as int + 1).last() == all[i as int]);
        }
        match d {
            Some(p) => out.push(p),
            None => {},
        }
        i = i + 1;
    }
    assert(all.take(n as int) =~= all);
    out
}

/// An attachment of an incoming message: its encoded pointer and what it
/// says of itself.
#[derive(Debug, Clone)]
pub struct AttachmentInfo {
    pub encoded: Vec<u8>,
    pub content_type: Option<String>,
    pub file_name: Option<String>,
    pub size: Option<u32>,
}

/// An attachment as handed to the interpreter: a `_ref` to the encoded
/// pointer in Base64, and its content type, file name and size where known.
#[derive(Debug, Clone)]
pub struct AttachmentDescription {
    pub reference: String,
    pub content_type: Option<String>,
    pub file_name: Option<String>,
    pub size: Option<u32>,
}

fn clone_opt(o: &Option<String>) -> (r: Option<String>)
    ensures
        r == *o,
{
    match o {
        Some(s) => Some(s.clone()),
        None => None,
    }
}

/// Describes the attachments of an incoming data message for the
/// interpreter, in order; other messages have none.
pub fn describe_attachments(attachments: Option<&Vec<AttachmentInfo>>) -> (r: Vec<AttachmentDescription>)
    ensures
        match attachments {
            None => r@.len() == 0,
            Some(a) => r@.len() == a@.len() && forall|i: int|
                0 <= i < a@.len() ==> {
                    &&& (#[trigger] r@[i]).reference@ == base64_standard(a@[i].encoded@)
                    &&& r@[i].content_type == a@[i].content_type
                    &&& r@[i].file_name == a@[i].file_name
                    &&& r@[i].size == a@[i].size
                },
        },
{
    let mut out: Vec<AttachmentDescription> = Vec::new();
    match attachments {
        None => out,
        Some(a) => {
            let n = a.len();
            let mut i: usize = 0;
            while i < n
                invariant
                    n == a@.len(),
                    i <= n,
                    out@.len() == i,
                    forall|k: int|
                        0 <= k < i ==> {
                            &&& (#[trigger] out@[k]).reference@ == base64_standard(a@[k].encoded@)
                            &&& out@[k].content_type == a@[k].content_type
                            &&& out@[k].file_name == a@[k].file_name
                            &&& out@[k].size == a@[k].size
                        },
                decreases n - i,
            {
                let p = &a[i];
                out.push(
                    AttachmentDescription {
                        reference: crate::store::base64_encode(p.encoded.as_slice()),
                        content_type: clone_opt(&p.content_type),
                        file_name: clone_opt(&p.file_name),
                        size: p.size,
                    },
                );
                i = i + 1;
            }
            out
        },
    }
}

/// The disappearing-message timer to set when a user first contacts the bot:
/// where this is the first contact, the user id names a contact, the bot has
/// a timer above zero, and the contact's thread has no timer above zero yet,
/// the contact and the bot's timer. A user's conversation id (the UUID's
/// text) names that user.
pub fn expire_timer_update(first_contact: bool, user_id: &str, bot_timer: Option<u32>, thread_timer: Option<u32>) -> (r: Option<(u128, u32)>)
    ensures
        r == if first_contact && uuid_parsed(user_id@) is Some && bot_timer is Some && bot_timer->Some_0 > 0
            && !(thread_timer is Some && thread_timer->Some_0 > 0) {
            Some((uuid_parsed(user_id@)->Some_0, bot_timer->Some_0))
        } else {
            None
        },
        forall|u: u128|
            user_id@ == #[trigger] uuid_text(u) ==> r == if first_contact && bot_timer is Some && bot_timer->Some_0
                > 0 && !(thread_timer is Some && thread_timer->Some_0 > 0) {
                Some((u, bot_timer->Some_0))
            } else {
                None
            },
{
    if !first_contact {
        return None;
    }
    match try_user_id_to_recipient(user_id) {
        Ok(Recipient::Contact(u)) => match bot_timer {
            Some(t) if t > 0 => {
                let already = match thread_timer {
                    Some(x) => x > 0,
                    None => false,
                };
                if already {
                    None
                } else {
                    Some((u, t))
                }
            },
            _ => None,
        },
        _ => None,
    }
}

/// A reaction carried by a data message.
#[derive(Debug, Clone)]
pub struct ReactionInfo {
    pub target_sent_timestamp: Option<u64>,
    pub emoji: Option<String>,
}

/// What the bot reads of an incoming data message: its body, whether it
/// quotes a message with text, its reaction, and the accounts (by UUID) that
/// it @mentions.
#[derive(Debug, Clone)]
pub struct DataMessageInfo {
    pub body: Option<String>,
    pub quote_has_text: bool,
    pub reaction: Option<ReactionInfo>,
    pub mentions: Vec<u128>,
}

/// The kind of an incoming Signal content.
#[derive(Debug, Clone)]
pub enum IncomingBody {
    Null,
    Data(DataMessageInfo),
    Edit(Option<DataMessageInfo>),
    SyncSent(Option<DataMessageInfo>),
    SyncSentEdit(Option<DataMessageInfo>),
    SyncOther,
    Call,
    Typing,
    Receipt,
    Story,
    DecryptionError,
}

/// Whether the message is a quote with text and a body.
pub open spec fn is_quote_answer(dm: DataMessageInfo) -> bool {
    dm.quote_has_text && dm.body is Some
}

/// The reacted-to message's timestamp and the emoji, where the message is a
/// reaction that names both.
pub open spec fn reaction_parts(dm: DataMessageInfo) -> Option<(u64, Seq<char>)> {
    match dm.reaction {
        Some(r) => if r.target_sent_timestamp is Some && r.emoji is Some {
            Some((r.target_sent_timestamp->Some_0, r.emoji->Some_0@))
        } else {
            None
        },
        None => None,
    }
}

/// The sent timestamp of the message that a reaction refers to, which is to
/// be looked up in the thread before the reaction can be described.
pub fn reaction_lookup(dm: &DataMessageInfo) -> (r: Option<u64>)
    ensures
        r == if is_quote_answer(*dm) {
            None
        } else {
            match reaction_parts(*dm) {
                Some(p) => Some(p.0),
                None => None,
            }
        },
{
    if dm.quote_has_text && dm.body.is_some() {
        return None;
    }
    match &dm.reaction {
        Some(r) => match (&r.target_sent_timestamp, &r.emoji) {
            (Some(ts), Some(_)) => Some(*ts),
            _ => None,
        },
        None => None,
    }
}

/// The text a data message stands for: a redacted note for quotes with text
/// and for reactions (where the reacted-to message is stored with a body,
/// `reacted_has_body`), else its body.
pub open spec fn data_message_text(dm: DataMessageInfo, reacted_has_body: bool) -> Option<Seq<char>> {
    if is_quote_answer(dm) {
        Some("Answer to message \"REDACTED\": REDACTED"@)
    } else if reaction_parts(dm) is Some {
        if reacted_has_body {
            Some("Reacted with "@ + reaction_parts(dm)->Some_0.1 + " to message: \"REDACTED\""@)
        } else {
            None
        }
    } else {
        match dm.body {
            Some(b) => Some(b@),
            None => None,
        }
    }
}

/// The text a data message stands for; `reacted_has_body` says whether the
/// message it reacts to (see `reaction_lookup`) is stored with a body.
pub fn format_data_message(dm: &DataMessageInfo, reacted_has_body: bool) -> (r: Option<String>)
    ensures
        match r {
            Some(t) => data_message_text(*dm, reacted_has_body) == Some(t@),
            None => data_message_text(*dm, reacted_has_body) is None,
        },
{
    if dm.quote_has_text && dm.body.is_some() {
        return Some(String::from_str("Answer to message \"REDACTED\": REDACTED"));
    }
    if let Some(r) = &dm.reaction {
        if let (Some(_), Some(emoji)) = (&r.target_sent_timestamp, &r.emoji) {
            if reacted_has_body {
                let mut t = String::from_str("Reacted with ");
                t.append(emoji.as_str());
                t.append(" to message: \"REDACTED\"");
                return Some(t);
            } else {
                return None;
            }
        }
    }
    match &dm.body {
        Some(b) => Some(b.clone()),
        None => None,
    }
}

/// Whether the bot answers a content of a thread: data messages of a
/// contact, and data messages in a group that @mention the bot's own
/// account; nothing else (edits, sync copies, calls...).
pub open spec fn answers(thread: Thread, own_account: u128, body: IncomingBody) -> bool {
    match body {
        IncomingBody::Data(dm) => match thread {
            Thread::Contact(_) => true,
            Thread::Group(_) => dm.mentions@.contains(own_account),
        },
        _ => false,
    }
}

fn mentions_account(mentions: &Vec<u128>, account: u128) -> (r: bool)
    ensures
        r == mentions@.contains(account),
{
    let n = mentions.len();
    let mut i: usize = 0;
    while i < n
        invariant
            n == mentions.len(),
            i <= n,
            forall|k: int| 0 <= k < i ==> mentions@[k] != account,
        decreases n - i,
    {
        if mentions[i] == account {
            assert(mentions@[i as int] == account);
            return true;
        }
        i = i + 1;
    }
    false
}

/// The text the bot replies to, where it replies at all: a content that the
/// bot answers (see `answers`) and that stands for a text.
pub fn reply_text(thread: &Thread, own_account: u128, body: &IncomingBody, reacted_has_body: bool) -> (r: Option<String>)
    ensures
        match r {
            Some(t) => answers(*thread, own_account, *body) && data_message_text(body->Data_0, reacted_has_body) == Some(
                t@,
            ),
            None => !(answers(*thread, own_account, *body) && data_message_text(body->Data_0, reacted_has_body) is Some),
        },
{
    match body {
        IncomingBody::Data(dm) => {
            let answered = match thread {
                Thread::Contact(_) => true,
                Thread::Group(_) => mentions_account(&dm.mentions, own_account),
            };
            if answered {
                format_data_message(dm, reacted_has_body)
            } else {
                None
            }
        },
        _ => None,
    }
}

/// The id of a group member's own conversation with the bot in a group: the
/// member's hyphenated UUID, `@`, and the group's master key in lower-case
/// hexadecimal.
pub open spec fn group_conversation_id(key: Seq<u8>, member: u128) -> Seq<char> {
    uuid_text(member) + seq!['@'] + hex_lower(key)
}

/// The user of the conversation that a message belongs to: the contact, by
/// UUID, for a direct message; the sender's own conversation in the group
/// for a group message.
pub open spec fn conversation_user(thread: Thread, sender: u128) -> Seq<char> {
    match thread {
        Thread::Contact(u) => uuid_text(u),
        Thread::Group(k) => group_conversation_id(k@, sender),
    }
}

/// The user id of the conversation that a message from `sender` in `thread`
/// belongs to, as `conversation_user` states.
pub fn conversation_user_id(thread: &Thread, sender: u128) -> (r: String)
    ensures
        r@ == conversation_user(*thread, sender),
{
    match thread {
        Thread::Contact(u) => uuid_hyphenated(*u),
        Thread::Group(k) => {
            let mut id = uuid_hyphenated(sender);
            id.append("@");
            let bytes = vstd::slice::slice_to_vec(k.as_slice());
            let hex = to_hex_lower(&bytes);
            id.append(hex.as_str());
            proof {
                reveal_strlit("@");
            }
            id
        },
    }
}

/// Who a conversation on a Signal channel is with: the bot, the channel the
/// message came in on (each channel keeps its own conversations), and the
/// conversation's user (see `conversation_user`).
pub fn conversation_client(bot_id: &str, channel_id: &str, thread: &Thread, sender: u128) -> (r: Client)
    ensures
        r.bot_id@ == bot_id@,
        r.channel_id@ == channel_id@,
        r.user_id@ == conversation_user(*thread, sender),
{
    Client {
        bot_id: String::from_str(bot_id),
        channel_id: String::from_str(channel_id),
        user_id: conversation_user_id(thread, sender),
    }
}

/// Whether an incoming content counts as a received message: only data
/// messages do.
pub fn counts_as_received(body: &IncomingBody) -> (r: bool)
    ensures
        r == body is Data,
{
    match body {
        IncomingBody::Data(_) => true,
        _ => false,
    }
}

/// The messages of an interpreter response that are sent back to the user:
/// its `messages` array; none where it has no `messages`; an error where
/// `messages` is not an array.
pub fn reply_messages(res: &Json) -> (r: Result<Option<&Vec<Json>>, crate::error::BitpartError>)
    ensures
        match member(*res, "messages"@) {
            None => r == Ok::<Option<&Vec<Json>>, crate::error::BitpartError>(None),
            Some(m) => match m.value {
                JsonValue::Array(items) => r matches Ok(Some(v)) && *v == items,
                _ => r matches Err(e) && e == crate::error::BitpartError::Signal(e->Signal_0)
                    && e->Signal_0@ == "Got invalid message from interpreter"@,
            },
        },
{
    match res.get("messages") {
        None => Ok(None),
        Some(m) => match m.as_array() {
            Some(items) => Ok(Some(items)),
            None => Err(crate::error::BitpartError::Signal(String::from_str("Got invalid message from interpreter"))),
        },
    }
}

/// Whether an interpreter response asks for the conversation's Signal state
/// to be purged: its `deleted` member is `true`.
pub fn reply_deletes_conversation(res: &Json) -> (r: bool)
    ensures
        r == (member(*res, "deleted"@) matches Some(d) && d.value == JsonValue::Bool(true)),
{
    match res.get("deleted") {
        Some(d) => match d.as_bool() {
            Some(b) => b,
            None => false,
        },
        None => false,
    }
}

/// What the receiving loop of a channel gets from the Signal server.
#[derive(Debug, Clone)]
pub enum ReceiveEvent {
    /// The message stream was opened.
    Connected,
    /// The stream delivered a content.
    Content(IncomingBody),
    /// The queue of waiting messages is empty.
    QueueEmpty,
    /// Contacts were synchronized.
    Contacts,
    /// A message could not be decrypted.
    DecryptionError,
    /// The stream could not be opened.
    Failed,
}

/// What the receiving loop does next.
#[derive(Debug, Clone, Copy, PartialEq, Eq, Structural)]
pub enum ReceiveAction {
    /// Nothing but go on receiving.
    Continue,
    /// Send a delivery receipt for the content and process it.
    AcknowledgeAndProcess,
    /// Wait this many seconds, then reload the account and reconnect.
    WaitAndReconnect(u64),
}

/// What an event of the receiving loop does to the channel's counters.
pub open spec fn receive_effect(m: crate::metrics::ChannelMetricsSnapshot, event: ReceiveEvent) -> crate::metrics::ChannelMetricsSnapshot {
    match event {
        ReceiveEvent::Connected => crate::metrics::ChannelMetricsSnapshot {
            status: crate::metrics::ConnectionStatus::Linked,
            ..m
        },
        ReceiveEvent::Content(b) => if b is Data {
            crate::metrics::ChannelMetricsSnapshot { received: crate::metrics::counter_next(m.received), ..m }
        } else {
            m
        },
        ReceiveEvent::Failed => crate::metrics::ChannelMetricsSnapshot {
            status: crate::metrics::ConnectionStatus::Failing,
            ..m
        },
        _ => m,
    }
}

/// The number of data messages among the events.
pub open spec fn data_messages(events: Seq<ReceiveEvent>) -> nat
    decreases events.len(),
{
    if events.len() == 0 {
        0
    } else {
        data_messages(events.drop_last()) + if events.last() matches ReceiveEvent::Content(b) && b is Data {
            1nat
        } else {
            0nat
        }
    }
}

/// The status the events leave: that of the last opened or failed stream,
/// or the status before them where there is none.
pub open spec fn status_after(s: crate::metrics::ConnectionStatus, events: Seq<ReceiveEvent>) -> crate::metrics::ConnectionStatus
    decreases events.len(),
{
    if events.len() == 0 {
        s
    } else {
        match events.last() {
            ReceiveEvent::Connected => crate::metrics::ConnectionStatus::Linked,
            ReceiveEvent::Failed => crate::metrics::ConnectionStatus::Failing,
            _ => status_after(s, events.drop_last()),
        }
    }
}

/// Over a run of the receiving loop, where each event has the effect that
/// `on_receive_event` states: the channel is linked after an opened stream
/// and failing after a failed one, as the last of these says; it counts
/// exactly one received message per data message (where the counter does
/// not pass its largest value); and its sent count is unchanged.
pub proof fn lemma_receive_run(counters: Seq<crate::metrics::ChannelMetricsSnapshot>, events: Seq<ReceiveEvent>)
    requires
        counters.len() == events.len() + 1,
        forall|i: int| 0 <= i < events.len() ==> counters[i + 1] == receive_effect(counters[i], #[trigger] events[i]),
        counters[0].received + data_messages(events) <= u64::MAX,
    ensures
        counters.last().status == status_after(counters[0].status, events),
        counters.last().received == counters[0].received + data_messages(events),
        counters.last().sent == counters[0].sent,
    decreases events.len(),
{
    if events.len() > 0 {
        let n = events.len() - 1;
        let c2 = counters.drop_last();
        let e2 = events.drop_last();
        assert forall|i: int| 0 <= i < e2.len() implies c2[i + 1] == receive_effect(c2[i], #[trigger] e2[i]) by {
            assert(c2[i + 1] == counters[i + 1]);
            assert(c2[i] == counters[i]);
            assert(e2[i] == events[i]);
        }
        assert(data_messages(e2) <= data_messages(events));
        lemma_receive_run(c2, e2);
        assert(counters[n + 1] == receive_effect(counters[n], events[n]));
        assert(c2.last() == counters[n]);
        assert(counters.last() == counters[n + 1]);
        assert(events.last() == events[n]);
    }
}

/// The receiving loop's decision on an event, and its effect on the
/// channel's counters: an opened stream marks the channel linked; a content
/// is acknowledged and processed, and counts as received where it is a data
/// message; a failure marks the channel failing and waits 30 seconds before
/// reconnecting; anything else changes nothing.
pub fn on_receive_event(metrics: &mut crate::metrics::ChannelMetrics, event: &ReceiveEvent) -> (r: ReceiveAction)
    ensures
        match *event {
            ReceiveEvent::Connected => r == ReceiveAction::Continue && final(metrics)@ == (
            crate::metrics::ChannelMetricsSnapshot { status: crate::metrics::ConnectionStatus::Linked, ..old(metrics)@ }),
            ReceiveEvent::Content(b) => r == ReceiveAction::AcknowledgeAndProcess && final(metrics)@ == if b is Data {
                crate::metrics::ChannelMetricsSnapshot {
                    received: crate::metrics::counter_next(old(metrics)@.received),
                    ..old(metrics)@
                }
            } else {
                old(metrics)@
            },
            ReceiveEvent::Failed => r == ReceiveAction::WaitAndReconnect(30) && final(metrics)@ == (
            crate::metrics::ChannelMetricsSnapshot { status: crate::metrics::ConnectionStatus::Failing, ..old(metrics)@ }),
            _ => r == ReceiveAction::Continue && final(metrics)@ == old(metrics)@,
        },
        final(metrics)@ == receive_effect(old(metrics)@, *event),
{
    match event {
        ReceiveEvent::Connected => {
            metrics.set_status(crate::metrics::ConnectionStatus::Linked);
            ReceiveAction::Continue
        },
        ReceiveEvent::Content(b) => {
            if counts_as_received(b) {
                metrics.incr_received();
            }
            ReceiveAction::AcknowledgeAndProcess
        },
        ReceiveEvent::Failed => {
            metrics.set_status(crate::metrics::ConnectionStatus::Failing);
            ReceiveAction::WaitAndReconnect(30)
        },
        _ => ReceiveAction::Continue,
    }
}

proof fn lemma_hex_digit_value(v: int)
    requires
        0 <= v < 16,
    ensures
        hex_value(hex_digit(v)) == Some(v),
        hex_digit(v) != '@',
{
}

/// The base-16 digit of `x` at position `e`, counted from the least
/// significant.
spec fn digit16(x: int, e: nat) -> int {
    (x / vstd::arithmetic::power::pow(16, e)) % 16
}

proof fn lemma_quotients_equal(x: int, y: int, e: nat)
    requires
        0 <= x < vstd::arithmetic::power::pow(16, 32),
        0 <= y < vstd::arithmetic::power::pow(16, 32),
        e <= 32,
        forall|k: nat| e <= k < 32 ==> #[trigger] digit16(x, k) == digit16(y, k),
    ensures
        x / vstd::arithmetic::power::pow(16, e) == y / vstd::arithmetic::power::pow(16, e),
    decreases 32 - e,
{
    let p = vstd::arithmetic::power::pow(16, e);
    vstd::arithmetic::power::lemma_pow_positive(16, e);
    if e == 32 {
        vstd::arithmetic::div_mod::lemma_basic_div(x, p);
        vstd::arithmetic::div_mod::lemma_basic_div(y, p);
    } else {
        lemma_quotients_equal(x, y, (e + 1) as nat);
        assert(vstd::arithmetic::power::pow(16, (e + 1) as nat) == 16 * p) by {
            reveal(vstd::arithmetic::power::pow);
        }
        vstd::arithmetic::div_mod::lemma_div_denominator(x, p, 16);
        vstd::arithmetic::div_mod::lemma_div_denominator(y, p, 16);
        assert(p * 16 == 16 * p) by (nonlinear_arith);
        vstd::arithmetic::div_mod::lemma_fundamental_div_mod(x / p, 16);
        vstd::arithmetic::div_mod::lemma_fundamental_div_mod(y / p, 16);
        assert(digit16(x, e) == digit16(y, e));
    }
}

/// Different UUIDs have different texts.
pub proof fn lemma_uuid_text_distinct(u: u128, v: u128)
    requires
        u != v,
    ensures
        uuid_text(u) != uuid_text(v),
{
    if uuid_text(u) == uuid_text(v) {
        let du = uuid_digits(u);
        let dv = uuid_digits(v);
        let tu = uuid_text(u);
        let tv = uuid_text(v);
        assert forall|k: int| 0 <= k < 32 implies du[k] == dv[k] by {
            let i = if k < 8 {
                k
            } else if k < 12 {
                k + 1
            } else if k < 16 {
                k + 2
            } else if k < 20 {
                k + 3
            } else {
                k + 4
            };
            assert(tu[i] == du[k]);
            assert(tv[i] == dv[k]);
        }
        assert forall|e: nat| 0 <= e < 32 implies #[trigger] digit16(u as int, e) == digit16(v as int, e) by {
            let k = 31 - e;
            vstd::arithmetic::power::lemma_pow_positive(16, e);
            assert(du[k] == hex_digit(digit16(u as int, e)));
            assert(dv[k] == hex_digit(digit16(v as int, e)));
            lemma_hex_digit_value(digit16(u as int, e));
            lemma_hex_digit_value(digit16(v as int, e));
        }
        assert(vstd::arithmetic::power::pow(16, 32) == 0x1_0000_0000_0000_0000_0000_0000_0000_0000) by {
            reveal_with_fuel(vstd::arithmetic::power::pow, 33);
        }
        lemma_quotients_equal(u as int, v as int, 0);
        vstd::arithmetic::power::lemma_pow0(16);
    }
}

/// A UUID's text is 36 characters long and holds no `@`.
pub proof fn lemma_uuid_text_shape(u: u128)
    ensures
        uuid_text(u).len() == 36,
        forall|i: int| 0 <= i < 36 ==> uuid_text(u)[i] != '@',
{
    let d = uuid_digits(u);
    assert forall|k: int| 0 <= k < 32 implies d[k] != '@' by {
        vstd::arithmetic::power::lemma_pow_positive(16, (31 - k) as nat);
        let x = (u as int) / vstd::arithmetic::power::pow(16, (31 - k) as nat);
        lemma_hex_digit_value(x % 16);
    }
    let t = uuid_text(u);
    assert forall|i: int| 0 <= i < 36 implies t[i] != '@' by {
        if i < 8 {
            assert(t[i] == d[i]);
        } else if i == 8 || i == 13 || i == 18 || i == 23 {
            assert(t[i] == '-');
        } else if i < 13 {
            assert(t[i] == d[i - 1]);
        } else if i < 18 {
            assert(t[i] == d[i - 2]);
        } else if i < 23 {
            assert(t[i] == d[i - 3]);
        } else {
            assert(t[i] == d[i - 4]);
        }
    }
}

/// Hexadecimal reads back to the bytes it was written from.
pub proof fn lemma_hex_round_trip(b: Seq<u8>)
    ensures
        hex_bytes(hex_lower(b)) == Some(b),
    decreases b.len(),
{
    if b.len() > 0 {
        let t = hex_lower(b);
        lemma_hex_round_trip(b.drop_first());
        lemma_hex_digit_value(b[0] as int / 16);
        lemma_hex_digit_value(b[0] as int % 16);
        assert(t.skip(2) =~= hex_lower(b.drop_first()));
        assert(seq![b[0]] + b.drop_first() =~= b);
    } else {
        assert(hex_lower(b) =~= Seq::<char>::empty());
        assert(b =~= Seq::<u8>::empty());
    }
}

/// The bot's replies in a group member's conversation go to the group: the
/// conversation's id names the group it was made for.
pub proof fn lemma_group_replies_go_to_group(key: Seq<u8>, member: u128)
    requires
        key.len() == 32,
    ensures
        group_member_key(group_conversation_id(key, member)) == Some(key),
{
    let id = group_conversation_id(key, member);
    lemma_uuid_text_shape(member);
    lemma_hex_round_trip(key);
    assert(id[36] == '@');
    let i = choose|i: int| 0 <= i < id.len() && id[i] == '@' && forall|k: int| 0 <= k < i ==> id[k] != '@';
    assert(i == 36) by {
        if i < 36 {
            assert(id[i] == uuid_text(member)[i]);
        } else if i > 36 {
            assert(id[36] == '@');
        }
    }
    assert(id.skip(37) =~= hex_lower(key));
}

/// Each group member has their own conversation with the bot in each group,
/// separate from every direct conversation: a group conversation's id is no
/// contact's id, differs between groups, and differs between members whose
/// UUIDs differ.
pub proof fn lemma_group_conversations_are_separate(key: Seq<u8>, other_key: Seq<u8>, member: u128, other: u128)
    requires
        key.len() == 32,
        other_key.len() == 32,
    ensures
        group_conversation_id(key, member) != uuid_text(other),
        key != other_key ==> group_conversation_id(key, member) != group_conversation_id(other_key, other),
        member != other ==> group_conversation_id(key, member) != group_conversation_id(key, other),
{
    lemma_uuid_text_shape(member);
    lemma_uuid_text_shape(other);
    crate::store::lemma_hex_lower_len(key);
    assert(group_conversation_id(key, member).len() == 101);
    lemma_group_replies_go_to_group(key, member);
    lemma_group_replies_go_to_group(other_key, other);
    if member != other {
        lemma_uuid_text_distinct(member, other);
        let a = group_conversation_id(key, member);
        let b = group_conversation_id(key, other);
        if a == b {
            assert(a.take(36) =~= uuid_text(member));
            assert(b.take(36) =~= uuid_text(other));
        }
    }
}

/// A contact's conversation id (its UUID's text) is never read as a group
/// member's conversation id.
pub proof fn lemma_uuid_text_is_no_member_id(u: u128)
    ensures
        group_member_key(uuid_text(u)) is None,
{
    lemma_uuid_text_shape(u);
}

/// The user an interpreter message is sent to (see `reply_get_user_id`).
pub open spec fn reply_user_of(item: Json, default_user_id: Seq<char>) -> Seq<char> {
    match at_path(item, seq!["payload"@, "content"@, "client"@, "user_id"@]) {
        Some(u) => unescaped(json_text_of(u)),
        None => default_user_id,
    }
}

/// The text of an interpreter message (see `reply_get_text`).
pub open spec fn reply_text_of(item: Json) -> Seq<char> {
    match at_path(item, seq!["payload"@, "content"@, "text"@]) {
        Some(t) => unescaped(json_text_of(t)),
        None => Seq::<char>::empty(),
    }
}

/// The encoded attachment pointers of an interpreter message (see
/// `reply_get_attachments`).
pub open spec fn reply_attachments_of(item: Json) -> Seq<Seq<u8>> {
    match at_path(item, seq!["payload"@, "content"@, "attachments"@]) {
        Some(a) => match a.value {
            JsonValue::Array(items) => attachment_refs(items@),
            _ => Seq::<Seq<u8>>::empty(),
        },
        None => Seq::<Seq<u8>>::empty(),
    }
}

/// A step of answering a user's message, in the order it is done.
#[derive(Debug, Clone, PartialEq, Eq)]
pub enum ReplyStep {
    /// Set the contact's disappearing-message timer.
    SetTimer { contact: u128, timer: u32 },
    /// Send a message; stop at the first send that fails.
    Send { recipient: Recipient, text: String, attachments: Vec<Vec<u8>> },
    /// Count one message sent on the channel.
    CountSent,
    /// Purge the conversation's Signal state.
    Purge,
}

/// What answering a user's message does: the steps, in order, and the error
/// the answer ends with after them, if any.
#[derive(Debug, Clone, PartialEq, Eq)]
pub struct ReplyPlan {
    pub steps: Vec<ReplyStep>,
    pub error: Option<crate::error::BitpartError>,
}

/// A send step of an interpreter message.
pub open spec fn is_send_of(step: ReplyStep, item: Json, default_user_id: Seq<char>) -> bool {
    step matches ReplyStep::Send { recipient, text, attachments } && names_recipient(
        reply_user_of(item, default_user_id),
        recipient,
    ) && text@ == reply_text_of(item) && attachments@.map_values(|v: Vec<u8>| v@) == reply_attachments_of(item)
}

/// The messages of an interpreter response: none where it has no
/// `messages`; `None` where `messages` is not an array.
pub open spec fn response_messages(res: Json) -> Option<Seq<Json>> {
    match member(res, "messages"@) {
        None => Some(Seq::empty()),
        Some(m) => match m.value {
            JsonValue::Array(v) => Some(v@),
            _ => None,
        },
    }
}

/// Whether an interpreter response says the conversation was deleted.
pub open spec fn response_deletes(res: Json) -> bool {
    member(res, "deleted"@) matches Some(d) && d.value == JsonValue::Bool(true)
}

/// The number of steps before the replies: one where a timer is set.
pub open spec fn timer_steps(timer: Option<(u128, u32)>) -> int {
    if timer is Some {
        1
    } else {
        0
    }
}

/// The first `k` messages have each a recipient, and the steps after the
/// first `off` send each and count it, in order.
pub open spec fn sends_in_order(steps: Seq<ReplyStep>, off: int, items: Seq<Json>, k: int, user_id: Seq<char>) -> bool {
    forall|j: int|
        0 <= j < k ==> {
            &&& !refuses_recipient(reply_user_of(#[trigger] items[j], user_id))
            &&& is_send_of(steps[off + 2 * j], items[j], user_id)
            &&& steps[off + 2 * j + 1] == ReplyStep::CountSent
        }
}

/// The answer stopped at a message whose user id names no recipient, after
/// sending and counting every message before it.
pub open spec fn stopped_at_refusal(steps: Seq<ReplyStep>, off: int, items: Seq<Json>, user_id: Seq<char>) -> bool {
    exists|k: int|
        0 <= k < items.len() && #[trigger] refuses_recipient(reply_user_of(items[k], user_id)) && sends_in_order(
            steps,
            off,
            items,
            k,
            user_id,
        ) && steps.len() == off + 2 * k
}

fn send_step_of(item: &Json, user_id: &str) -> (r: Result<ReplyStep, crate::error::BitpartError>)
    ensures
        match r {
            Ok(step) => is_send_of(step, *item, user_id@) && !refuses_recipient(reply_user_of(*item, user_id@)),
            Err(e) => e == crate::error::BitpartError::InvalidRecipient && refuses_recipient(
                reply_user_of(*item, user_id@),
            ),
        },
{
    let uid = reply_get_user_id(item, user_id);
    match try_user_id_to_recipient(uid.as_str()) {
        Err(e) => Err(e),
        Ok(rec) => {
            let text = reply_get_text(item);
            let attachments = reply_get_attachments(item);
            Ok(ReplyStep::Send { recipient: copy_recipient(&rec), text, attachments })
        },
    }
}

fn copy_recipient(r: &Recipient) -> (c: Recipient)
    ensures
        c == *r,
{
    match r {
        Recipient::Contact(u) => Recipient::Contact(*u),
        Recipient::Group(k) => Recipient::Group(*k),
    }
}

/// How a user's message is answered, once the interpreter has answered
/// with `res`: first the disappearing-message timer, where one is to be set
/// (see `expire_timer_update`), so that it comes before any reply; then,
/// for each of the response's messages in order, a send to the recipient
/// its user id names, followed by one sent count; and last a purge of the
/// conversation's Signal state where the response says it was deleted. A
/// response whose `messages` is not an array, or a message whose user id
/// names no recipient, ends the answer there with an error (no purge).
#[verifier::rlimit(40)]
pub fn reply_plan(timer: Option<(u128, u32)>, res: &Json, user_id: &str) -> (r: ReplyPlan)
    ensures
        timer matches Some((u, t)) ==> r.steps@.len() >= 1 && r.steps@[0] == (ReplyStep::SetTimer {
            contact: u,
            timer: t,
        }),
        response_messages(*res) is None ==> r.steps@.len() == timer_steps(timer) && (r.error matches Some(e) && e
            == crate::error::BitpartError::Signal(e->Signal_0) && e->Signal_0@ == "Got invalid message from interpreter"@),
        response_messages(*res) matches Some(items) ==> (r.error is None ==> {
            &&& sends_in_order(r.steps@, timer_steps(timer), items, items.len() as int, user_id@)
            &&& r.steps@.len() == timer_steps(timer) + 2 * items.len() + (if response_deletes(*res) {
                1int
            } else {
                0int
            })
            &&& response_deletes(*res) ==> r.steps@.last() == ReplyStep::Purge
        }),
        response_messages(*res) matches Some(items) ==> (r.error matches Some(e) ==> e
            == crate::error::BitpartError::InvalidRecipient && stopped_at_refusal(
            r.steps@,
            timer_steps(timer),
            items,
            user_id@,
        )),
{
    let mut steps: Vec<ReplyStep> = Vec::new();
    match timer {
        Some((u, t)) => steps.push(ReplyStep::SetTimer { contact: u, timer: t }),
        None => {},
    }
    let ghost off: int = timer_steps(timer);
    let items = match reply_messages(res) {
        Err(e) => {
            return ReplyPlan { steps, error: Some(e) };
        },
        Ok(None) => {
            if reply_deletes_conversation(res) {
                steps.push(ReplyStep::Purge);
            }
            return ReplyPlan { steps, error: None };
        },
        Ok(Some(items)) => items,
    };
    let ghost all = items@;
    assert(response_messages(*res) == Some(all));
    let n = items.len();
    let mut j: usize = 0;
    while j < n
        invariant
            n == items@.len(),
            all == items@,
            response_messages(*res) == Some(all),
            j <= n,
            off == timer_steps(timer),
            steps@.len() == off + 2 * j,
            timer matches Some((u, t)) ==> steps@[0] == (ReplyStep::SetTimer { contact: u, timer: t }),
            sends_in_order(steps@, off, all, j as int, user_id@),
        decreases n - j,
    {
        match send_step_of(&items[j], user_id) {
            Err(e) => {
                proof {
                    assert(refuses_recipient(reply_user_of(all[j as int], user_id@)));
                    assert(sends_in_order(steps@, off, all, j as int, user_id@));
                    let k: int = j as int;
                    assert(0 <= k < all.len() && refuses_recipient(reply_user_of(all[k], user_id@)) && sends_in_order(
                        steps@,
                        timer_steps(timer),
                        all,
                        k,
                        user_id@,
                    ) && steps@.len() == timer_steps(timer) + 2 * k);
                    assert(stopped_at_refusal(steps@, timer_steps(timer), all, user_id@));
                }
                return ReplyPlan { steps, error: Some(e) };
            },
            Ok(send) => {
                let ghost before = steps@;
                let ghost send_g = send;
                steps.push(send);
                steps.push(ReplyStep::CountSent);
                proof {
                    assert(steps@ == before.push(send_g).push(ReplyStep::CountSent));
                    assert forall|i: int| 0 <= i < j + 1 implies {
                        &&& !refuses_recipient(reply_user_of(#[trigger] all[i], user_id@))
                        &&& is_send_of(steps@[off + 2 * i], all[i], user_id@)
                        &&& steps@[off + 2 * i + 1] == ReplyStep::CountSent
                    } by {
                        if i < j {
                            assert(steps@[off + 2 * i] == before[off + 2 * i]);
                            assert(steps@[off + 2 * i + 1] == before[off + 2 * i + 1]);
                        }
                    }
                }
            },
        }
        j = j + 1;
    }
    if reply_deletes_conversation(res) {
        let ghost pre = steps@;
        steps.push(ReplyStep::Purge);
        proof {
            assert(steps@.drop_last() =~= pre);
            assert forall|i: int| 0 <= i < n implies {
                &&& !refuses_recipient(reply_user_of(#[trigger] all[i], user_id@))
                &&& is_send_of(steps@[off + 2 * i], all[i], user_id@)
                &&& steps@[off + 2 * i + 1] == ReplyStep::CountSent
            } by {
                assert(sends_in_order(steps@.drop_last(), off, all, n as int, user_id@));
                assert(steps@[off + 2 * i] == steps@.drop_last()[off + 2 * i]);
                assert(steps@[off + 2 * i + 1] == steps@.drop_last()[off + 2 * i + 1]);
            }
        }
    }
    ReplyPlan { steps, error: None }
}

} // verus!
