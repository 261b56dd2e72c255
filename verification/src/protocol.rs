//! Decisions of the Signal protocol store: which key id comes next, whether
//! a presented identity is trusted, what saving an identity reports, what
//! using a Kyber pre-key does, and which sub-devices have sessions.
use vstd::prelude::*;

use crate::store::{uuid_hyphenated, uuid_text};
use crate::text::{chars_of, decimal_u32, parse_u32, string_of};

verus! {

/// The largest of some key ids; 0 for none.
pub open spec fn max_id(ids: Seq<u32>) -> int
    decreases ids.len(),
{
    if ids.len() == 0 {
        0
    } else {
        let m = max_id(ids.drop_last());
        if ids.last() as int > m {
            ids.last() as int
        } else {
            m
        }
    }
}

/// The id that the next key gets: one past the largest id in use, or 0
/// where no key is stored.
pub open spec fn next_id(ids: Seq<u32>) -> int {
    if ids.len() == 0 {
        0
    } else {
        max_id(ids) + 1
    }
}

/// The largest id is one of the ids and no id is larger.
pub proof fn lemma_max_id_bounds(ids: Seq<u32>)
    ensures
        forall|i: int| 0 <= i < ids.len() ==> ids[i] <= max_id(ids),
        ids.len() > 0 ==> ids.contains(max_id(ids) as u32),
        0 <= max_id(ids),
    decreases ids.len(),
{
    if ids.len() > 0 {
        let init = ids.drop_last();
        lemma_max_id_bounds(init);
        assert forall|i: int| 0 <= i < ids.len() implies ids[i] <= max_id(ids) by {
            if i < ids.len() - 1 {
                assert(ids[i] == init[i]);
            }
        }
        if init.len() > 0 && !(ids.last() as int > max_id(init)) {
            let k = choose|k: int| 0 <= k < init.len() && init[k] == max_id(init) as u32;
            assert(ids[k] == init[k]);
        } else {
            assert(ids[ids.len() - 1] == ids.last());
        }
    }
}

/// A new key never reuses an id: the next id is larger than every id in
/// use, so it is none of them.
pub proof fn lemma_next_id_is_fresh(ids: Seq<u32>)
    ensures
        forall|i: int| 0 <= i < ids.len() ==> ids[i] < next_id(ids),
        !ids.contains(next_id(ids) as u32) || next_id(ids) > u32::MAX,
{
    lemma_max_id_bounds(ids);
    if ids.contains(next_id(ids) as u32) && next_id(ids) <= u32::MAX {
        let k = choose|k: int| 0 <= k < ids.len() && ids[k] == next_id(ids) as u32;
        assert(ids[k] < next_id(ids));
    }
}

/// The largest key id in use, or `None` where no key is stored.
pub fn max_key_id(ids: &Vec<u32>) -> (r: Option<u32>)
    ensures
        r == (if ids@.len() == 0 { None } else { Some(max_id(ids@) as u32) }),
{
    let n = ids.len();
    if n == 0 {
        return None;
    }
    let mut m: u32 = ids[0];
    let mut i: usize = 1;
    proof {
        assert(ids@.take(1).drop_last() =~= Seq::<u32>::empty());
        assert(ids@.take(1).last() == ids@[0]);
        assert(max_id(ids@.take(1).drop_last()) == 0);
    }
    while i < n
        invariant
            n == ids.len(),
            1 <= i <= n,
            m as int == max_id(ids@.take(i as int)),
        decreases n - i,
    {
        proof {
            assert(ids@.take(i as int + 1).drop_last() =~= ids@.take(i as int));
            assert(ids@.take(i as int + 1).last() == ids@[i as int]);
        }
        if ids[i] > m {
            m = ids[i];
        }
        i = i + 1;
    }
    assert(ids@.take(n as int) =~= ids@);
    Some(m)
}

/// The id for the next key: one past the largest id in use, or 0 where no
/// key is stored. The largest id must leave room for one more.
pub fn next_key_id(ids: &Vec<u32>) -> (r: u32)
    requires
        max_id(ids@) < u32::MAX,
    ensures
        r == next_id(ids@),
{
    match max_key_id(ids) {
        Some(m) => m + 1,
        None => 0,
    }
}

/// What is done when a presented identity differs from the stored one.
#[derive(Debug, Clone, Copy, PartialEq, Eq, Structural)]
pub enum OnNewIdentity {
    Trust,
    Reject,
}

/// Whether an identity key presented for an address is trusted, keys taken
/// in their serialized form: an address with no stored key is trusted on
/// first use, the stored key itself is trusted, and a different key is
/// trusted only under the `Trust` policy.
pub open spec fn trusted(stored: Option<Seq<u8>>, presented: Seq<u8>, policy: OnNewIdentity) -> bool {
    match stored {
        None => true,
        Some(k) => k == presented || policy == OnNewIdentity::Trust,
    }
}

fn bytes_eq(a: &Vec<u8>, b: &Vec<u8>) -> (r: bool)
    ensures
        r == (a@ == b@),
{
    if a.len() != b.len() {
        return false;
    }
    let n = a.len();
    let mut i: usize = 0;
    while i < n
        invariant
            n == a.len(),
            n == b.len(),
            i <= n,
            forall|k: int| 0 <= k < i ==> a@[k] == b@[k],
        decreases n - i,
    {
        if a[i] != b[i] {
            return false;
        }
        i = i + 1;
    }
    assert(a@ =~= b@);
    true
}

/// Decides whether a presented identity key is trusted, as `trusted` states.
pub fn identity_is_trusted(stored: Option<&Vec<u8>>, presented: &Vec<u8>, policy: OnNewIdentity) -> (r: bool)
    ensures
        r == trusted(
            match stored {
                Some(k) => Some(k@),
                None => None,
            },
            presented@,
            policy,
        ),
{
    match stored {
        None => true,
        Some(k) => {
            if bytes_eq(k, presented) {
                true
            } else {
                match policy {
                    OnNewIdentity::Trust => true,
                    OnNewIdentity::Reject => false,
                }
            }
        }
    }
}

/// The verification state recorded with a saved identity.
#[derive(Debug, Clone, Copy, PartialEq, Eq, Structural)]
pub enum VerifiedState {
    Default,
    Unverified,
}

/// What saving an identity reports.
#[derive(Debug, Clone, Copy, PartialEq, Eq, Structural)]
pub enum IdentityChange {
    NewOrUnchanged,
    ReplacedExisting,
}

/// What saving an identity records and reports: an address seen for the
/// first time gets the default verification state and reports a new
/// identity; an address that had an identity before is marked unverified
/// and reports a replaced one, whether or not the key changed.
pub fn identity_saved(existed_before: bool) -> (r: (VerifiedState, IdentityChange))
    ensures
        r == (if existed_before {
            (VerifiedState::Unverified, IdentityChange::ReplacedExisting)
        } else {
            (VerifiedState::Default, IdentityChange::NewOrUnchanged)
        }),
{
    if existed_before {
        (VerifiedState::Unverified, IdentityChange::ReplacedExisting)
    } else {
        (VerifiedState::Default, IdentityChange::NewOrUnchanged)
    }
}

/// What marking a Kyber pre-key as used does.
#[derive(Debug, Clone, PartialEq, Eq)]
pub enum KyberKeyUse {
    /// A last-resort key stays; the base key it was used with is recorded.
    RecordBaseKey([u8; 32]),
    /// A one-time key is removed.
    Remove,
}

/// Why a Kyber pre-key could not be marked as used.
#[derive(Debug, Clone, Copy, PartialEq, Eq, Structural)]
pub enum KyberKeyUseError {
    /// The base key of a last-resort key is not 32 bytes long.
    InvalidBaseKeySize,
}

fn contains_id(ids: &Vec<u32>, id: u32) -> (r: bool)
    ensures
        r == ids@.contains(id),
{
    let n = ids.len();
    let mut i: usize = 0;
    while i < n
        invariant
            n == ids.len(),
            i <= n,
            forall|k: int| 0 <= k < i ==> ids@[k] != id,
        decreases n - i,
    {
        if ids[i] == id {
            assert(ids@[i as int] == id);
            return true;
        }
        i = i + 1;
    }
    false
}

/// Decides what marking the Kyber pre-key `id` as used does: a key among
/// the last-resort ones stays and its base key, which must be 32 bytes,
/// is recorded; any other key is removed.
pub fn kyber_key_use(last_resort_ids: &Vec<u32>, id: u32, base_key: &Vec<u8>) -> (r: Result<KyberKeyUse, KyberKeyUseError>)
    ensures
        !last_resort_ids@.contains(id) ==> r == Ok::<KyberKeyUse, KyberKeyUseError>(KyberKeyUse::Remove),
        last_resort_ids@.contains(id) && base_key@.len() != 32 ==> r == Err::<KyberKeyUse, KyberKeyUseError>(
            KyberKeyUseError::InvalidBaseKeySize,
        ),
        last_resort_ids@.contains(id) && base_key@.len() == 32 ==> (r matches Ok(KyberKeyUse::RecordBaseKey(k))
            && k@ == base_key@),
{
    if !contains_id(last_resort_ids, id) {
        return Ok(KyberKeyUse::Remove);
    }
    if base_key.len() != 32 {
        return Err(KyberKeyUseError::InvalidBaseKeySize);
    }
    let mut k: [u8; 32] = [0u8; 32];
    let mut i: usize = 0;
    while i < 32
        invariant
            base_key@.len() == 32,
            i <= 32,
            forall|j: int| 0 <= j < i ==> k@[j] == base_key@[j],
        decreases 32 - i,
    {
        k[i] = base_key[i];
        i = i + 1;
    }
    assert(k@ =~= base_key@);
    Ok(KyberKeyUse::RecordBaseKey(k))
}

/// The text that the session addresses of an account begin with: its
/// hyphenated UUID and a `.`.
pub open spec fn session_prefix(account: u128) -> Seq<char> {
    uuid_text(account) + seq!['.']
}

/// The device that a session address names besides the account's default
/// device (id 1): the address is the account's prefix followed by a decimal
/// device id other than 1.
pub open spec fn sub_device_of(address: Seq<char>, prefix: Seq<char>) -> Option<u32> {
    if prefix.len() <= address.len() && address.take(prefix.len() as int) == prefix {
        match decimal_u32(address.skip(prefix.len() as int)) {
            Some(d) => if d != 1 {
                Some(d)
            } else {
                None
            },
            None => None,
        }
    } else {
        None
    }
}

/// The sub-devices that a list of session addresses names, in order.
pub open spec fn sub_devices(addresses: Seq<Seq<char>>, prefix: Seq<char>) -> Seq<u32>
    decreases addresses.len(),
{
    if addresses.len() == 0 {
        seq![]
    } else {
        let rest = sub_devices(addresses.drop_last(), prefix);
        match sub_device_of(addresses.last(), prefix) {
            Some(d) => rest.push(d),
            None => rest,
        }
    }
}

/// The text of each session address.
pub open spec fn address_texts(addresses: Seq<String>) -> Seq<Seq<char>> {
    addresses.map_values(|a: String| a@)
}

fn strip_prefix(s: &Vec<char>, p: &Vec<char>) -> (r: Option<Vec<char>>)
    ensures
        match r {
            Some(rest) => p@.len() <= s@.len() && s@.take(p@.len() as int) == p@ && rest@ == s@.skip(
                p@.len() as int,
            ),
            None => !(p@.len() <= s@.len() && s@.take(p@.len() as int) == p@),
        },
{
    let n = s.len();
    let m = p.len();
    if m > n {
        return None;
    }
    let mut i: usize = 0;
    while i < m
        invariant
            n == s.len(),
            m == p.len(),
            m <= n,
            i <= m,
            forall|k: int| 0 <= k < i ==> s@[k] == p@[k],
        decreases m - i,
    {
        if s[i] != p[i] {
            assert(s@.take(m as int)[i as int] != p@[i as int]);
            return None;
        }
        i = i + 1;
    }
    assert(s@.take(m as int) =~= p@);
    let mut rest: Vec<char> = Vec::new();
    let mut k: usize = m;
    while k < n
        invariant
            n == s.len(),
            m <= k <= n,
            rest@ == s@.subrange(m as int, k as int),
        decreases n - k,
    {
        rest.push(s[k]);
        assert(s@.subrange(m as int, k as int + 1) =~= s@.subrange(m as int, k as int).push(s@[k as int]));
        k = k + 1;
    }
    assert(rest@ =~= s@.skip(m as int));
    Some(rest)
}

/// The device ids, other than the default device's, that an account has
/// sessions with: for each stored session address in order, the decimal id
/// after the account's prefix, where there is one and it is not 1.
pub fn sub_device_ids(addresses: &Vec<String>, account: u128) -> (r: Vec<u32>)
    ensures
        r@ == sub_devices(address_texts(addresses@), session_prefix(account)),
{
    let uuid = uuid_hyphenated(account);
    let mut prefix = chars_of(uuid.as_str());
    prefix.push('.');
    let ghost texts = address_texts(addresses@);
    let mut out: Vec<u32> = Vec::new();
    let n = addresses.len();
    let mut i: usize = 0;
    while i < n
        invariant
            n == addresses.len(),
            i <= n,
            prefix@ == session_prefix(account),
            texts == address_texts(addresses@),
            out@ == sub_devices(texts.take(i as int), prefix@),
        decreases n - i,
    {
        let a = chars_of(addresses[i].as_str());
        proof {
            assert(texts.take(i as int + 1).drop_last() =~= texts.take(i as int));
            assert(texts.take(i as int + 1).last() == a@);
        }
        match strip_prefix(&a, &prefix) {
            Some(rest) => {
                let rest_text = string_of(&rest);
                match parse_u32(rest_text.as_str()) {
                    Some(d) => {
                        if d != 1 {
                            out.push(d);
                        }
                    },
                    None => {},
                }
            },
            None => {},
        }
        i = i + 1;
    }
    assert(texts.take(n as int) =~= texts);
    out
}

/// An identity that was just saved for an address is trusted for it,
/// whatever the policy for changed identities.
pub proof fn lemma_saved_identity_is_trusted(key: Seq<u8>, policy: OnNewIdentity)
    ensures
        trusted(Some(key), key, policy),
{
}

/// The default device never counts among an account's sub-devices.
pub proof fn lemma_sub_devices_exclude_default(addresses: Seq<Seq<char>>, prefix: Seq<char>)
    ensures
        forall|i: int| 0 <= i < sub_devices(addresses, prefix).len() ==> sub_devices(addresses, prefix)[i] != 1,
    decreases addresses.len(),
{
    if addresses.len() > 0 {
        let rest = sub_devices(addresses.drop_last(), prefix);
        lemma_sub_devices_exclude_default(addresses.drop_last(), prefix);
        match sub_device_of(addresses.last(), prefix) {
            Some(d) => {
                assert forall|i: int| 0 <= i < rest.push(d).len() implies rest.push(d)[i] != 1 by {
                    if i < rest.len() {
                        assert(rest.push(d)[i] == rest[i]);
                    }
                }
            },
            None => {},
        }
    }
}

} // verus!
