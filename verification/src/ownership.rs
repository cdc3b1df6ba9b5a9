//! Which sessions an agent may touch: those that it opened itself, for reading as for writing.
use vstd::prelude::*;
use vstd::string::*;

use crate::text::{decimal, push_decimal, same};

verus! {

/// An optional string slice as characters.
pub open spec fn str_view(s: Option<&str>) -> Option<Seq<char>> {
    match s {
        Some(x) => Some(x@),
        None => None,
    }
}

/// Whether a session belongs to the agent process `actor`: an agent opened it, and it was this one.
/// A request without an actor owns nothing.
pub open spec fn owned_by(
    ai_owned: bool,
    ai_owner: Option<Seq<char>>,
    actor: Option<Seq<char>>,
) -> bool {
    ai_owned && actor is Some && ai_owner == actor
}

/// Decides [`owned_by`].
pub fn session_owned_by(ai_owned: bool, ai_owner: Option<&str>, actor: Option<&str>) -> (r: bool)
    ensures
        r == owned_by(ai_owned, str_view(ai_owner), str_view(actor)),
{
    match ai_owner {
        Some(o) => match actor {
            Some(a) => ai_owned && same(o, a),
            None => false,
        },
        None => false,
    }
}

/// Whether what a lookup found may be touched by `actor`. A session that does not exist is let
/// through, to be answered by name.
pub open spec fn may_touch(found: Option<(bool, Option<&str>)>, actor: Option<Seq<char>>) -> bool {
    match found {
        Some((ai_owned, owner)) => owned_by(ai_owned, str_view(owner), actor),
        None => true,
    }
}

/// A lookup of this session gives something that `actor` may touch.
pub open spec fn lookup_passes<'a, F: Fn(u64) -> Option<(bool, Option<&'a str>)>>(
    lookup: F,
    uid: u64,
    actor: Option<Seq<char>>,
) -> bool {
    exists|found: Option<(bool, Option<&'a str>)>| #[trigger]
        call_ensures(lookup, (uid,), found) && may_touch(found, actor)
}

/// A lookup of this session gives something that `actor` may not touch.
pub open spec fn lookup_refuses<'a, F: Fn(u64) -> Option<(bool, Option<&'a str>)>>(
    lookup: F,
    uid: u64,
    actor: Option<Seq<char>>,
) -> bool {
    exists|found: Option<(bool, Option<&'a str>)>| #[trigger]
        call_ensures(lookup, (uid,), found) && !may_touch(found, actor)
}

/// The first of these sessions that exists and does not belong to `actor`.
pub fn first_foreign_session<'a, F: Fn(u64) -> Option<(bool, Option<&'a str>)>>(
    uids: &[u64],
    lookup: F,
    actor: Option<&str>,
) -> (r: Option<u64>)
    requires
        forall|uid: u64| call_requires(lookup, (uid,)),
    ensures
        match r {
            Some(uid) => lookup_refuses(lookup, uid, str_view(actor)) && exists|k: int|
                0 <= k < uids@.len() && #[trigger] uids@[k] == uid && forall|j: int|
                    0 <= j < k ==> lookup_passes(lookup, #[trigger] uids@[j], str_view(actor)),
            None => forall|j: int|
                0 <= j < uids@.len() ==> lookup_passes(
                    lookup,
                    #[trigger] uids@[j],
                    str_view(actor),
                ),
        },
{
    let mut i: usize = 0;
    while i < uids.len()
        invariant
            i <= uids@.len(),
            forall|uid: u64| call_requires(lookup, (uid,)),
            forall|j: int|
                0 <= j < i ==> lookup_passes(lookup, #[trigger] uids@[j], str_view(actor)),
        decreases uids@.len() - i,
    {
        let uid: u64 = uids[i];
        let found = lookup(uid);
        let foreign: bool = match found {
            Some((ai_owned, owner)) => !session_owned_by(ai_owned, owner, actor),
            None => false,
        };
        if foreign {
            assert(uids@[i as int] == uid);
            assert(lookup_refuses(lookup, uid, str_view(actor)));
            return Some(uid);
        }
        assert(lookup_passes(lookup, uids@[i as int], str_view(actor)));
        i = i + 1;
    }
    None
}

pub const FOREIGN_TAIL: &'static str = " 不是你用 open_session 开的：AI 只能读写**自己开的**会话，用户自己打开的\
         窗口和其它 AI 的窗口一律不许读取或操作（硬规则，没有授权弹窗，重试也没用）。需要在\
         某台机器上干活，请用 list_saved_connections 查连接名、open_session 开你自己的会话";

/// What an agent that reaches for a session of somebody else is told: the rule, and nothing of the
/// session but its number.
pub open spec fn foreign_refusal(uid: u64) -> Seq<char> {
    "会话 uid="@ + decimal(uid as nat) + FOREIGN_TAIL@
}

/// Writes [`foreign_refusal`].
pub fn foreign_session_refusal(uid: u64) -> (r: String)
    ensures
        r@ == foreign_refusal(uid),
{
    let mut s = "会话 uid=".to_owned();
    push_decimal(&mut s, uid);
    s.append(FOREIGN_TAIL);
    s
}

} // verus!
