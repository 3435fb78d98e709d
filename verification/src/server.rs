//! Flight SQL session resolution from request metadata.

use vstd::prelude::*;

use crate::strmap::StringMap;
use crate::text::{
    opt_view, split_char, split_seq, strip_prefix, strip_prefix_seq, trim, trim_seq,
};

verus! {

/// Metadata key carrying the session id directly.
pub const SESSION_ID_HEADER: &'static str = "x-session-id";

/// The first `session_id=` value among `;`-separated cookie parts, each
/// trimmed.
pub open spec fn cookie_session(parts: Seq<Seq<char>>) -> Option<Seq<char>>
    decreases parts.len(),
{
    if parts.len() == 0 {
        None
    } else {
        match strip_prefix_seq(trim_seq(parts[0]), "session_id="@) {
            Some(v) => Some(v),
            None => cookie_session(parts.drop_first()),
        }
    }
}

/// The session id a request names: `x-session-id`, else a `session_id=`
/// cookie, else the trimmed token of `authorization: Bearer <id>`.
pub open spec fn session_id_of(meta: Seq<(Seq<char>, Seq<char>)>) -> Option<Seq<char>> {
    match crate::strmap::lookup(meta, SESSION_ID_HEADER@) {
        Some(id) => Some(id),
        None => {
            let from_cookie = match crate::strmap::lookup(meta, "cookie"@) {
                Some(c) => cookie_session(split_seq(c, ';')),
                None => None,
            };
            match from_cookie {
                Some(v) => Some(v),
                None => match crate::strmap::lookup(meta, "authorization"@) {
                    Some(auth) => match strip_prefix_seq(auth, "Bearer "@) {
                        Some(t) => Some(trim_seq(t)),
                        None => None,
                    },
                    None => None,
                },
            }
        },
    }
}

/// Resolve the Flight SQL session id from request metadata. The map holds
/// the request's header values as text; a value that is not visible ASCII
/// is to be left out when the map is built from the transport's metadata, as
/// `to_str` would refuse it, so that such a header is skipped here.
pub fn session_id_from_metadata(meta: &StringMap) -> (r: Option<String>)
    ensures
        opt_view(r) == session_id_of(meta@),
{
    if let Some(id) = meta.get(SESSION_ID_HEADER) {
        return Some(id);
    }
    let ghost from_cookie = match crate::strmap::lookup(meta@, "cookie"@) {
        Some(c) => cookie_session(split_seq(c, ';')),
        None => None,
    };
    if let Some(cookie) = meta.get("cookie") {
        let parts = split_char(cookie.as_str(), ';');
        let ghost pv = parts@.map_values(|x: String| x@);
        let mut i: usize = 0;
        assert(pv.skip(0) =~= pv);
        while i < parts.len()
            invariant
                i <= parts.len(),
                pv == parts@.map_values(|x: String| x@),
                pv == split_seq(cookie@, ';'),
                meta.spec_get(SESSION_ID_HEADER@) is None,
                meta.spec_get("cookie"@) == Some(cookie@),
                cookie_session(pv) == cookie_session(pv.skip(i as int)),
            decreases parts.len() - i,
        {
            assert(pv.skip(i as int)[0] == parts@[i as int]@);
            assert(pv.skip(i as int).drop_first() =~= pv.skip(i + 1));
            let t = trim(parts[i].as_str());
            if let Some(v) = strip_prefix(t.as_str(), "session_id=") {
                return Some(v);
            }
            i = i + 1;
        }
        assert(pv.skip(i as int) =~= Seq::<Seq<char>>::empty());
    }
    if let Some(auth) = meta.get("authorization") {
        if let Some(t) = strip_prefix(auth.as_str(), "Bearer ") {
            return Some(trim(t.as_str()));
        }
    }
    None
}

} // verus!
