//! The routes that the application is opened with.

use vstd::prelude::*;

use crate::ext::{
    parse_url, url_parses, url_segments, url_pairs, url_path_segments, url_query_pairs, texts,
    text_pairs,
};
use crate::text::{parse_unsigned, parse_unsigned_bytes, utf8};

verus! {

broadcast use vstd::seq::group_seq_axioms;

/// A place in the application that a URL opens.
#[derive(Debug, PartialEq, Eq)]
pub enum AppRoute {
    Login { token: String, uid: u64 },
}

/// Why an opened URL names no route.
#[derive(Debug, Clone, Copy, PartialEq, Eq, Structural)]
pub enum OpenUrlError {
    /// The text is no URL.
    InvalidUrl,
    /// A login URL whose `user_id` is no `u64`.
    InvalidUserId,
}

/// The value of the last query pair with the key, as a map filled from the
/// pairs in order keeps it.
pub open spec fn param_value(pairs: Seq<(Seq<char>, Seq<char>)>, key: Seq<char>) -> Option<
    Seq<char>,
>
    decreases pairs.len(),
{
    if pairs.len() == 0 {
        None
    } else if pairs.last().0 == key {
        Some(pairs.last().1)
    } else {
        param_value(pairs.drop_last(), key)
    }
}

/// The route that the parts of a URL name: a path of the one segment `login`
/// with a `token` and a `user_id` logs in, and the user id must then be a
/// `u64`; anything else names no route.
pub open spec fn route_of(
    segments: Option<Seq<Seq<char>>>,
    pairs: Seq<(Seq<char>, Seq<char>)>,
) -> Result<
    Option<(Seq<char>, nat)>,
    OpenUrlError,
> {
    let segs = match segments {
        Some(s) => s,
        None => Seq::empty(),
    };
    if segs.len() == 1 && segs[0] == "login"@ {
        match (param_value(pairs, "token"@), param_value(pairs, "user_id"@)) {
            (Some(token), Some(uid)) => match parse_unsigned(utf8(uid), 10, u64::MAX as nat) {
                Some(n) => Ok(Some((token, n))),
                None => Err(OpenUrlError::InvalidUserId),
            },
            _ => Ok(None),
        }
    } else {
        Ok(None)
    }
}

/// The value of the last pair with the key.
fn find_param<'a>(pairs: &'a Vec<(String, String)>, key: &str) -> (r: Option<&'a String>)
    ensures
        r matches Some(v) ==> param_value(text_pairs(pairs@), key@) == Some(v@),
        r is None ==> param_value(text_pairs(pairs@), key@) is None,
{
    let ghost all = text_pairs(pairs@);
    let mut i = pairs.len();
    proof {
        assert(all.take(i as int) =~= all);
    }
    while i > 0
        invariant
            i <= pairs@.len(),
            all == text_pairs(pairs@),
            param_value(all, key@) == param_value(all.take(i as int), key@),
        decreases i,
    {
        let ghost p = all.take(i as int);
        proof {
            assert(p.drop_last() =~= all.take(i - 1));
            assert(p.last() == all[i - 1]);
        }
        if pairs[i - 1].0 == String::from_str(key) {
            return Some(&pairs[i - 1].1);
        }
        i -= 1;
    }
    None
}

/// The route that the parts of a URL name, as `route_of` says.
pub fn route_from_url_parts(segments: Option<Vec<String>>, pairs: Vec<(String, String)>) -> (r:
    Result<Option<AppRoute>, OpenUrlError>)
    ensures
        match (r, route_of(
            match segments {
                Some(s) => Some(texts(s@)),
                None => None,
            },
            text_pairs(pairs@),
        )) {
            (Ok(Some(AppRoute::Login { token, uid })), Ok(Some((t, n)))) => token@ == t && uid == n,
            (Ok(None), Ok(None)) => true,
            (Err(e1), Err(e2)) => e1 == e2,
            _ => false,
        },
{
    let segs = match segments {
        Some(s) => s,
        None => Vec::new(),
    };
    if segs.len() == 1 && segs[0] == String::from_str("login") {
        match (find_param(&pairs, "token"), find_param(&pairs, "user_id")) {
            (Some(token), Some(uid)) => {
                let bytes = uid.as_str().as_bytes();
                proof {
                    assert(bytes@.skip(0) =~= utf8(uid@));
                }
                match parse_unsigned_bytes(bytes, 0, 10, u64::MAX) {
                    Some(n) => Ok(Some(AppRoute::Login { token: token.clone(), uid: n })),
                    None => Err(OpenUrlError::InvalidUserId),
                }
            },
            _ => Ok(None),
        }
    } else {
        Ok(None)
    }
}

/// The route that an opened URL names: its path segments and query pairs,
/// as the `url` crate reads them, decide as `route_of` says. The text must
/// parse as a URL, and a login it names must carry a `u64` user id.
pub fn handle_open_url(url: &str) -> (r: Option<AppRoute>)
    requires
        url_parses(url@),
        route_of(url_segments(url@), url_pairs(url@)) is Ok,
    ensures
        match (r, route_of(url_segments(url@), url_pairs(url@))) {
            (Some(AppRoute::Login { token, uid }), Ok(Some((t, n)))) => token@ == t && uid == n,
            (None, Ok(None)) => true,
            _ => false,
        },
{
    match parse_url(url) {
        None => None,
        Some(u) => {
            let segments = url_path_segments(&u);
            let pairs = url_query_pairs(&u);
            match route_from_url_parts(segments, pairs) {
                Ok(route) => route,
                Err(_) => None,
            }
        },
    }
}

/// The route that an opened URL names, or why it names none: the text is no
/// URL, or a login it names carries a user id that is no `u64`.
pub fn open_url_route(url: &str) -> (r: Result<Option<AppRoute>, OpenUrlError>)
    ensures
        !url_parses(url@) ==> r == Err::<Option<AppRoute>, OpenUrlError>(OpenUrlError::InvalidUrl),
        url_parses(url@) ==> match (r, route_of(url_segments(url@), url_pairs(url@))) {
            (Ok(Some(AppRoute::Login { token, uid })), Ok(Some((t, n)))) => token@ == t && uid == n,
            (Ok(None), Ok(None)) => true,
            (Err(e1), Err(e2)) => e1 == e2,
            _ => false,
        },
{
    match parse_url(url) {
        None => Err(OpenUrlError::InvalidUrl),
        Some(u) => {
            let segments = url_path_segments(&u);
            let pairs = url_query_pairs(&u);
            match route_from_url_parts(segments, pairs) {
                Err(e) => Err(e),
                Ok(_) => Ok(handle_open_url(url)),
            }
        },
    }
}

} // verus!
