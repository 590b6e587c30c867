//! What the socket layer exchanges with the verified core: typed
//! events coming in, and the scheduling of queued responses going
//! out.
//!
//! The sockets themselves live outside the library; they hand over
//! each text frame already split out, and take back plain
//! `(token, bytes)` pairs to write.

use vstd::prelude::*;
use crate::error::RequestError;
use crate::request::Request;
use crate::room::Responses;

verus! {

broadcast use crate::bytes::lemma_bytes_deep_view;

/// One event read from a connection.
#[derive(Debug)]
pub struct Event {
    pub token: usize,
    pub kind: EventKind,
}

/// What the connection did: a well-formed request, a message that
/// could not be parsed, or a close.
#[derive(Debug)]
pub enum EventKind {
    Request(Request),
    Error(RequestError),
    Close,
}

/// Splits the outbound queue into the messages owed to `token`, in
/// order, and everything else, in order: what a write-ready socket
/// drains before interest drops back to read-only.
pub fn partition_responses(responses: Responses, token: usize) -> (r: (Vec<Vec<u8>>, Responses))
    ensures
        r.0.deep_view() == responses.deep_view().filter(
            |p: (usize, Seq<u8>)| p.0 == token,
        ).map_values(|p: (usize, Seq<u8>)| p.1),
        r.1.deep_view() == responses.deep_view().filter(|p: (usize, Seq<u8>)| p.0 != token),
{
    let n: usize = responses.len();
    let mut mine: Vec<Vec<u8>> = Vec::new();
    let mut rest: Responses = Vec::new();
    proof {
        assert(responses.deep_view().subrange(0, 0) =~= Seq::<(usize, Seq<u8>)>::empty());
        assert(Seq::<(usize, Seq<u8>)>::empty().filter(|p: (usize, Seq<u8>)| p.0 == token)
            =~= Seq::<(usize, Seq<u8>)>::empty());
        assert(Seq::<(usize, Seq<u8>)>::empty().filter(|p: (usize, Seq<u8>)| p.0 != token)
            =~= Seq::<(usize, Seq<u8>)>::empty());
    }
    for i in 0..n
        invariant
            n == responses@.len(),
            responses.deep_view().len() == n,
            mine.deep_view() =~~= responses.deep_view().subrange(0, i as int).filter(
                |p: (usize, Seq<u8>)| p.0 == token,
            ).map_values(|p: (usize, Seq<u8>)| p.1),
            rest.deep_view() =~~= responses.deep_view().subrange(0, i as int).filter(
                |p: (usize, Seq<u8>)| p.0 != token,
            ),
    {
        let ghost pre = responses.deep_view().subrange(0, i as int);
        let ghost post = responses.deep_view().subrange(0, i + 1 as int);
        proof {
            assert(post.drop_last() =~= pre);
            assert(post.last() == responses.deep_view()[i as int]);
        }
        let t = responses[i].0;
        let msg = crate::bytes::copy_bytes(responses[i].1.as_slice());
        let ghost prevm = mine.deep_view();
        let ghost prevr = rest.deep_view();
        if t == token {
            mine.push(msg);
            proof {
                assert(mine.deep_view() =~~= prevm.push(msg@));
                reveal_filter_step(post, token);
                assert(mine.deep_view() =~~= post.filter(
                    |p: (usize, Seq<u8>)| p.0 == token,
                ).map_values(|p: (usize, Seq<u8>)| p.1));
                assert(rest.deep_view() =~~= post.filter(|p: (usize, Seq<u8>)| p.0 != token));
            }
        } else {
            rest.push((t, msg));
            proof {
                assert(rest.deep_view() =~~= prevr.push((t, msg@)));
                reveal_filter_step(post, token);
                assert(mine.deep_view() =~~= post.filter(
                    |p: (usize, Seq<u8>)| p.0 == token,
                ).map_values(|p: (usize, Seq<u8>)| p.1));
                assert(rest.deep_view() =~~= post.filter(|p: (usize, Seq<u8>)| p.0 != token));
            }
        }
    }
    proof {
        assert(responses.deep_view().subrange(0, n as int) =~= responses.deep_view());
    }
    (mine, rest)
}

/// One filtering step: filtering a sequence with one more element
/// keeps the prefix's result and appends the element if it matches.
proof fn reveal_filter_step(s: Seq<(usize, Seq<u8>)>, token: usize)
    requires
        s.len() > 0,
    ensures
        s.filter(|p: (usize, Seq<u8>)| p.0 == token) == if s.last().0 == token {
            s.drop_last().filter(|p: (usize, Seq<u8>)| p.0 == token).push(s.last())
        } else {
            s.drop_last().filter(|p: (usize, Seq<u8>)| p.0 == token)
        },
        s.filter(|p: (usize, Seq<u8>)| p.0 != token) == if s.last().0 != token {
            s.drop_last().filter(|p: (usize, Seq<u8>)| p.0 != token).push(s.last())
        } else {
            s.drop_last().filter(|p: (usize, Seq<u8>)| p.0 != token)
        },
        s.filter(|p: (usize, Seq<u8>)| p.0 == token).map_values(
            |p: (usize, Seq<u8>)| p.1,
        ) == if s.last().0 == token {
            s.drop_last().filter(|p: (usize, Seq<u8>)| p.0 == token).map_values(
                |p: (usize, Seq<u8>)| p.1,
            ).push(s.last().1)
        } else {
            s.drop_last().filter(|p: (usize, Seq<u8>)| p.0 == token).map_values(
                |p: (usize, Seq<u8>)| p.1,
            )
        },
{
    reveal(Seq::filter);
    let f1 = |p: (usize, Seq<u8>)| p.0 == token;
    let f2 = |p: (usize, Seq<u8>)| p.0 != token;
    assert(s.filter(f1) == if f1(s.last()) {
        s.drop_last().filter(f1).push(s.last())
    } else {
        s.drop_last().filter(f1)
    });
    assert(s.filter(f2) == if f2(s.last()) {
        s.drop_last().filter(f2).push(s.last())
    } else {
        s.drop_last().filter(f2)
    });
    if s.last().0 == token {
        assert(s.filter(f1).map_values(|p: (usize, Seq<u8>)| p.1) =~= s.drop_last().filter(
            f1,
        ).map_values(|p: (usize, Seq<u8>)| p.1).push(s.last().1));
    } else {
        assert(s.filter(f1).map_values(|p: (usize, Seq<u8>)| p.1) =~= s.drop_last().filter(
            f1,
        ).map_values(|p: (usize, Seq<u8>)| p.1));
    }
}

} // verus!
