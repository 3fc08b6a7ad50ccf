//! The caret rewrite over all messages of a chunk.

use crate::broker::laws::messages_are_laid_out;
use crate::broker::state::{feed, models, stands_in, ConnectionState, Fed, ObservedModel, Output};
use crate::dbus::message::{Fault, MessageError};
use crate::rules::cursor::{apply_offset, classify, cursor_method, moved_body};
use vstd::prelude::*;

verus! {

/// A caret message whose body is long enough to be rewritten.
pub open spec fn rewritable(m: ObservedModel) -> bool {
    match cursor_method(m.header) {
        Some(method) => m.header.body_len >= method.body_len(),
        None => false,
    }
}

/// Where the body of `m` starts.
pub open spec fn body_start(m: ObservedModel) -> int {
    m.offset + m.length - m.header.body_len
}

/// `forward` with the body of `m` rewritten, where it is a caret message.
pub open spec fn rewrite_one(forward: Seq<u8>, m: ObservedModel, delta: (i32, i32)) -> Seq<u8> {
    if rewritable(m) {
        let end = m.offset + m.length;
        forward.take(body_start(m)) + moved_body(
            forward.subrange(body_start(m), end),
            m.header.endian,
            delta,
        ) + forward.skip(end)
    } else {
        forward
    }
}

/// `forward` with the bodies of all caret messages rewritten, in order.
pub open spec fn rewrite_all(
    forward: Seq<u8>,
    messages: Seq<ObservedModel>,
    delta: (i32, i32),
) -> Seq<u8>
    decreases messages.len(),
{
    if messages.len() == 0 {
        forward
    } else {
        rewrite_one(rewrite_all(forward, messages.drop_last(), delta), messages.last(), delta)
    }
}

/// The body of `m`, where it is to be rewritten, lies in `n` bytes.
pub open spec fn body_lies_in(m: ObservedModel, n: int) -> bool {
    rewritable(m) ==> 0 <= body_start(m) && m.offset + m.length <= n
}

/// Adds `delta` to the leading `(x, y)` of every caret message in `out`, in
/// place. Other messages, and bodies shorter than their method requires, stay
/// as they are.
pub fn apply_cursor_rewrites(out: &mut Output, delta: (i32, i32))
    requires
        forall|i: int|
            0 <= i < old(out).messages@.len() ==> body_lies_in(
                (#[trigger] old(out).messages@[i])@,
                old(out).forward@.len() as int,
            ),
    ensures
        final(out).messages@ == old(out).messages@,
        final(out).forward@ == rewrite_all(
            old(out).forward@,
            models(old(out).messages@),
            delta,
        ),
{
    let ghost forward = out.forward@;
    let ghost messages = out.messages@;
    let mut i: usize = 0;
    assert(models(messages).take(0) =~= seq![]);
    while i < out.messages.len()
        invariant
            i <= messages.len(),
            out.messages@ == messages,
            out.forward@.len() == forward.len(),
            out.forward@ == rewrite_all(forward, models(messages).take(i as int), delta),
            forall|k: int|
                0 <= k < messages.len() ==> body_lies_in(
                    (#[trigger] messages[k])@,
                    forward.len() as int,
                ),
        decreases messages.len() - i,
    {
        let ghost before = out.forward@;
        let ghost m = messages[i as int]@;
        assert(body_lies_in(messages[i as int]@, forward.len() as int));
        match classify(&out.messages[i].header) {
            Some(method) => {
                let body_len: usize = out.messages[i].header.body_len as usize;
                if body_len >= method.expected_body_len() {
                    assert(m.offset + m.length <= out.forward.len());
                    let end: usize = out.messages[i].offset + out.messages[i].length;
                    let start: usize = end - body_len;
                    let endian = out.messages[i].header.endian;
                    let (head, tail) = out.forward.as_mut_slice().split_at_mut(start);
                    let (body, rest) = tail.split_at_mut(body_len);
                    proof {
                        assert(body@ =~= before.subrange(start as int, end as int));
                        assert(rest@ =~= before.skip(end as int));
                    }
                    let done = apply_offset(method, endian, body, delta);
                    assert(out.forward@ =~= rewrite_one(before, m, delta));
                }
            },
            None => {},
        }
        proof {
            let all = models(messages);
            assert(all.take(i + 1).drop_last() =~= all.take(i as int));
            assert(all.take(i + 1).last() == m);
        }
        i += 1;
    }
    assert(models(messages).take(messages.len() as int) =~= models(messages));
}

/// The client-to-bus step of a connection that only moves caret coordinates:
/// takes the next bytes from the client and gives the bytes for the bus.
pub fn forward_chunk(state: &mut ConnectionState, data: &[u8], offset: Option<(i32, i32)>) -> (r:
    Result<Vec<u8>, MessageError>)
    requires
        old(state)@.wf(),
    ensures
        final(state)@.wf(),
        match r {
            Ok(bytes) => match feed(old(state)@, data@) {
                Ok((after, forward, messages)) => {
                    &&& final(state)@ == after
                    &&& bytes@ == match offset {
                        Some(delta) => rewrite_all(forward, messages, delta),
                        None => forward,
                    }
                },
                Err(_) => false,
            },
            Err(e) => feed(old(state)@, data@) == Err::<Fed, Fault>(e@) && final(state)@ == old(
                state,
            )@,
        },
{
    let ghost before = state@;
    let mut out = match state.client_feed(data) {
        Ok(out) => out,
        Err(e) => return Err(e),
    };
    match offset {
        Some(delta) => {
            proof {
                messages_are_laid_out(before, data@);
                assert forall|i: int| 0 <= i < out.messages@.len() implies body_lies_in(
                    (#[trigger] out.messages@[i])@,
                    out.forward@.len() as int,
                ) by {
                    assert(models(out.messages@)[i] == out.messages@[i]@);
                    assert(stands_in(models(out.messages@)[i], out.forward@));
                    reveal(stands_in);
                }
            }
            apply_cursor_rewrites(&mut out, delta);
        },
        None => {},
    }
    Ok(out.forward)
}

} // verus!
