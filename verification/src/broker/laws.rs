//! What a connection promises over a whole stream of chunks.

use crate::broker::state::{
    begin_line, complete_messages, deliver, feed, find_begin, first_message, first_message_fits,
    laid_out, lemma_begin_is_new, lemma_find_begin_complete, lemma_find_begin_sound, models,
    stands_in, ConnectionModel, ConnectionState, Fed, ObservedModel, Output,
};
use crate::broker::rewrite::{
    apply_cursor_rewrites, body_start, forward_chunk, rewritable, rewrite_all, rewrite_one,
};
use crate::dbus::laws::{header_ignores_the_body, header_section};
use crate::dbus::message::{
    header_of, message_size, Fault, HeaderModel, MessageError, FIXED_HEADER_LEN,
};
use crate::rules::cursor::{
    coordinate_at, cursor_method, is_moved, lemma_moved_body, moved_body,
    rewrite_moves_only_the_origin,
};
use vstd::prelude::*;

verus! {

/// Messages with `d` added to their offsets.
pub open spec fn shifted(messages: Seq<ObservedModel>, d: int) -> Seq<ObservedModel> {
    messages.map_values(|m: ObservedModel| ObservedModel { offset: m.offset + d, ..m })
}

/// Two results of feeding, one after the other.
pub open spec fn joined(first: Fed, second: Result<Fed, Fault>) -> Result<Fed, Fault> {
    match second {
        Err(e) => Err(e),
        Ok((s, forward, messages)) => Ok(
            (s, first.1 + forward, first.2 + shifted(messages, first.1.len() as int)),
        ),
    }
}

/// Bytes behind a complete first message do not change it.
proof fn lemma_first_message_extends(x: Seq<u8>, b: Seq<u8>)
    ensures
        match first_message(x) {
            Ok(None) => true,
            found => first_message(x + b) == found,
        },
{
    reveal(first_message);
    let y = x + b;
    if x.len() >= FIXED_HEADER_LEN {
        assert(forall|i: int| 0 <= i < 16 ==> x[i] == y[i]);
        assert(message_size(x) == message_size(y));
        if let Ok(Some(n)) = message_size(x) {
            if n <= x.len() {
                assert(y.take(n) =~= x.take(n));
            }
        }
    }
}

/// The messages at the front of a longer buffer: those at the front of the
/// shorter one, then those behind them.
proof fn lemma_complete_extends(x: Seq<u8>, b: Seq<u8>, base: int)
    ensures
        match complete_messages(x, base) {
            Err(e) => complete_messages(x + b, base) == Err::<(Seq<ObservedModel>, int), Fault>(e),
            Ok((messages, used)) => {
                &&& 0 <= used <= x.len()
                &&& match complete_messages(x.skip(used) + b, base + used) {
                    Err(e) => complete_messages(x + b, base) == Err::<
                        (Seq<ObservedModel>, int),
                        Fault,
                    >(e),
                    Ok((more, n)) => complete_messages(x + b, base) == Ok::<
                        (Seq<ObservedModel>, int),
                        Fault,
                    >((messages + more, used + n)),
                }
            },
        },
    decreases x.len(),
{
    first_message_fits(x);
    lemma_first_message_extends(x, b);
    match first_message(x) {
        Err(_) => {},
        Ok(None) => {
            assert(x.skip(0) =~= x);
            if let Ok((more, n)) = complete_messages(x + b, base) {
                assert(Seq::<ObservedModel>::empty() + more =~= more);
            }
        },
        Ok(Some((header, n))) => {
            let rest = x.skip(n);
            assert((x + b).skip(n) =~= rest + b);
            lemma_complete_extends(rest, b, base + n);
            if let Ok((messages, used)) = complete_messages(rest, base + n) {
                assert(x.skip(n + used) =~= rest.skip(used));
                let m = seq![ObservedModel { header, offset: base, length: n }];
                if let Ok((more, k)) = complete_messages(rest.skip(used) + b, base + n + used) {
                    assert(m + (messages + more) =~= (m + messages) + more);
                }
            }
        },
    }
}

/// Counting offsets from elsewhere shifts them.
proof fn lemma_complete_shift(x: Seq<u8>, base: int, d: int)
    ensures
        match complete_messages(x, base) {
            Err(e) => complete_messages(x, base + d) == Err::<(Seq<ObservedModel>, int), Fault>(e),
            Ok((messages, used)) => complete_messages(x, base + d) == Ok::<
                (Seq<ObservedModel>, int),
                Fault,
            >((shifted(messages, d), used)),
        },
    decreases x.len(),
{
    first_message_fits(x);
    match first_message(x) {
        Err(_) => {},
        Ok(None) => {
            assert(shifted(seq![], d) =~= seq![]);
        },
        Ok(Some((header, n))) => {
            lemma_complete_shift(x.skip(n), base + n, d);
            if let Ok((messages, used)) = complete_messages(x.skip(n), base + n) {
                let m = seq![ObservedModel { header, offset: base, length: n }];
                assert(shifted(m + messages, d) =~= seq![
                    ObservedModel { header, offset: base + d, length: n },
                ] + shifted(messages, d));
            }
        },
    }
}

/// The message stage does not depend on where the stream is cut.
proof fn lemma_deliver_in_pieces(prefix: Seq<u8>, x: Seq<u8>, b: Seq<u8>)
    ensures
        match deliver(prefix, x) {
            Err(e) => deliver(prefix, x + b) == Err::<Fed, Fault>(e),
            Ok(first) => deliver(prefix, x + b) == joined(
                first,
                deliver(seq![], first.0.pending + b),
            ),
        },
{
    let base = prefix.len() as int;
    lemma_complete_extends(x, b, base);
    if let Ok((messages, used)) = complete_messages(x, base) {
        let pending = x.skip(used);
        let forward = prefix + x.take(used);
        lemma_complete_shift(pending + b, 0, base + used);
        lemma_complete_extends(pending + b, seq![], 0);
        if let Ok((more, n)) = complete_messages(pending + b, 0) {
            assert((x + b).skip(used + n) =~= (pending + b).skip(n));
            assert(prefix + (x + b).take(used + n) =~= forward + (Seq::<u8>::empty() + (pending
                + b).take(n)));
        }
    }
}

/// The end of the handshake is where it is, however many bytes follow.
proof fn lemma_find_begin_extends(s: Seq<u8>, b: Seq<u8>, i: int)
    requires
        0 <= i,
    ensures
        find_begin(s, i) is Some ==> find_begin(s + b, i) == find_begin(s, i),
    decreases s.len() - i,
{
    if i + 7 <= s.len() {
        assert((s + b).subrange(i, i + 7) =~= s.subrange(i, i + 7));
        if s.subrange(i, i + 7) != begin_line() {
            lemma_find_begin_extends(s, b, i + 1);
        }
    }
}

/// Feeding a stream in two chunks gives what feeding it in one gives, wherever
/// it is cut: within the handshake, within a message or between two.
pub proof fn feeding_in_pieces(s: ConnectionModel, a: Seq<u8>, b: Seq<u8>)
    requires
        s.wf(),
    ensures
        match feed(s, a) {
            Err(e) => feed(s, a + b) == Err::<Fed, Fault>(e),
            Ok(first) => feed(s, a + b) == joined(first, feed(first.0, b)),
        },
{
    if s.authed {
        assert(s.pending + (a + b) =~= (s.pending + a) + b);
        lemma_deliver_in_pieces(seq![], s.pending + a, b);
    } else {
        assert(s.seen + (a + b) =~= (s.seen + a) + b);
        lemma_find_begin_extends(s.seen + a, b, 0);
        lemma_begin_is_new(s.seen, a);
        lemma_begin_is_new(s.seen, a + b);
        match find_begin(s.seen + a, 0) {
            Some(end) => {
                let cut = end - s.seen.len();
                assert((a + b).take(cut) =~= a.take(cut));
                assert((a + b).skip(cut) =~= a.skip(cut) + b);
                lemma_deliver_in_pieces(a.take(cut), a.skip(cut), b);
            },
            None => {
                lemma_begin_is_new(s.seen + a, b);
                match find_begin(s.seen + a + b, 0) {
                    None => {
                        assert(shifted(seq![], a.len() as int) =~= seq![]);
                        assert(Seq::<ObservedModel>::empty() + Seq::<ObservedModel>::empty()
                            =~= seq![]);
                    },
                    Some(end) => {
                        let cut = end - s.seen.len();
                        let cut_b = end - (s.seen.len() + a.len());
                        assert((a + b).take(cut) =~= a + b.take(cut_b));
                        assert((a + b).skip(cut) =~= b.skip(cut_b));
                        lemma_complete_shift(b.skip(cut_b), cut_b, a.len() as int);
                        if let Ok((messages, used)) = complete_messages(b.skip(cut_b), cut_b) {
                            assert((a + b.take(cut_b)) + b.skip(cut_b).take(used) =~= a + (b.take(
                                cut_b,
                            ) + b.skip(cut_b).take(used)));
                            assert(Seq::<ObservedModel>::empty() + shifted(
                                messages,
                                a.len() as int,
                            ) =~= shifted(messages, a.len() as int));
                        }
                    },
                }
            },
        }
    }
}

/// No byte is lost, added or reordered: what is forwarded, followed by what
/// waits, is what waited, followed by what came.
pub proof fn bytes_are_conserved(s: ConnectionModel, data: Seq<u8>)
    requires
        s.wf(),
    ensures
        match feed(s, data) {
            Ok((after, forward, _)) => after.wf() && forward + after.pending == s.pending + data,
            Err(_) => true,
        },
{
    if s.authed {
        let buf = s.pending + data;
        lemma_complete_extends(buf, seq![], 0);
        if let Ok((_, used)) = complete_messages(buf, 0) {
            assert(Seq::<u8>::empty() + buf.take(used) + buf.skip(used) =~= buf);
        }
    } else {
        lemma_begin_is_new(s.seen, data);
        assert(s.pending + data =~= data);
        match find_begin(s.seen + data, 0) {
            None => {
                assert(data + s.pending =~= data);
            },
            Some(end) => {
                let cut = end - s.seen.len();
                let buf = data.skip(cut);
                lemma_complete_extends(buf, seq![], cut);
                if let Ok((_, used)) = complete_messages(buf, cut) {
                    assert(data.take(cut) + buf.take(used) + buf.skip(used) =~= data);
                }
            },
        }
    }
}

/// The messages that a chunk completes stand one behind the other in the
/// forwarded bytes, up to their end, and each is what its bytes parse to.
pub proof fn messages_are_laid_out(s: ConnectionModel, data: Seq<u8>)
    requires
        s.wf(),
    ensures
        match feed(s, data) {
            Ok((_, forward, messages)) => {
                &&& messages.len() > 0 ==> laid_out(messages, forward, messages[0].offset)
                &&& messages.len() > 0 ==> messages.last().offset + messages.last().length
                    == forward.len()
            },
            Err(_) => true,
        },
{
    if s.authed {
        lemma_layout(seq![], s.pending + data);
    } else {
        lemma_begin_is_new(s.seen, data);
        if let Some(end) = find_begin(s.seen + data, 0) {
            let cut = end - s.seen.len();
            lemma_layout(data.take(cut), data.skip(cut));
        }
    }
}

/// A first message that is copied to `base` stands there.
proof fn lemma_first_message_stands(buf: Seq<u8>, base: int, forward: Seq<u8>)
    ensures
        match first_message(buf) {
            Ok(Some((header, n))) => 0 <= base && base + n <= forward.len() && forward.subrange(
                base,
                base + n,
            ) == buf.take(n) ==> stands_in(
                ObservedModel { header, offset: base, length: n },
                forward,
            ),
            _ => true,
        },
{
    reveal(first_message);
    reveal(stands_in);
    first_message_fits(buf);
    if let Ok(Some((_, n))) = first_message(buf) {
        let head = buf.take(n);
        assert(forall|i: int| 0 <= i < 16 ==> head[i] == buf[i]);
        assert(message_size(head) == message_size(buf));
    }
}

proof fn lemma_layout(prefix: Seq<u8>, buf: Seq<u8>)
    ensures
        match complete_messages(buf, prefix.len() as int) {
            Ok((messages, used)) => {
                let forward = prefix + buf.take(used);
                &&& 0 <= used <= buf.len()
                &&& laid_out(messages, forward, prefix.len() as int)
                &&& messages.len() > 0 ==> messages[0].offset == prefix.len()
                    && messages.last().offset + messages.last().length == forward.len()
                &&& messages.len() == 0 ==> used == 0
            },
            Err(_) => true,
        },
    decreases buf.len(),
{
    first_message_fits(buf);
    let base = prefix.len() as int;
    if let Ok(Some((header, n))) = first_message(buf) {
        let rest = buf.skip(n);
        lemma_layout(prefix + buf.take(n), rest);
        if let Ok((messages, used)) = complete_messages(rest, base + n) {
            let forward = prefix + buf.take(n + used);
            let m = ObservedModel { header, offset: base, length: n };
            let all = seq![m] + messages;
            assert((prefix + buf.take(n)) + rest.take(used) =~= forward);
            assert(forward.subrange(base, base + n) =~= buf.take(n));
            lemma_first_message_stands(buf, base, forward);
            assert forall|i: int| 0 <= i < all.len() implies stands_in(
                #[trigger] all[i],
                forward,
            ) by {
                if i > 0 {
                    assert(all[i] == messages[i - 1]);
                }
            }
            assert forall|i: int, j: int|
                #![trigger all[i], all[j]]
                0 <= i && j == i + 1 && j < all.len() implies all[j].offset == all[i].offset
                + all[i].length by {
                assert(all[j] == messages[i]);
                if i > 0 {
                    assert(all[i] == messages[i - 1]);
                }
            }
            assert(messages.len() > 0 ==> all.last() == messages.last());
        }
    }
}

/// The bytes of `m`.
pub open spec fn bytes_of(forward: Seq<u8>, m: ObservedModel) -> Seq<u8> {
    forward.subrange(m.offset, m.offset + m.length)
}

/// The bytes of a message after the rewrite: the body moved where it is a
/// caret message, all bytes as they were where it is not.
pub open spec fn rewritten(bytes: Seq<u8>, m: ObservedModel, delta: (i32, i32)) -> Seq<u8> {
    if rewritable(m) {
        let at = m.length - m.header.body_len;
        bytes.take(at) + moved_body(bytes.skip(at), m.header.endian, delta)
    } else {
        bytes
    }
}

/// Where the last message ends.
pub open spec fn end_of(messages: Seq<ObservedModel>, base: int) -> int {
    if messages.len() == 0 {
        base
    } else {
        messages.last().offset + messages.last().length
    }
}

/// Earlier messages end before later ones start.
proof fn lemma_in_order(
    messages: Seq<ObservedModel>,
    forward: Seq<u8>,
    base: int,
    i: int,
    j: int,
)
    requires
        laid_out(messages, forward, base),
        0 <= i < j < messages.len(),
    ensures
        messages[i].offset + messages[i].length <= messages[j].offset,
    decreases j - i,
{
    if i + 1 < j {
        lemma_in_order(messages, forward, base, i, j - 1);
        assert(stands_in(messages[j - 1], forward));
        reveal(stands_in);
    }
}

/// The rewrite of one message changes only its body.
proof fn lemma_rewrite_one(before: Seq<u8>, m: ObservedModel, delta: (i32, i32))
    requires
        0 <= m.offset,
        m.header.body_len <= m.length,
        m.offset + m.length <= before.len(),
    ensures
        rewrite_one(before, m, delta).len() == before.len(),
        forall|p: int|
            0 <= p < m.offset || m.offset + m.length <= p < before.len() ==> #[trigger] rewrite_one(
                before,
                m,
                delta,
            )[p] == before[p],
        bytes_of(rewrite_one(before, m, delta), m) == rewritten(bytes_of(before, m), m, delta),
{
    if rewritable(m) {
        let at = body_start(m);
        let end = m.offset + m.length;
        let body = before.subrange(at, end);
        let moved = moved_body(body, m.header.endian, delta);
        rewrite_moves_only_the_origin(body, m.header.endian, delta);
        assert(bytes_of(before, m).skip(m.length - m.header.body_len) =~= body);
        assert(bytes_of(rewrite_one(before, m, delta), m) =~= rewritten(
            bytes_of(before, m),
            m,
            delta,
        ));
    }
}

/// The rewrite of a chunk changes the bodies of caret messages, each as its
/// own offset requires, and no other byte.
pub proof fn rewrite_touches_only_caret_bodies(
    forward: Seq<u8>,
    messages: Seq<ObservedModel>,
    base: int,
    delta: (i32, i32),
)
    requires
        0 <= base <= forward.len(),
        laid_out(messages, forward, base),
    ensures
        rewrite_all(forward, messages, delta).len() == forward.len(),
        forall|i: int|
            0 <= i < messages.len() ==> bytes_of(
                rewrite_all(forward, messages, delta),
                #[trigger] messages[i],
            ) == rewritten(bytes_of(forward, messages[i]), messages[i], delta),
        forall|p: int|
            0 <= p < base || end_of(messages, base) <= p < forward.len()
                ==> #[trigger] rewrite_all(forward, messages, delta)[p] == forward[p],
    decreases messages.len(),
{
    if messages.len() > 0 {
        let rest = messages.drop_last();
        let n = messages.len() - 1;
        let last = messages[n];
        let before = rewrite_all(forward, rest, delta);
        let after = rewrite_all(forward, messages, delta);
        assert forall|i: int| 0 <= i < rest.len() implies stands_in(#[trigger] rest[i], forward) by {
            assert(rest[i] == messages[i]);
        }
        assert(laid_out(rest, forward, base));
        rewrite_touches_only_caret_bodies(forward, rest, base, delta);
        assert(stands_in(last, forward));
        assert(0 <= last.offset && last.header.body_len <= last.length && last.offset
            + last.length <= forward.len()) by {
            reveal(stands_in);
        }
        assert(end_of(rest, base) == last.offset) by {
            if rest.len() > 0 {
                assert(rest.last() == messages[n - 1]);
            }
        }
        lemma_rewrite_one(before, last, delta);
        assert(bytes_of(before, last) =~= bytes_of(forward, last));
        assert forall|i: int| 0 <= i < messages.len() implies bytes_of(
            after,
            #[trigger] messages[i],
        ) == rewritten(bytes_of(forward, messages[i]), messages[i], delta) by {
            if i < n {
                lemma_in_order(messages, forward, base, i, n);
                assert(rest[i] == messages[i]);
                assert(stands_in(messages[i], forward));
                assert(0 <= messages[i].offset && 0 <= messages[i].length) by {
                    reveal(stands_in);
                }
                assert(bytes_of(after, messages[i]) =~= bytes_of(before, messages[i]));
            }
        }
        assert(base <= last.offset) by {
            if n > 0 {
                lemma_in_order(messages, forward, base, 0, n);
                assert(stands_in(messages[0], forward));
                reveal(stands_in);
            }
        }
    }
}

/// A rewritten message is still a message of the same size with the same
/// header.
pub proof fn rewritten_message_parses_alike(
    bytes: Seq<u8>,
    m: ObservedModel,
    delta: (i32, i32),
)
    requires
        message_size(bytes) == Ok::<Option<int>, Fault>(Some(m.length)),
        header_of(bytes) == Ok::<HeaderModel, Fault>(m.header),
        bytes.len() == m.length,
    ensures
        message_size(rewritten(bytes, m, delta)) == message_size(bytes),
        header_of(rewritten(bytes, m, delta)) == header_of(bytes),
        rewritten(bytes, m, delta).len() == bytes.len(),
{
    if rewritable(m) {
        let at = m.length - m.header.body_len;
        let body = bytes.skip(at);
        let after = rewritten(bytes, m, delta);
        rewrite_moves_only_the_origin(body, m.header.endian, delta);
        assert(after.take(at) =~= bytes.take(at));
        assert(header_section(bytes) <= at);
        header_ignores_the_body(bytes, after, at);
        assert(forall|i: int| 0 <= i < 16 ==> bytes[i] == bytes.take(at)[i]);
        assert(forall|i: int| 0 <= i < 16 ==> after[i] == after.take(at)[i]);
    }
}

/// What becomes of the bytes of a message with header `h` when carets are moved
/// by `delta`: a caret message with a body that is long enough keeps all bytes
/// but its leading coordinates, which move; every other message keeps all.
pub open spec fn caret_moved(
    before: Seq<u8>,
    h: HeaderModel,
    delta: (i32, i32),
    after: Seq<u8>,
) -> bool {
    let at = before.len() - h.body_len;
    let moves = match cursor_method(h) {
        Some(method) => h.body_len >= method.body_len(),
        None => false,
    };
    &&& after.len() == before.len()
    &&& !moves ==> after == before
    &&& moves ==> {
        &&& forall|i: int|
            0 <= i < at || at + 8 <= i < before.len() ==> #[trigger] after[i] == before[i]
        &&& is_moved(
            coordinate_at(before, at, h.endian),
            delta.0 as int,
            coordinate_at(after, at, h.endian),
        )
        &&& is_moved(
            coordinate_at(before, at + 4, h.endian),
            delta.1 as int,
            coordinate_at(after, at + 4, h.endian),
        )
    }
}

/// A rewritten message in numbers.
pub proof fn lemma_rewritten(bytes: Seq<u8>, m: ObservedModel, delta: (i32, i32))
    requires
        bytes.len() == m.length,
        m.header.body_len <= m.length,
    ensures
        caret_moved(bytes, m.header, delta, rewritten(bytes, m, delta)),
{
    if rewritable(m) {
        let at = m.length - m.header.body_len;
        let body = bytes.skip(at);
        let moved = moved_body(body, m.header.endian, delta);
        let after = rewritten(bytes, m, delta);
        lemma_moved_body(body, m.header.endian, delta);
        assert forall|i: int| at <= i < bytes.len() implies bytes[i] == body[i - at] && after[i]
            == moved[i - at] by {}
        assert(forall|i: int| 0 <= i < at ==> after[i] == bytes[i]);
        assert(bytes[at] == body[0] && bytes[at + 1] == body[1] && bytes[at + 2] == body[2]
            && bytes[at + 3] == body[3] && bytes[at + 4] == body[4] && bytes[at + 5] == body[5]
            && bytes[at + 6] == body[6] && bytes[at + 7] == body[7]);
        assert(after[at] == moved[0] && after[at + 1] == moved[1] && after[at + 2] == moved[2]
            && after[at + 3] == moved[3] && after[at + 4] == moved[4] && after[at + 5] == moved[5]
            && after[at + 6] == moved[6] && after[at + 7] == moved[7]);
        assert forall|i: int| at + 8 <= i < bytes.len() implies #[trigger] after[i] == bytes[i] by {
            assert(moved[i - at] == body[i - at]);
        }
    }
}

/// The line `BEGIN` ends at `end` in `s`.
pub open spec fn begins_before(s: Seq<u8>, end: int) -> bool {
    &&& 7 <= end <= s.len()
    &&& s[end - 7] == 'B' as u8 && s[end - 6] == 'E' as u8 && s[end - 5] == 'G' as u8
    &&& s[end - 4] == 'I' as u8 && s[end - 3] == 'N' as u8
    &&& s[end - 2] == 13 && s[end - 1] == 10
}

proof fn lemma_begins_before(s: Seq<u8>, end: int)
    requires
        7 <= end <= s.len(),
    ensures
        begins_before(s, end) <==> s.subrange(end - 7, end) == begin_line(),
{
    let w = s.subrange(end - 7, end);
    if begins_before(s, end) {
        assert(w =~= begin_line());
    } else if w == begin_line() {
        assert(w[0] == s[end - 7] && w[1] == s[end - 6] && w[2] == s[end - 5] && w[3] == s[end - 4]
            && w[4] == s[end - 3] && w[5] == s[end - 2] && w[6] == s[end - 1]);
    }
}

/// The handshake passes as it comes and holds no message. It is over as soon as
/// the line `BEGIN` has come, wherever the chunks are cut, and no sooner; the
/// messages start right behind the first such line.
pub proof fn handshake_ends_with_begin(
    state: &mut ConnectionState,
    data: &[u8],
    r: Result<Output, MessageError>,
)
    requires
        call_ensures(ConnectionState::client_feed, (state, data), r),
        old(state)@.wf(),
        !old(state)@.authed,
        r is Ok,
    ensures
        final(state)@.authed <==> exists|end: int| #[trigger]
            begins_before(old(state)@.seen + data@, end),
        !final(state)@.authed ==> {
            &&& r->Ok_0.forward@ == data@
            &&& r->Ok_0.messages@.len() == 0
            &&& final(state)@.seen == old(state)@.seen + data@
        },
        r->Ok_0.messages@.len() > 0 ==> {
            let end = old(state)@.seen.len() + r->Ok_0.messages@[0].offset;
            &&& begins_before(old(state)@.seen + data@, end)
            &&& forall|e: int| #[trigger]
                begins_before(old(state)@.seen + data@, e) ==> end <= e
        },
{
    let s = old(state)@;
    let all = s.seen + data@;
    let out = r->Ok_0;
    lemma_find_begin_sound(all, 0);
    lemma_begin_is_new(s.seen, data@);
    assert forall|e: int| #[trigger] begins_before(all, e) implies find_begin(all, 0) is Some
        && find_begin(all, 0)->0 <= e by {
        lemma_begins_before(all, e);
        lemma_find_begin_complete(all, 0, e);
    }
    match find_begin(all, 0) {
        Some(end) => {
            lemma_begins_before(all, end);
            assert(begins_before(all, end));
            let cut = end - s.seen.len();
            lemma_layout(data@.take(cut), data@.skip(cut));
            assert(models(out.messages@).len() == out.messages@.len());
            if out.messages@.len() > 0 {
                assert(models(out.messages@)[0] == out.messages@[0]@);
                assert(models(out.messages@)[0].offset == cut);
            }
        },
        None => {
            assert(models(out.messages@).len() == out.messages@.len());
        },
    }
}

/// After the handshake a connection never goes back to it, and a message does not
/// wait once it is complete: what waits is shorter than its fixed part, or than
/// the size that it announces.
pub proof fn complete_messages_do_not_wait(
    state: &mut ConnectionState,
    data: &[u8],
    r: Result<Output, MessageError>,
)
    requires
        call_ensures(ConnectionState::client_feed, (state, data), r),
        old(state)@.wf(),
        r is Ok,
    ensures
        old(state)@.authed ==> final(state)@.authed,
        final(state)@.authed && final(state)@.pending.len() >= 16 ==> (
        message_size(final(state)@.pending) matches Ok(Some(n)) && n
            > final(state)@.pending.len()),
        final(state)@.seen.len() > 0 ==> !final(state)@.authed,
{
    let s = old(state)@;
    if s.authed {
        lemma_rest_is_incomplete(s.pending + data@, 0);
    } else {
        lemma_begin_is_new(s.seen, data@);
        if let Some(end) = find_begin(s.seen + data@, 0) {
            let cut = end - s.seen.len();
            lemma_rest_is_incomplete(data@.skip(cut), cut);
        }
    }
}

proof fn lemma_rest_is_incomplete(buf: Seq<u8>, base: int)
    ensures
        match complete_messages(buf, base) {
            Ok((_, used)) => {
                &&& 0 <= used <= buf.len()
                &&& buf.len() - used >= 16 ==> (message_size(buf.skip(used)) matches Ok(
                    Some(n),
                ) && n > buf.len() - used)
            },
            Err(_) => true,
        },
    decreases buf.len(),
{
    first_message_fits(buf);
    match first_message(buf) {
        Ok(Some((_, n))) => {
            lemma_rest_is_incomplete(buf.skip(n), base + n);
            if let Ok((_, used)) = complete_messages(buf.skip(n), base + n) {
                assert(buf.skip(n).skip(used) =~= buf.skip(n + used));
            }
        },
        Ok(None) => {
            reveal(first_message);
            assert(buf.skip(0) =~= buf);
        },
        Err(_) => {},
    }
}

proof fn lemma_stands(m: ObservedModel, forward: Seq<u8>)
    requires
        stands_in(m, forward),
    ensures
        m.offset + m.length <= forward.len(),
        message_size(bytes_of(forward, m)) == Ok::<Option<int>, Fault>(Some(m.length)),
        header_of(bytes_of(forward, m)) == Ok::<HeaderModel, Fault>(m.header),
{
    reveal(stands_in);
}

/// Every byte that a client sends is forwarded or waits, in order; every message
/// is forwarded where it is said to stand, with the size and the header that its
/// bytes give, and nothing is forwarded behind the last one.
#[verifier::rlimit(40)]
#[verifier::spinoff_prover]
pub proof fn chunks_are_cut_into_messages(
    state: &mut ConnectionState,
    data: &[u8],
    r: Result<Output, MessageError>,
)
    requires
        call_ensures(ConnectionState::client_feed, (state, data), r),
        old(state)@.wf(),
    ensures
        r is Err ==> final(state)@ == old(state)@,
        r matches Ok(out) ==> {
            let n = out.messages@.len();
            &&& out.forward@ + final(state)@.pending == old(state)@.pending + data@
            &&& forall|i: int|
                0 <= i < n ==> {
                    let m = #[trigger] out.messages@[i];
                    let bytes = out.forward@.subrange(m.offset as int, m.offset + m.length);
                    &&& m.offset + m.length <= out.forward@.len()
                    &&& message_size(bytes) == Ok::<Option<int>, Fault>(Some(m.length as int))
                    &&& header_of(bytes) == Ok::<HeaderModel, Fault>(m.header@)
                }
            &&& forall|i: int|
                0 <= i < n - 1 ==> (#[trigger] out.messages@[i]).offset + out.messages@[i].length
                    == out.messages@[i + 1].offset
            &&& n > 0 ==> out.messages@[n - 1].offset + out.messages@[n - 1].length
                == out.forward@.len()
        },
{
    bytes_are_conserved(old(state)@, data@);
    messages_are_laid_out(old(state)@, data@);
    if let Ok(out) = r {
        let all = models(out.messages@);
        assert(all.len() == out.messages@.len());
        assert forall|i: int| 0 <= i < all.len() implies {
            let m = #[trigger] out.messages@[i];
            let bytes = out.forward@.subrange(m.offset as int, m.offset + m.length);
            &&& m.offset + m.length <= out.forward@.len()
            &&& message_size(bytes) == Ok::<Option<int>, Fault>(Some(m.length as int))
            &&& header_of(bytes) == Ok::<HeaderModel, Fault>(m.header@)
        } by {
            assert(all[i] == out.messages@[i]@);
            lemma_stands(all[i], out.forward@);
        }
        assert forall|i: int| 0 <= i < all.len() - 1 implies (#[trigger] out.messages@[i]).offset
            + out.messages@[i].length == out.messages@[i + 1].offset by {
            assert(all[i] == out.messages@[i]@ && all[i + 1] == out.messages@[i + 1]@);
        }
        if all.len() > 0 {
            assert(all.last() == out.messages@[all.len() - 1]@);
        }
    }
}

/// Moving the carets of a chunk moves those of each caret message and changes no
/// other byte.
pub proof fn carets_move_in_place(
    before: ConnectionModel,
    data: Seq<u8>,
    out: &mut Output,
    delta: (i32, i32),
)
    requires
        call_ensures(apply_cursor_rewrites, (out, delta), ()),
        before.wf(),
        feed(before, data) matches Ok((_, forward, messages)) && forward == old(out).forward@
            && messages == models(old(out).messages@),
    ensures
        final(out).messages@ == old(out).messages@,
        final(out).forward@.len() == old(out).forward@.len(),
        forall|i: int|
            0 <= i < old(out).messages@.len() ==> {
                let m = #[trigger] old(out).messages@[i];
                caret_moved(
                    old(out).forward@.subrange(m.offset as int, m.offset + m.length),
                    m.header@,
                    delta,
                    final(out).forward@.subrange(m.offset as int, m.offset + m.length),
                )
            },
        old(out).messages@.len() == 0 ==> final(out).forward@ == old(out).forward@,
        old(out).messages@.len() > 0 ==> final(out).forward@.take(
            old(out).messages@[0].offset as int,
        ) == old(out).forward@.take(old(out).messages@[0].offset as int),
{
    lemma_chunk_moved(before, data, delta);
    let all = models(old(out).messages@);
    assert forall|i: int| 0 <= i < old(out).messages@.len() implies all[i] == (
    #[trigger] old(out).messages@[i])@ by {}
}

/// The rewrite of what a feed gives, in numbers.
pub proof fn lemma_chunk_moved(before: ConnectionModel, data: Seq<u8>, delta: (i32, i32))
    requires
        before.wf(),
    ensures
        match feed(before, data) {
            Ok((_, forward, messages)) => {
                let after = rewrite_all(forward, messages, delta);
                &&& after.len() == forward.len()
                &&& forall|i: int|
                    0 <= i < messages.len() ==> caret_moved(
                        bytes_of(forward, #[trigger] messages[i]),
                        messages[i].header,
                        delta,
                        bytes_of(after, messages[i]),
                    )
                &&& messages.len() > 0 ==> after.take(messages[0].offset) == forward.take(
                    messages[0].offset,
                )
            },
            Err(_) => true,
        },
{
    messages_are_laid_out(before, data);
    if let Ok((_, forward, messages)) = feed(before, data) {
        if messages.len() > 0 {
            lemma_laid_out_moved(forward, messages, delta);
        }
    }
}

pub proof fn lemma_laid_out_moved(
    forward: Seq<u8>,
    messages: Seq<ObservedModel>,
    delta: (i32, i32),
)
    requires
        messages.len() > 0,
        laid_out(messages, forward, messages[0].offset),
    ensures
        ({
            let after = rewrite_all(forward, messages, delta);
            &&& after.len() == forward.len()
            &&& forall|i: int|
                0 <= i < messages.len() ==> caret_moved(
                    bytes_of(forward, #[trigger] messages[i]),
                    messages[i].header,
                    delta,
                    bytes_of(after, messages[i]),
                )
            &&& 0 <= messages[0].offset <= forward.len()
            &&& after.take(messages[0].offset) == forward.take(messages[0].offset)
        }),
{
    let base = messages[0].offset;
    let after = rewrite_all(forward, messages, delta);
    assert(stands_in(messages[0], forward));
    assert(0 <= base <= forward.len()) by {
        reveal(stands_in);
    }
    rewrite_touches_only_caret_bodies(forward, messages, base, delta);
    assert forall|i: int| 0 <= i < messages.len() implies caret_moved(
        bytes_of(forward, #[trigger] messages[i]),
        messages[i].header,
        delta,
        bytes_of(after, messages[i]),
    ) by {
        assert(stands_in(messages[i], forward));
        reveal(stands_in);
        lemma_rewritten(bytes_of(forward, messages[i]), messages[i], delta);
    }
    assert(after.take(base) =~= forward.take(base));
}

/// A connection that only moves carets sends the bus what its client sent: as it
/// is without an offset; with one, as many bytes, message by message, with the
/// carets moved. Malformed bytes are an error that leaves everything as it was.
pub proof fn forwarding_moves_only_carets(
    state: &mut ConnectionState,
    data: &[u8],
    offset: Option<(i32, i32)>,
    r: Result<Vec<u8>, MessageError>,
)
    requires
        call_ensures(forward_chunk, (state, data, offset), r),
        old(state)@.wf(),
    ensures
        r is Err ==> final(state)@ == old(state)@,
        r matches Ok(bytes) ==> {
            &&& bytes@.len() + final(state)@.pending.len() == old(state)@.pending.len()
                + data@.len()
            &&& offset is None ==> bytes@ + final(state)@.pending == old(state)@.pending + data@
            &&& offset matches Some(delta) ==> match feed(old(state)@, data@) {
                Ok((_, forward, messages)) => {
                    &&& bytes@.len() == forward.len()
                    &&& messages.len() == 0 ==> bytes@ == forward
                    &&& forall|i: int|
                        0 <= i < messages.len() ==> caret_moved(
                            bytes_of(forward, #[trigger] messages[i]),
                            messages[i].header,
                            delta,
                            bytes_of(bytes@, messages[i]),
                        )
                    &&& messages.len() > 0 ==> bytes@.take(messages[0].offset) == forward.take(
                        messages[0].offset,
                    )
                },
                Err(_) => false,
            }
        },
{
    bytes_are_conserved(old(state)@, data@);
    if let Some(delta) = offset {
        lemma_chunk_moved(old(state)@, data@, delta);
    }
    if let Ok((after, forward, messages)) = feed(old(state)@, data@) {
        assert((forward + after.pending).len() == (old(state)@.pending + data@).len());
    }
}

} // verus!
