//! The client-to-bus direction of one connection.
//!
//! Handshake bytes are forwarded as they arrive. A separate accumulator keeps
//! them until the line `BEGIN` has been seen, wherever the chunks are cut.
//! From then on the stream is a sequence of messages, and each is forwarded
//! once it is complete, so that a rule always sees whole messages.

use crate::bytes::append;
use crate::dbus::message::{
    bytes_needed, header_of, message_size, parse_header, Fault, Header, HeaderModel, MessageError,
    FIXED_HEADER_LEN,
};
use vstd::prelude::*;

verus! {

/// One complete message among the bytes to forward.
#[derive(Debug, Clone, PartialEq, Eq)]
pub struct ObservedMessage {
    pub header: Header,
    /// Where the message starts in [`Output::forward`].
    pub offset: usize,
    /// How many bytes it takes, header and body.
    pub length: usize,
}

/// What an [`ObservedMessage`] says.
#[verifier::ext_equal]
pub ghost struct ObservedModel {
    pub header: HeaderModel,
    pub offset: int,
    pub length: int,
}

impl View for ObservedMessage {
    type V = ObservedModel;

    open spec fn view(&self) -> ObservedModel {
        ObservedModel {
            header: self.header@,
            offset: self.offset as int,
            length: self.length as int,
        }
    }
}

impl ObservedMessage {
    /// The bytes of the message in [`Output::forward`].
    pub fn range(&self) -> (r: core::ops::Range<usize>)
        requires
            self.offset + self.length <= usize::MAX,
        ensures
            r.start == self.offset,
            r.end == self.offset + self.length,
    {
        core::ops::Range { start: self.offset, end: self.offset + self.length }
    }
}

/// What one chunk of client bytes leads to.
#[derive(Debug, Clone)]
pub struct Output {
    /// The bytes to forward to the bus.
    pub forward: Vec<u8>,
    /// The complete messages among them, in order.
    pub messages: Vec<ObservedMessage>,
}

impl Default for Output {
    fn default() -> (r: Output)
        ensures
            r.forward@ == Seq::<u8>::empty(),
            r.messages@ == Seq::<ObservedMessage>::empty(),
    {
        Output { forward: Vec::new(), messages: Vec::new() }
    }
}

/// The models of a sequence of messages.
pub open spec fn models(messages: Seq<ObservedMessage>) -> Seq<ObservedModel> {
    messages.map_values(|m: ObservedMessage| m@)
}

/// A message that stands in `forward` where it says, with the size and the
/// header that its bytes give.
#[verifier::opaque]
pub open spec fn stands_in(m: ObservedModel, forward: Seq<u8>) -> bool {
    &&& FIXED_HEADER_LEN + m.header.body_len <= m.length
    &&& 0 <= m.offset
    &&& m.offset + m.length <= forward.len()
    &&& message_size(forward.subrange(m.offset, m.offset + m.length)) == Ok::<Option<int>, Fault>(
        Some(m.length),
    )
    &&& header_of(forward.subrange(m.offset, m.offset + m.length)) == Ok::<HeaderModel, Fault>(
        m.header,
    )
}

/// Messages that stand one behind the other from `base` on in `forward`.
pub open spec fn laid_out(messages: Seq<ObservedModel>, forward: Seq<u8>, base: int) -> bool {
    &&& messages.len() > 0 ==> messages[0].offset == base
    &&& forall|i: int| 0 <= i < messages.len() ==> stands_in(#[trigger] messages[i], forward)
    &&& forall|i: int, j: int|
        #![trigger messages[i], messages[j]]
        0 <= i && j == i + 1 && j < messages.len() ==> messages[j].offset == messages[i].offset
            + messages[i].length
}

/// The bytes that end the handshake.
pub open spec fn begin_line() -> Seq<u8> {
    seq![0x42u8, 0x45u8, 0x47u8, 0x49u8, 0x4eu8, 0x0du8, 0x0au8]
}

/// The offset behind the first `BEGIN` line that starts at `i` or later.
pub open spec fn find_begin(s: Seq<u8>, i: int) -> Option<int>
    decreases s.len() - i,
{
    if i + 7 > s.len() {
        None
    } else if s.subrange(i, i + 7) == begin_line() {
        Some(i + 7)
    } else {
        find_begin(s, i + 1)
    }
}

/// The message at the front of `buf` once it is complete: its header and its
/// size.
#[verifier::opaque]
pub open spec fn first_message(buf: Seq<u8>) -> Result<Option<(HeaderModel, int)>, Fault> {
    match message_size(buf) {
        Err(e) => Err(e),
        Ok(None) => Ok(None),
        Ok(Some(n)) => if n > buf.len() {
            Ok(None)
        } else {
            match header_of(buf.take(n)) {
                Err(e) => Err(e),
                Ok(header) => Ok(Some((header, n))),
            }
        },
    }
}

/// A first message lies in the buffer and has room for its body.
pub proof fn first_message_fits(buf: Seq<u8>)
    ensures
        match first_message(buf) {
            Ok(Some((header, n))) => FIXED_HEADER_LEN + header.body_len <= n <= buf.len(),
            _ => true,
        },
{
    reveal(first_message);
    match message_size(buf) {
        Ok(Some(n)) => {
            if n <= buf.len() {
                let head = buf.take(n);
                assert(head[0] == buf[0] && head[4] == buf[4] && head[5] == buf[5] && head[6]
                    == buf[6] && head[7] == buf[7]);
            }
        },
        _ => {},
    }
}

/// The complete messages at the front of `buf`, with offsets counted from
/// `base`, and the number of bytes that they take.
pub open spec fn complete_messages(buf: Seq<u8>, base: int) -> Result<
    (Seq<ObservedModel>, int),
    Fault,
>
    decreases buf.len(),
{
    proof {
        first_message_fits(buf);
    }
    match first_message(buf) {
        Err(e) => Err(e),
        Ok(None) => Ok((seq![], 0)),
        Ok(Some((header, n))) => match complete_messages(buf.skip(n), base + n) {
            Err(e) => Err(e),
            Ok((rest, used)) => Ok(
                (seq![ObservedModel { header, offset: base, length: n }] + rest, n + used),
            ),
        },
    }
}

/// What a connection remembers between chunks.
#[verifier::ext_equal]
pub ghost struct ConnectionModel {
    /// Whether the handshake is over.
    pub authed: bool,
    /// The handshake bytes so far, while it is not.
    pub seen: Seq<u8>,
    /// The start of a message that is not complete yet.
    pub pending: Seq<u8>,
}

/// What a chunk leads to: the connection afterwards, the bytes to forward, the
/// messages among them.
pub type Fed = (ConnectionModel, Seq<u8>, Seq<ObservedModel>);

/// The message stage: `prefix` is forwarded, then the complete messages at the
/// front of `buf`; the rest waits.
pub open spec fn deliver(prefix: Seq<u8>, buf: Seq<u8>) -> Result<Fed, Fault> {
    match complete_messages(buf, prefix.len() as int) {
        Err(e) => Err(e),
        Ok((messages, used)) => Ok(
            (
                ConnectionModel { authed: true, seen: seq![], pending: buf.skip(used) },
                prefix + buf.take(used),
                messages,
            ),
        ),
    }
}

/// What feeding `data` to the connection `s` leads to.
pub open spec fn feed(s: ConnectionModel, data: Seq<u8>) -> Result<Fed, Fault> {
    if s.authed {
        deliver(seq![], s.pending + data)
    } else {
        match find_begin(s.seen + data, 0) {
            None => Ok((ConnectionModel { seen: s.seen + data, ..s }, data, seq![])),
            Some(end) => deliver(data.take(end - s.seen.len()), data.skip(end - s.seen.len())),
        }
    }
}

/// The client side of one connection.
#[derive(Debug, Clone)]
pub struct ConnectionState {
    authed: bool,
    seen: Vec<u8>,
    pending: Vec<u8>,
}

impl View for ConnectionState {
    type V = ConnectionModel;

    closed spec fn view(&self) -> ConnectionModel {
        ConnectionModel { authed: self.authed, seen: self.seen@, pending: self.pending@ }
    }
}

impl ConnectionModel {
    /// While the handshake runs, its end has not been seen and no message is
    /// pending.
    pub open spec fn wf(self) -> bool {
        if self.authed {
            self.seen.len() == 0
        } else {
            find_begin(self.seen, 0) is None && self.pending.len() == 0
        }
    }
}

impl ConnectionState {
    pub fn new() -> (r: ConnectionState)
        ensures
            !r@.authed,
            r@.seen == Seq::<u8>::empty(),
            r@.pending == Seq::<u8>::empty(),
            r@.wf(),
    {
        ConnectionState { authed: false, seen: Vec::new(), pending: Vec::new() }
    }

    /// Whether the handshake is over.
    pub fn is_authed(&self) -> (r: bool)
        ensures
            r == self@.authed,
    {
        self.authed
    }

    /// Takes the next bytes from the client and gives the bytes to forward,
    /// with the complete messages among them. A malformed message is an error,
    /// which leaves the connection as it was.
    pub fn client_feed(&mut self, data: &[u8]) -> (r: Result<Output, MessageError>)
        requires
            old(self)@.wf(),
        ensures
            final(self)@.wf(),
            match r {
                Ok(out) => feed(old(self)@, data@) == Ok::<Fed, Fault>(
                    (final(self)@, out.forward@, models(out.messages@)),
                ),
                Err(e) => feed(old(self)@, data@) == Err::<Fed, Fault>(e@) && final(self)@ == old(
                    self,
                )@,
            },
    {
        let mut forward: Vec<u8> = Vec::new();
        let mut buf: Vec<u8> = Vec::new();
        if self.authed {
            append(&mut buf, self.pending.as_slice());
            append(&mut buf, data);
        } else {
            let mut seen: Vec<u8> = Vec::new();
            append(&mut seen, self.seen.as_slice());
            append(&mut seen, data);
            match scan_begin(seen.as_slice()) {
                None => {
                    self.seen = seen;
                    append(&mut forward, data);
                    let out = Output { forward, messages: Vec::new() };
                    assert(models(out.messages@) =~= seq![]);
                    return Ok(out);
                },
                Some(end) => {
                    proof {
                        lemma_begin_is_new(self.seen@, data@);
                    }
                    let cut: usize = end - self.seen.len();
                    append(&mut forward, &data[0..cut]);
                    append(&mut buf, &data[cut..data.len()]);
                },
            }
        }
        let ghost prefix = forward@;
        let ghost whole = buf@;
        let ghost all = complete_messages(whole, prefix.len() as int);
        let mut messages: Vec<ObservedMessage> = Vec::new();
        let mut used: usize = 0;
        assert(models(messages@) =~= seq![]);
        assert(whole.skip(0) =~= whole);
        assert(forward@ =~= prefix + whole.take(0));
        assert(all == prepend(
            models(messages@),
            0,
            complete_messages(whole.skip(0), prefix.len() as int),
        )) by {
            if all is Ok {
                let (rest, n) = all->Ok_0;
                assert(models(messages@) + rest =~= rest);
            }
        }
        loop
            invariant
                buf@ == whole,
                used <= whole.len(),
                forward@ == prefix + whole.take(used as int),
                all == prepend(
                    models(messages@),
                    used as int,
                    complete_messages(whole.skip(used as int), forward@.len() as int),
                ),
                all == complete_messages(whole, prefix.len() as int),
                *self == *old(self),
                old(self)@.wf(),
                feed(old(self)@, data@) == deliver(prefix, whole),
            ensures
                buf@ == whole,
                used <= whole.len(),
                forward@ == prefix + whole.take(used as int),
                all == Ok::<(Seq<ObservedModel>, int), Fault>((models(messages@), used as int)),
            decreases whole.len() - used,
        {
            let rest: &[u8] = &buf[used..buf.len()];
            assert(rest@ =~= whole.skip(used as int));
            proof {
                first_message_fits(rest@);
            }
            let (header, need) = match next_message(rest) {
                Err(e) => return Err(e),
                Ok(None) => {
                    assert(models(messages@) + Seq::<ObservedModel>::empty() =~= models(messages@));
                    break;
                },
                Ok(Some(found)) => found,
            };
            let message: &[u8] = &rest[0..need];
            let ghost model = ObservedModel {
                header: header@,
                offset: forward@.len() as int,
                length: need as int,
            };
            let ghost before = models(messages@);
            let ghost tail = complete_messages(
                rest@.skip(need as int),
                forward@.len() + need,
            );
            messages.push(ObservedMessage { header, offset: forward.len(), length: need });
            append(&mut forward, message);
            proof {
                assert(models(messages@) =~= before.push(model));
                assert(whole.skip(used + need) =~= rest@.skip(need as int));
                assert(whole.take(used + need) =~= whole.take(used as int) + message@);
                if tail is Ok {
                    let (more, n) = tail->Ok_0;
                    assert(before + (seq![model] + more) =~= before.push(model) + more);
                }
            }
            used = used + need;
        }
        let mut pending: Vec<u8> = Vec::new();
        append(&mut pending, &buf[used..buf.len()]);
        assert(pending@ =~= whole.skip(used as int));
        self.authed = true;
        self.seen = Vec::new();
        self.pending = pending;
        Ok(Output { forward, messages })
    }
}

/// Messages found before the ones in `rest`.
spec fn prepend(
    found: Seq<ObservedModel>,
    used: int,
    rest: Result<(Seq<ObservedModel>, int), Fault>,
) -> Result<(Seq<ObservedModel>, int), Fault> {
    match rest {
        Ok((more, n)) => Ok((found + more, used + n)),
        Err(e) => Err(e),
    }
}

/// A found line lies in the bytes and is the line.
pub proof fn lemma_find_begin_sound(s: Seq<u8>, i: int)
    requires
        0 <= i,
    ensures
        match find_begin(s, i) {
            Some(end) => i + 7 <= end <= s.len() && s.subrange(end - 7, end) == begin_line(),
            None => true,
        },
    decreases s.len() - i,
{
    if i + 7 <= s.len() && s.subrange(i, i + 7) != begin_line() {
        lemma_find_begin_sound(s, i + 1);
    }
}

/// A line that is there is found, or an earlier one.
pub proof fn lemma_find_begin_complete(s: Seq<u8>, i: int, end: int)
    requires
        0 <= i,
        i + 7 <= end <= s.len(),
        s.subrange(end - 7, end) == begin_line(),
    ensures
        find_begin(s, i) is Some,
        find_begin(s, i)->0 <= end,
    decreases s.len() - i,
{
    if s.subrange(i, i + 7) != begin_line() {
        lemma_find_begin_complete(s, i + 1, end);
    }
}

/// While the line has not been seen, it can only end in the new bytes.
pub proof fn lemma_begin_is_new(seen: Seq<u8>, data: Seq<u8>)
    requires
        find_begin(seen, 0) is None,
    ensures
        match find_begin(seen + data, 0) {
            Some(end) => seen.len() < end <= seen.len() + data.len(),
            None => true,
        },
{
    let s = seen + data;
    lemma_find_begin_sound(s, 0);
    if let Some(end) = find_begin(s, 0) {
        if end <= seen.len() {
            assert(seen.subrange(end - 7, end) =~= s.subrange(end - 7, end));
            lemma_find_begin_complete(seen, 0, end);
        }
    }
}

/// The message at the front of `buf`, once it is complete.
fn next_message(buf: &[u8]) -> (r: Result<Option<(Header, usize)>, MessageError>)
    ensures
        match r {
            Ok(Some((header, n))) => first_message(buf@) == Ok::<
                Option<(HeaderModel, int)>,
                Fault,
            >(Some((header@, n as int))),
            Ok(None) => first_message(buf@) == Ok::<Option<(HeaderModel, int)>, Fault>(None),
            Err(e) => first_message(buf@) == Err::<Option<(HeaderModel, int)>, Fault>(e@),
        },
{
    proof {
        reveal(first_message);
    }
    let need: usize = match bytes_needed(buf) {
        Err(e) => return Err(e),
        Ok(None) => return Ok(None),
        Ok(Some(n)) => n,
    };
    if need > buf.len() {
        return Ok(None);
    }
    let message: &[u8] = &buf[0..need];
    assert(message@ =~= buf@.take(need as int));
    match parse_header(message) {
        Err(e) => Err(e),
        Ok(header) => Ok(Some((header, need))),
    }
}

/// Looks for the line that ends the handshake.
fn scan_begin(s: &[u8]) -> (r: Option<usize>)
    ensures
        match r {
            Some(end) => find_begin(s@, 0) == Some(end as int) && end <= s@.len(),
            None => find_begin(s@, 0) is None,
        },
{
    let mut i: usize = 0;
    while i < s.len() && s.len() - i >= 7
        invariant
            i <= s@.len(),
            find_begin(s@, 0) == find_begin(s@, i as int),
        decreases s@.len() - i,
    {
        if s[i] == 0x42 && s[i + 1] == 0x45 && s[i + 2] == 0x47 && s[i + 3] == 0x49 && s[i + 4]
            == 0x4e && s[i + 5] == 0x0d && s[i + 6] == 0x0a {
            assert(s@.subrange(i as int, i + 7) =~= begin_line());
            return Some(i + 7);
        }
        proof {
            if s@.subrange(i as int, i + 7) == begin_line() {
                let w = s@.subrange(i as int, i + 7);
                assert(w[0] == s@[i as int] && w[1] == s@[i + 1] && w[2] == s@[i + 2] && w[3]
                    == s@[i + 3] && w[4] == s@[i + 4] && w[5] == s@[i + 5] && w[6] == s@[i + 6]);
            }
        }
        i += 1;
    }
    None
}

} // verus!
