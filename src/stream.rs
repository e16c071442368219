//! The streaming assembler: bytes in, decoded events out, one pull at a time.

use vstd::prelude::*;
use vstd::string::StrSliceExecFns;
use vstd::utf8::{decode_utf8, encode_utf8, is_char_boundary, valid_utf8};

use crate::events::Event;
use crate::io::Error;
use crate::parser::{chars_of, decode, grammar, lemma_prefix_needs_more, parse_at, ParseError};

verus! {

/// How many bytes of an unfinished sequence the assembler holds.
pub const BUFFER_CAPACITY: usize = 32;

/// How many decoded items wait for the consumer at most.
pub const QUEUE_CAPACITY: usize = 32;

/// One item of the event sequence.
pub type Item = core::result::Result<Event, Error>;

#[verifier::external_type_specification]
#[verifier::external_body]
#[verifier::reject_recursive_types(T)]
pub struct ExDeque<T, const N: usize>(heapless::Deque<T, N>);

/// The items of the queue, front first.
pub uninterp spec fn queued(q: heapless::Deque<Item, 32>) -> Seq<Item>;

/// Relies on heapless::Deque::new: the new deque is empty.
#[verifier::external_body]
fn deque_new() -> (r: heapless::Deque<Item, 32>)
    ensures
        queued(r) == Seq::<Item>::empty(),
{
    heapless::Deque::new()
}

/// Relies on heapless::Deque::is_full: true when the deque holds its capacity.
#[verifier::external_body]
fn deque_is_full(q: &heapless::Deque<Item, 32>) -> (r: bool)
    ensures
        r == (queued(*q).len() >= 32),
{
    q.is_full()
}

/// Relies on heapless::Deque::pop_front: takes the front item, if any.
#[verifier::external_body]
fn deque_pop_front(q: &mut heapless::Deque<Item, 32>) -> (r: Option<Item>)
    ensures
        queued(*old(q)).len() == 0 ==> r is None && queued(*final(q)) == queued(*old(q)),
        queued(*old(q)).len() > 0 ==> r == Some(queued(*old(q))[0]) && queued(*final(q))
            == queued(*old(q)).drop_first(),
{
    q.pop_front()
}

/// Relies on heapless::Deque::push_back: appends unless the deque is full; tells whether it
/// did.
#[verifier::external_body]
fn deque_push_back(q: &mut heapless::Deque<Item, 32>, item: Item) -> (r: bool)
    ensures
        queued(*old(q)).len() < 32 ==> r && queued(*final(q)) == queued(*old(q)).push(item),
        queued(*old(q)).len() >= 32 ==> !r && queued(*final(q)) == queued(*old(q)),
{
    q.push_back(item).is_ok()
}

/// Relies on core::str::from_utf8: the text of the bytes exactly when they are valid UTF-8.
#[verifier::external_body]
fn text_of(b: &[u8]) -> (r: Option<&str>)
    ensures
        r is Some <==> valid_utf8(b@),
        r matches Some(s) ==> s@ == decode_utf8(b@),
{
    core::str::from_utf8(b).ok()
}

/// `q` with `x` at its back; when `q` is full its front item makes room.
pub open spec fn push_bounded(q: Seq<Item>, x: Item) -> Seq<Item> {
    if q.len() >= QUEUE_CAPACITY {
        q.drop_first().push(x)
    } else {
        q.push(x)
    }
}

/// `q` with each of `items` pushed in turn by `push_bounded`.
pub open spec fn push_all(q: Seq<Item>, items: Seq<Item>) -> Seq<Item>
    decreases items.len(),
{
    if items.len() == 0 {
        q
    } else {
        push_bounded(push_all(q, items.drop_last()), items.last())
    }
}

/// The events that decoding `s` from position `i` on yields, and where it stops to wait for
/// more input (`None` when it meets a malformed sequence).
pub open spec fn drain(s: Seq<char>, i: int) -> (Seq<Item>, Option<int>)
    decreases s.len() - i,
{
    match decode(s, i, false) {
        Ok((e, n)) => if i < n <= s.len() {
            let rest = drain(s, n);
            (seq![Ok::<Event, Error>(e)] + rest.0, rest.1)
        } else {
            (Seq::empty(), Some(i))
        },
        Err(ParseError::Malformed) => (Seq::empty(), None),
        Err(_) => (Seq::empty(), Some(i)),
    }
}

proof fn lemma_encode_suffix_len(s: Seq<char>, i: int)
    requires
        0 <= i <= s.len(),
    ensures
        encode_utf8(s.subrange(i, s.len() as int)).len() <= encode_utf8(s).len(),
    decreases i,
{
    if i > 0 {
        lemma_encode_suffix_len(s.drop_first(), i - 1);
        assert(s.drop_first().subrange(i - 1, s.len() - 1) =~= s.subrange(i, s.len() as int));
    } else {
        assert(s.subrange(0, s.len() as int) =~= s);
    }
}

/// The state of the assembler as the contracts see it.
pub struct ContextView {
    /// Bytes received and not yet part of a decoded event.
    pub pending: Seq<u8>,
    /// Decoded items that wait for the consumer, front first.
    pub queue: Seq<Item>,
    /// Whether the byte source reported its end.
    pub ended: bool,
}

/// What one pull of the sequence comes to.
#[derive(Clone, Copy, Debug, PartialEq, Eq)]
pub enum Pull {
    /// The next item.
    Item(Item),
    /// Nothing is queued: read bytes from the source and hand them to `receive`.
    NeedBytes,
    /// The source has ended: the sequence has no further items.
    End,
}

pub open spec fn initial_view() -> ContextView {
    ContextView { pending: Seq::empty(), queue: Seq::empty(), ended: false }
}

/// The state after a reset: nothing buffered, nothing queued.
pub open spec fn reset_view(v: ContextView) -> ContextView {
    ContextView { pending: Seq::empty(), queue: Seq::empty(), ended: v.ended }
}

/// One pull: a queued item comes out first; with none queued, the end stays the end, and
/// otherwise bytes are needed.
pub open spec fn poll_spec(v: ContextView) -> (ContextView, Pull) {
    if v.queue.len() > 0 {
        (ContextView { queue: v.queue.drop_first(), ..v }, Pull::Item(v.queue[0]))
    } else if v.ended {
        (v, Pull::End)
    } else {
        (v, Pull::NeedBytes)
    }
}

/// What one read of the source does to the state, and the item it reports at once, if any.
/// A failed read, too many bytes, bytes that are not UTF-8, and a malformed sequence each
/// clear the buffer and the queue and are reported at once. After the end of input, reads
/// change nothing.
pub open spec fn receive_spec(v: ContextView, input: core::result::Result<Seq<u8>, Error>) -> (ContextView, Option<Item>) {
    if v.ended {
        (v, None)
    } else {
    match input {
        Err(e) => (reset_view(v), Some(Err(e))),
        Ok(b) => if b.len() == 0 {
            (ContextView { ended: true, ..v }, None)
        } else if v.pending.len() + b.len() > BUFFER_CAPACITY {
            (reset_view(v), Some(Err(Error::Overflow)))
        } else if !valid_utf8(v.pending + b) {
            (reset_view(v), Some(Err(Error::InvalidText)))
        } else {
            let s = decode_utf8(v.pending + b);
            let d = drain(s, 0);
            let queue = push_all(v.queue, d.0);
            match d.1 {
                Some(p) => (
                    ContextView { pending: encode_utf8(s.subrange(p, s.len() as int)), queue, ended: v.ended },
                    None,
                ),
                None => (reset_view(v), Some(Err(Error::Malformed))),
            }
        },
    }
    }
}

/// The assembler: buffered bytes of an unfinished sequence and a bounded queue of decoded
/// items.
pub struct Context {
    pending: Vec<u8>,
    queue: heapless::Deque<Item, 32>,
    ended: bool,
}

impl View for Context {
    type V = ContextView;

    closed spec fn view(&self) -> ContextView {
        ContextView { pending: self.pending@, queue: queued(self.queue), ended: self.ended }
    }
}

impl Context {
    pub closed spec fn wf(&self) -> bool {
        &&& self.pending@.len() <= BUFFER_CAPACITY
        &&& queued(self.queue).len() <= QUEUE_CAPACITY
    }

    pub fn new() -> (r: Self)
        ensures
            r@ == initial_view(),
            r.wf(),
    {
        Context { pending: Vec::new(), queue: deque_new(), ended: false }
    }

    fn reset(&mut self)
        ensures
            final(self).wf(),
            final(self)@ == reset_view(old(self)@),
    {
        self.pending = Vec::new();
        self.queue = deque_new();
    }

    /// Queues `item`, dropping the oldest item when the queue is full.
    fn push_item(&mut self, item: Item)
        requires
            old(self).wf(),
        ensures
            final(self).wf(),
            final(self)@ == (ContextView { queue: push_bounded(old(self)@.queue, item), ..old(self)@ }),
    {
        if deque_is_full(&self.queue) {
            let _ = deque_pop_front(&mut self.queue);
        }
        let _ = deque_push_back(&mut self.queue, item);
    }

    /// Hands the assembler the outcome of one read of the byte source. A failure is reported
    /// at once and clears the state; an empty read is the end of input; bytes are decoded
    /// together with those still pending, and the events found are queued.
    pub fn receive(&mut self, input: core::result::Result<&[u8], Error>) -> (r: Option<Item>)
        requires
            old(self).wf(),
        ensures
            final(self).wf(),
            (final(self)@, r) == receive_spec(
                old(self)@,
                match input {
                    Ok(b) => Ok(b@),
                    Err(e) => Err(e),
                },
            ),
    {
        if self.ended {
            return None;
        }
        let bytes = match input {
            Err(e) => {
                self.reset();
                return Some(Err(e));
            },
            Ok(b) => b,
        };
        if bytes.len() == 0 {
            self.ended = true;
            return None;
        }
        if bytes.len() > BUFFER_CAPACITY - self.pending.len() {
            self.reset();
            return Some(Err(Error::Overflow));
        }
        let mut buf: Vec<u8> = Vec::new();
        let mut k: usize = 0;
        while k < self.pending.len()
            invariant
                k <= self.pending@.len(),
                buf@ == self.pending@.subrange(0, k as int),
            decreases self.pending@.len() - k,
        {
            buf.push(self.pending[k]);
            k = k + 1;
        }
        k = 0;
        while k < bytes.len()
            invariant
                k <= bytes@.len(),
                buf@ == self.pending@ + bytes@.subrange(0, k as int),
            decreases bytes@.len() - k,
        {
            buf.push(bytes[k]);
            k = k + 1;
        }
        assert(buf@ =~= self.pending@ + bytes@);
        let text = match text_of(buf.as_slice()) {
            None => {
                self.reset();
                return Some(Err(Error::InvalidText));
            },
            Some(text) => text,
        };
        let chars = chars_of(text);
        let ghost s = chars@;
        let ghost q0 = self@.queue;
        let ghost v0 = self@;
        let ghost mut produced: Seq<Item> = Seq::empty();
        let mut i: usize = 0;
        assert(drain(s, 0).0 =~= produced + drain(s, 0).0);
        loop
            invariant
                s == chars@,
                valid_utf8(v0.pending + bytes@),
                s == decode_utf8(v0.pending + bytes@),
                v0 == old(self)@,
                !v0.ended,
                q0 == v0.queue,
                input matches Ok(b) && b@ == bytes@,
                bytes@.len() > 0,
                v0.pending.len() + bytes@.len() <= BUFFER_CAPACITY,
                i <= s.len(),
                self.wf(),
                self@.pending == v0.pending,
                self@.ended == v0.ended,
                self@.queue == push_all(q0, produced),
                drain(s, 0) == (produced + drain(s, i as int).0, drain(s, i as int).1),
            ensures
                i <= s.len(),
                self.wf(),
                self@.pending == v0.pending,
                self@.ended == v0.ended,
                self@.queue == push_all(q0, produced),
                drain(s, 0) == (produced + drain(s, i as int).0, drain(s, i as int).1),
                drain(s, i as int).0 == Seq::<Item>::empty(),
                drain(s, i as int).1 == Some(i as int),
            decreases s.len() - i,
        {
            match parse_at(&chars, i, false) {
                Ok((e, n)) => {
                    proof {
                        let x = Ok::<Event, Error>(e);
                        assert(produced.push(x).drop_last() =~= produced);
                        assert(produced + drain(s, i as int).0 =~= produced.push(x) + drain(s, n as int).0);
                        produced = produced.push(x);
                    }
                    self.push_item(Ok(e));
                    i = n;
                },
                Err(ParseError::Malformed) => {
                    self.reset();
                    return Some(Err(Error::Malformed));
                },
                Err(_) => {
                    break;
                },
            }
        }
        assert(produced + drain(s, i as int).0 =~= produced);
        let rest = text.substring_char(i, chars.len());
        proof {
            vstd::utf8::decode_utf8_encode_utf8(buf@);
            lemma_encode_suffix_len(s, i as int);
        }
        self.pending = rest.as_bytes_vec();
        None
    }

    /// One pull of the sequence.
    pub fn poll(&mut self) -> (r: Pull)
        requires
            old(self).wf(),
        ensures
            final(self).wf(),
            (final(self)@, r) == poll_spec(old(self)@),
    {
        match deque_pop_front(&mut self.queue) {
            Some(item) => Pull::Item(item),
            None => if self.ended {
                Pull::End
            } else {
                Pull::NeedBytes
            },
        }
    }
}

/// The last `n` items of `x`, or all of them when there are fewer.
pub open spec fn newest(x: Seq<Item>, n: nat) -> Seq<Item> {
    if x.len() <= n {
        x
    } else {
        x.subrange(x.len() - n, x.len() as int)
    }
}

/// Queueing items one by one keeps the newest `QUEUE_CAPACITY` of the old and new items, in
/// order: an overflow drops the oldest, never the newest, and never reorders.
pub proof fn lemma_queue_keeps_newest(q: Seq<Item>, items: Seq<Item>)
    requires
        q.len() <= QUEUE_CAPACITY,
    ensures
        push_all(q, items) == newest(q + items, QUEUE_CAPACITY as nat),
    decreases items.len(),
{
    if items.len() == 0 {
        assert(q + items =~= q);
    } else {
        lemma_queue_keeps_newest(q, items.drop_last());
        let x = q + items.drop_last();
        let l = items.last();
        assert(q + items =~= x.push(l));
        if x.len() >= QUEUE_CAPACITY {
            assert(newest(x, QUEUE_CAPACITY as nat).drop_first().push(l) =~= newest(x.push(l), QUEUE_CAPACITY as nat));
        } else {
            assert(newest(x, QUEUE_CAPACITY as nat).push(l) =~= newest(x.push(l), QUEUE_CAPACITY as nat));
        }
    }
}

/// The queue after a read that decodes: the newest `QUEUE_CAPACITY` of the items that were
/// queued and the items decoded from it, in order.
pub proof fn lemma_receive_keeps_newest(v: ContextView, b: Seq<u8>)
    requires
        !v.ended,
        v.queue.len() <= QUEUE_CAPACITY,
        b.len() > 0,
        v.pending.len() + b.len() <= BUFFER_CAPACITY,
        valid_utf8(v.pending + b),
        drain(decode_utf8(v.pending + b), 0).1 is Some,
    ensures
        receive_spec(v, Ok(b)).1 is None,
        drain(decode_utf8(v.pending + b), 0).0.len() <= BUFFER_CAPACITY,
        receive_spec(v, Ok(b)).0.queue == newest(
            v.queue + drain(decode_utf8(v.pending + b), 0).0,
            QUEUE_CAPACITY as nat,
        ),
{
    let t = decode_utf8(v.pending + b);
    lemma_queue_keeps_newest(v.queue, drain(t, 0).0);
    lemma_drain_len(t, 0);
    vstd::utf8::decode_utf8_encode_utf8(v.pending + b);
    lemma_encode_len(t);
}

/// Decoding yields at most one event per character.
proof fn lemma_drain_len(s: Seq<char>, i: int)
    requires
        0 <= i <= s.len(),
    ensures
        drain(s, i).0.len() <= s.len() - i,
    decreases s.len() - i,
{
    if let Ok((e, n)) = decode(s, i, false) {
        if i < n <= s.len() {
            lemma_drain_len(s, n);
        }
    }
}

/// Every character takes at least one byte.
proof fn lemma_encode_len(s: Seq<char>)
    ensures
        s.len() <= encode_utf8(s).len(),
    decreases s.len(),
{
    if s.len() > 0 {
        lemma_encode_len(s.drop_first());
        assert(vstd::utf8::encode_scalar(s[0] as u32).len() >= 1);
    }
}

/// A read of zero bytes ends the sequence: it reports nothing, later reads change nothing,
/// and once the queued items are out every pull is the end and leaves the state as it is.
pub proof fn lemma_end_is_final(v: ContextView)
    ensures
        receive_spec(v, Ok(Seq::empty())).1 is None,
        receive_spec(v, Ok(Seq::empty())).0 == (ContextView { ended: true, ..v }),
        forall|w: ContextView, input: core::result::Result<Seq<u8>, Error>| w.ended ==> #[trigger] receive_spec(w, input) == (w, None::<Item>),
        forall|w: ContextView| w.ended && w.queue.len() == 0 ==> #[trigger] poll_spec(w) == (w, Pull::End),
{
}

/// Bytes that decode whole to one event come to the same whether they arrive in one read or
/// in two reads split at a character boundary, as long as the first read fits the buffer:
/// the event alone when all of them fit, an overflow otherwise.
#[verifier::rlimit(100)]
#[verifier::spinoff_prover]
pub proof fn lemma_split_delivery(s: Seq<u8>, k: int, e: Event)
    requires
        0 < k < s.len(),
        k <= BUFFER_CAPACITY,
        valid_utf8(s),
        is_char_boundary(s, k),
        grammar(decode_utf8(s)) == Ok::<(Event, int), ParseError>((e, decode_utf8(s).len() as int)),
    ensures
        receive_spec(initial_view(), Ok(s.subrange(0, k))).1 is None,
        receive_spec(receive_spec(initial_view(), Ok(s.subrange(0, k))).0, Ok(s.subrange(k, s.len() as int)))
            == receive_spec(initial_view(), Ok(s)),
        s.len() <= BUFFER_CAPACITY ==> receive_spec(initial_view(), Ok(s)) == (
            ContextView { pending: Seq::empty(), queue: seq![Ok::<Event, Error>(e)], ended: false },
            None::<Item>,
        ),
        s.len() > BUFFER_CAPACITY ==> receive_spec(initial_view(), Ok(s)) == (
            initial_view(),
            Some(Err::<Event, Error>(Error::Overflow)),
        ),
{
    let a = s.subrange(0, k);
    let b = s.subrange(k, s.len() as int);
    let t = decode_utf8(s);
    vstd::utf8::valid_utf8_split(s, k);
    vstd::utf8::decode_utf8_split(s, k);
    let ta = decode_utf8(a);
    let tb = decode_utf8(b);
    assert(tb.len() > 0);
    assert(ta.len() > 0);
    assert(ta =~= t.subrange(0, ta.len() as int));
    lemma_prefix_needs_more(t, ta.len() as int);
    let v0 = initial_view();
    assert(v0.pending + a =~= a);
    assert(drain(ta, 0) == (Seq::<Item>::empty(), Some(0int)));
    assert(push_all(v0.queue, Seq::<Item>::empty()) == v0.queue);
    assert(ta.subrange(0, ta.len() as int) =~= ta);
    vstd::utf8::decode_utf8_encode_utf8(a);
    let v1 = receive_spec(v0, Ok(a)).0;
    assert(v1.pending == a);
    assert(v1.pending + b =~= s);
    assert(v0.pending + s =~= s);
    assert(reset_view(v1) =~= reset_view(v0));
    assert(reset_view(v0) == v0) by {
        assert(reset_view(v0).pending =~= v0.pending);
        assert(reset_view(v0).queue =~= v0.queue);
    }
    if s.len() <= BUFFER_CAPACITY {
        let n = t.len() as int;
        assert(drain(t, n) == (Seq::<Item>::empty(), Some(n)));
        assert(drain(t, 0).0 =~= seq![Ok::<Event, Error>(e)]);
        assert(seq![Ok::<Event, Error>(e)].drop_last() =~= Seq::<Item>::empty());
        assert(push_all(Seq::<Item>::empty(), seq![Ok::<Event, Error>(e)]) =~= seq![Ok::<Event, Error>(e)]);
        assert(t.subrange(n, n) =~= Seq::<char>::empty());
    }
}

} // verus!
