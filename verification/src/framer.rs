//! The framer: gathers the bytes read from the line and hands out a telegram
//! each time what has been gathered ends in the terminator.
use vstd::prelude::*;

verus! {

/// Carriage return, the first byte of the terminator.
pub const CR: u8 = 0x0d;

/// Line feed, the second byte of the terminator.
pub const LF: u8 = 0x0a;

/// Whether the last two bytes of `s` are `CR LF`.
pub open spec fn ends_with_terminator(s: Seq<u8>) -> bool {
    s.len() >= 2 && s[s.len() - 2] == CR && s[s.len() - 1] == LF
}

/// One feed, as mathematics: the bytes pending before it and the chunk fed
/// give the bytes pending after it and the telegram that it completes, if
/// any. The test is on everything gathered so far, not on the chunk alone.
pub open spec fn feed_step(pending: Seq<u8>, chunk: Seq<u8>) -> (Seq<u8>, Option<Seq<u8>>) {
    let gathered = pending + chunk;
    if ends_with_terminator(gathered) {
        (Seq::empty(), Some(gathered))
    } else {
        (gathered, None)
    }
}

/// The bytes of a telegram that may or may not be there.
pub open spec fn telegram_view(t: Option<Vec<u8>>) -> Option<Seq<u8>> {
    match t {
        Some(v) => Some(v@),
        None => None,
    }
}

/// Accumulates bytes since the last telegram boundary.
pub struct Framer {
    buffer: Vec<u8>,
}

impl Framer {
    /// The bytes seen since the last terminator.
    pub closed spec fn view(&self) -> Seq<u8> {
        self.buffer@
    }

    /// What is pending never ends in the terminator: such bytes would have
    /// left as a telegram.
    pub open spec fn inv(&self) -> bool {
        !ends_with_terminator(self@)
    }

    /// A framer with nothing pending.
    pub fn new() -> (f: Framer)
        ensures
            f@ == Seq::<u8>::empty(),
            f.inv(),
    {
        Framer { buffer: Vec::new() }
    }

    /// The number of bytes pending.
    pub fn pending_len(&self) -> (n: usize)
        ensures
            n == self@.len(),
    {
        self.buffer.len()
    }

    /// Appends `chunk` to the pending bytes. If they now end in `CR LF`, all
    /// of them leave as one telegram, terminator included, and nothing stays
    /// pending; otherwise they stay and no telegram comes out.
    pub fn feed(&mut self, chunk: &[u8]) -> (out: Option<Vec<u8>>)
        ensures
            (final(self)@, telegram_view(out)) == feed_step(old(self)@, chunk@),
            out matches Some(t) ==> ends_with_terminator(t@),
            final(self).inv(),
    {
        let mut i: usize = 0;
        while i < chunk.len()
            invariant
                i <= chunk.len(),
                self.buffer@ == old(self).buffer@ + chunk@.take(i as int),
            decreases chunk.len() - i,
        {
            self.buffer.push(chunk[i]);
            i += 1;
            assert(self.buffer@ =~= old(self).buffer@ + chunk@.take(i as int));
        }
        assert(chunk@.take(i as int) =~= chunk@);
        let n: usize = self.buffer.len();
        if n >= 2 && self.buffer[n - 2] == CR && self.buffer[n - 1] == LF {
            let mut telegram: Vec<u8> = Vec::new();
            std::mem::swap(&mut self.buffer, &mut telegram);
            Some(telegram)
        } else {
            None
        }
    }
}

/// Framing does not depend on where the reads cut the stream: if feeding `a`
/// completes no telegram, then feeding `b` next leaves the framer as feeding
/// `a` and `b` in one chunk would, with the same telegram or none.
pub proof fn lemma_feed_chunk_boundary(pending: Seq<u8>, a: Seq<u8>, b: Seq<u8>)
    requires
        feed_step(pending, a).1.is_none(),
    ensures
        feed_step(feed_step(pending, a).0, b) == feed_step(pending, a + b),
{
    assert((pending + a) + b =~= pending + (a + b));
}

/// A terminator cut in two by a read boundary is still found: after a chunk
/// that ends in `CR` no telegram is out, and the chunk `LF` that follows
/// completes exactly the telegram made of everything gathered.
pub proof fn lemma_terminator_across_chunks(pending: Seq<u8>, body: Seq<u8>)
    ensures
        feed_step(pending, body.push(CR)) == (pending + body.push(CR), None::<Seq<u8>>),
        feed_step(feed_step(pending, body.push(CR)).0, seq![LF]) == (
            Seq::<u8>::empty(),
            Some(pending + body + seq![CR, LF]),
        ),
{
    let first = pending + body.push(CR);
    assert(first[first.len() - 1] == CR);
    let second = first + seq![LF];
    assert(second =~= pending + body + seq![CR, LF]);
    assert(second[second.len() - 1] == LF);
    assert(second[second.len() - 2] == CR);
}

/// A read of no bytes changes nothing and completes nothing.
pub proof fn lemma_feed_nothing(f: Framer)
    requires
        f.inv(),
    ensures
        feed_step(f@, Seq::<u8>::empty()) == (f@, None::<Seq<u8>>),
{
    assert(f@ + Seq::<u8>::empty() =~= f@);
}

} // verus!
