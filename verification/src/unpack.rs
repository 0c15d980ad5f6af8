//! Flattening a stream of batches into a stream of items: the items buffered, and
//! what each poll yields.

use vstd::prelude::*;

verus! {

/// What polling an upstream stream gave.
pub enum Upstream<T> {
    /// An item is ready.
    Item(T),
    /// The stream has ended.
    Finished,
    /// Nothing is ready yet.
    NotReady,
}

/// What a poll of the flattened stream yields.
pub enum Unpacked<I> {
    Item(I),
    Finished,
    NotReady,
}

/// The items of the last batch that have not been handed out yet, in order.
pub struct UnpackBuffer<I> {
    buffer: Vec<I>,
}

impl<I> View for UnpackBuffer<I> {
    type V = Seq<I>;

    closed spec fn view(&self) -> Seq<I> {
        self.buffer@
    }
}

impl<I> UnpackBuffer<I> {
    /// Nothing buffered.
    pub fn new() -> (r: Self)
        ensures
            r@ == Seq::<I>::empty(),
    {
        UnpackBuffer { buffer: Vec::new() }
    }

    /// Whether the next poll has to ask the upstream stream.
    pub fn needs_input(&self) -> (r: bool)
        ensures
            r == (self@.len() == 0),
    {
        self.buffer.len() == 0
    }

    /// Hands out the first buffered item.
    pub fn emit_next(&mut self) -> (r: I)
        requires
            old(self)@.len() > 0,
        ensures
            r == old(self)@[0],
            final(self)@ == old(self)@.drop_first(),
    {
        let r = self.buffer.remove(0);
        assert(self.buffer@ =~= old(self)@.drop_first());
        r
    }

    /// A poll with nothing buffered, once the upstream stream answered `event`: a batch
    /// is buffered and its first item handed out; the end and a pending upstream are
    /// passed on.
    pub fn on_upstream(&mut self, event: Upstream<Vec<I>>) -> (r: Unpacked<I>)
        requires
            old(self)@.len() == 0,
            event matches Upstream::Item(batch) ==> batch@.len() > 0,
        ensures
            match event {
                Upstream::Item(batch) => final(self)@ == batch@.drop_first() && (r matches Unpacked::Item(x)
                    && x == batch@[0]),
                Upstream::Finished => final(self)@ == old(self)@ && r is Finished,
                Upstream::NotReady => final(self)@ == old(self)@ && r is NotReady,
            },
    {
        match event {
            Upstream::Item(mut batch) => {
                let ghost items = batch@;
                self.buffer.append(&mut batch);
                assert(self.buffer@ =~= items);
                Unpacked::Item(self.emit_next())
            },
            Upstream::Finished => Unpacked::Finished,
            Upstream::NotReady => Unpacked::NotReady,
        }
    }
}

/// The items of `batches`, one batch after another.
pub open spec fn flatten_batches<I>(batches: Seq<Seq<I>>) -> Seq<I>
    decreases batches.len(),
{
    if batches.len() == 0 {
        Seq::empty()
    } else {
        flatten_batches(batches.drop_last()) + batches.last()
    }
}

/// Successive polls of the flattened stream, starting from `buffer`; `answers[i]` is
/// what the upstream stream would answer to the `i`-th poll, and it is asked only
/// when nothing is buffered (`needs_input`). Each step is what `emit_next` or
/// `on_upstream` states. The result: what is buffered afterwards, the items handed
/// out in order, and the batches taken from the upstream stream in order.
pub open spec fn unpack_polls<I>(buffer: Seq<I>, answers: Seq<Upstream<Seq<I>>>) -> (Seq<I>, Seq<I>, Seq<
    Seq<I>,
>)
    decreases answers.len(),
{
    if answers.len() == 0 {
        (buffer, Seq::empty(), Seq::empty())
    } else {
        let (held, out, taken) = unpack_polls(buffer, answers.drop_last());
        if held.len() > 0 {
            (held.drop_first(), out.push(held[0]), taken)
        } else {
            match answers.last() {
                Upstream::Item(batch) => (batch.drop_first(), out.push(batch[0]), taken.push(batch)),
                Upstream::Finished => (held, out, taken),
                Upstream::NotReady => (held, out, taken),
            }
        }
    }
}

/// Over any number of polls, the items handed out followed by those still buffered
/// are the buffered items followed by the batches taken, in order: items come out in
/// batch order, none lost, none repeated.
pub proof fn law_items_come_out_in_batch_order<I>(buffer: Seq<I>, answers: Seq<Upstream<Seq<I>>>)
    requires
        forall|i: int|
            0 <= i < answers.len() ==> (#[trigger] answers[i] matches Upstream::Item(b) ==> b.len() > 0),
    ensures
        unpack_polls(buffer, answers).1 + unpack_polls(buffer, answers).0 == buffer + flatten_batches(
            unpack_polls(buffer, answers).2,
        ),
    decreases answers.len(),
{
    if answers.len() > 0 {
        let before = answers.drop_last();
        assert forall|i: int| 0 <= i < before.len() implies (#[trigger] before[i] matches Upstream::Item(b) ==> b.len() > 0) by {
            assert(before[i] == answers[i]);
        }
        law_items_come_out_in_batch_order(buffer, before);
        let (held, out, taken) = unpack_polls(buffer, before);
        if held.len() > 0 {
            assert(out.push(held[0]) + held.drop_first() =~= out + held);
        } else {
            match answers.last() {
                Upstream::Item(batch) => {
                    assert(answers[answers.len() - 1] == answers.last());
                    let t = taken.push(batch);
                    assert(t.drop_last() =~= taken);
                    assert(out.push(batch[0]) + batch.drop_first() =~= out + held + batch);
                    assert(buffer + flatten_batches(t) =~= buffer + flatten_batches(taken) + batch);
                },
                _ => {},
            }
        }
    }
}

} // verus!
