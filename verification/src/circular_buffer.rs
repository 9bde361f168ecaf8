//! A fixed-capacity circular FIFO buffer.
//!
//! The buffer owns `capacity` slots, each either empty or holding one
//! value. Writes fill the slot under the write cursor and advance it
//! modulo the capacity; reads take the oldest value, whose slot index is
//! derived from the cursor and the occupied count rather than kept in a
//! second cursor. A write to a full buffer and a read from an empty one
//! fail with an explicit error and leave the state unchanged.

use vstd::prelude::*;

verus! {

broadcast use vstd::std_specs::vec::axiom_spec_len;

/// The ways a buffer operation can fail: reading from an empty buffer,
/// or writing to a full one.
#[derive(Clone, Copy, Debug, PartialEq, Eq, Structural)]
pub enum Error {
    EmptyBuffer,
    FullBuffer,
}

/// What a successful or failed write does to the queue `s` of a buffer
/// with the given capacity: the value goes to the back when a slot is
/// free, otherwise the write fails and the queue is unchanged.
pub open spec fn spec_write<T>(s: Seq<T>, capacity: nat, value: T) -> (Seq<T>, Result<(), Error>) {
    if s.len() < capacity {
        (s.push(value), Ok(()))
    } else {
        (s, Err(Error::FullBuffer))
    }
}

/// What a read does to the queue `s`: the oldest value leaves the front,
/// unless the queue is empty, in which case the read fails and the queue
/// is unchanged.
pub open spec fn spec_read<T>(s: Seq<T>) -> (Seq<T>, Result<T, Error>) {
    if s.len() > 0 {
        (s.drop_first(), Ok(s[0]))
    } else {
        (s, Err(Error::EmptyBuffer))
    }
}

/// A FIFO queue over a preallocated ring of `capacity` slots.
pub struct CircularBuffer<T: Clone> {
    buffer: Vec<Option<T>>,
    size: usize,
    next: usize,
}

impl<T: Clone> View for CircularBuffer<T> {
    type V = Seq<T>;

    /// The queued values, oldest first.
    closed spec fn view(&self) -> Seq<T> {
        Seq::new(self.size as nat, |i: int| self.buffer@[self.slot(i)]->Some_0)
    }
}

impl<T: Clone> CircularBuffer<T> {
    /// The number of slots, fixed at construction.
    pub closed spec fn capacity(&self) -> nat {
        self.buffer@.len()
    }

    /// Index of the slot holding the i-th oldest queued value.
    closed spec fn slot(&self, i: int) -> int {
        (self.next + self.buffer@.len() - self.size + i) % (self.buffer@.len() as int)
    }

    /// Whether slot j holds one of the queued values.
    closed spec fn occupied(&self, j: int) -> bool {
        exists|i: int| 0 <= i < self.size && self.slot(i) == j
    }

    /// The internal invariant: the count and cursor are in range, the
    /// occupied slots hold values, and every other slot is empty.
    pub closed spec fn wf(&self) -> bool {
        &&& self.size <= self.buffer@.len()
        &&& if self.buffer@.len() == 0 {
            self.next == 0
        } else {
            self.next < self.buffer@.len()
        }
        &&& forall|i: int| 0 <= i < self.size ==> (#[trigger] self.buffer@[self.slot(i)]) is Some
        &&& forall|j: int|
            0 <= j < self.buffer@.len() && !self.occupied(j) ==> (#[trigger] self.buffer@[j]) is None
    }

    /// Allocates a buffer of `size` empty slots.
    pub fn new(size: usize) -> (result: CircularBuffer<T>)
        ensures
            result.wf(),
            result@ == Seq::<T>::empty(),
            result.capacity() == size,
    {
        let mut buffer: Vec<Option<T>> = Vec::new();
        while buffer.len() < size
            invariant
                buffer@.len() <= size,
                forall|j: int| 0 <= j < buffer@.len() ==> (#[trigger] buffer@[j]) is None,
            decreases size - buffer.len(),
        {
            buffer.push(None);
        }
        let result = CircularBuffer { buffer, size: 0, next: 0 };
        proof {
            assert(result@ =~= Seq::<T>::empty());
            assert forall|j: int|
                0 <= j < result.buffer@.len() && !result.occupied(j) implies result.buffer@[j]
                is None by {}
        }
        result
    }

    /// True when no value is queued.
    pub fn is_empty(&self) -> (result: bool)
        ensures
            result == (self@.len() == 0),
    {
        self.size == 0
    }

    /// True when every slot is occupied.
    pub fn is_full(&self) -> (result: bool)
        ensures
            result == (self@.len() == self.capacity()),
    {
        self.size == self.buffer.len()
    }

    /// Stores `value` in the slot under the write cursor and advances the
    /// cursor, or fails with `FullBuffer` when no slot is free.
    pub fn write(&mut self, value: T) -> (result: Result<(), Error>)
        requires
            old(self).wf(),
        ensures
            final(self).wf(),
            final(self).capacity() == old(self).capacity(),
            final(self)@ == spec_write(old(self)@, old(self).capacity(), value).0,
            result == spec_write(old(self)@, old(self).capacity(), value).1,
    {
        if self.is_full() {
            return Err(Error::FullBuffer);
        }
        let ghost pre = *self;
        let idx = self.next;
        self.buffer.remove(idx);
        self.buffer.insert(idx, Some(value));
        let cap = self.buffer.len();
        self.size = self.size + 1;
        self.next = (self.next + 1) % cap;
        proof {
            let cap = pre.buffer@.len() as int;
            assert(self.buffer@ =~= pre.buffer@.update(idx as int, Some(value)));
            vstd::arithmetic::div_mod::lemma_mod_self_0(cap);
            vstd::arithmetic::div_mod::lemma_small_mod(pre.next as nat, cap as nat);
            vstd::arithmetic::div_mod::lemma_add_mod_noop(pre.next as int, cap, cap);
            assert(pre.slot(pre.size as int) == pre.next as int);
            if pre.next + 1 < cap {
                vstd::arithmetic::div_mod::lemma_small_mod((pre.next + 1) as nat, cap as nat);
            }
            assert forall|i: int| 0 <= i <= pre.size implies self.slot(i) == pre.slot(i) by {
                if pre.next + 1 == cap {
                    vstd::arithmetic::div_mod::lemma_mod_multiples_vanish(
                        1,
                        cap - pre.size - 1 + i,
                        cap,
                    );
                }
            }
            assert forall|i: int| 0 <= i < pre.size implies pre.slot(i) != pre.next as int by {
                lemma_mod_distinct(
                    pre.next + cap - pre.size,
                    i,
                    pre.size as int,
                    cap,
                );
            }
            assert(self@ =~= pre@.push(value));
            assert forall|i: int| 0 <= i < self.size implies (#[trigger] self.buffer@[
                self.slot(i)
            ]) is Some by {
                if i < pre.size {
                    assert(self.slot(i) == pre.slot(i));
                    assert(pre.buffer@[pre.slot(i)] is Some);
                    assert(pre.slot(i) != idx as int);
                } else {
                    assert(self.slot(i) == idx as int);
                }
            }
            assert forall|j: int|
                0 <= j < self.buffer@.len() && !self.occupied(j) implies (
            #[trigger] self.buffer@[j]) is None by {
                assert forall|i: int| 0 <= i < pre.size && pre.slot(i) == j implies self.occupied(
                    j,
                ) by {
                    assert(self.slot(i) == j);
                }
                assert(self.slot(pre.size as int) == pre.next as int);
                assert(j != pre.next as int);
            }
        }
        Ok(())
    }

    /// Takes the oldest value out of its slot, or fails with
    /// `EmptyBuffer` when nothing is queued. The write cursor does not
    /// move; a later write reuses the freed slot once the cursor wraps
    /// back to it.
    pub fn read(&mut self) -> (result: Result<T, Error>)
        requires
            old(self).wf(),
        ensures
            final(self).wf(),
            final(self).capacity() == old(self).capacity(),
            final(self)@ == spec_read(old(self)@).0,
            result == spec_read(old(self)@).1,
    {
        if self.is_empty() {
            return Err(Error::EmptyBuffer);
        }
        let ghost pre = *self;
        let idx = if self.next >= self.size {
            self.next - self.size
        } else {
            self.buffer.len() - (self.size - self.next)
        };
        proof {
            let cap = pre.buffer@.len() as int;
            vstd::arithmetic::div_mod::lemma_small_mod(idx as nat, cap as nat);
            if pre.next >= pre.size {
                vstd::arithmetic::div_mod::lemma_add_mod_noop(idx as int, cap, cap);
                vstd::arithmetic::div_mod::lemma_mod_self_0(cap);
            }
            assert(pre.slot(0) == idx as int);
        }
        let value_opt = self.buffer.remove(idx);
        self.buffer.insert(idx, None);
        match value_opt {
            Some(value) => {
                self.size = self.size - 1;
                proof {
                    let cap = pre.buffer@.len() as int;
                    assert(self.buffer@ =~= pre.buffer@.update(idx as int, None));
                    assert forall|i: int| 0 <= i < self.size implies self.slot(i) == pre.slot(
                        i + 1,
                    ) by {}
                    assert forall|i: int| 0 <= i < self.size implies #[trigger] pre.slot(i + 1)
                        != pre.slot(0) by {
                        lemma_mod_distinct(pre.next + cap - pre.size, 0, i + 1, cap);
                    }
                    assert(self@ =~= pre@.drop_first());
                    assert(value == pre@[0]);
                    assert forall|j: int|
                        0 <= j < self.buffer@.len() && !self.occupied(j) implies (
                    #[trigger] self.buffer@[j]) is None by {
                        if j != idx as int {
                            assert forall|i: int|
                                0 <= i < pre.size && pre.slot(i) == j implies self.occupied(j) by {
                                assert(i != 0);
                                assert(self.slot(i - 1) == j);
                            }
                        }
                    }
                }
                Ok(value)
            },
            None => {
                proof {
                    assert(false);
                }
                Err(Error::EmptyBuffer)
            },
        }
    }

    /// Discards every queued value and resets the cursor, returning the
    /// buffer to its just-constructed state.
    pub fn clear(&mut self)
        ensures
            final(self).wf(),
            final(self)@ == Seq::<T>::empty(),
            final(self).capacity() == old(self).capacity(),
    {
        let size = self.buffer.len();
        *self = CircularBuffer::new(size);
    }
}

/// Writes every value of `vs`, oldest first, into a queue holding `s`.
pub open spec fn spec_write_all<T>(s: Seq<T>, capacity: nat, vs: Seq<T>) -> Seq<T>
    decreases vs.len(),
{
    if vs.len() == 0 {
        s
    } else {
        spec_write_all(spec_write(s, capacity, vs[0]).0, capacity, vs.drop_first())
    }
}

/// Whether every write of `vs`, taken in order, into a queue holding `s`
/// succeeds.
pub open spec fn spec_writes_ok<T>(s: Seq<T>, capacity: nat, vs: Seq<T>) -> bool
    decreases vs.len(),
{
    vs.len() == 0 || (spec_write(s, capacity, vs[0]).1 is Ok && spec_writes_ok(
        spec_write(s, capacity, vs[0]).0,
        capacity,
        vs.drop_first(),
    ))
}

/// The values handed out by `n` reads from a queue holding `s`.
pub open spec fn spec_read_all<T>(s: Seq<T>, n: nat) -> Seq<T>
    decreases n,
{
    if n == 0 || s.len() == 0 {
        Seq::empty()
    } else {
        seq![s[0]] + spec_read_all(s.drop_first(), (n - 1) as nat)
    }
}

/// Whether `n` reads in a row from a queue holding `s` all succeed.
pub open spec fn spec_reads_ok<T>(s: Seq<T>, n: nat) -> bool
    decreases n,
{
    n == 0 || (spec_read(s).1 is Ok && spec_reads_ok(spec_read(s).0, (n - 1) as nat))
}

proof fn lemma_write_all_from<T>(s: Seq<T>, capacity: nat, vs: Seq<T>)
    requires
        s.len() + vs.len() <= capacity,
    ensures
        spec_writes_ok(s, capacity, vs),
        spec_write_all(s, capacity, vs) == s + vs,
    decreases vs.len(),
{
    if vs.len() == 0 {
        assert(s + vs =~= s);
    } else {
        lemma_write_all_from(s.push(vs[0]), capacity, vs.drop_first());
        assert(s.push(vs[0]) + vs.drop_first() =~= s + vs);
    }
}

/// Law: starting from an empty buffer, a run of at most `capacity` writes
/// succeeds in full and leaves the queue holding exactly those values;
/// when the run has filled the buffer, one further write fails with
/// `FullBuffer`.
pub proof fn lemma_fill_to_capacity<T>(capacity: nat, vs: Seq<T>, extra: T)
    requires
        vs.len() <= capacity,
    ensures
        spec_writes_ok(Seq::<T>::empty(), capacity, vs),
        spec_write_all(Seq::<T>::empty(), capacity, vs) == vs,
        vs.len() == capacity ==> spec_write(
            spec_write_all(Seq::<T>::empty(), capacity, vs),
            capacity,
            extra,
        ).1 == Err::<(), Error>(Error::FullBuffer),
{
    lemma_write_all_from(Seq::<T>::empty(), capacity, vs);
    assert(Seq::<T>::empty() + vs =~= vs);
}

/// Law (FIFO order): writing `vs` — at most the capacity — into an empty
/// buffer and then reading `vs.len()` times succeeds throughout and hands
/// back exactly `vs`, oldest first.
pub proof fn lemma_fifo_round_trip<T>(capacity: nat, vs: Seq<T>)
    requires
        vs.len() <= capacity,
    ensures
        spec_writes_ok(Seq::<T>::empty(), capacity, vs),
        spec_reads_ok(spec_write_all(Seq::<T>::empty(), capacity, vs), vs.len()),
        spec_read_all(spec_write_all(Seq::<T>::empty(), capacity, vs), vs.len()) == vs,
{
    lemma_fill_to_capacity(capacity, vs, vs[0]);
    lemma_read_all_returns(vs);
}

proof fn lemma_read_all_returns<T>(s: Seq<T>)
    ensures
        spec_reads_ok(s, s.len()),
        spec_read_all(s, s.len()) == s,
    decreases s.len(),
{
    if s.len() > 0 {
        lemma_read_all_returns(s.drop_first());
        assert(seq![s[0]] + s.drop_first() =~= s);
    } else {
        assert(spec_read_all(s, s.len()) =~= s);
    }
}

/// Law: a newly constructed buffer of any positive capacity is empty, is
/// not full, and a read from it fails with `EmptyBuffer`.
pub proof fn lemma_new_buffer_is_empty<T>(capacity: nat)
    requires
        capacity >= 1,
    ensures
        Seq::<T>::empty().len() == 0,
        Seq::<T>::empty().len() != capacity,
        spec_read(Seq::<T>::empty()).1 == Err::<T, Error>(Error::EmptyBuffer),
{
}

/// Law: in a buffer of positive capacity, full and empty are never both
/// true, and both are false exactly when the occupied count lies strictly
/// between zero and the capacity.
pub proof fn lemma_empty_full_exclusive<T: Clone>(b: &CircularBuffer<T>)
    requires
        b.wf(),
        b.capacity() > 0,
    ensures
        !(b@.len() == 0 && b@.len() == b.capacity()),
        (b@.len() != 0 && b@.len() != b.capacity()) <==> 0 < b@.len() < b.capacity(),
{
}

/// Law: in a buffer of capacity one, a write of `v` followed by a read
/// hands exactly `v` back and empties the buffer again; a second write
/// before the read fails with `FullBuffer`.
pub proof fn lemma_capacity_one_round_trip<T>(v: T, w: T)
    ensures
        spec_write(Seq::<T>::empty(), 1, v).1 == Ok::<(), Error>(()),
        spec_read(spec_write(Seq::<T>::empty(), 1, v).0).1 == Ok::<T, Error>(v),
        spec_read(spec_write(Seq::<T>::empty(), 1, v).0).0 == Seq::<T>::empty(),
        spec_write(spec_write(Seq::<T>::empty(), 1, v).0, 1, w).1 == Err::<(), Error>(
            Error::FullBuffer,
        ),
{
    assert(spec_read(spec_write(Seq::<T>::empty(), 1, v).0).0 =~= Seq::<T>::empty());
}

/// Two distinct offsets below the modulus land on distinct ring slots.
proof fn lemma_mod_distinct(base: int, i: int, j: int, n: int)
    requires
        n > 0,
        0 <= i < n,
        0 <= j < n,
        i != j,
    ensures
        (base + i) % n != (base + j) % n,
{
    vstd::arithmetic::div_mod::lemma_fundamental_div_mod(base + i, n);
    vstd::arithmetic::div_mod::lemma_fundamental_div_mod(base + j, n);
    let qi = (base + i) / n;
    let ri = (base + i) % n;
    let qj = (base + j) / n;
    let rj = (base + j) % n;
    if ri == rj {
        assert(false) by (nonlinear_arith)
            requires
                n > 0,
                0 <= i < n,
                0 <= j < n,
                i != j,
                base + i == n * qi + ri,
                base + j == n * qj + rj,
                ri == rj,
        ;
    }
}

} // verus!
