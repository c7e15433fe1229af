//! An allocator that hands out values in chunks of `N`: values go into the
//! current chunk until it is full, then a fresh chunk is started. Each value
//! is reached again through the handle its allocation returned.
use vstd::prelude::*;

verus! {

/// The way back to an allocated value: its chunk, and the number of values
/// that chunk held once the value was put in it.
#[derive(Copy, Clone, Debug, PartialEq, Eq, Structural)]
pub struct Rc {
    pub chunk: usize,
    pub index: usize,
}

/// Values kept in chunks of `N`.
pub struct RcChunkAllocator<T, const N: usize> {
    chunks: Vec<Vec<T>>,
    current: bool,
}

impl<T, const N: usize> RcChunkAllocator<T, N> {
    /// The chunks made so far, oldest first.
    pub closed spec fn chunks(self) -> Seq<Seq<T>> {
        self.chunks@.map_values(|c: Vec<T>| c@)
    }

    /// Whether there is a chunk that new values go into.
    pub closed spec fn has_current(self) -> bool {
        self.current
    }

    /// Well formed: no chunk holds more than `N` values, and a current chunk
    /// is the last one made.
    pub closed spec fn wf(self) -> bool {
        &&& N > 0
        &&& forall|i: int| 0 <= i < self.chunks@.len() ==> (#[trigger] self.chunks@[i])@.len() <= N
        &&& self.current ==> self.chunks@.len() > 0
    }

    /// Whether the handle `r` reaches a value.
    pub open spec fn reaches(self, r: Rc) -> bool {
        r.chunk < self.chunks().len() && r.index < self.chunks()[r.chunk as int].len()
    }

    /// An allocator with no chunk yet.
    pub fn new() -> (a: Self)
        requires
            N > 0,
        ensures
            a.wf(),
            a.chunks().len() == 0,
            !a.has_current(),
    {
        let a = RcChunkAllocator { chunks: Vec::new(), current: false };
        assert(a.chunks() =~= Seq::<Seq<T>>::empty());
        a
    }

    /// Whether no value has gone in since the allocator was made or last
    /// cleaned.
    pub fn is_clean(&self) -> (r: bool)
        ensures
            r == !self.has_current(),
    {
        !self.current
    }

    /// Lets the next value start a fresh chunk; values already handed out
    /// stay where they are.
    pub fn clean(&mut self)
        requires
            old(self).wf(),
        ensures
            final(self).wf(),
            final(self).chunks() == old(self).chunks(),
            !final(self).has_current(),
    {
        self.current = false;
    }

    /// How many chunks have been made.
    pub fn chunks_made(&self) -> (n: usize)
        ensures
            n == self.chunks().len(),
    {
        self.chunks.len()
    }

    /// Puts `t` in the current chunk, first starting a fresh one where there
    /// is no current chunk or it is full; the handle returned counts the
    /// values of the chunk with `t` among them. Values already handed out
    /// stay where they are.
    pub fn allocate(&mut self, t: T) -> (r: Rc)
        requires
            old(self).wf(),
            old(self).chunks().len() < usize::MAX,
        ensures
            final(self).wf(),
            final(self).has_current(),
            ({
                let fresh = !old(self).has_current() || old(self).chunks().last().len() >= N;
                let before = if fresh {
                    old(self).chunks().push(Seq::empty())
                } else {
                    old(self).chunks()
                };
                &&& final(self).chunks() == before.update(before.len() - 1, before.last().push(t))
                &&& r.chunk == before.len() - 1
                &&& r.index == before.last().len() + 1
            }),
            forall|h: Rc| old(self).reaches(h) ==> final(self).reaches(h) && final(self).chunks()[h.chunk as int][h.index as int]
                == old(self).chunks()[h.chunk as int][h.index as int],
    {
        let ghost old_chunks = self.chunks();
        let fresh = !self.current || self.chunks[self.chunks.len() - 1].len() >= N;
        if fresh {
            self.chunks.push(Vec::new());
            self.current = true;
            proof {
                assert(self.chunks() =~= old_chunks.push(Seq::empty()));
            }
        }
        let ghost before = self.chunks();
        let last = self.chunks.len() - 1;
        let mut c = self.chunks.pop().unwrap();
        proof {
            assert(c@ == before.last());
            assert(c@.len() < N);
        }
        c.push(t);
        let index = c.len();
        self.chunks.push(c);
        proof {
            assert(self.chunks() =~= before.update(before.len() - 1, before.last().push(t)));
            assert forall|i: int| 0 <= i < self.chunks@.len() implies (#[trigger] self.chunks@[i])@.len() <= N by {
                if i < last {
                    assert(self.chunks@[i] == old(self).chunks@[i]);
                }
            }
        }
        Rc { chunk: last, index }
    }

    /// The value that `r` reaches.
    pub fn get(&self, r: &Rc) -> (v: &T)
        requires
            self.reaches(*r),
        ensures
            *v == self.chunks()[r.chunk as int][r.index as int],
    {
        &self.chunks[r.chunk][r.index]
    }
}

/// A call made on an allocator: putting a value in, cleaning it, or asking
/// whether it is clean.
#[derive(Copy, Clone, Debug, PartialEq, Eq, Structural)]
pub enum AllocatorCall {
    Allocate,
    Clean,
    IsClean,
}

/// What the call `c` leaves of whether the allocator `b` has a current
/// chunk, by the contracts of `allocate` and `clean`, from the allocator
/// `a`.
pub open spec fn call_step<T, const N: usize>(
    a: RcChunkAllocator<T, N>,
    c: AllocatorCall,
    b: RcChunkAllocator<T, N>,
) -> bool {
    &&& b.wf()
    &&& match c {
        AllocatorCall::Allocate => b.has_current(),
        AllocatorCall::Clean => !b.has_current() && b.chunks() == a.chunks(),
        AllocatorCall::IsClean => b == a,
    }
}

/// No value went in after the last clean of `calls`, or at all where there
/// was none.
pub open spec fn clean_since_last_value(calls: Seq<AllocatorCall>) -> bool {
    forall|i: int| 0 <= i < calls.len() && #[trigger] calls[i] == AllocatorCall::Allocate ==> exists|j: int|
        i < j < calls.len() && #[trigger] calls[j] == AllocatorCall::Clean
}

/// One more call: a value going in leaves values since the last clean, a
/// clean leaves none, and asking changes nothing.
proof fn lemma_clean_since_push(calls: Seq<AllocatorCall>, c: AllocatorCall)
    ensures
        c == AllocatorCall::Allocate ==> !clean_since_last_value(calls.push(c)),
        c == AllocatorCall::Clean ==> clean_since_last_value(calls.push(c)),
        c == AllocatorCall::IsClean ==> (clean_since_last_value(calls.push(c)) <==> clean_since_last_value(calls)),
{
    let s = calls.push(c);
    let n = calls.len() as int;
    assert(s[n] == c);
    if c == AllocatorCall::Clean {
        assert forall|i: int| 0 <= i < s.len() && #[trigger] s[i] == AllocatorCall::Allocate implies exists|j: int|
            i < j < s.len() && #[trigger] s[j] == AllocatorCall::Clean by {
            assert(s[n] == AllocatorCall::Clean);
        }
    }
    if c == AllocatorCall::IsClean {
        if clean_since_last_value(calls) {
            assert forall|i: int| 0 <= i < s.len() && #[trigger] s[i] == AllocatorCall::Allocate implies exists|j: int|
                i < j < s.len() && #[trigger] s[j] == AllocatorCall::Clean by {
                assert(s[i] == calls[i]);
                let j = choose|j: int| i < j < calls.len() && #[trigger] calls[j] == AllocatorCall::Clean;
                assert(s[j] == calls[j]);
            }
        }
        if clean_since_last_value(s) {
            assert forall|i: int| 0 <= i < calls.len() && #[trigger] calls[i] == AllocatorCall::Allocate implies exists|j: int|
                i < j < calls.len() && #[trigger] calls[j] == AllocatorCall::Clean by {
                assert(s[i] == calls[i]);
                let j = choose|j: int| i < j < s.len() && #[trigger] s[j] == AllocatorCall::Clean;
                assert(j != n);
                assert(s[j] == calls[j]);
            }
        }
    }
}

/// An allocator made by `new` and then put through any sequence of calls
/// `calls`, each state the one the call before left, is clean exactly where
/// no value has gone in since it was made or last cleaned; asking changes
/// nothing.
pub proof fn lemma_clean_after_calls<T, const N: usize>(
    states: Seq<RcChunkAllocator<T, N>>,
    calls: Seq<AllocatorCall>,
)
    requires
        states.len() == calls.len() + 1,
        !states[0].has_current(),
        forall|i: int| 0 <= i < calls.len() ==> call_step(#[trigger] states[i], calls[i], states[i + 1]),
    ensures
        !states.last().has_current() <==> clean_since_last_value(calls),
    decreases calls.len(),
{
    if calls.len() > 0 {
        let n = calls.len() - 1;
        let s0 = states.drop_last();
        let c0 = calls.drop_last();
        assert forall|i: int| 0 <= i < c0.len() implies call_step(#[trigger] s0[i], c0[i], s0[i + 1]) by {
            assert(s0[i] == states[i]);
            assert(s0[i + 1] == states[i + 1]);
            assert(c0[i] == calls[i]);
            assert(call_step(states[i], calls[i], states[i + 1]));
        }
        lemma_clean_after_calls(s0, c0);
        assert(call_step(states[n], calls[n], states[n + 1]));
        assert(states.last() == states[n + 1]);
        assert(s0.last() == states[n]);
        assert(c0.push(calls[n]) =~= calls);
        lemma_clean_since_push(c0, calls[n]);
    }
}

} // verus!
