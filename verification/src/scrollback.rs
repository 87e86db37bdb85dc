//! Bounded FIFO byte buffer holding the most recent output of a session.
//!
//! The buffer is capped at 64 KiB; once full, the oldest bytes are evicted
//! one by one, so overflow is byte-level rather than chunk-level.

use vstd::prelude::*;
use std::collections::VecDeque;

verus! {

/// Capacity of a scrollback buffer in bytes (64 KiB).
pub const SCROLLBACK_SIZE: usize = 65536;

/// The contents of a buffer holding `s` after `data` is appended with
/// byte-level eviction at capacity `cap`: the suffix of `s + data` of
/// length at most `cap`.
pub open spec fn push_model(s: Seq<u8>, data: Seq<u8>, cap: nat) -> Seq<u8> {
    let all = s + data;
    if all.len() <= cap {
        all
    } else {
        all.skip(all.len() - cap)
    }
}

/// Index of the first byte of the last `n` lines of `s[0..end]`: scanning
/// backwards from `end`, the position just after the `n`-th newline, or 0
/// if fewer than `n` newlines are found.
pub open spec fn tail_start(s: Seq<u8>, end: int, n: nat) -> int
    decreases end,
{
    if end <= 0 {
        0
    } else if s[end - 1] == 10u8 {
        if n <= 1 {
            end
        } else {
            tail_start(s, end - 1, (n - 1) as nat)
        }
    } else {
        tail_start(s, end - 1, n)
    }
}

/// The last `n` lines of `s`: a trailing newline is excluded from the
/// search window, then the suffix beginning just after the `n`-th newline
/// from the end is returned (the whole of `s` if fewer newlines exist).
/// `n == 0` or an empty buffer yields the empty sequence.
pub open spec fn last_lines_model(s: Seq<u8>, n: nat) -> Seq<u8> {
    if n == 0 || s.len() == 0 {
        Seq::empty()
    } else {
        let window = if s[s.len() - 1] == 10u8 {
            s.len() - 1
        } else {
            s.len() as int
        };
        s.skip(tail_start(s, window, n))
    }
}

/// Bounded byte ring with line-oriented tail queries.
pub struct Scrollback {
    buf: VecDeque<u8>,
}

impl View for Scrollback {
    type V = Seq<u8>;

    closed spec fn view(&self) -> Seq<u8> {
        self.buf@
    }
}

impl Scrollback {
    /// The buffer never holds more than `SCROLLBACK_SIZE` bytes.
    pub closed spec fn wf(&self) -> bool {
        self.buf@.len() <= SCROLLBACK_SIZE
    }

    /// An empty scrollback buffer.
    pub fn new() -> (r: Scrollback)
        ensures
            r.wf(),
            r@ == Seq::<u8>::empty(),
    {
        Scrollback { buf: VecDeque::with_capacity(SCROLLBACK_SIZE) }
    }

    /// Append `data`, evicting the oldest bytes once the capacity is reached.
    pub fn push(&mut self, data: &[u8])
        requires
            old(self).wf(),
        ensures
            final(self).wf(),
            final(self)@ == push_model(old(self)@, data@, SCROLLBACK_SIZE as nat),
    {
        let mut i: usize = 0;
        while i < data.len()
            invariant
                i <= data@.len(),
                self.buf@.len() <= SCROLLBACK_SIZE,
                self.buf@ == push_model(old(self)@, data@.take(i as int), SCROLLBACK_SIZE as nat),
            decreases data@.len() - i,
        {
            proof {
                lemma_push_model_step(old(self)@, data@, i as int, SCROLLBACK_SIZE as nat);
            }
            if self.buf.len() >= SCROLLBACK_SIZE {
                let _popped = self.buf.pop_front();
            }
            self.buf.push_back(data[i]);
            i = i + 1;
        }
        proof {
            assert(data@.take(data@.len() as int) == data@);
        }
    }

    /// All buffered bytes, oldest first.
    pub fn contents(&self) -> (r: Vec<u8>)
        ensures
            r@ == self@,
    {
        let mut r: Vec<u8> = Vec::new();
        let mut i: usize = 0;
        while i < self.buf.len()
            invariant
                i <= self.buf@.len(),
                r@ == self.buf@.take(i as int),
            decreases self.buf@.len() - i,
        {
            r.push(self.buf[i]);
            i = i + 1;
        }
        proof {
            assert(self.buf@.take(self.buf@.len() as int) == self.buf@);
        }
        r
    }

    /// The last `n` lines, as `last_lines_model` defines them.
    pub fn last_lines(&self, n: usize) -> (r: Vec<u8>)
        ensures
            r@ == last_lines_model(self@, n as nat),
    {
        if n == 0 || self.buf.len() == 0 {
            proof {
                assert(last_lines_model(self@, n as nat) == Seq::<u8>::empty());
            }
            return Vec::new();
        }

        let len = self.buf.len();
        // A trailing newline is excluded so the final line is not counted
        // as an empty extra line.
        let search_end = if self.buf[len - 1] == 10u8 {
            len - 1
        } else {
            len
        };

        let ghost target: int = tail_start(self.buf@, search_end as int, n as nat);
        let mut newline_count: usize = 0;
        let mut start: usize = 0;
        let mut i = search_end;
        let mut found = false;
        while i > 0 && !found
            invariant
                i <= search_end <= self.buf@.len(),
                start <= search_end,
                n > 0,
                !found ==> newline_count < n,
                !found ==> target == tail_start(
                    self.buf@,
                    i as int,
                    (n - newline_count) as nat,
                ),
                found ==> start == target,
                !found ==> start == 0,
            decreases i + (if found { 0int } else { 1int }),
        {
            if self.buf[i - 1] == 10u8 {
                newline_count = newline_count + 1;
                if newline_count == n {
                    start = i;
                    found = true;
                }
            }
            if !found {
                i = i - 1;
            }
        }

        let mut r: Vec<u8> = Vec::new();
        let mut j = start;
        while j < self.buf.len()
            invariant
                start <= j <= self.buf@.len(),
                r@ == self.buf@.subrange(start as int, j as int),
            decreases self.buf@.len() - j,
        {
            r.push(self.buf[j]);
            j = j + 1;
        }
        proof {
            assert(start == target);
            assert(r@ == self.buf@.skip(start as int));
            assert(last_lines_model(self@, n as nat) == self.buf@.skip(target));
        }
        r
    }
}

/// One step of byte-wise appending agrees with `push_model` on the longer
/// prefix: evict-then-append on the model of `data.take(i)` yields the
/// model of `data.take(i + 1)`.
proof fn lemma_push_model_step(s: Seq<u8>, data: Seq<u8>, i: int, cap: nat)
    requires
        0 <= i < data.len(),
        cap > 0,
    ensures
        ({
            let cur = push_model(s, data.take(i), cap);
            let next = push_model(s, data.take(i + 1), cap);
            &&& cur.len() < cap ==> next == cur.push(data[i])
            &&& cur.len() >= cap ==> next == cur.skip(1).push(data[i])
        }),
{
    let cur = push_model(s, data.take(i), cap);
    let next = push_model(s, data.take(i + 1), cap);
    assert(data.take(i + 1) == data.take(i).push(data[i]));
    assert(s + data.take(i + 1) == (s + data.take(i)).push(data[i]));
    if cur.len() < cap {
        assert(next =~= cur.push(data[i]));
    } else {
        assert(next =~= cur.skip(1).push(data[i]));
    }
}

/// Appending two byte sequences in turn is the same as appending their
/// concatenation at once.
pub proof fn lemma_push_model_compose(s: Seq<u8>, a: Seq<u8>, b: Seq<u8>, cap: nat)
    ensures
        push_model(push_model(s, a, cap), b, cap) == push_model(s, a + b, cap),
{
    assert(s + (a + b) == (s + a) + b);
    assert(push_model(push_model(s, a, cap), b, cap) =~= push_model(s, a + b, cap));
}

/// The concatenation of a sequence of chunks, in order.
pub open spec fn concat_all(chunks: Seq<Seq<u8>>) -> Seq<u8>
    decreases chunks.len(),
{
    if chunks.len() == 0 {
        Seq::empty()
    } else {
        concat_all(chunks.drop_last()) + chunks.last()
    }
}

/// The contents after pushing each chunk in turn onto `s`.
pub open spec fn push_all_model(s: Seq<u8>, chunks: Seq<Seq<u8>>, cap: nat) -> Seq<u8>
    decreases chunks.len(),
{
    if chunks.len() == 0 {
        s
    } else {
        push_model(push_all_model(s, chunks.drop_last(), cap), chunks.last(), cap)
    }
}

/// Pushing any sequence of chunks onto an empty buffer leaves the suffix of
/// their concatenation: the whole of it while the total stays within the
/// capacity, and exactly the last `cap` bytes once the total exceeds it.
pub proof fn lemma_push_sequence(chunks: Seq<Seq<u8>>, cap: nat)
    ensures
        push_all_model(Seq::empty(), chunks, cap) == push_model(
            Seq::empty(),
            concat_all(chunks),
            cap,
        ),
        concat_all(chunks).len() <= cap ==> push_all_model(Seq::empty(), chunks, cap)
            == concat_all(chunks),
        concat_all(chunks).len() > cap ==> {
            &&& push_all_model(Seq::empty(), chunks, cap).len() == cap
            &&& push_all_model(Seq::empty(), chunks, cap) == concat_all(chunks).skip(
                concat_all(chunks).len() - cap,
            )
        },
    decreases chunks.len(),
{
    if chunks.len() == 0 {
        assert(push_model(Seq::<u8>::empty(), concat_all(chunks), cap) =~= Seq::<u8>::empty());
    } else {
        lemma_push_sequence(chunks.drop_last(), cap);
        lemma_push_model_compose(Seq::empty(), concat_all(chunks.drop_last()), chunks.last(), cap);
        assert(Seq::<u8>::empty() + concat_all(chunks) == concat_all(chunks));
        assert(push_model(Seq::<u8>::empty(), concat_all(chunks), cap) == if concat_all(
            chunks,
        ).len() <= cap {
            concat_all(chunks)
        } else {
            concat_all(chunks).skip(concat_all(chunks).len() - cap)
        });
    }
}


/// Asking for zero lines yields nothing, and an empty buffer yields
/// nothing for any count.
pub proof fn lemma_last_lines_trivial(s: Seq<u8>, n: nat)
    ensures
        n == 0 ==> last_lines_model(s, n) == Seq::<u8>::empty(),
        s.len() == 0 ==> last_lines_model(s, n) == Seq::<u8>::empty(),
{
}

} // verus!

