use vstd::prelude::*;
use crate::fixed::{blend, blend_sample, mul_gain, scaled};

verus! {

/// The mathematical state of a loop line.
pub ghost struct LoopState {
    pub samples: Seq<i32>,
    pub read_pos: nat,
    pub write_pos: nat,
    pub len: nat,
    pub in_vol: i32,
    pub out_vol: i32,
    pub feedback: i32,
}

impl LoopState {
    /// Cursors inside the active length, which is at least one sample and at
    /// most the capacity.
    pub open spec fn wf(self) -> bool {
        &&& 0 < self.len <= self.samples.len()
        &&& self.read_pos < self.len
        &&& self.write_pos < self.len
    }

    /// The state after one write of `value`.
    pub open spec fn write_one(self, value: i32) -> LoopState {
        LoopState {
            samples: self.samples.update(
                self.write_pos as int,
                blend(value as int, self.in_vol as int, self.samples[self.write_pos as int] as int, self.feedback as int) as i32,
            ),
            write_pos: ((self.write_pos + 1) % self.len) as nat,
            ..self
        }
    }

    /// The state after writing `values` one after another.
    pub open spec fn write_all(self, values: Seq<i32>) -> LoopState
        decreases values.len(),
    {
        if values.len() == 0 {
            self
        } else {
            self.write_all(values.drop_last()).write_one(values.last())
        }
    }

    /// Writing changes neither the capacity, the length, the gains nor the
    /// read cursor, and keeps the state well formed.
    pub proof fn lemma_write_all_keeps(self, values: Seq<i32>)
        requires
            self.wf(),
        ensures
            self.write_all(values).wf(),
            self.write_all(values).samples.len() == self.samples.len(),
            self.write_all(values).len == self.len,
            self.write_all(values).read_pos == self.read_pos,
            self.write_all(values).in_vol == self.in_vol,
            self.write_all(values).out_vol == self.out_vol,
            self.write_all(values).feedback == self.feedback,
        decreases values.len(),
    {
        if values.len() > 0 {
            self.lemma_write_all_keeps(values.drop_last());
        }
    }

    /// The state after the active length is set to `n`, clamped.
    pub open spec fn with_length(self, n: int) -> LoopState {
        let len = clamped_len(n, self.samples.len() as int);
        LoopState {
            len: len as nat,
            read_pos: (self.read_pos as int % len) as nat,
            write_pos: (self.write_pos as int % len) as nat,
            ..self
        }
    }

    /// The state after a clear: silence, full capacity, cursors at the start.
    pub open spec fn cleared(self) -> LoopState {
        LoopState {
            samples: Seq::new(self.samples.len(), |i: int| 0i32),
            read_pos: 0,
            write_pos: 0,
            len: self.samples.len(),
            ..self
        }
    }

    /// What the `k`-th of a run of reads with stride `step` returns.
    pub open spec fn read_at(self, k: int, step: nat) -> i32 {
        scaled(self.samples[(self.read_pos + k * step) % (self.len as int)] as int, self.out_vol as int) as i32
    }

    /// The state after `n` reads with stride `step`.
    pub open spec fn after_reads(self, n: nat, step: nat) -> LoopState {
        LoopState { read_pos: ((self.read_pos + n * step) as int % (self.len as int)) as nat, ..self }
    }
}

/// A mono circular loop buffer with independent write and read cursors.
pub struct LoopLine {
    read_pos: usize,
    write_pos: usize,
    buffer: Vec<i32>,
    in_vol: i32,
    out_vol: i32,
    len: usize,
    feedback: i32,
}

impl View for LoopLine {
    type V = LoopState;

    closed spec fn view(&self) -> LoopState {
        LoopState {
            samples: self.buffer@,
            read_pos: self.read_pos as nat,
            write_pos: self.write_pos as nat,
            len: self.len as nat,
            in_vol: self.in_vol,
            out_vol: self.out_vol,
            feedback: self.feedback,
        }
    }
}

/// The length that a requested length is clamped to: at least one sample and
/// at most the capacity.
pub open spec fn clamped_len(requested: int, capacity: int) -> int {
    if requested < 1 {
        1
    } else if requested > capacity {
        capacity
    } else {
        requested
    }
}

impl LoopLine {
    /// The line's state is well formed.
    pub open spec fn wf(&self) -> bool {
        self@.wf()
    }

    /// A silent line of `length` samples of capacity whose active length is
    /// `time`, clamped to the capacity; all gains start at zero.
    pub fn new(length: usize, time: usize) -> (r: LoopLine)
        requires
            length > 0,
        ensures
            r.wf(),
            r@.samples == Seq::new(length as nat, |i: int| 0i32),
            r@.len == clamped_len(time as int, length as int),
            r@.read_pos == 0,
            r@.write_pos == 0,
            r@.in_vol == 0,
            r@.out_vol == 0,
            r@.feedback == 0,
    {
        let mut buffer: Vec<i32> = Vec::new();
        let mut i: usize = 0;
        while i < length
            invariant
                i <= length,
                buffer@ == Seq::new(i as nat, |j: int| 0i32),
            decreases length - i,
        {
            buffer.push(0);
            i = i + 1;
            assert(buffer@ =~= Seq::new(i as nat, |j: int| 0i32));
        }
        let len: usize = if time < 1 {
            1
        } else if time > length {
            length
        } else {
            time
        };
        LoopLine { read_pos: 0, write_pos: 0, buffer, in_vol: 0, out_vol: 0, len, feedback: 0 }
    }

    /// The number of samples the buffer holds.
    pub fn capacity(&self) -> (r: usize)
        ensures
            r == self@.samples.len(),
    {
        self.buffer.len()
    }

    /// The current loop length in samples.
    pub fn active_length(&self) -> (r: usize)
        ensures
            r == self@.len,
    {
        self.len
    }

    /// The gain applied to incoming samples.
    pub fn input_gain(&self) -> (r: i32)
        ensures
            r == self@.in_vol,
    {
        self.in_vol
    }

    /// The gain applied to what is read.
    pub fn output_gain(&self) -> (r: i32)
        ensures
            r == self@.out_vol,
    {
        self.out_vol
    }

    /// The multiplier applied to old content on each overwrite.
    pub fn feedback(&self) -> (r: i32)
        ensures
            r == self@.feedback,
    {
        self.feedback
    }

    /// Blends `value` into the slot under the write cursor and advances it.
    pub fn write(&mut self, value: i32)
        requires
            old(self).wf(),
        ensures
            final(self).wf(),
            final(self)@ == old(self)@.write_one(value),
    {
        let w = self.write_pos;
        let mixed = blend_sample(value, self.in_vol, self.buffer[w], self.feedback);
        self.buffer.set(w, mixed);
        self.write_pos = (w + 1) % self.len;
    }

    /// Writes each value in turn.
    pub fn write_slice(&mut self, values: &[i32])
        requires
            old(self).wf(),
        ensures
            final(self).wf(),
            final(self)@ == old(self)@.write_all(values@),
    {
        let mut i: usize = 0;
        while i < values.len()
            invariant
                i <= values@.len(),
                self.wf(),
                self@ == old(self)@.write_all(values@.take(i as int)),
            decreases values@.len() - i,
        {
            assert(values@.take(i + 1).drop_last() =~= values@.take(i as int));
            self.write(values[i]);
            i = i + 1;
        }
        assert(values@.take(values@.len() as int) =~= values@);
    }

    /// Returns the slot under the read cursor scaled by the output gain, and
    /// moves the cursor `samples` slots on.
    pub fn read_advance(&mut self, samples: u32) -> (r: i32)
        requires
            old(self).wf(),
        ensures
            final(self).wf(),
            r == old(self)@.read_at(0, samples as nat),
            final(self)@ == old(self)@.after_reads(1, samples as nat),
    {
        let out = self.buffer[self.read_pos];
        let step: usize = (samples as usize) % self.len;
        proof {
            vstd::arithmetic::div_mod::lemma_add_mod_noop_right(self.read_pos as int, samples as int, self.len as int);
            vstd::arithmetic::div_mod::lemma_small_mod(self.read_pos as nat, self.len as nat);
            if self.read_pos + step >= self.len {
                vstd::arithmetic::div_mod::lemma_mod_add_multiples_vanish(self.read_pos + step - self.len, self.len as int);
                vstd::arithmetic::div_mod::lemma_small_mod((self.read_pos + step - self.len) as nat, self.len as nat);
            } else {
                vstd::arithmetic::div_mod::lemma_small_mod((self.read_pos + step) as nat, self.len as nat);
            }
        }
        self.read_pos = if self.read_pos >= self.len - step {
            self.read_pos - (self.len - step)
        } else {
            self.read_pos + step
        };
        mul_gain(out, self.out_vol)
    }

    /// Fills `buffer` with successive reads of stride `skip`.
    pub fn read_slice(&mut self, buffer: &mut [i32], skip: u32)
        requires
            old(self).wf(),
        ensures
            final(self).wf(),
            final(buffer)@.len() == old(buffer)@.len(),
            forall|k: int| 0 <= k < old(buffer)@.len() ==> #[trigger] final(buffer)@[k] == old(self)@.read_at(k, skip as nat),
            final(self)@ == old(self)@.after_reads(old(buffer)@.len(), skip as nat),
    {
        let n = buffer.len();
        let mut i: usize = 0;
        proof {
            vstd::arithmetic::div_mod::lemma_small_mod(self.read_pos as nat, self.len as nat);
            assert(self@ == old(self)@.after_reads(0, skip as nat));
        }
        while i < n
            invariant
                n == buffer@.len(),
                old(buffer)@.len() == n,
                i <= n,
                self.wf(),
                self@ == old(self)@.after_reads(i as nat, skip as nat),
                forall|k: int| 0 <= k < i ==> #[trigger] buffer@[k] == old(self)@.read_at(k, skip as nat),
            decreases n - i,
        {
            proof {
                let s0 = old(self)@;
                vstd::arithmetic::div_mod::lemma_add_mod_noop_right(skip as int, s0.read_pos + i * skip, s0.len as int);
                assert(s0.read_pos + (i + 1) * skip == skip + (s0.read_pos + i * skip)) by (nonlinear_arith);
                let p = (s0.read_pos + i * skip) % (s0.len as int);
                vstd::arithmetic::div_mod::lemma_small_mod(p as nat, s0.len as nat);
                assert(self@.read_at(0, skip as nat) == s0.read_at(i as int, skip as nat));
            }
            let v = self.read_advance(skip);
            buffer[i] = v;
            i = i + 1;
        }
    }

    /// Silences the buffer, restores the full capacity as active length and
    /// puts both cursors back to the start.
    pub fn clear(&mut self)
        requires
            old(self).wf(),
        ensures
            final(self).wf(),
            final(self)@ == old(self)@.cleared(),
    {
        let n = self.buffer.len();
        let mut i: usize = 0;
        while i < n
            invariant
                n == self.buffer@.len(),
                n == old(self)@.samples.len(),
                i <= n,
                self.in_vol == old(self).in_vol,
                self.out_vol == old(self).out_vol,
                self.feedback == old(self).feedback,
                forall|k: int| 0 <= k < i ==> #[trigger] self.buffer@[k] == 0,
            decreases n - i,
        {
            self.buffer.set(i, 0);
            i = i + 1;
        }
        self.len = n;
        self.write_pos = 0;
        self.read_pos = 0;
        assert(self.buffer@ =~= Seq::new(n as nat, |i: int| 0i32));
    }

    /// Sets the active length to `n` clamped to one sample and the capacity;
    /// cursors beyond the new length wrap around it.
    pub fn set_length(&mut self, n: usize)
        requires
            old(self).wf(),
        ensures
            final(self).wf(),
            final(self)@ == old(self)@.with_length(n as int),
    {
        let cap = self.buffer.len();
        let len: usize = if n < 1 {
            1
        } else if n > cap {
            cap
        } else {
            n
        };
        self.len = len;
        self.read_pos = self.read_pos % len;
        self.write_pos = self.write_pos % len;
    }

    /// Sets the gain applied to incoming samples.
    pub fn set_input_gain(&mut self, gain: i32)
        requires
            old(self).wf(),
        ensures
            final(self).wf(),
            (final(self)@ == LoopState { in_vol: gain, ..old(self)@ }),
    {
        self.in_vol = gain;
    }

    /// Sets the gain applied to what is read.
    pub fn set_output_gain(&mut self, gain: i32)
        requires
            old(self).wf(),
        ensures
            final(self).wf(),
            (final(self)@ == LoopState { out_vol: gain, ..old(self)@ }),
    {
        self.out_vol = gain;
    }

    /// Sets the multiplier applied to old content on each overwrite.
    pub fn set_feedback(&mut self, feedback: i32)
        requires
            old(self).wf(),
        ensures
            final(self).wf(),
            (final(self)@ == LoopState { feedback: feedback, ..old(self)@ }),
    {
        self.feedback = feedback;
    }
}

} // verus!
