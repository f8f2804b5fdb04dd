use vstd::prelude::*;
use crate::fixed::{clamp_sample, clamp_to_sample, floor_div, UNITY};
use crate::loop_line::{LoopLine, LoopState};

verus! {

/// A parameter update for one stereo line.
#[derive(Clone, Copy, Debug, PartialEq, Eq)]
pub enum Param {
    /// Input gain of both channels.
    Input(i32),
    /// Master output gain, split between the channels by the pan.
    Output(i32),
    /// Pan position: `-UNITY` is hard left, `UNITY` hard right.
    Pan(i32),
    /// Feedback of both channels.
    Feedback(i32),
    /// Loop length in samples of both channels, clamped to the capacity.
    Time(usize),
    /// Silences both channels and restores the full capacity.
    Clear,
}

/// Left output gain of the linear pan law: `master * (1 - (pan / 2 + 1/2))`.
pub open spec fn left_gain(master: int, pan: int) -> int {
    clamp_sample((master * (UNITY - pan)) / (2 * UNITY as int))
}

/// Right output gain of the linear pan law: `master * (pan / 2 + 1/2)`.
pub open spec fn right_gain(master: int, pan: int) -> int {
    clamp_sample((master * (UNITY + pan)) / (2 * UNITY as int))
}

/// The mathematical state of a stereo line.
pub ghost struct StereoState {
    pub left: LoopState,
    pub right: LoopState,
    pub pan: i32,
    pub out_vol: i32,
}

impl StereoState {
    /// Both channels well formed and sharing capacity, length, input gain and
    /// feedback; channel output gains follow the pan law.
    pub open spec fn wf(self) -> bool {
        &&& self.left.wf()
        &&& self.right.wf()
        &&& self.left.samples.len() == self.right.samples.len()
        &&& self.left.len == self.right.len
        &&& self.left.in_vol == self.right.in_vol
        &&& self.left.feedback == self.right.feedback
        &&& self.left.out_vol == left_gain(self.out_vol as int, self.pan as int)
        &&& self.right.out_vol == right_gain(self.out_vol as int, self.pan as int)
    }

    /// Output gains recomputed from a master gain and a pan.
    pub open spec fn panned(self, out_vol: i32, pan: i32) -> StereoState {
        StereoState {
            left: LoopState { out_vol: left_gain(out_vol as int, pan as int) as i32, ..self.left },
            right: LoopState { out_vol: right_gain(out_vol as int, pan as int) as i32, ..self.right },
            pan: pan,
            out_vol: out_vol,
        }
    }

    /// The state after a parameter update.
    pub open spec fn apply(self, param: Param) -> StereoState {
        match param {
            Param::Feedback(x) => StereoState {
                left: LoopState { feedback: x, ..self.left },
                right: LoopState { feedback: x, ..self.right },
                ..self
            },
            Param::Time(n) => StereoState {
                left: self.left.with_length(n as int),
                right: self.right.with_length(n as int),
                ..self
            },
            Param::Clear => StereoState { left: self.left.cleared(), right: self.right.cleared(), ..self },
            Param::Input(x) => StereoState {
                left: LoopState { in_vol: x, ..self.left },
                right: LoopState { in_vol: x, ..self.right },
                ..self
            },
            Param::Output(x) => self.panned(x, self.pan),
            Param::Pan(x) => self.panned(self.out_vol, x),
        }
    }

    /// The state after writing a block to each channel.
    pub open spec fn write_all(self, ls: Seq<i32>, rs: Seq<i32>) -> StereoState {
        StereoState { left: self.left.write_all(ls), right: self.right.write_all(rs), ..self }
    }

    /// The state after `n` reads of stride `step` from each channel.
    pub open spec fn after_reads(self, n: nat, step: nat) -> StereoState {
        StereoState { left: self.left.after_reads(n, step), right: self.right.after_reads(n, step), ..self }
    }
}

/// Two loop lines, left and right, under one master gain and pan.
pub struct StereoLine {
    pub l_line: LoopLine,
    pub r_line: LoopLine,
    pub pan: i32,
    pub out_vol: i32,
}

impl View for StereoLine {
    type V = StereoState;

    open spec fn view(&self) -> StereoState {
        StereoState { left: self.l_line@, right: self.r_line@, pan: self.pan, out_vol: self.out_vol }
    }
}

/// The left gain of the pan law.
fn pan_left(master: i32, pan: i32) -> (r: i32)
    ensures
        r == left_gain(master as int, pan as int),
{
    let m: i128 = master as i128;
    let w: i128 = UNITY as i128 - pan as i128;
    proof {
        assert(-0x1_0000_0000_0000_0000 <= m * w <= 0x1_0000_0000_0000_0000) by (nonlinear_arith)
            requires -0x8000_0000 <= m <= 0x8000_0000, -0x8000_0000 <= w <= 0x8002_0000;
    }
    clamp_to_sample(floor_div(m * w, 2 * UNITY as i128))
}

/// The right gain of the pan law.
fn pan_right(master: i32, pan: i32) -> (r: i32)
    ensures
        r == right_gain(master as int, pan as int),
{
    let m: i128 = master as i128;
    let w: i128 = UNITY as i128 + pan as i128;
    proof {
        assert(-0x1_0000_0000_0000_0000 <= m * w <= 0x1_0000_0000_0000_0000) by (nonlinear_arith)
            requires -0x8000_0000 <= m <= 0x8000_0000, -0x8000_0000 <= w <= 0x8002_0000;
    }
    clamp_to_sample(floor_div(m * w, 2 * UNITY as i128))
}

impl StereoLine {
    /// The line's state is well formed.
    pub open spec fn wf(&self) -> bool {
        self@.wf()
    }

    /// A silent stereo line of `length` samples per channel, using the whole
    /// capacity, with zero gains and a centred pan.
    pub fn new(length: usize) -> (r: StereoLine)
        requires
            length > 0,
        ensures
            r.wf(),
            r@.left.samples == Seq::new(length as nat, |i: int| 0i32),
            r@.right.samples == Seq::new(length as nat, |i: int| 0i32),
            r@.left.len == length,
            r@.left.read_pos == 0 && r@.left.write_pos == 0,
            r@.right.read_pos == 0 && r@.right.write_pos == 0,
            r@.left.in_vol == 0 && r@.left.feedback == 0,
            r@.pan == 0,
            r@.out_vol == 0,
    {
        StereoLine {
            l_line: LoopLine::new(length, length),
            r_line: LoopLine::new(length, length),
            pan: 0,
            out_vol: 0,
        }
    }

    /// Writes one sample to each channel.
    pub fn write(&mut self, v_l: i32, v_r: i32)
        requires
            old(self).wf(),
        ensures
            final(self).wf(),
            final(self)@ == old(self)@.write_all(seq![v_l], seq![v_r]),
    {
        self.l_line.write(v_l);
        self.r_line.write(v_r);
        proof {
            assert(seq![v_l].drop_last() =~= Seq::<i32>::empty());
            assert(seq![v_r].drop_last() =~= Seq::<i32>::empty());
            assert(seq![v_l].last() == v_l);
            assert(seq![v_r].last() == v_r);
            assert(old(self)@.left.write_all(Seq::<i32>::empty()) == old(self)@.left);
            assert(old(self)@.right.write_all(Seq::<i32>::empty()) == old(self)@.right);
            assert(old(self)@.left.write_all(seq![v_l]) == old(self)@.left.write_one(v_l));
            assert(old(self)@.right.write_all(seq![v_r]) == old(self)@.right.write_one(v_r));
        }
    }

    /// Writes a block to each channel.
    pub fn write_slice(&mut self, v_l: &[i32], v_r: &[i32])
        requires
            old(self).wf(),
        ensures
            final(self).wf(),
            final(self)@ == old(self)@.write_all(v_l@, v_r@),
    {
        self.l_line.write_slice(v_l);
        self.r_line.write_slice(v_r);
        proof {
            old(self)@.left.lemma_write_all_keeps(v_l@);
            old(self)@.right.lemma_write_all_keeps(v_r@);
        }
    }

    /// Reads one sample from each channel, moving both read cursors `samples`
    /// slots on.
    pub fn read_advance(&mut self, samples: u32) -> (r: (i32, i32))
        requires
            old(self).wf(),
        ensures
            final(self).wf(),
            r.0 == old(self)@.left.read_at(0, samples as nat),
            r.1 == old(self)@.right.read_at(0, samples as nat),
            final(self)@ == old(self)@.after_reads(1, samples as nat),
    {
        let l = self.l_line.read_advance(samples);
        let r = self.r_line.read_advance(samples);
        (l, r)
    }

    /// Fills one block per channel with successive reads of stride `skip`.
    pub fn read_slice(&mut self, out_l: &mut [i32], out_r: &mut [i32], skip: u32)
        requires
            old(self).wf(),
            old(out_l)@.len() == old(out_r)@.len(),
        ensures
            final(self).wf(),
            final(out_l)@.len() == old(out_l)@.len(),
            final(out_r)@.len() == old(out_r)@.len(),
            forall|k: int| 0 <= k < old(out_l)@.len() ==> #[trigger] final(out_l)@[k] == old(self)@.left.read_at(k, skip as nat),
            forall|k: int| 0 <= k < old(out_r)@.len() ==> #[trigger] final(out_r)@[k] == old(self)@.right.read_at(k, skip as nat),
            final(self)@ == old(self)@.after_reads(old(out_l)@.len(), skip as nat),
    {
        self.l_line.read_slice(out_l, skip);
        self.r_line.read_slice(out_r, skip);
    }

    /// Recomputes both channels' output gains from the master gain and pan.
    fn calc_pan(&mut self)
        requires
            old(self).l_line.wf(),
            old(self).r_line.wf(),
        ensures
            final(self)@ == old(self)@.panned(old(self).out_vol, old(self).pan),
    {
        let l = pan_left(self.out_vol, self.pan);
        let r = pan_right(self.out_vol, self.pan);
        self.l_line.set_output_gain(l);
        self.r_line.set_output_gain(r);
    }

    /// Applies a parameter update: feedback, input gain, length and clear go
    /// to both channels; output gain and pan recompute the pan split.
    pub fn send_param(&mut self, param: Param)
        requires
            old(self).wf(),
        ensures
            final(self).wf(),
            final(self)@ == old(self)@.apply(param),
    {
        match param {
            Param::Feedback(x) => {
                self.l_line.set_feedback(x);
                self.r_line.set_feedback(x);
            },
            Param::Time(x) => {
                self.l_line.set_length(x);
                self.r_line.set_length(x);
            },
            Param::Clear => {
                self.l_line.clear();
                self.r_line.clear();
            },
            Param::Input(x) => {
                self.l_line.set_input_gain(x);
                self.r_line.set_input_gain(x);
            },
            Param::Output(x) => {
                self.out_vol = x;
                self.calc_pan();
            },
            Param::Pan(x) => {
                self.pan = x;
                self.calc_pan();
            },
        }
    }
}

} // verus!
