use vstd::prelude::*;
use crate::fixed::{clamp_sample, sat_add};
use crate::loop_line::LoopState;
use crate::stereo_line::{Param, StereoLine, StereoState};

verus! {

/// The states of a bank of lines.
pub open spec fn views(lines: Seq<StereoLine>) -> Seq<StereoState> {
    Seq::new(lines.len(), |j: int| lines[j]@)
}

/// Every line of the bank is well formed.
pub open spec fn bank_wf(bank: Seq<StereoState>) -> bool {
    forall|j: int| 0 <= j < bank.len() ==> #[trigger] bank[j].wf()
}

/// The bank after a pending update, if any, has been applied to its line; an
/// update for a line that does not exist is ignored.
pub open spec fn updated(bank: Seq<StereoState>, update: Option<(usize, Param)>) -> Seq<StereoState> {
    match update {
        Some((idx, p)) => if idx < bank.len() {
            bank.update(idx as int, bank[idx as int].apply(p))
        } else {
            bank
        },
        None => bank,
    }
}

/// The bank after an input block has been written into every line.
pub open spec fn written(bank: Seq<StereoState>, ls: Seq<i32>, rs: Seq<i32>) -> Seq<StereoState> {
    Seq::new(bank.len(), |j: int| bank[j].write_all(ls, rs))
}

/// The left channels of a bank.
pub open spec fn lefts(bank: Seq<StereoState>) -> Seq<LoopState> {
    Seq::new(bank.len(), |j: int| bank[j].left)
}

/// The right channels of a bank.
pub open spec fn rights(bank: Seq<StereoState>) -> Seq<LoopState> {
    Seq::new(bank.len(), |j: int| bank[j].right)
}

/// The sum of `n` successive reads of each channel, accumulated channel by
/// channel into silence with saturating addition.
pub open spec fn mix(chans: Seq<LoopState>, n: nat) -> Seq<i32>
    decreases chans.len(),
{
    if chans.len() == 0 {
        Seq::new(n, |i: int| 0i32)
    } else {
        let prev = mix(chans.drop_last(), n);
        Seq::new(n, |i: int| clamp_sample(prev[i] + chans.last().read_at(i, 1)) as i32)
    }
}

/// The bank after a whole block: update, write, then `n` reads per line.
pub open spec fn after_block(
    bank: Seq<StereoState>,
    update: Option<(usize, Param)>,
    ls: Seq<i32>,
    rs: Seq<i32>,
) -> Seq<StereoState> {
    let w = written(updated(bank, update), ls, rs);
    Seq::new(w.len(), |j: int| w[j].after_reads(ls.len(), 1))
}

/// Adds `out.len()` successive reads of stride one from each channel of
/// `line` into the two output blocks.
fn mix_into(line: &mut StereoLine, out_l: &mut [i32], out_r: &mut [i32])
    requires
        old(line).wf(),
        old(out_l)@.len() == old(out_r)@.len(),
    ensures
        final(line).wf(),
        final(line)@ == old(line)@.after_reads(old(out_l)@.len(), 1),
        final(out_l)@ == Seq::new(old(out_l)@.len(), |i: int| clamp_sample(old(out_l)@[i] + old(line)@.left.read_at(i, 1)) as i32),
        final(out_r)@ == Seq::new(old(out_r)@.len(), |i: int| clamp_sample(old(out_r)@[i] + old(line)@.right.read_at(i, 1)) as i32),
{
    let n = out_l.len();
    let mut i: usize = 0;
    proof {
        vstd::arithmetic::div_mod::lemma_small_mod(line@.left.read_pos, line@.left.len);
        vstd::arithmetic::div_mod::lemma_small_mod(line@.right.read_pos, line@.right.len);
        assert(line@ == old(line)@.after_reads(0, 1));
    }
    while i < n
        invariant
            n == out_l@.len(),
            n == out_r@.len(),
            n == old(out_l)@.len(),
            i <= n,
            line.wf(),
            line@ == old(line)@.after_reads(i as nat, 1),
            forall|k: int| 0 <= k < i ==> #[trigger] out_l@[k] == clamp_sample(old(out_l)@[k] + old(line)@.left.read_at(k, 1)) as i32,
            forall|k: int| 0 <= k < i ==> #[trigger] out_r@[k] == clamp_sample(old(out_r)@[k] + old(line)@.right.read_at(k, 1)) as i32,
            forall|k: int| i <= k < n ==> #[trigger] out_l@[k] == old(out_l)@[k],
            forall|k: int| i <= k < n ==> #[trigger] out_r@[k] == old(out_r)@[k],
        decreases n - i,
    {
        proof {
            let s0 = old(line)@;
            vstd::arithmetic::div_mod::lemma_add_mod_noop_right(1, s0.left.read_pos + i, s0.left.len as int);
            vstd::arithmetic::div_mod::lemma_add_mod_noop_right(1, s0.right.read_pos + i, s0.right.len as int);
            let pl = (s0.left.read_pos + i * 1) % (s0.left.len as int);
            let pr = (s0.right.read_pos + i * 1) % (s0.right.len as int);
            vstd::arithmetic::div_mod::lemma_small_mod(pl as nat, s0.left.len as nat);
            vstd::arithmetic::div_mod::lemma_small_mod(pr as nat, s0.right.len as nat);
            assert(line@.left.read_at(0, 1) == s0.left.read_at(i as int, 1));
            assert(line@.right.read_at(0, 1) == s0.right.read_at(i as int, 1));
        }
        let l = line.l_line.read_advance(1);
        let r = line.r_line.read_advance(1);
        out_l[i] = sat_add(out_l[i], l);
        out_r[i] = sat_add(out_r[i], r);
        i = i + 1;
    }
    proof {
        assert(out_l@ =~= Seq::new(old(out_l)@.len(), |i: int| clamp_sample(old(out_l)@[i] + old(line)@.left.read_at(i, 1)) as i32));
        assert(out_r@ =~= Seq::new(old(out_r)@.len(), |i: int| clamp_sample(old(out_r)@[i] + old(line)@.right.read_at(i, 1)) as i32));
    }
}

/// Processes one audio block: applies the pending update, if any, to its
/// line, silences the output blocks, then writes the input block into every
/// line in index order and adds each line's reads into the outputs.
pub fn process_block(
    lines: &mut Vec<StereoLine>,
    update: Option<(usize, Param)>,
    in_l: &[i32],
    in_r: &[i32],
    out_l: &mut [i32],
    out_r: &mut [i32],
)
    requires
        bank_wf(views(old(lines)@)),
        in_l@.len() == in_r@.len(),
        old(out_l)@.len() == in_l@.len(),
        old(out_r)@.len() == in_l@.len(),
    ensures
        bank_wf(views(final(lines)@)),
        views(final(lines)@) == after_block(views(old(lines)@), update, in_l@, in_r@),
        final(out_l)@ == mix(lefts(written(updated(views(old(lines)@), update), in_l@, in_r@)), in_l@.len()),
        final(out_r)@ == mix(rights(written(updated(views(old(lines)@), update), in_l@, in_r@)), in_l@.len()),
{
    let ghost start = views(lines@);
    match update {
        Some((idx, p)) => {
            if idx < lines.len() {
                lines[idx].send_param(p);
            }
        },
        None => {},
    }
    let ghost pending = updated(start, update);
    proof {
        assert(views(lines@) =~= pending);
        assert forall|k: int| 0 <= k < lines@.len() implies #[trigger] lines@[k].wf() by {
            assert(views(old(lines)@)[k] == old(lines)@[k]@);
            assert(views(old(lines)@)[k].wf());
        }
        assert forall|k: int| 0 <= k < pending.len() implies #[trigger] pending[k].wf() by {
            assert(views(lines@)[k] == lines@[k]@);
            assert(lines@[k].wf());
        }
    }
    let n = out_l.len();
    let mut i: usize = 0;
    while i < n
        invariant
            n == out_l@.len(),
            n == out_r@.len(),
            i <= n,
            forall|k: int| 0 <= k < i ==> #[trigger] out_l@[k] == 0,
            forall|k: int| 0 <= k < i ==> #[trigger] out_r@[k] == 0,
        decreases n - i,
    {
        out_l[i] = 0;
        out_r[i] = 0;
        i = i + 1;
    }
    let ghost w = written(pending, in_l@, in_r@);
    proof {
        assert(out_l@ =~= mix(lefts(w).take(0), n as nat));
        assert(out_r@ =~= mix(rights(w).take(0), n as nat));
    }
    let mut j: usize = 0;
    while j < lines.len()
        invariant
            n == out_l@.len(),
            n == out_r@.len(),
            n == in_l@.len(),
            n == in_r@.len(),
            j <= lines@.len(),
            lines@.len() == pending.len(),
            w == written(pending, in_l@, in_r@),
            bank_wf(pending),
            forall|k: int| 0 <= k < j ==> #[trigger] lines@[k]@ == w[k].after_reads(n as nat, 1),
            forall|k: int| j <= k < lines@.len() ==> #[trigger] lines@[k]@ == pending[k],
            forall|k: int| 0 <= k < lines@.len() ==> #[trigger] lines@[k].wf(),
            out_l@ == mix(lefts(w).take(j as int), n as nat),
            out_r@ == mix(rights(w).take(j as int), n as nat),
        decreases lines@.len() - j,
    {
        let ghost before_l = out_l@;
        let ghost before_r = out_r@;
        proof {
            assert(pending[j as int].wf());
            pending[j as int].left.lemma_write_all_keeps(in_l@);
            pending[j as int].right.lemma_write_all_keeps(in_r@);
        }
        lines[j].write_slice(in_l, in_r);
        mix_into(&mut lines[j], out_l, out_r);
        proof {
            assert(lefts(w).take(j + 1).drop_last() =~= lefts(w).take(j as int));
            assert(rights(w).take(j + 1).drop_last() =~= rights(w).take(j as int));
            assert(out_l@ =~= mix(lefts(w).take(j + 1), n as nat));
            assert(out_r@ =~= mix(rights(w).take(j + 1), n as nat));
        }
        j = j + 1;
    }
    proof {
        assert(lefts(w).take(lines@.len() as int) =~= lefts(w));
        assert(rights(w).take(lines@.len() as int) =~= rights(w));
        assert(views(lines@) =~= after_block(start, update, in_l@, in_r@));
        assert forall|k: int| 0 <= k < views(lines@).len() implies #[trigger] views(lines@)[k].wf() by {
            assert(lines@[k].wf());
        }
    }
}

} // verus!
