use vstd::prelude::*;
use crate::bank::{after_block, bank_wf, updated};
use crate::fixed::{blend, scaled, UNITY};
use crate::loop_line::clamped_len;
use crate::stereo_line::{left_gain, right_gain, Param, StereoState};
use crate::loop_line::LoopState;

verus! {

/// Where the `k`-th write after a cursor at `w` lands, without `%`.
proof fn lemma_wrap(w: int, k: int, len: int)
    requires
        0 <= w < len,
        0 <= k < len,
    ensures
        (w + k) % len == if w + k < len { w + k } else { w + k - len },
{
    if w + k < len {
        vstd::arithmetic::div_mod::lemma_small_mod((w + k) as nat, len as nat);
    } else {
        vstd::arithmetic::div_mod::lemma_mod_add_multiples_vanish(w + k - len, len);
        vstd::arithmetic::div_mod::lemma_small_mod((w + k - len) as nat, len as nat);
    }
}

/// After writing `values`, the write cursor has moved on by their number,
/// modulo the active length.
pub proof fn lemma_write_cursor(s: LoopState, values: Seq<i32>)
    requires
        s.wf(),
    ensures
        s.write_all(values).write_pos == (s.write_pos + values.len()) as int % (s.len as int),
    decreases values.len(),
{
    if values.len() == 0 {
        vstd::arithmetic::div_mod::lemma_small_mod(s.write_pos, s.len);
    } else {
        s.lemma_write_all_keeps(values.drop_last());
        lemma_write_cursor(s, values.drop_last());
        vstd::arithmetic::div_mod::lemma_add_mod_noop_right(1, s.write_pos + values.len() - 1, s.len as int);
    }
}

/// Within one traversal, the `k`-th written slot holds the `k`-th value
/// blended with that slot's content before the traversal; slots not yet
/// reached and slots beyond the active length keep their content.
pub proof fn lemma_one_pass(s: LoopState, values: Seq<i32>)
    requires
        s.wf(),
        values.len() <= s.len,
    ensures
        forall|k: int| 0 <= k < values.len() ==> #[trigger] s.write_all(values).samples[(s.write_pos + k) % (s.len as int)]
            == blend(values[k] as int, s.in_vol as int, s.samples[(s.write_pos + k) % (s.len as int)] as int, s.feedback as int) as i32,
        forall|k: int| values.len() <= k < s.len ==> #[trigger] s.write_all(values).samples[(s.write_pos + k) % (s.len as int)]
            == s.samples[(s.write_pos + k) % (s.len as int)],
        forall|i: int| s.len <= i < s.samples.len() ==> #[trigger] s.write_all(values).samples[i] == s.samples[i],
    decreases values.len(),
{
    let len = s.len as int;
    let w = s.write_pos as int;
    if values.len() > 0 {
        let m = values.len() - 1;
        let prev = values.drop_last();
        lemma_one_pass(s, prev);
        s.lemma_write_all_keeps(prev);
        lemma_write_cursor(s, prev);
        let t = s.write_all(values);
        lemma_wrap(w, m, len);
        assert forall|k: int| 0 <= k < values.len() implies #[trigger] t.samples[(w + k) % len]
            == blend(values[k] as int, s.in_vol as int, s.samples[(w + k) % len] as int, s.feedback as int) as i32 by {
            lemma_wrap(w, k, len);
            if k < m {
                assert(prev[k] == values[k]);
            }
        }
        assert forall|k: int| values.len() <= k < len implies #[trigger] t.samples[(w + k) % len]
            == s.samples[(w + k) % len] by {
            lemma_wrap(w, k, len);
        }
    }
}

/// With no feedback, one full traversal leaves a pure delay line: each slot
/// holds the value written there scaled by the input gain, and a read cursor
/// aligned with the write cursor returns it scaled by the output gain.
pub proof fn lemma_pure_delay(s: LoopState, values: Seq<i32>)
    requires
        s.wf(),
        s.feedback == 0,
        values.len() == s.len,
    ensures
        s.write_all(values).write_pos == s.write_pos,
        forall|k: int| 0 <= k < s.len ==> #[trigger] s.write_all(values).samples[(s.write_pos + k) % (s.len as int)]
            == scaled(values[k] as int, s.in_vol as int) as i32,
        s.read_pos == s.write_pos ==> forall|k: int| 0 <= k < s.len ==> #[trigger] s.write_all(values).read_at(k, 1)
            == scaled(scaled(values[k] as int, s.in_vol as int), s.out_vol as int) as i32,
{
    lemma_one_pass(s, values);
    lemma_write_cursor(s, values);
    s.lemma_write_all_keeps(values);
    vstd::arithmetic::div_mod::lemma_mod_add_multiples_vanish(s.write_pos as int, s.len as int);
    vstd::arithmetic::div_mod::lemma_small_mod(s.write_pos, s.len);
    let t = s.write_all(values);
    assert forall|k: int| 0 <= k < s.len implies #[trigger] t.samples[(s.write_pos + k) % (s.len as int)]
        == scaled(values[k] as int, s.in_vol as int) as i32 by {
        assert(s.samples[(s.write_pos + k) % (s.len as int)] as int * 0 == 0);
    }
    if s.read_pos == s.write_pos {
        assert forall|k: int| 0 <= k < s.len implies #[trigger] t.read_at(k, 1)
            == scaled(scaled(values[k] as int, s.in_vol as int), s.out_vol as int) as i32 by {
            assert(t.samples[(s.write_pos + k) % (s.len as int)] == scaled(values[k] as int, s.in_vol as int) as i32);
            assert(s.read_pos + k * 1 == s.write_pos + k);
        }
    }
}

/// One traversal of silence multiplies every slot of the loop by the
/// feedback: the content decays by one factor of the feedback per pass.
pub proof fn lemma_silent_pass_decays(s: LoopState, values: Seq<i32>)
    requires
        s.wf(),
        values.len() == s.len,
        forall|k: int| 0 <= k < values.len() ==> #[trigger] values[k] == 0,
    ensures
        s.write_all(values).write_pos == s.write_pos,
        forall|i: int| 0 <= i < s.len ==> #[trigger] s.write_all(values).samples[i]
            == scaled(s.samples[i] as int, s.feedback as int) as i32,
{
    lemma_one_pass(s, values);
    lemma_write_cursor(s, values);
    vstd::arithmetic::div_mod::lemma_mod_add_multiples_vanish(s.write_pos as int, s.len as int);
    vstd::arithmetic::div_mod::lemma_small_mod(s.write_pos, s.len);
    let t = s.write_all(values);
    let len = s.len as int;
    let w = s.write_pos as int;
    assert forall|i: int| 0 <= i < len implies #[trigger] t.samples[i]
        == scaled(s.samples[i] as int, s.feedback as int) as i32 by {
        let k = if i >= w { i - w } else { i + len - w };
        lemma_wrap(w, k, len);
        assert((w + k) % len == i);
        assert(values[k] as int * s.in_vol as int == 0);
    }
}

/// A sample after `passes` rounds of scaling by the feedback.
pub open spec fn decayed(x: int, feedback: int, passes: nat) -> int
    decreases passes,
{
    if passes == 0 {
        x
    } else {
        scaled(decayed(x, feedback, (passes - 1) as nat), feedback)
    }
}

/// `n` silent samples.
pub open spec fn silence(n: nat) -> Seq<i32> {
    Seq::new(n, |k: int| 0i32)
}

/// Writing two runs one after the other is writing their concatenation.
pub proof fn lemma_write_all_concat(s: LoopState, a: Seq<i32>, b: Seq<i32>)
    ensures
        s.write_all(a + b) == s.write_all(a).write_all(b),
    decreases b.len(),
{
    if b.len() == 0 {
        assert(a + b =~= a);
    } else {
        lemma_write_all_concat(s, a, b.drop_last());
        assert((a + b).drop_last() =~= a + b.drop_last());
        assert((a + b).last() == b.last());
    }
}

/// After `passes` full traversals of silence, every slot of the loop holds
/// its former content decayed by the feedback once per pass.
pub proof fn lemma_silent_passes_decay(s: LoopState, passes: nat)
    requires
        s.wf(),
    ensures
        s.write_all(silence(passes * s.len)).write_pos == s.write_pos,
        forall|i: int| 0 <= i < s.len ==> #[trigger] s.write_all(silence(passes * s.len)).samples[i]
            == decayed(s.samples[i] as int, s.feedback as int, passes),
    decreases passes,
{
    let len = s.len;
    if passes == 0 {
        assert(Seq::new(passes * len, |k: int| 0i32) =~= Seq::<i32>::empty());
        assert(s.write_all(Seq::<i32>::empty()) == s);
    } else {
        let before = Seq::new(((passes - 1) as nat) * len, |k: int| 0i32);
        let z = Seq::new(len, |k: int| 0i32);
        let earlier: nat = (passes - 1) as nat;
        assert(passes * len == earlier * len + len) by (nonlinear_arith)
            requires earlier == passes - 1, passes > 0;
        assert(Seq::new(passes * len, |k: int| 0i32) =~= before + z);
        lemma_write_all_concat(s, before, z);
        lemma_silent_passes_decay(s, (passes - 1) as nat);
        s.lemma_write_all_keeps(before);
        let t1 = s.write_all(before);
        lemma_silent_pass_decays(t1, z);
        assert forall|i: int| 0 <= i < len implies #[trigger] s.write_all(before + z).samples[i]
            == decayed(s.samples[i] as int, s.feedback as int, passes) by {
            assert(i < t1.samples.len());
            assert(t1.samples[i] == decayed(s.samples[i] as int, s.feedback as int, (passes - 1) as nat));
        }
    }
}

/// Pan law: hard left at pan -1, hard right at pan 1, and half of the
/// master gain (rounded down) on each side at pan 0.
pub proof fn lemma_pan_law(master: i32)
    ensures
        left_gain(master as int, -UNITY as int) == master,
        right_gain(master as int, -UNITY as int) == 0,
        left_gain(master as int, UNITY as int) == 0,
        right_gain(master as int, UNITY as int) == master,
        left_gain(master as int, 0) == master as int / 2,
        right_gain(master as int, 0) == master as int / 2,
{
    let m = master as int;
    let d = 2 * UNITY as int;
    assert(m * (UNITY + UNITY) == d * m) by (nonlinear_arith)
        requires d == 2 * UNITY as int;
    vstd::arithmetic::div_mod::lemma_div_multiples_vanish(m, d);
    assert(m * 0 == 0);
    let q = m / 2;
    let r = m % 2;
    vstd::arithmetic::div_mod::lemma_fundamental_div_mod(m, 2);
    assert(m * (UNITY as int) == d * q + r * UNITY) by (nonlinear_arith)
        requires m == 2 * q + r, d == 2 * UNITY as int;
    vstd::arithmetic::div_mod::lemma_div_multiples_vanish_fancy(q, r * UNITY, d);
    assert(i32::MIN <= q <= i32::MAX);
}

/// After a clear, every read before the next write returns silence, on
/// both channels and whatever the stride.
pub proof fn lemma_clear_reads_silence(s: StereoState, k: int, step: nat)
    requires
        s.wf(),
        0 <= k,
    ensures
        s.apply(Param::Clear).left.read_at(k, step) == 0,
        s.apply(Param::Clear).right.read_at(k, step) == 0,
{
    let c = s.apply(Param::Clear);
    let pl = (c.left.read_pos + k * step) % (c.left.len as int);
    let pr = (c.right.read_pos + k * step) % (c.right.len as int);
    assert(0 <= pl < c.left.len);
    assert(0 <= pr < c.right.len);
    assert(c.left.samples[pl] == 0);
    assert(c.right.samples[pr] == 0);
    assert(c.left.samples[pl] as int * c.left.out_vol as int == 0);
    assert(c.right.samples[pr] as int * c.right.out_vol as int == 0);
}

/// A clear restores the full capacity as active length, whatever length
/// was set before.
pub proof fn lemma_clear_restores_capacity(s: StereoState, n: usize)
    requires
        s.wf(),
    ensures
        s.apply(Param::Time(n)).left.len == clamped_len(n as int, s.left.samples.len() as int),
        s.apply(Param::Time(n)).apply(Param::Clear).left.len == s.left.samples.len(),
        s.apply(Param::Time(n)).apply(Param::Clear).right.len == s.right.samples.len(),
{
}

/// The parameters of a stereo line: capacity, length, gains and pan.
pub open spec fn settings(s: StereoState) -> (nat, nat, i32, i32, i32, i32, i32, i32) {
    (s.left.samples.len(), s.left.len, s.left.in_vol, s.left.feedback, s.left.out_vol, s.right.out_vol, s.pan, s.out_vol)
}

/// An update keeps a line well formed, and what it does to the parameters
/// depends on the parameters alone.
pub proof fn lemma_apply_settings(a: StereoState, b: StereoState, p: Param)
    requires
        a.wf(),
        b.wf(),
        settings(a) == settings(b),
    ensures
        a.apply(p).wf(),
        settings(a.apply(p)) == settings(b.apply(p)),
{
    match p {
        Param::Time(n) => {
            let len = clamped_len(n as int, a.left.samples.len() as int);
            assert(a.apply(p).left.read_pos < len);
        },
        _ => {},
    }
}

/// Applies a run of updates in order, one after another.
pub open spec fn apply_all(bank: Seq<StereoState>, updates: Seq<Option<(usize, Param)>>) -> Seq<StereoState>
    decreases updates.len(),
{
    if updates.len() == 0 {
        bank
    } else {
        updated(apply_all(bank, updates.drop_last()), updates.last())
    }
}

/// Processes one block per update, the `b`-th block with the `b`-th update.
pub open spec fn run_blocks(
    bank: Seq<StereoState>,
    updates: Seq<Option<(usize, Param)>>,
    ls: Seq<Seq<i32>>,
    rs: Seq<Seq<i32>>,
) -> Seq<StereoState>
    decreases updates.len(),
{
    if updates.len() == 0 {
        bank
    } else {
        let b = updates.len() - 1;
        after_block(run_blocks(bank, updates.drop_last(), ls, rs), updates.last(), ls[b], rs[b])
    }
}

/// Two banks of the same size whose lines agree on their parameters.
pub open spec fn same_settings(a: Seq<StereoState>, b: Seq<StereoState>) -> bool {
    &&& a.len() == b.len()
    &&& forall|j: int| 0 <= j < a.len() ==> #[trigger] settings(a[j]) == settings(b[j])
}

/// Updates handed to successive blocks take effect in that order, one per
/// block, and the audio written and read meanwhile changes no parameter.
/// With no update at all, every parameter stays as it was.
pub proof fn lemma_updates_in_order(
    bank: Seq<StereoState>,
    updates: Seq<Option<(usize, Param)>>,
    ls: Seq<Seq<i32>>,
    rs: Seq<Seq<i32>>,
)
    requires
        bank_wf(bank),
        ls.len() == updates.len(),
        rs.len() == updates.len(),
        forall|b: int| 0 <= b < updates.len() ==> #[trigger] ls[b].len() == rs[b].len(),
    ensures
        bank_wf(run_blocks(bank, updates, ls, rs)),
        bank_wf(apply_all(bank, updates)),
        same_settings(run_blocks(bank, updates, ls, rs), apply_all(bank, updates)),
    decreases updates.len(),
{
    if updates.len() > 0 {
        let b = updates.len() - 1;
        let prev = updates.drop_last();
        lemma_updates_in_order(bank, prev, ls.take(b), rs.take(b));
        lemma_run_prefix(bank, prev, ls, rs, b);
        let r0 = run_blocks(bank, prev, ls, rs);
        let a0 = apply_all(bank, prev);
        let r1 = updated(r0, updates.last());
        let a1 = updated(a0, updates.last());
        assert(r1.len() == a1.len());
        assert forall|j: int| 0 <= j < r1.len() implies #[trigger] r1[j].wf() && a1[j].wf() && settings(r1[j]) == settings(a1[j]) by {
            assert(r0[j].wf() && a0[j].wf() && settings(r0[j]) == settings(a0[j]));
            match updates.last() {
                Some((idx, p)) => {
                    if idx < r0.len() && j == idx {
                        lemma_apply_settings(r0[j], a0[j], p);
                        lemma_apply_settings(a0[j], r0[j], p);
                    }
                },
                None => {},
            }
        }
        let r = run_blocks(bank, updates, ls, rs);
        assert forall|j: int| 0 <= j < r.len() implies #[trigger] r[j].wf() && settings(r[j]) == settings(a1[j]) by {
            assert(r1[j].wf());
            r1[j].left.lemma_write_all_keeps(ls[b]);
            r1[j].right.lemma_write_all_keeps(rs[b]);
        }
        assert(apply_all(bank, updates) == a1);
        assert(r.len() == a1.len());
        assert forall|j: int| 0 <= j < a1.len() implies #[trigger] a1[j].wf() by {
            assert(r1[j].wf() && a1[j].wf());
        }
        assert forall|j: int| 0 <= j < r.len() implies #[trigger] settings(r[j]) == settings(a1[j]) by {
            assert(r[j].wf() && settings(r[j]) == settings(a1[j]));
        }
        assert(bank_wf(a1));
        assert(bank_wf(r));
        assert(same_settings(r, a1));
    } else {
        assert(apply_all(bank, updates) == bank);
        assert(run_blocks(bank, updates, ls, rs) == bank);
    }
}

/// Running blocks depends only on the blocks that are run.
proof fn lemma_run_prefix(
    bank: Seq<StereoState>,
    updates: Seq<Option<(usize, Param)>>,
    ls: Seq<Seq<i32>>,
    rs: Seq<Seq<i32>>,
    n: int,
)
    requires
        updates.len() == n,
        n <= ls.len(),
        n <= rs.len(),
    ensures
        run_blocks(bank, updates, ls, rs) == run_blocks(bank, updates, ls.take(n), rs.take(n)),
    decreases updates.len(),
{
    if updates.len() > 0 {
        lemma_run_prefix(bank, updates.drop_last(), ls, rs, n - 1);
        lemma_run_prefix(bank, updates.drop_last(), ls.take(n), rs.take(n), n - 1);
        assert(ls.take(n).take(n - 1) =~= ls.take(n - 1));
        assert(rs.take(n).take(n - 1) =~= rs.take(n - 1));
    }
}

} // verus!
