use looper::{
    blend_sample, control_name, control_param, floor_div, line_index, mul_gain, process_block, resolve_address, sat_add,
    ControlName, LoopLine, Param, StereoLine, UNITY,
};
use std::sync::mpsc;

const HALF: i32 = UNITY / 2;
const QUARTER: i32 = UNITY / 4;

fn run_block(lines: &mut Vec<StereoLine>, update: Option<(usize, Param)>, in_l: &[i32], in_r: &[i32]) -> (Vec<i32>, Vec<i32>) {
    let mut out_l = vec![7; in_l.len()];
    let mut out_r = vec![7; in_r.len()];
    process_block(lines, update, in_l, in_r, &mut out_l, &mut out_r);
    (out_l, out_r)
}

#[test]
fn scenario_feedback_halves_each_pass() {
    let mut line = StereoLine::new(4);
    line.send_param(Param::Input(UNITY));
    line.send_param(Param::Feedback(HALF));
    line.send_param(Param::Output(2 * UNITY));
    line.send_param(Param::Pan(0));
    assert_eq!(line.l_line.output_gain(), UNITY);
    assert_eq!(line.l_line.active_length(), 4);
    let mut lines = vec![line];
    let silence = [0, 0, 0, 0];
    let (l1, _) = run_block(&mut lines, None, &[UNITY, 0, 0, 0], &silence);
    assert_eq!(l1, vec![UNITY, 0, 0, 0]);
    let (l2, _) = run_block(&mut lines, None, &silence, &silence);
    assert_eq!(l2, vec![HALF, 0, 0, 0]);
    let (l3, r3) = run_block(&mut lines, None, &silence, &silence);
    assert_eq!(l3, vec![QUARTER, 0, 0, 0]);
    assert_eq!(r3, vec![0, 0, 0, 0]);
}

#[test]
fn pure_delay_without_feedback() {
    let mut line = LoopLine::new(8, 3);
    line.set_input_gain(2 * UNITY);
    line.set_output_gain(UNITY);
    line.write_slice(&[10, 20, 30]);
    assert_eq!(line.read_advance(1), 20);
    assert_eq!(line.read_advance(1), 40);
    assert_eq!(line.read_advance(1), 60);
    line.write_slice(&[1, 2, 3]);
    let mut out = [0; 3];
    line.read_slice(&mut out, 1);
    assert_eq!(out, [2, 4, 6]);
}

#[test]
fn silence_decays_geometrically() {
    let mut line = LoopLine::new(2, 2);
    line.set_input_gain(UNITY);
    line.set_output_gain(UNITY);
    line.set_feedback(HALF);
    line.write_slice(&[800, 80]);
    for expected in [(400, 40), (200, 20), (100, 10)] {
        line.write_slice(&[0, 0]);
        assert_eq!(line.read_advance(1), expected.0);
        assert_eq!(line.read_advance(1), expected.1);
    }
}

#[test]
fn clear_then_read_is_silent() {
    let mut line = StereoLine::new(4);
    line.send_param(Param::Input(UNITY));
    line.send_param(Param::Output(2 * UNITY));
    line.write_slice(&[5, 6, 7, 8], &[9, 9, 9, 9]);
    line.send_param(Param::Clear);
    for _ in 0..6 {
        assert_eq!(line.read_advance(1), (0, 0));
    }
    let mut l = [1; 5];
    let mut r = [1; 5];
    line.read_slice(&mut l, &mut r, 3);
    assert_eq!(l, [0; 5]);
    assert_eq!(r, [0; 5]);
}

#[test]
fn clear_restores_full_capacity() {
    let mut line = StereoLine::new(10);
    line.send_param(Param::Time(4));
    assert_eq!(line.l_line.active_length(), 4);
    assert_eq!(line.r_line.active_length(), 4);
    line.send_param(Param::Clear);
    assert_eq!(line.l_line.active_length(), 10);
    assert_eq!(line.r_line.active_length(), 10);
    assert_eq!(line.l_line.capacity(), 10);
}

#[test]
fn length_is_clamped() {
    let mut line = LoopLine::new(5, 0);
    assert_eq!(line.active_length(), 1);
    line.set_length(99);
    assert_eq!(line.active_length(), 5);
    line.set_length(0);
    assert_eq!(line.active_length(), 1);
    let line = LoopLine::new(5, 7);
    assert_eq!(line.active_length(), 5);
}

#[test]
fn cursors_wrap_when_length_shrinks() {
    let mut line = LoopLine::new(6, 6);
    line.set_input_gain(UNITY);
    line.set_output_gain(UNITY);
    line.write_slice(&[1, 2, 3, 4, 5]);
    line.set_length(3);
    // write cursor 5 wraps to 2; this write lands on slot 2
    line.write(9);
    assert_eq!(line.read_advance(1), 1);
    assert_eq!(line.read_advance(1), 2);
    assert_eq!(line.read_advance(1), 9);
    assert_eq!(line.read_advance(1), 1);
}

#[test]
fn pan_law_edges() {
    let mut line = StereoLine::new(2);
    line.send_param(Param::Output(1000));
    line.send_param(Param::Pan(-UNITY));
    assert_eq!((line.l_line.output_gain(), line.r_line.output_gain()), (1000, 0));
    line.send_param(Param::Pan(UNITY));
    assert_eq!((line.l_line.output_gain(), line.r_line.output_gain()), (0, 1000));
    line.send_param(Param::Pan(0));
    assert_eq!((line.l_line.output_gain(), line.r_line.output_gain()), (500, 500));
    line.send_param(Param::Pan(HALF));
    assert_eq!((line.l_line.output_gain(), line.r_line.output_gain()), (250, 750));
    line.send_param(Param::Output(-1001));
    assert_eq!(line.pan, HALF);
    assert_eq!((line.l_line.output_gain(), line.r_line.output_gain()), (-251, -751));
}

#[test]
fn broadcast_updates_reach_both_channels() {
    let mut line = StereoLine::new(3);
    line.send_param(Param::Feedback(123));
    line.send_param(Param::Input(456));
    assert_eq!(line.l_line.feedback(), 123);
    assert_eq!(line.r_line.feedback(), 123);
    assert_eq!(line.l_line.input_gain(), 456);
    assert_eq!(line.r_line.input_gain(), 456);
}

#[test]
fn queued_updates_apply_one_per_block_in_order() {
    let (tx, rx) = mpsc::channel();
    let mut lines = vec![StereoLine::new(4), StereoLine::new(4)];
    for gain in [1, 2, 3] {
        tx.send((1usize, Param::Input(gain))).unwrap();
    }
    let block = [0; 4];
    for expected in [1, 2, 3] {
        run_block(&mut lines, rx.try_recv().ok(), &block, &block);
        assert_eq!(lines[1].l_line.input_gain(), expected);
        assert_eq!(lines[0].l_line.input_gain(), 0);
    }
    drop(tx);
    for _ in 0..3 {
        run_block(&mut lines, rx.try_recv().ok(), &block, &block);
        assert_eq!(lines[1].l_line.input_gain(), 3);
        assert_eq!(lines[1].r_line.input_gain(), 3);
    }
}

#[test]
fn update_for_missing_line_is_ignored() {
    let mut lines = vec![StereoLine::new(2)];
    run_block(&mut lines, Some((5, Param::Input(UNITY))), &[1, 1], &[1, 1]);
    assert_eq!(lines[0].l_line.input_gain(), 0);
}

#[test]
fn bank_outputs_add_up_and_saturate() {
    let mut a = StereoLine::new(2);
    let mut b = StereoLine::new(2);
    for line in [&mut a, &mut b] {
        line.send_param(Param::Input(UNITY));
        line.send_param(Param::Output(2 * UNITY));
    }
    let mut lines = vec![a, b];
    let (l, r) = run_block(&mut lines, None, &[100, i32::MAX], &[-3, i32::MIN]);
    assert_eq!(l, vec![200, i32::MAX]);
    assert_eq!(r, vec![-6, i32::MIN]);
}

#[test]
fn fixed_point_rounds_down() {
    assert_eq!(mul_gain(-1, HALF), -1);
    assert_eq!(mul_gain(3, HALF), 1);
    assert_eq!(mul_gain(i32::MAX, 2 * UNITY), i32::MAX);
    assert_eq!(mul_gain(i32::MIN, i32::MIN), i32::MAX);
    assert_eq!(floor_div(-7, 2), -4);
    assert_eq!(floor_div(7, 2), 3);
    assert_eq!(sat_add(i32::MAX, 1), i32::MAX);
    assert_eq!(sat_add(i32::MIN, -1), i32::MIN);
    assert_eq!(blend_sample(10, UNITY, 100, HALF), 60);
}

#[test]
fn addresses_resolve_to_line_and_name() {
    assert_eq!(resolve_address(b"/2/feedback"), Some((1, ControlName::Feedback)));
    assert_eq!(resolve_address(b"/6/pan"), Some((5, ControlName::Pan)));
    assert_eq!(resolve_address(b"/9/record"), Some((0, ControlName::Record)));
    assert_eq!(resolve_address(b"/1/clear"), Some((0, ControlName::Clear)));
    assert_eq!(resolve_address(b"/3/output"), Some((2, ControlName::Output)));
    assert_eq!(resolve_address(b"/4/input"), Some((3, ControlName::Input)));
    assert_eq!(resolve_address(b"/4/volume"), None);
    assert_eq!(resolve_address(b"/4input"), None);
    assert_eq!(resolve_address(b""), None);
    assert_eq!(line_index(b"3"), 2);
    assert_eq!(line_index(b"12"), 0);
    assert_eq!(control_name(b"pan"), Some(ControlName::Pan));
    assert_eq!(control_name(b"pa"), None);
}

#[test]
fn controls_map_to_updates() {
    assert_eq!(control_param(ControlName::Record, 0, true, 77), Param::Clear);
    assert_eq!(control_param(ControlName::Record, 0, false, 77), Param::Time(77));
    assert_eq!(control_param(ControlName::Feedback, 5, false, 0), Param::Feedback(5));
    assert_eq!(control_param(ControlName::Input, 6, false, 0), Param::Input(6));
    assert_eq!(control_param(ControlName::Output, 7, false, 0), Param::Output(7));
    assert_eq!(control_param(ControlName::Pan, -8, false, 0), Param::Pan(-8));
    assert_eq!(control_param(ControlName::Clear, 0, false, 0), Param::Clear);
}
