use oscillot::ring::Scope;
use oscillot::ring::DEFAULT_LENGTH;

fn filled(values: &[f32]) -> Scope<f32> {
    let mut s = Scope::new(values.len(), 0.0f32);
    s.record_frames(values);
    s
}

#[test]
fn new_scope_starts_empty_and_recording() {
    let s: Scope<f32> = Scope::new(DEFAULT_LENGTH, 0.0);
    assert_eq!(s.samples().len(), 8192);
    assert!(s.samples().iter().all(|v| *v == 0.0));
    assert_eq!(s.write_cursor(), 0);
    assert!(!s.samples_outdated());
    assert_eq!(s.length(), 8192);
    assert_eq!(s.skip(), 1);
    assert!(s.record());
    assert!(!s.reverse());
    assert!(!s.cycle());
}

#[test]
fn recording_writes_slot_after_slot() {
    let mut s: Scope<u32> = Scope::new(4, 0);
    s.record_frames(&[1, 2, 3]);
    assert_eq!(s.samples(), &[1, 2, 3, 0]);
    assert_eq!(s.write_cursor(), 3);
    assert!(s.samples_outdated());
}

#[test]
fn recording_wraps_round_the_ring() {
    let mut s: Scope<u32> = Scope::new(4, 0);
    s.record_frames(&[1, 2, 3, 4, 5, 6]);
    assert_eq!(s.samples(), &[5, 6, 3, 4]);
    assert_eq!(s.write_cursor(), 2);
}

#[test]
fn recording_off_keeps_the_ring() {
    let mut s: Scope<u32> = Scope::new(3, 0);
    s.set_record(false);
    s.record_frames(&[7, 8, 9]);
    assert_eq!(s.samples(), &[0, 0, 0]);
    assert_eq!(s.write_cursor(), 0);
    assert!(s.samples_outdated());
}

#[test]
fn skip_two_writes_every_other_frame_twice_per_slot() {
    let mut s: Scope<u32> = Scope::new(4, 0);
    s.set_skip(2);
    s.record_frames(&[10, 11, 12, 13]);
    // frames 0 and 2 are written; both land in slot 0
    assert_eq!(s.samples(), &[12, 0, 0, 0]);
    assert_eq!(s.write_cursor(), 2);
    s.record_frames(&[20, 21, 22]);
    assert_eq!(s.samples(), &[12, 22, 0, 0]);
    assert_eq!(s.write_cursor(), 4);
}

#[test]
fn empty_ring_records_nothing_but_moves_cursor() {
    let mut s: Scope<u32> = Scope::new(0, 0);
    s.record_frames(&[1, 2]);
    assert!(s.samples().is_empty());
    assert_eq!(s.write_cursor(), 1);
    assert_eq!(s.trace(), Vec::<u32>::new());
    assert_eq!(s.write_cursor(), 0);
}

#[test]
fn trace_starts_from_the_oldest_sample() {
    let mut s: Scope<u32> = Scope::new(4, 0);
    s.record_frames(&[1, 2, 3, 4, 5, 6]);
    assert_eq!(s.trace(), vec![3, 4, 5, 6]);
    assert_eq!(s.write_cursor(), 2);
}

#[test]
fn trace_reversed_starts_from_the_newest_sample() {
    let mut s: Scope<u32> = Scope::new(4, 0);
    s.set_reverse(true);
    s.record_frames(&[1, 2, 3, 4, 5, 6]);
    assert_eq!(s.trace(), vec![6, 5, 4, 3]);
}

#[test]
fn trace_when_cycling_reads_the_ring_as_it_lies() {
    let mut s: Scope<u32> = Scope::new(4, 0);
    s.set_cycle(true);
    s.record_frames(&[1, 2, 3, 4, 5, 6]);
    assert_eq!(s.trace(), vec![5, 6, 3, 4]);
    s.set_reverse(true);
    assert_eq!(s.trace(), vec![4, 3, 6, 5]);
    assert_eq!(s.write_cursor(), 2);
}

#[test]
fn trace_restarts_a_cursor_past_the_ring() {
    let mut s: Scope<u32> = Scope::new(4, 0);
    s.record_frames(&[1, 2, 3, 4]);
    assert_eq!(s.write_cursor(), 4);
    assert_eq!(s.trace(), vec![1, 2, 3, 4]);
    assert_eq!(s.write_cursor(), 0);
}

#[test]
fn trace_shows_the_latest_frames_last() {
    let mut s: Scope<u32> = Scope::new(5, 0);
    s.record_frames(&[1, 2, 3, 4, 5, 6, 7]);
    s.record_frames(&[8, 9]);
    let t = s.trace();
    assert_eq!(t, vec![5, 6, 7, 8, 9]);
    let mut short: Scope<u32> = Scope::new(5, 0);
    short.record_frames(&[4, 2]);
    let t2 = short.trace();
    assert_eq!(&t2[3..], &[4, 2]);
}

#[test]
fn trace_rearranges_the_ring() {
    let mut s: Scope<u32> = Scope::new(6, 0);
    s.set_skip(3);
    s.record_frames(&[1, 2, 3, 4, 5, 6, 7, 8, 9]);
    let mut t = s.trace();
    let mut r = s.samples().to_vec();
    t.sort();
    r.sort();
    assert_eq!(t, r);
}

#[test]
fn tracing_twice_draws_the_same() {
    let mut s: Scope<u32> = Scope::new(3, 0);
    s.record_frames(&[1, 2, 3, 4, 5]);
    let a = s.trace();
    let c = s.write_cursor();
    let b = s.trace();
    assert_eq!(a, b);
    assert_eq!(c, s.write_cursor());
}

#[test]
fn take_outdated_reports_once() {
    let mut s: Scope<f32> = filled(&[0.5, -0.5]);
    assert!(s.take_outdated());
    assert!(!s.take_outdated());
    s.record_frames(&[0.25]);
    assert!(s.take_outdated());
}

#[test]
fn set_length_grows_with_zero_and_shrinks_by_cutting() {
    let mut s: Scope<f32> = filled(&[1.0, 2.0, 3.0]);
    s.set_length(5, 0.0);
    assert_eq!(s.samples(), &[1.0, 2.0, 3.0, 0.0, 0.0]);
    assert_eq!(s.length(), 5);
    s.set_length(2, 0.0);
    assert_eq!(s.samples(), &[1.0, 2.0]);
    assert_eq!(s.length(), 2);
    assert_eq!(s.write_cursor(), 3);
    s.record_frames(&[9.0]);
    assert_eq!(s.samples(), &[9.0, 2.0]);
    assert_eq!(s.write_cursor(), 1);
}

#[test]
fn setters_change_only_their_switch() {
    let mut s: Scope<u32> = Scope::new(2, 0);
    s.set_skip(4);
    s.set_record(false);
    s.set_reverse(true);
    s.set_cycle(true);
    assert_eq!(s.skip(), 4);
    assert!(!s.record());
    assert!(s.reverse());
    assert!(s.cycle());
    assert_eq!(s.length(), 2);
    assert_eq!(s.write_cursor(), 0);
}
