use vgplay::envelope::{halve, Envelope, EnvelopeSchedule, FrameStep, WF_RES};
use vgplay::player::{Actions, Event, Hit, Key, PlayerState};

#[test]
fn envelope_new_is_empty() {
    let s = EnvelopeSchedule::new();
    assert_eq!(s, EnvelopeSchedule { frames_in_cur: 0, frames_per_bucket: 1, buckets: 0, total_frames: 0 });
    assert!(!s.has_partial());
}

#[test]
fn envelope_first_frames_push() {
    let mut s = EnvelopeSchedule::new();
    assert_eq!(s.end_frame(), FrameStep::Push);
    assert_eq!(s.end_frame(), FrameStep::Push);
    assert_eq!((s.buckets, s.total_frames, s.frames_in_cur), (2, 2, 0));
}

#[test]
fn envelope_halves_at_twice_the_resolution() {
    let mut s = EnvelopeSchedule::new();
    for _ in 0..(2 * WF_RES - 1) {
        assert_eq!(s.end_frame(), FrameStep::Push);
    }
    assert_eq!(s.end_frame(), FrameStep::PushAndHalve);
    assert_eq!((s.buckets, s.frames_per_bucket, s.frames_in_cur), (WF_RES, 2, 0));
    assert_eq!(s.end_frame(), FrameStep::Accumulate);
    assert!(s.has_partial());
    assert_eq!(s.end_frame(), FrameStep::Push);
    assert_eq!(s.buckets, WF_RES + 1);
}

#[test]
fn envelope_stays_bounded_for_long_streams() {
    let mut s = EnvelopeSchedule::new();
    let mut lane: Vec<u64> = Vec::new();
    let mut halvings = 0;
    for _ in 0..1_000_003u64 {
        match s.end_frame() {
            FrameStep::Accumulate => {}
            FrameStep::Push => lane.push(s.frames_per_bucket),
            FrameStep::PushAndHalve => {
                lane.push(s.frames_per_bucket / 2);
                halve(&mut lane, |a, b| a + b);
                halvings += 1;
            }
        }
        assert_eq!(lane.len(), s.buckets);
        let partial = if s.has_partial() { 1 } else { 0 };
        assert!(s.buckets + partial <= 2 * WF_RES);
    }
    assert_eq!(s.total_frames, 1_000_003);
    let closed: u64 = lane.iter().sum();
    assert_eq!(closed + s.frames_in_cur, s.total_frames);
    assert!(halvings > 0);
    assert_eq!(s.frames_per_bucket, 1 << halvings);
}

#[test]
fn halve_merges_pairs() {
    let mut lane = vec![(-1.0f32, 1.0f32), (-0.5, 2.0), (-3.0, 0.5), (0.1, 0.2), (-0.2, 0.3)];
    halve(&mut lane, |a: (f32, f32), b: (f32, f32)| (a.0.min(b.0), a.1.max(b.1)));
    assert_eq!(lane, vec![(-1.0, 2.0), (-3.0, 0.5), (-0.2, 0.3)]);
    let mut empty: Vec<(f32, f32)> = Vec::new();
    halve(&mut empty, |a: (f32, f32), _b: (f32, f32)| a);
    assert!(empty.is_empty());
    let mut one = vec![7u8];
    halve(&mut one, |a, b| a.max(b));
    assert_eq!(one, vec![7]);
}

fn space() -> Event {
    Event::Key { key: Key::Space, pressed: true, auto_repeat: false }
}

fn click(hit: Hit) -> Event {
    Event::Mouse { left: true, pressed: true, hit }
}

fn release() -> Event {
    Event::Mouse { left: true, pressed: false, hit: Hit::Nothing }
}

#[test]
fn player_starts_playing_with_audio() {
    let s = PlayerState::new(true);
    assert!(s.playing());
    assert_eq!(s.generation, 0);
    let silent = PlayerState::new(false);
    assert!(!silent.playing());
    assert!(!silent.has_track);
}

#[test]
fn space_toggles_pause_and_back() {
    let mut s = PlayerState::new(true);
    let start = s;
    let a = s.step(&space());
    assert!(a.pause && a.redraw && !a.play);
    assert!(s.paused && !s.playing());
    let b = s.step(&space());
    assert!(b.play && b.redraw);
    assert_eq!(s, start);
}

#[test]
fn play_button_cues_a_finished_track() {
    let mut s = PlayerState::new(true);
    s.step(&Event::Idle { track_ended: true });
    assert!(!s.has_track);
    let a = s.step(&click(Hit::Play));
    assert!(a.append && a.redraw && !a.play);
    assert!(s.playing());
}

#[test]
fn keys_ignored_when_released_or_repeated() {
    let mut s = PlayerState::new(true);
    let start = s;
    assert_eq!(s.step(&Event::Key { key: Key::Space, pressed: false, auto_repeat: false }), Actions::none());
    assert_eq!(s.step(&Event::Key { key: Key::Space, pressed: true, auto_repeat: true }), Actions::none());
    assert_eq!(s.step(&Event::Key { key: Key::Other, pressed: true, auto_repeat: false }), Actions::none());
    assert_eq!(s, start);
}

#[test]
fn arrows_and_escape() {
    let mut s = PlayerState::new(true);
    let l = s.step(&Event::Key { key: Key::Left, pressed: true, auto_repeat: false });
    assert_eq!(l.neighbor, -1);
    let r = s.step(&Event::Key { key: Key::Right, pressed: true, auto_repeat: false });
    assert_eq!(r.neighbor, 1);
    let e = s.step(&Event::Key { key: Key::Escape, pressed: true, auto_repeat: false });
    assert!(e.exit);
    assert!(s.step(&Event::Close).exit);
}

#[test]
fn repeat_toggles_twice_back() {
    let mut s = PlayerState::new(true);
    let start = s;
    s.step(&click(Hit::Repeat));
    assert!(s.repeat);
    s.step(&click(Hit::Repeat));
    assert_eq!(s, start);
}

#[test]
fn open_bumps_generation_and_drops_stale_waveform() {
    let mut s = PlayerState::new(true);
    s.step(&Event::WaveformReady { generation: 0 });
    assert!(s.waveform_ready);
    let a = s.step(&Event::Open);
    assert!(a.stop && a.append && a.play && a.analyze && a.retitle && a.redraw);
    assert_eq!(s.generation, 1);
    assert!(!s.waveform_ready && s.playing());
    let before = s;
    assert_eq!(s.step(&Event::WaveformReady { generation: 0 }), Actions::none());
    assert_eq!(s, before);
    let ok = s.step(&Event::WaveformReady { generation: 1 });
    assert!(ok.accept_waveform && s.waveform_ready);
}

#[test]
fn open_without_audio_only_analyzes() {
    let mut s = PlayerState::new(false);
    let a = s.step(&Event::Open);
    assert!(!a.stop && !a.append && !a.play && a.analyze);
    assert!(!s.has_track);
    assert!(s.step(&space()) == Actions::none());
}

#[test]
fn track_end_repeats_or_stops() {
    let mut s = PlayerState::new(true);
    s.step(&click(Hit::Repeat));
    let a = s.step(&Event::Idle { track_ended: true });
    assert!(a.append && a.redraw && a.animate == Some(true));
    assert!(s.playing());
    s.step(&click(Hit::Repeat));
    let b = s.step(&Event::Idle { track_ended: true });
    assert!(!b.append && b.redraw && b.animate == Some(false));
    assert!(!s.has_track);
    let c = s.step(&Event::Idle { track_ended: true });
    assert!(!c.redraw && c.animate == Some(false));
}

#[test]
fn paused_track_does_not_end() {
    let mut s = PlayerState::new(true);
    s.step(&space());
    let a = s.step(&Event::Idle { track_ended: true });
    assert!(s.has_track && s.paused);
    assert_eq!(a.animate, Some(false));
    assert!(!a.append);
}

#[test]
fn drop_keeps_first_sound_then_opens_it() {
    let mut s = PlayerState::new(true);
    let a = s.step(&Event::Dropped { is_file: true, name: "notes.txt".to_string() });
    assert!(!a.keep_drop);
    let b = s.step(&Event::Dropped { is_file: false, name: "folder.wav".to_string() });
    assert!(!b.keep_drop);
    let c = s.step(&Event::Dropped { is_file: true, name: "first.WAV".to_string() });
    assert!(c.keep_drop && s.drop_pending);
    let d = s.step(&Event::Dropped { is_file: true, name: "second.mp3".to_string() });
    assert!(!d.keep_drop);
    let e = s.step(&Event::Idle { track_ended: false });
    assert!(e.open_drop && !s.drop_pending);
    let f = s.step(&Event::Idle { track_ended: false });
    assert!(!f.open_drop);
}

#[test]
fn dragging_the_playhead_seeks() {
    let mut s = PlayerState::new(true);
    assert_eq!(s.step(&click(Hit::Wave)), Actions::none());
    s.step(&Event::WaveformReady { generation: 0 });
    let press = s.step(&click(Hit::Wave));
    assert!(press.track_pointer && s.dragging);
    let moved = s.step(&Event::CursorMoved { hit: Hit::Nothing });
    assert!(moved.track_pointer && moved.redraw && moved.hand_pointer == Some(false));
    let up = s.step(&release());
    assert!(up.seek && !up.append && !s.dragging);
}

#[test]
fn seek_after_end_cues_the_track_again() {
    let mut s = PlayerState::new(true);
    s.step(&Event::WaveformReady { generation: 0 });
    s.step(&Event::Idle { track_ended: true });
    assert!(!s.has_track);
    s.step(&click(Hit::Wave));
    let up = s.step(&release());
    assert!(up.append && up.seek);
    assert!(s.playing());
}

#[test]
fn pointer_shape_follows_hover() {
    let mut s = PlayerState::new(true);
    assert_eq!(s.step(&Event::CursorMoved { hit: Hit::Play }).hand_pointer, Some(true));
    assert_eq!(s.step(&Event::CursorMoved { hit: Hit::Repeat }).hand_pointer, Some(true));
    assert_eq!(s.step(&Event::CursorMoved { hit: Hit::Wave }).hand_pointer, Some(false));
    s.step(&Event::WaveformReady { generation: 0 });
    assert_eq!(s.step(&Event::CursorMoved { hit: Hit::Wave }).hand_pointer, Some(true));
    let right = s.step(&Event::Mouse { left: false, pressed: true, hit: Hit::Play });
    assert_eq!(right, Actions::none());
}

#[test]
fn seeking_while_paused_stays_paused() {
    let mut s = PlayerState::new(true);
    s.step(&Event::WaveformReady { generation: 0 });
    s.step(&space());
    assert!(s.paused);
    s.step(&click(Hit::Wave));
    let up = s.step(&release());
    assert!(up.seek && !up.append);
    assert!(s.paused && s.has_track && !s.dragging);
}

#[test]
fn animates_only_while_playing() {
    let mut s = PlayerState::new(true);
    assert_eq!(s.step(&Event::Idle { track_ended: false }).animate, Some(true));
    s.step(&space());
    assert_eq!(s.step(&Event::Idle { track_ended: false }).animate, Some(false));
    let mut silent = PlayerState::new(false);
    assert_eq!(silent.step(&Event::Idle { track_ended: true }).animate, Some(false));
}

#[test]
fn only_close_and_escape_exit() {
    let events = vec![
        Event::Open,
        Event::WaveformReady { generation: 1 },
        Event::Close,
        Event::Key { key: Key::Escape, pressed: true, auto_repeat: false },
        Event::Key { key: Key::Escape, pressed: true, auto_repeat: true },
        Event::Key { key: Key::Escape, pressed: false, auto_repeat: false },
        Event::Key { key: Key::Space, pressed: true, auto_repeat: false },
        Event::Dropped { is_file: true, name: "a.wav".to_string() },
        Event::CursorMoved { hit: Hit::Play },
        Event::Mouse { left: true, pressed: true, hit: Hit::Repeat },
        Event::Idle { track_ended: true },
    ];
    let mut s = PlayerState::new(true);
    for (i, e) in events.iter().enumerate() {
        let a = s.step(e);
        assert_eq!(a.exit, i == 2 || i == 3, "event {i}");
    }
}

#[test]
fn envelope_lanes_follow_the_schedule() {
    let mut e: Envelope<u64> = Envelope::new(2);
    assert_eq!(e.lanes, vec![Vec::<u64>::new(), Vec::new()]);
    assert_eq!(e.end_frame(&[1, 10], |a, b| a + b), FrameStep::Push);
    assert_eq!(e.end_frame(&[2, 20], |a, b| a + b), FrameStep::Push);
    assert_eq!(e.lanes, vec![vec![1, 2], vec![10, 20]]);
    assert_eq!(e.finish(&[0, 0]), Some(vec![vec![1, 2], vec![10, 20]]));
}

#[test]
fn envelope_empty_stream_has_no_lanes() {
    let e: Envelope<u64> = Envelope::new(3);
    assert_eq!(e.finish(&[7, 7, 7]), None);
}

#[test]
fn envelope_lanes_stay_bounded_and_sum_frames() {
    let mut e: Envelope<u64> = Envelope::new(2);
    let mut cur = [0u64, 0];
    let frames = 1_000_003u64;
    for _ in 0..frames {
        cur[0] += 1;
        cur[1] += 2;
        if e.end_frame(&cur, |a, b| a + b) != FrameStep::Accumulate {
            cur = [0, 0];
        }
        assert!(e.lanes.iter().all(|l| l.len() == e.schedule.buckets));
        assert!(e.schedule.buckets < 2 * WF_RES);
    }
    let partial = e.schedule.frames_in_cur;
    assert!(partial > 0);
    let lanes = e.finish(&cur).expect("frames");
    assert_eq!(lanes.len(), 2);
    for (c, lane) in lanes.iter().enumerate() {
        assert!(lane.len() <= 2 * WF_RES);
        assert_eq!(lane.iter().sum::<u64>(), frames * (c as u64 + 1));
    }
    assert_eq!(lanes[0].last(), Some(&partial));
}

#[test]
fn envelope_halves_min_max_lanes() {
    let mut e: Envelope<(f32, f32)> = Envelope::new(1);
    let merge = |a: (f32, f32), b: (f32, f32)| (a.0.min(b.0), a.1.max(b.1));
    for i in 0..(2 * WF_RES) {
        let v = i as f32;
        e.end_frame(&[(-v, v)], merge);
    }
    assert_eq!(e.lanes[0].len(), WF_RES);
    assert_eq!(e.lanes[0][0], (-1.0, 1.0));
    assert_eq!(e.lanes[0][WF_RES - 1], (-((2 * WF_RES - 1) as f32), (2 * WF_RES - 1) as f32));
}
