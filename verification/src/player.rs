use vstd::prelude::*;
use crate::files::{is_sound, spec_is_sound};

verus! {

/// What lies under the pointer: the play/pause button, the repeat button,
/// the waveform, or nothing.
#[derive(Clone, Copy, Debug, PartialEq, Eq)]
pub enum Hit {
    Play,
    Repeat,
    Wave,
    Nothing,
}

/// The keys the player reacts to.
#[derive(Clone, Copy, Debug, PartialEq, Eq)]
pub enum Key {
    Escape,
    Space,
    Left,
    Right,
    Other,
}

/// What happens to the player window.
pub enum Event {
    /// Another file replaces the current one: handed over by a later launch,
    /// dropped on the window, or stepped to with the arrow keys.
    Open,
    /// A finished waveform analysis, for the open numbered `generation`.
    WaveformReady { generation: u64 },
    /// The window's close button.
    Close,
    /// A keyboard key; auto-repeated presses and releases are ignored.
    Key { key: Key, pressed: bool, auto_repeat: bool },
    /// A file named `name` dropped on the window (`is_file`: a regular file).
    Dropped { is_file: bool, name: String },
    /// The pointer moved to over `hit`.
    CursorMoved { hit: Hit },
    /// A mouse button went down or up with the pointer over `hit`.
    Mouse { left: bool, pressed: bool, hit: Hit },
    /// The event queue ran dry; `track_ended`: the audio output has played
    /// everything it was given.
    Idle { track_ended: bool },
}

/// The player's state. The audio itself, the waveform data and the paths are
/// held by the caller; this holds what decides what to do with them.
#[derive(Clone, Copy, Debug, PartialEq, Eq)]
pub struct PlayerState {
    /// An audio output is open; without one the window works but is silent.
    pub audio: bool,
    /// A track is loaded (playing or paused).
    pub has_track: bool,
    /// The loaded track is paused.
    pub paused: bool,
    /// Loop the track when it ends.
    pub repeat: bool,
    /// Number of the current open; waveforms analysed for an earlier one
    /// are stale.
    pub generation: u64,
    /// The current file's waveform has arrived.
    pub waveform_ready: bool,
    /// The playhead is being dragged along the waveform.
    pub dragging: bool,
    /// A dropped sound waits to be opened once the whole drop has arrived.
    pub drop_pending: bool,
}

/// What the caller must do after an event, in this order: stop the output,
/// queue the current file from its start, resume or pause, seek to the
/// dragged position, then the rest.
#[derive(Clone, Copy, Debug, PartialEq, Eq)]
pub struct Actions {
    /// Stop and clear the output queue.
    pub stop: bool,
    /// Queue a fresh decode of the current file.
    pub append: bool,
    /// Resume the output.
    pub play: bool,
    /// Pause the output.
    pub pause: bool,
    /// Seek to the dragged fraction of the track's duration.
    pub seek: bool,
    /// Start the waveform analysis of the current file for the current
    /// generation.
    pub analyze: bool,
    /// Retitle the window after the current file and bring it to the front.
    pub retitle: bool,
    /// Keep the waveform that just arrived.
    pub accept_waveform: bool,
    /// Remember the dropped file's path.
    pub keep_drop: bool,
    /// Open the remembered dropped file.
    pub open_drop: bool,
    /// Open the sound this many places away in the folder, when not zero.
    pub neighbor: i32,
    /// Remember the window size and quit.
    pub exit: bool,
    /// Move the dragged playhead to the pointer.
    pub track_pointer: bool,
    /// Show the pointer as a hand (`Some(true)`) or an arrow (`Some(false)`).
    pub hand_pointer: Option<bool>,
    /// Wake again shortly to animate the playhead (`Some(true)`) or sleep
    /// until the next event (`Some(false)`).
    pub animate: Option<bool>,
    /// Repaint the window.
    pub redraw: bool,
}

/// No action at all.
pub open spec fn no_actions() -> Actions {
    Actions {
        stop: false,
        append: false,
        play: false,
        pause: false,
        seek: false,
        analyze: false,
        retitle: false,
        accept_waveform: false,
        keep_drop: false,
        open_drop: false,
        neighbor: 0,
        exit: false,
        track_pointer: false,
        hand_pointer: None,
        animate: None,
        redraw: false,
    }
}

/// The play/pause control: cue the track from its start when none is
/// loaded, else flip between playing and paused. Asks for a repaint.
pub open spec fn spec_toggle(s: PlayerState) -> (PlayerState, Actions) {
    if !s.has_track {
        (
            PlayerState { has_track: true, paused: false, ..s },
            Actions { append: true, redraw: true, ..no_actions() },
        )
    } else if s.paused {
        (PlayerState { paused: false, ..s }, Actions { play: true, redraw: true, ..no_actions() })
    } else {
        (PlayerState { paused: true, ..s }, Actions { pause: true, redraw: true, ..no_actions() })
    }
}

/// The transition the player makes on `e` from `s`: its next state and the
/// actions it asks for.
pub open spec fn spec_step(s: PlayerState, e: &Event) -> (PlayerState, Actions) {
    match e {
        Event::Open => (
            PlayerState {
                generation: (s.generation + 1) as u64,
                waveform_ready: false,
                dragging: false,
                paused: false,
                has_track: s.audio,
                ..s
            },
            Actions {
                stop: s.audio,
                append: s.audio,
                play: s.audio,
                analyze: true,
                retitle: true,
                redraw: true,
                ..no_actions()
            },
        ),
        Event::WaveformReady { generation } => if *generation == s.generation {
            (
                PlayerState { waveform_ready: true, ..s },
                Actions { accept_waveform: true, redraw: true, ..no_actions() },
            )
        } else {
            (s, no_actions())
        },
        Event::Close => (s, Actions { exit: true, ..no_actions() }),
        Event::Key { key, pressed, auto_repeat } => if !*pressed || *auto_repeat {
            (s, no_actions())
        } else {
            match key {
                Key::Escape => (s, Actions { exit: true, ..no_actions() }),
                Key::Space => if s.audio {
                    spec_toggle(s)
                } else {
                    (s, no_actions())
                },
                Key::Left => (s, Actions { neighbor: -1i32, ..no_actions() }),
                Key::Right => (s, Actions { neighbor: 1i32, ..no_actions() }),
                Key::Other => (s, no_actions()),
            }
        },
        Event::Dropped { is_file, name } => if !s.drop_pending && *is_file && spec_is_sound(name@) {
            (PlayerState { drop_pending: true, ..s }, Actions { keep_drop: true, ..no_actions() })
        } else {
            (s, no_actions())
        },
        Event::CursorMoved { hit } => (
            s,
            Actions {
                track_pointer: s.dragging,
                redraw: s.dragging,
                hand_pointer: Some(
                    match hit {
                        Hit::Play => true,
                        Hit::Repeat => true,
                        Hit::Wave => s.waveform_ready,
                        Hit::Nothing => false,
                    },
                ),
                ..no_actions()
            },
        ),
        Event::Mouse { left, pressed, hit } => if !*left {
            (s, no_actions())
        } else if *pressed {
            match hit {
                Hit::Play => if s.audio {
                    spec_toggle(s)
                } else {
                    (s, no_actions())
                },
                Hit::Repeat => (
                    PlayerState { repeat: !s.repeat, ..s },
                    Actions { redraw: true, ..no_actions() },
                ),
                Hit::Wave => if s.waveform_ready {
                    (
                        PlayerState { dragging: true, ..s },
                        Actions { track_pointer: true, redraw: true, ..no_actions() },
                    )
                } else {
                    (s, no_actions())
                },
                Hit::Nothing => (s, no_actions()),
            }
        } else if s.dragging {
            if s.audio {
                (
                    PlayerState {
                        dragging: false,
                        has_track: true,
                        paused: if s.has_track { s.paused } else { false },
                        ..s
                    },
                    Actions { append: !s.has_track, seek: true, redraw: true, ..no_actions() },
                )
            } else {
                (PlayerState { dragging: false, ..s }, Actions { redraw: true, ..no_actions() })
            }
        } else {
            (s, no_actions())
        },
        Event::Idle { track_ended } => {
            let ended = s.audio && s.has_track && !s.paused && *track_ended;
            let has_track = if ended && !s.repeat { false } else { s.has_track };
            let playing = has_track && !s.paused;
            (
                PlayerState { drop_pending: false, has_track, ..s },
                Actions {
                    open_drop: s.drop_pending,
                    append: ended && s.repeat,
                    animate: Some(playing),
                    redraw: ended || playing,
                    ..no_actions()
                },
            )
        },
    }
}

impl PlayerState {
    /// The state is consistent: only an open output has a track, only a
    /// loaded track is paused, and only a shown waveform is dragged.
    pub open spec fn wf(&self) -> bool {
        &&& self.has_track ==> self.audio
        &&& self.paused ==> self.has_track
        &&& self.dragging ==> self.waveform_ready
    }

    /// The state at launch: playback starts at once when an output opened.
    pub fn new(audio: bool) -> (s: Self)
        ensures
            s.wf(),
            s == (PlayerState {
                audio,
                has_track: audio,
                paused: false,
                repeat: false,
                generation: 0,
                waveform_ready: false,
                dragging: false,
                drop_pending: false,
            }),
    {
        PlayerState {
            audio,
            has_track: audio,
            paused: false,
            repeat: false,
            generation: 0,
            waveform_ready: false,
            dragging: false,
            drop_pending: false,
        }
    }

    /// A track is playing: the button shows the pause glyph and the playhead
    /// animates.
    pub fn playing(&self) -> (p: bool)
        ensures
            p == (self.has_track && !self.paused),
    {
        self.has_track && !self.paused
    }

    fn toggle(&mut self) -> (act: Actions)
        ensures
            (*final(self), act) == spec_toggle(*old(self)),
    {
        let mut act = Actions::none();
        if !self.has_track {
            self.has_track = true;
            self.paused = false;
            act.append = true;
        } else if self.paused {
            self.paused = false;
            act.play = true;
        } else {
            self.paused = true;
            act.pause = true;
        }
        act.redraw = true;
        act
    }

    /// Handle one event: move to the next state and say what to do.
    pub fn step(&mut self, event: &Event) -> (act: Actions)
        requires
            old(self).wf(),
            *event is Open ==> old(self).generation < u64::MAX,
        ensures
            final(self).wf(),
            (*final(self), act) == spec_step(*old(self), event),
    {
        match event {
            Event::Open => {
                self.generation = self.generation + 1;
                self.waveform_ready = false;
                self.dragging = false;
                self.paused = false;
                self.has_track = self.audio;
                let mut act = Actions::none();
                act.stop = self.audio;
                act.append = self.audio;
                act.play = self.audio;
                act.analyze = true;
                act.retitle = true;
                act.redraw = true;
                act
            },
            Event::WaveformReady { generation } => {
                let mut act = Actions::none();
                if *generation == self.generation {
                    self.waveform_ready = true;
                    act.accept_waveform = true;
                    act.redraw = true;
                }
                act
            },
            Event::Close => {
                let mut act = Actions::none();
                act.exit = true;
                act
            },
            Event::Key { key, pressed, auto_repeat } => {
                let mut act = Actions::none();
                if *pressed && !*auto_repeat {
                    match key {
                        Key::Escape => {
                            act.exit = true;
                        },
                        Key::Space => {
                            if self.audio {
                                act = self.toggle();
                            }
                        },
                        Key::Left => {
                            act.neighbor = -1;
                        },
                        Key::Right => {
                            act.neighbor = 1;
                        },
                        Key::Other => {},
                    }
                }
                act
            },
            Event::Dropped { is_file, name } => {
                let mut act = Actions::none();
                if !self.drop_pending && *is_file && is_sound(name.as_str()) {
                    self.drop_pending = true;
                    act.keep_drop = true;
                }
                act
            },
            Event::CursorMoved { hit } => {
                let mut act = Actions::none();
                act.track_pointer = self.dragging;
                act.redraw = self.dragging;
                act.hand_pointer = Some(
                    match hit {
                        Hit::Play => true,
                        Hit::Repeat => true,
                        Hit::Wave => self.waveform_ready,
                        Hit::Nothing => false,
                    },
                );
                act
            },
            Event::Mouse { left, pressed, hit } => {
                let mut act = Actions::none();
                if !*left {
                    return act;
                }
                if *pressed {
                    match hit {
                        Hit::Play => {
                            if self.audio {
                                act = self.toggle();
                            }
                        },
                        Hit::Repeat => {
                            self.repeat = !self.repeat;
                            act.redraw = true;
                        },
                        Hit::Wave => {
                            if self.waveform_ready {
                                self.dragging = true;
                                act.track_pointer = true;
                                act.redraw = true;
                            }
                        },
                        Hit::Nothing => {},
                    }
                } else if self.dragging {
                    self.dragging = false;
                    if self.audio {
                        if !self.has_track {
                            act.append = true;
                            self.has_track = true;
                            self.paused = false;
                        }
                        act.seek = true;
                    }
                    act.redraw = true;
                }
                act
            },
            Event::Idle { track_ended } => {
                let mut act = Actions::none();
                act.open_drop = self.drop_pending;
                self.drop_pending = false;
                let ended = self.audio && self.has_track && !self.paused && *track_ended;
                if ended {
                    if self.repeat {
                        act.append = true;
                    } else {
                        self.has_track = false;
                    }
                    act.redraw = true;
                }
                let playing = self.has_track && !self.paused;
                if playing {
                    act.redraw = true;
                }
                act.animate = Some(playing);
                act
            },
        }
    }
}

impl Actions {
    /// No action at all.
    pub fn none() -> (a: Actions)
        ensures
            a == no_actions(),
    {
        Actions {
            stop: false,
            append: false,
            play: false,
            pause: false,
            seek: false,
            analyze: false,
            retitle: false,
            accept_waveform: false,
            keep_drop: false,
            open_drop: false,
            neighbor: 0,
            exit: false,
            track_pointer: false,
            hand_pointer: None,
            animate: None,
            redraw: false,
        }
    }
}

/// The Space key, pressed once.
pub open spec fn space_press() -> Event {
    Event::Key { key: Key::Space, pressed: true, auto_repeat: false }
}

/// With a track loaded, the play/pause control pressed twice puts the player
/// back where it was.
pub proof fn lemma_toggle_twice(s: PlayerState)
    requires
        s.wf(),
        s.has_track,
    ensures
        spec_step(spec_step(s, &space_press()).0, &space_press()).0 == s,
        spec_step(s, &Event::Mouse { left: true, pressed: true, hit: Hit::Play }).0 == spec_step(
            s,
            &space_press(),
        ).0,
{
}

/// The repeat toggle pressed twice puts the player back where it was.
pub proof fn lemma_repeat_twice(s: PlayerState)
    ensures
        spec_step(
            spec_step(s, &Event::Mouse { left: true, pressed: true, hit: Hit::Repeat }).0,
            &Event::Mouse { left: true, pressed: true, hit: Hit::Repeat },
        ).0 == s,
{
}

/// A waveform analysed for another open than the current one is ignored:
/// nothing changes and nothing is done.
pub proof fn lemma_stale_waveform_ignored(s: PlayerState, generation: u64)
    requires
        generation != s.generation,
    ensures
        spec_step(s, &Event::WaveformReady { generation }) == (s, no_actions()),
{
}

/// Opening a file stops what played and plays the new file from its start
/// (when there is an output), asks for its waveform under a new generation,
/// and from then on ignores the waveform of the file it replaced.
pub proof fn lemma_open_replaces(s: PlayerState)
    requires
        s.wf(),
        s.generation < u64::MAX,
    ensures
        ({
            let (t, a) = spec_step(s, &Event::Open);
            &&& t.generation == s.generation + 1
            &&& !t.waveform_ready
            &&& !t.dragging
            &&& a.analyze
            &&& (s.audio ==> a.stop && a.append && a.play && t.has_track && !t.paused)
            &&& (!s.audio ==> !t.has_track)
            &&& spec_step(t, &Event::WaveformReady { generation: s.generation }) == (t, no_actions())
        }),
{
}

/// When a playing track ends it starts over if repeat is on, and the player
/// stops otherwise.
pub proof fn lemma_track_end(s: PlayerState)
    requires
        s.wf(),
        s.has_track,
        !s.paused,
        !s.drop_pending,
    ensures
        ({
            let (t, a) = spec_step(s, &Event::Idle { track_ended: true });
            &&& s.repeat ==> a.append && t.has_track && !t.paused && a.animate == Some(true)
            &&& !s.repeat ==> !a.append && !t.has_track && a.animate == Some(false)
        }),
{
}

/// Of a batch of dropped files only the first sound is kept, and it is
/// opened once the batch has arrived (when the queue runs dry).
pub proof fn lemma_drop_keeps_first(s: PlayerState, first: String, later: String, later_is_file: bool)
    requires
        !s.drop_pending,
        spec_is_sound(first@),
    ensures
        ({
            let (t, a) = spec_step(s, &Event::Dropped { is_file: true, name: first });
            let (u, b) = spec_step(t, &Event::Dropped { is_file: later_is_file, name: later });
            let (v, c) = spec_step(u, &Event::Idle { track_ended: false });
            &&& a.keep_drop
            &&& !b.keep_drop
            &&& u == t
            &&& c.open_drop
            &&& !v.drop_pending
        }),
{
}

/// Every transition keeps the state consistent.
pub proof fn lemma_step_keeps_wf(s: PlayerState, e: &Event)
    requires
        s.wf(),
    ensures
        spec_step(s, e).0.wf(),
{
}

/// Seeking works while paused: letting go of the dragged playhead seeks
/// there and leaves a loaded track paused or playing as it was.
pub proof fn lemma_seek_keeps_pause(s: PlayerState, hit: Hit)
    requires
        s.wf(),
        s.audio,
        s.has_track,
        s.dragging,
    ensures
        ({
            let (t, a) = spec_step(s, &Event::Mouse { left: true, pressed: false, hit });
            &&& a.seek
            &&& !a.append
            &&& t.has_track
            &&& t.paused == s.paused
            &&& !t.dragging
        }),
{
}

/// The playhead animates only while a track is actually playing; otherwise
/// the loop sleeps until the next event.
pub proof fn lemma_animates_only_while_playing(s: PlayerState, track_ended: bool)
    requires
        s.wf(),
    ensures
        ({
            let (t, a) = spec_step(s, &Event::Idle { track_ended });
            a.animate == Some(t.has_track && !t.paused)
        }),
{
}

/// The player asks to exit (and so to remember the window size) on the close
/// button and on a fresh press of Escape, and on no other event.
pub proof fn lemma_exit_only_on_close_or_escape(s: PlayerState, e: &Event)
    ensures
        spec_step(s, e).1.exit <==> (*e is Close || *e == Event::Key {
            key: Key::Escape,
            pressed: true,
            auto_repeat: false,
        }),
{
}

/// A waveform is only ever kept for the current open: the player accepts one
/// exactly when it was analysed for the current generation, and the
/// generation stays.
pub proof fn lemma_accepts_only_current_waveform(s: PlayerState, e: &Event)
    ensures
        spec_step(s, e).1.accept_waveform <==> (*e matches Event::WaveformReady { generation }
            && generation == s.generation),
        spec_step(s, e).1.accept_waveform ==> spec_step(s, e).0.generation == s.generation,
{
}

/// Only a fresh press of a key acts: releasing a key, or the auto-repeat of a
/// held key, changes nothing and asks for nothing.
pub proof fn lemma_key_release_does_nothing(s: PlayerState, key: Key, pressed: bool)
    ensures
        spec_step(s, &Event::Key { key, pressed: false, auto_repeat: false }) == (s, no_actions()),
        spec_step(s, &Event::Key { key, pressed, auto_repeat: true }) == (s, no_actions()),
{
}

/// Stepping through the folder: the player asks to open a neighboring sound
/// exactly on a fresh press of Left (one back) or Right (one on), and such a
/// press changes nothing else. A tap (press, then release) steps once.
pub proof fn lemma_arrows_step_once(s: PlayerState, e: &Event)
    ensures
        spec_step(s, e).1.neighbor != 0 <==> (*e == Event::Key {
            key: Key::Left,
            pressed: true,
            auto_repeat: false,
        } || *e == Event::Key { key: Key::Right, pressed: true, auto_repeat: false }),
        *e == (Event::Key { key: Key::Left, pressed: true, auto_repeat: false }) ==> spec_step(s, e)
            == (s, Actions { neighbor: -1i32, ..no_actions() }),
        *e == (Event::Key { key: Key::Right, pressed: true, auto_repeat: false }) ==> spec_step(s, e)
            == (s, Actions { neighbor: 1i32, ..no_actions() }),
{
}

/// Letting go of the left button acts only to end a drag of the playhead;
/// otherwise it changes nothing and asks for nothing. Any other button does
/// nothing at all.
pub proof fn lemma_release_without_drag(s: PlayerState, hit: Hit, pressed: bool)
    ensures
        !s.dragging ==> spec_step(s, &Event::Mouse { left: true, pressed: false, hit }) == (s, no_actions()),
        spec_step(s, &Event::Mouse { left: false, pressed, hit }) == (s, no_actions()),
{
}

/// The repeat setting changes only by a left-button press on the repeat
/// button, which flips it; so a click there (press, then release) flips it
/// exactly once.
pub proof fn lemma_repeat_click(s: PlayerState, e: &Event)
    requires
        s.wf(),
    ensures
        spec_step(s, e).0.repeat != s.repeat <==> *e == (Event::Mouse {
            left: true,
            pressed: true,
            hit: Hit::Repeat,
        }),
        !s.dragging ==> spec_step(
            spec_step(s, &Event::Mouse { left: true, pressed: true, hit: Hit::Repeat }).0,
            &Event::Mouse { left: true, pressed: false, hit: Hit::Repeat },
        ).0.repeat == !s.repeat,
{
}

} // verus!
