use vstd::prelude::*;
use vstd::string::StringExecFns;
use vstd::utf8::{valid_utf8, decode_utf8, encode_utf8, encode_utf8_valid_utf8, encode_utf8_decode_utf8};
use vstd::string::StrSliceExecFns;
use crate::ascii::{chars_of, push_char};

verus! {

/// What one launch of the program does, chosen by its first argument.
#[derive(Debug, PartialEq, Eq)]
pub enum Command {
    /// `--register`: add the sound-file associations.
    Register,
    /// `--unregister`: remove them.
    Unregister,
    /// `--help`, `-h`, or no argument: print the usage.
    Help,
    /// Any other argument: open it as a sound.
    Open(String),
}

/// `a` and `b` hold the same characters.
fn same_text(a: &str, b: &str) -> (r: bool)
    ensures
        r == (a@ == b@),
{
    let x = chars_of(a);
    let y = chars_of(b);
    if x.len() != y.len() {
        return false;
    }
    let mut i: usize = 0;
    while i < x.len()
        invariant
            x@ == a@,
            y@ == b@,
            x@.len() == y@.len(),
            i <= x@.len(),
            forall|j: int| 0 <= j < i ==> x@[j] == y@[j],
        decreases x@.len() - i,
    {
        if x[i] != y[i] {
            return false;
        }
        i = i + 1;
    }
    assert(x@ =~= y@);
    true
}

/// The command for the first program argument `arg` (`None` when there is
/// none).
pub fn parse_command(arg: Option<&str>) -> (cmd: Command)
    ensures
        match arg {
            None => cmd == Command::Help,
            Some(a) => if a@ == "--register"@ {
                cmd == Command::Register
            } else if a@ == "--unregister"@ {
                cmd == Command::Unregister
            } else if a@ == "--help"@ || a@ == "-h"@ {
                cmd == Command::Help
            } else {
                cmd matches Command::Open(p) && p@ == a@
            },
        },
{
    match arg {
        None => Command::Help,
        Some(a) => {
            if same_text(a, "--register") {
                Command::Register
            } else if same_text(a, "--unregister") {
                Command::Unregister
            } else if same_text(a, "--help") || same_text(a, "-h") {
                Command::Help
            } else {
                Command::Open(String::from_str(a))
            }
        },
    }
}

/// The command prints to a terminal, so it needs the parent's console (a
/// windowed build has none of its own); opening a sound does not.
pub fn needs_console(cmd: &Command) -> (r: bool)
    ensures
        r == !(cmd is Open),
{
    match cmd {
        Command::Open(_) => false,
        _ => true,
    }
}

/// `s` without its `\` characters.
pub open spec fn without_backslashes(s: Seq<char>) -> Seq<char>
    decreases s.len(),
{
    if s.len() == 0 {
        seq![]
    } else if s.last() == '\\' {
        without_backslashes(s.drop_last())
    } else {
        without_backslashes(s.drop_last()).push(s.last())
    }
}

/// The per-user pipe name through which a running player is handed new
/// files: `\\.\pipe\vgplay-` and the user name, whose backslashes (illegal in
/// a pipe name component) are dropped.
pub fn pipe_name(user: &str) -> (name: String)
    ensures
        name@ == "\\\\.\\pipe\\vgplay-"@ + without_backslashes(user@),
{
    let mut name = String::from_str("\\\\.\\pipe\\vgplay-");
    let ghost prefix = name@;
    for ch in it: user.chars()
        invariant
            it.seq() == user@,
            name@ == prefix + without_backslashes(user@.take(it.index() as int)),
    {
        assert(user@.take(it.index() + 1).drop_last() =~= user@.take(it.index() as int));
        if ch != '\\' {
            push_char(&mut name, ch);
        }
    }
    assert(user@.take(user@.len() as int) =~= user@);
    name
}

/// A pipe name component never holds a backslash.
pub proof fn lemma_pipe_component_clean(user: Seq<char>)
    ensures
        !without_backslashes(user).contains('\\'),
    decreases user.len(),
{
    if user.len() > 0 {
        lemma_pipe_component_clean(user.drop_last());
        let rest = without_backslashes(user.drop_last());
        if user.last() != '\\' {
            assert forall|i: int| 0 <= i < rest.push(user.last()).len() implies rest.push(
                user.last(),
            )[i] != '\\' by {
                if i < rest.len() {
                    assert(rest.push(user.last())[i] == rest[i]);
                }
            }
        }
    }
}

/// The bytes a later launch sends over the pipe for the file at `path`: its
/// UTF-8 encoding.
pub fn handoff_bytes(path: &str) -> (bytes: Vec<u8>)
    ensures
        bytes@ == encode_utf8(path@),
{
    path.as_bytes_vec()
}

/// A path handed over arrives unchanged: the bytes a later launch sends for a
/// non-empty path are what the running player decodes back into that path.
pub proof fn lemma_handoff_round_trip(path: Seq<char>)
    requires
        path.len() > 0,
    ensures
        valid_utf8(encode_utf8(path)),
        decode_utf8(encode_utf8(path)) == path,
        decode_utf8(encode_utf8(path)).len() > 0,
{
    encode_utf8_valid_utf8(path);
    encode_utf8_decode_utf8(path);
}

/// `String::from_utf8`: the string the bytes encode when they are valid
/// UTF-8, else none.
#[verifier::external_body]
fn utf8_string(bytes: Vec<u8>) -> (s: Option<String>)
    ensures
        s is Some <==> valid_utf8(bytes@),
        s matches Some(t) ==> t@ == decode_utf8(bytes@),
{
    String::from_utf8(bytes).ok()
}

/// The path a later launch handed over the pipe, from the bytes it sent:
/// none unless they are valid UTF-8 and not empty.
pub fn handoff_path(data: Vec<u8>) -> (path: Option<String>)
    ensures
        path is Some <==> valid_utf8(data@) && decode_utf8(data@).len() > 0,
        path matches Some(p) ==> p@ == decode_utf8(data@),
{
    let ghost bytes = data@;
    match utf8_string(data) {
        None => None,
        Some(text) => {
            if text.as_str().is_empty() {
                None
            } else {
                Some(text)
            }
        },
    }
}

/// What trying to create the player's pipe as its first instance came to.
#[derive(Clone, Copy, Debug, PartialEq, Eq)]
pub enum ServerOutcome {
    /// This launch owns the pipe: it is the running player.
    Created,
    /// Another launch owns it already (it won the race to become the player).
    Exists,
    /// The pipe is unavailable; play standalone.
    Failed,
}

/// The Windows error "access denied", which creating the first pipe instance
/// reports when another process owns the name.
pub const ERROR_ACCESS_DENIED: u32 = 5;

/// The Windows error "all pipe instances are busy".
pub const ERROR_PIPE_BUSY: u32 = 231;

/// How many times a launch tries to connect to a busy pipe.
pub const HANDOFF_TRIES: u32 = 10;

/// How many rounds of hand-over-or-become-the-player a launch makes.
pub const STARTUP_ROUNDS: u32 = 5;

/// The outcome of creating the pipe: created when the handle is valid, else
/// taken by another player when the error is "access denied", else failed.
pub open spec fn spec_classify_server(handle_valid: bool, last_error: u32) -> ServerOutcome {
    if handle_valid {
        ServerOutcome::Created
    } else if last_error == ERROR_ACCESS_DENIED {
        ServerOutcome::Exists
    } else {
        ServerOutcome::Failed
    }
}

/// Classify the attempt to create the player's pipe from whether it gave a
/// valid handle and, if not, the error it left.
pub fn classify_server(handle_valid: bool, last_error: u32) -> (r: ServerOutcome)
    ensures
        r == spec_classify_server(handle_valid, last_error),
{
    if handle_valid {
        ServerOutcome::Created
    } else if last_error == ERROR_ACCESS_DENIED {
        ServerOutcome::Exists
    } else {
        ServerOutcome::Failed
    }
}

/// What a launch does after one attempt to open the running player's pipe.
#[derive(Clone, Copy, Debug, PartialEq, Eq)]
pub enum HandoffAction {
    /// The pipe opened: write the path to it; the player has the file.
    Write,
    /// The pipe is busy: wait for it, then try again.
    WaitThenRetry,
    /// The pipe is busy on the last try: wait for it, then give up.
    WaitThenGiveUp,
    /// No player listens: give up (this launch becomes the player).
    GiveUp,
}

/// The step after try number `tries` (from 0) to open the pipe: write when it
/// opened; when it was busy, wait, and try again unless that was the last of
/// `HANDOFF_TRIES`; on any other error give up.
pub open spec fn spec_handoff_next(tries: u32, opened: bool, last_error: u32) -> HandoffAction {
    if opened {
        HandoffAction::Write
    } else if last_error == ERROR_PIPE_BUSY {
        if tries + 1 < HANDOFF_TRIES {
            HandoffAction::WaitThenRetry
        } else {
            HandoffAction::WaitThenGiveUp
        }
    } else {
        HandoffAction::GiveUp
    }
}

/// Decide what follows try number `tries` to open the running player's pipe,
/// from whether it opened and, if not, the error it left.
pub fn handoff_next(tries: u32, opened: bool, last_error: u32) -> (a: HandoffAction)
    requires
        tries < HANDOFF_TRIES,
    ensures
        a == spec_handoff_next(tries, opened, last_error),
{
    if opened {
        HandoffAction::Write
    } else if last_error == ERROR_PIPE_BUSY {
        if tries + 1 < HANDOFF_TRIES {
            HandoffAction::WaitThenRetry
        } else {
            HandoffAction::WaitThenGiveUp
        }
    } else {
        HandoffAction::GiveUp
    }
}

/// What a launch that opens a sound does after one round of arbitration.
#[derive(Clone, Copy, Debug, PartialEq, Eq)]
pub enum StartupAction {
    /// The running player took the file: exit.
    Exit,
    /// This launch created the pipe: play, and serve later launches.
    Serve,
    /// No pipe to be had: play without serving.
    Standalone,
    /// Another launch became the player meanwhile: hand over again.
    Retry,
}

/// The step after round `round` (from 0) of arbitration: exit when the file
/// was handed over; otherwise by what creating the pipe came to, retrying
/// while another launch owns it, for at most `STARTUP_ROUNDS` rounds.
/// (`server` is not looked at when the file was handed over.)
pub open spec fn spec_startup_next(round: u32, handed_off: bool, server: ServerOutcome) -> StartupAction {
    if handed_off {
        StartupAction::Exit
    } else {
        match server {
            ServerOutcome::Created => StartupAction::Serve,
            ServerOutcome::Failed => StartupAction::Standalone,
            ServerOutcome::Exists => if round + 1 < STARTUP_ROUNDS {
                StartupAction::Retry
            } else {
                StartupAction::Standalone
            },
        }
    }
}

/// Decide what follows round `round` of arbitration between launches: whether
/// the file was handed to a running player and, if not, what creating the
/// pipe came to.
pub fn startup_next(round: u32, handed_off: bool, server: ServerOutcome) -> (a: StartupAction)
    ensures
        a == spec_startup_next(round, handed_off, server),
{
    if handed_off {
        StartupAction::Exit
    } else {
        match server {
            ServerOutcome::Created => StartupAction::Serve,
            ServerOutcome::Failed => StartupAction::Standalone,
            ServerOutcome::Exists => if round < STARTUP_ROUNDS - 1 {
                StartupAction::Retry
            } else {
                StartupAction::Standalone
            },
        }
    }
}

/// Arbitration always ends: a launch tries the pipe at most `HANDOFF_TRIES`
/// times and makes at most `STARTUP_ROUNDS` rounds, after which it plays on
/// its own; and it only exits once its file was handed over.
pub proof fn lemma_arbitration_bounded(
    tries: u32,
    opened: bool,
    last_error: u32,
    round: u32,
    handed_off: bool,
    server: ServerOutcome,
)
    ensures
        spec_handoff_next(tries, opened, last_error) == HandoffAction::WaitThenRetry ==> tries + 1
            < HANDOFF_TRIES,
        tries + 1 >= HANDOFF_TRIES ==> spec_handoff_next(tries, opened, last_error)
            != HandoffAction::WaitThenRetry,
        spec_startup_next(round, handed_off, server) == StartupAction::Retry ==> round + 1
            < STARTUP_ROUNDS,
        round + 1 >= STARTUP_ROUNDS ==> spec_startup_next(round, handed_off, server)
            != StartupAction::Retry,
        spec_startup_next(round, handed_off, server) == StartupAction::Exit <==> handed_off,
{
}

} // verus!
