use std::cmp::Ordering;

use vgplay::ascii::{eq_ignore_ascii_case, to_ascii_uppercase};
use vgplay::files::{extension_start, is_sound, sibling_sound, step_sorted};
use vgplay::order::{explorer_cmp, natural_order};
use vgplay::status::{fmt_time, push_decimal, source_bits, status_line, TrackHeader, TrackInfo};

fn chars(s: &str) -> Vec<char> {
    s.chars().collect()
}

#[test]
fn fmt_time_values() {
    assert_eq!(fmt_time(0), "0:00");
    assert_eq!(fmt_time(5), "0:05");
    assert_eq!(fmt_time(59), "0:59");
    assert_eq!(fmt_time(65), "1:05");
    assert_eq!(fmt_time(600), "10:00");
    assert_eq!(fmt_time(3600), "60:00");
    assert_eq!(fmt_time(u64::MAX), format!("{}:{:02}", u64::MAX / 60, u64::MAX % 60));
}

#[test]
fn push_decimal_appends() {
    let mut s = String::from("n=");
    push_decimal(&mut s, 0);
    push_decimal(&mut s, 44100);
    assert_eq!(s, "n=044100");
}

#[test]
fn status_line_before_analysis() {
    assert_eq!(status_line("song.wav", None, 12), "WAV");
    assert_eq!(status_line("Song.Flac", None, 0), "FLAC");
    assert_eq!(status_line("noext", None, 0), "");
    assert_eq!(status_line(".wav", None, 0), "");
}

#[test]
fn status_line_full() {
    let info = TrackInfo { sample_rate: 44100, channels: 2, bits: Some(16), duration_secs: 185 };
    assert_eq!(
        status_line("a.flac", Some(&info), 65),
        "FLAC   44100 HZ   16 BIT   STEREO   1:05 / 3:05"
    );
}

#[test]
fn status_line_lossy_mono_and_many_channels() {
    let mono = TrackInfo { sample_rate: 22050, channels: 1, bits: None, duration_secs: 7 };
    assert_eq!(status_line("x.mp3", Some(&mono), 0), "MP3   22050 HZ   MONO   0:00 / 0:07");
    let six = TrackInfo { sample_rate: 48000, channels: 6, bits: Some(24), duration_secs: 3600 };
    assert_eq!(
        status_line("film.ogg", Some(&six), 61),
        "OGG   48000 HZ   24 BIT   6CH   1:01 / 60:00"
    );
}

#[test]
fn source_bits_first_coded_track() {
    assert_eq!(source_bits(&[]), None);
    let none = TrackHeader { has_codec: false, bits_per_sample: Some(8) };
    let pcm = TrackHeader { has_codec: true, bits_per_sample: Some(24) };
    let lossy = TrackHeader { has_codec: true, bits_per_sample: None };
    assert_eq!(source_bits(&[none, pcm]), Some(24));
    assert_eq!(source_bits(&[none]), None);
    assert_eq!(source_bits(&[lossy, pcm]), None);
    let wide = TrackHeader { has_codec: true, bits_per_sample: Some(70000) };
    assert_eq!(source_bits(&[wide]), Some(70000u32 as u16));
}

#[test]
fn is_sound_cases() {
    for yes in ["a.wav", "A.WAV", "b.Mp3", "c.flac", "d.ogg", "x.txt.wav", "..wav", "a b.FLAC"] {
        assert!(is_sound(yes), "{yes}");
    }
    for no in ["e.txt", "wav", ".wav", "x.wav.txt", "x.", "", "..", "a.wave", "a.wa", "a.oggx"] {
        assert!(!is_sound(no), "{no}");
    }
}

#[test]
fn extension_start_follows_std_path() {
    assert_eq!(extension_start(&chars("a.wav")), Some(2));
    assert_eq!(extension_start(&chars("a.b.c")), Some(4));
    assert_eq!(extension_start(&chars(".bashrc")), None);
    assert_eq!(extension_start(&chars("..")), None);
    assert_eq!(extension_start(&chars("x.")), Some(2));
    assert_eq!(extension_start(&chars("plain")), None);
    for name in ["a.wav", "a.b.c", ".bashrc", "..", "x.", "plain", "...", "a..b"] {
        let std_ext = std::path::Path::new(name).extension().map(|e| e.to_str().unwrap().to_string());
        let ours = extension_start(&chars(name)).map(|p| name.chars().skip(p).collect::<String>());
        assert_eq!(ours, std_ext, "{name}");
    }
}

#[test]
fn ascii_helpers() {
    assert_eq!(to_ascii_uppercase("flac é"), "FLAC é");
    assert!(eq_ignore_ascii_case(&chars("Track1.MP3"), &chars("track1.mp3")));
    assert!(!eq_ignore_ascii_case(&chars("É"), &chars("é")));
    assert!(!eq_ignore_ascii_case(&chars("a"), &chars("ab")));
}

#[test]
fn explorer_cmp_natural_and_case_insensitive() {
    assert_eq!(explorer_cmp("track2.wav", "track10.wav"), Ordering::Less);
    assert_eq!(explorer_cmp("track10.wav", "track2.wav"), Ordering::Greater);
    assert_eq!(explorer_cmp("Track2.wav", "track2.WAV"), Ordering::Equal);
    assert_eq!(explorer_cmp("b", "A"), Ordering::Greater);
    assert_eq!(explorer_cmp("a", "ab"), Ordering::Less);
    assert_eq!(explorer_cmp("file02", "file2"), Ordering::Equal);
    assert_eq!(explorer_cmp("Ärger", "ärger"), Ordering::Equal);
    assert_eq!(explorer_cmp("x9", "x10a"), Ordering::Less);
}

#[test]
fn natural_order_is_case_sensitive_on_its_own() {
    assert_eq!(natural_order(&chars("B"), &chars("a")), Ordering::Less);
    assert_eq!(natural_order(&chars("a2b"), &chars("a10b")), Ordering::Less);
    assert_eq!(natural_order(&chars("a10b"), &chars("a10a")), Ordering::Greater);
    assert_eq!(natural_order(&chars(""), &chars("")), Ordering::Equal);
    assert_eq!(natural_order(&chars("1"), &chars("a")), Ordering::Less);
}

#[test]
fn explorer_cmp_is_an_order_on_samples() {
    let names = ["a1", "A01", "a2", "a10", "b", "B2", "", "10", "9", "x.wav", "x.WAV", "z9z"];
    for a in names {
        assert_eq!(explorer_cmp(a, a), Ordering::Equal);
        for b in names {
            assert_eq!(explorer_cmp(a, b), explorer_cmp(b, a).reverse(), "{a} {b}");
            for c in names {
                if explorer_cmp(a, b) != Ordering::Greater && explorer_cmp(b, c) != Ordering::Greater {
                    assert_ne!(explorer_cmp(a, c), Ordering::Greater, "{a} {b} {c}");
                }
            }
        }
    }
}

fn folder() -> Vec<String> {
    ["track10.wav", "track2.wav", "notes.txt", "Track1.mp3", "cover.jpg", "intro.OGG"]
        .iter()
        .map(|s| s.to_string())
        .collect()
}

#[test]
fn sibling_sound_steps_in_folder_order() {
    let names = folder();
    assert_eq!(sibling_sound(&names, "track2.wav", 1), Some("track10.wav".to_string()));
    assert_eq!(sibling_sound(&names, "track2.wav", -1), Some("Track1.mp3".to_string()));
    assert_eq!(sibling_sound(&names, "Track1.mp3", -1), Some("intro.OGG".to_string()));
    assert_eq!(sibling_sound(&names, "TRACK2.WAV", 0), Some("track2.wav".to_string()));
}

#[test]
fn sibling_sound_stops_at_the_ends() {
    let names = folder();
    assert_eq!(sibling_sound(&names, "track10.wav", 1), None);
    assert_eq!(sibling_sound(&names, "intro.ogg", -1), None);
    assert_eq!(sibling_sound(&names, "intro.ogg", 4), None);
    assert_eq!(sibling_sound(&names, "intro.ogg", 3), Some("track10.wav".to_string()));
}

#[test]
fn sibling_sound_unknown_current() {
    let names = folder();
    assert_eq!(sibling_sound(&names, "missing.wav", 1), None);
    assert_eq!(sibling_sound(&names, "notes.txt", 1), None);
    assert_eq!(sibling_sound(&Vec::new(), "a.wav", 1), None);
}

#[test]
fn step_sorted_orders_by_the_given_keys() {
    let files: Vec<Vec<char>> = ["b.wav", "a.wav", "c.wav"].iter().map(|s| chars(s)).collect();
    let keys: Vec<Vec<char>> = ["2", "10", "1"].iter().map(|s| chars(s)).collect();
    // Key order: "1" (c.wav), "2" (b.wav), "10" (a.wav).
    assert_eq!(step_sorted(&files, &keys, &chars("B.WAV"), 1), Some("a.wav".to_string()));
    assert_eq!(step_sorted(&files, &keys, &chars("b.wav"), -1), Some("c.wav".to_string()));
    assert_eq!(step_sorted(&files, &keys, &chars("c.wav"), -1), None);
    assert_eq!(step_sorted(&files, &keys, &chars("a.wav"), 1), None);
    assert_eq!(step_sorted(&files, &keys, &chars("d.wav"), 0), None);
    let tied: Vec<Vec<char>> = ["k", "k", "k"].iter().map(|s| chars(s)).collect();
    assert_eq!(step_sorted(&files, &tied, &chars("b.wav"), 1), Some("a.wav".to_string()));
    assert_eq!(step_sorted(&files, &tied, &chars("a.wav"), 1), Some("c.wav".to_string()));
}

#[test]
fn sibling_next_then_previous_returns() {
    let names = folder();
    for cur in ["intro.OGG", "Track1.mp3", "track2.wav", "TRACK10.WAV"] {
        for d in [-3, -1, 1, 2] {
            if let Some(q) = sibling_sound(&names, cur, d) {
                let back = sibling_sound(&names, &q, -d).expect("back");
                assert!(back.eq_ignore_ascii_case(cur), "{cur} {d} {q} {back}");
            }
        }
    }
}
