use vgplay::assoc::{register, unregister, RegWrite, PROG_ID};
use vgplay::icon::{icon_pixels, load_app_icon};
use vgplay::files::is_sound;
use vgplay::launch::{
    classify_server, handoff_bytes, handoff_next, handoff_path, needs_console, parse_command, pipe_name,
    startup_next, Command, HandoffAction, ServerOutcome, StartupAction,
};
use vgplay::settings::{
    initial_window_size, load_window_size, persist_window_size, save_window_size, StoredSize,
    DEFAULT_HEIGHT, DEFAULT_WIDTH, HEIGHT_VALUE, SETTINGS_KEY, WIDTH_VALUE,
};

fn write(key: &str, name: &str, data: &str) -> (String, Option<(String, String)>) {
    (key.to_string(), Some((name.to_string(), data.to_string())))
}

fn plain(w: &RegWrite) -> (String, Option<(String, String)>) {
    (w.key.clone(), w.value.clone())
}

#[test]
fn register_writes_handler_and_candidates() {
    let plan: Vec<_> = register("C:/Apps/vgplay.exe").iter().map(plain).collect();
    let cmd = "\"C:\\Apps\\vgplay.exe\" \"%1\"";
    let mut expected = vec![
        write("vgplay.sound", "", "Sound (vgplay)"),
        write("vgplay.sound\\DefaultIcon", "", "C:\\Apps\\vgplay.exe,0"),
        write("vgplay.sound\\shell\\open\\command", "", cmd),
        write("Applications\\vgplay.exe\\shell\\open\\command", "", cmd),
        write("Applications\\vgplay.exe", "FriendlyAppName", "vgplay"),
        ("Applications\\vgplay.exe\\SupportedTypes".to_string(), None),
    ];
    for ext in ["wav", "mp3", "flac", "ogg"] {
        expected.push(write(&format!(".{ext}\\OpenWithProgids"), "vgplay.sound", ""));
        expected.push(write("Applications\\vgplay.exe\\SupportedTypes", &format!(".{ext}"), ""));
    }
    assert_eq!(plan, expected);
}

#[test]
fn register_never_sets_an_extension_default() {
    for w in register("D:\\x\\y.exe") {
        if w.key.starts_with('.') {
            let (name, data) = w.value.expect("candidate value");
            assert_eq!(name, PROG_ID);
            assert_eq!(data, "");
        }
    }
}

#[test]
fn unregister_removes_what_register_wrote() {
    let plan = unregister();
    assert_eq!(plan.trees, vec!["vgplay.sound".to_string(), "Applications\\vgplay.exe".to_string()]);
    assert_eq!(
        plan.progid_keys,
        vec![
            ".wav\\OpenWithProgids".to_string(),
            ".mp3\\OpenWithProgids".to_string(),
            ".flac\\OpenWithProgids".to_string(),
            ".ogg\\OpenWithProgids".to_string(),
        ]
    );
    for w in register("C:/p/vgplay.exe") {
        let under_tree = plan
            .trees
            .iter()
            .any(|t| w.key == *t || w.key.starts_with(&format!("{t}\\")));
        let candidate = plan.progid_keys.contains(&w.key)
            && w.value == Some((PROG_ID.to_string(), String::new()));
        assert!(under_tree || candidate, "{}", w.key);
    }
}

#[test]
fn window_size_load_cases() {
    assert_eq!(load_window_size(StoredSize { width: Some(800), height: Some(300) }), Some((800, 300)));
    assert_eq!(load_window_size(StoredSize { width: Some(0), height: Some(300) }), None);
    assert_eq!(load_window_size(StoredSize { width: Some(800), height: None }), None);
    assert_eq!(load_window_size(StoredSize { width: None, height: None }), None);
}

#[test]
fn window_size_round_trip() {
    let stored = save_window_size(720, 280);
    assert_eq!(stored, StoredSize { width: Some(720), height: Some(280) });
    assert_eq!(load_window_size(stored), Some((720, 280)));
    assert_eq!(initial_window_size(stored), (720, 280));
}

#[test]
fn window_size_persist_and_default() {
    assert_eq!(persist_window_size(true, 1920, 1080), None);
    assert_eq!(persist_window_size(false, 0, 200), None);
    assert_eq!(
        persist_window_size(false, 500, 200),
        Some(StoredSize { width: Some(500), height: Some(200) })
    );
    assert_eq!(initial_window_size(StoredSize { width: None, height: Some(5) }), (DEFAULT_WIDTH, DEFAULT_HEIGHT));
    assert_eq!((DEFAULT_WIDTH, DEFAULT_HEIGHT), (640, 260));
    assert_eq!(SETTINGS_KEY, "Software\\vgplay");
    assert_eq!((WIDTH_VALUE, HEIGHT_VALUE), ("WindowWidth", "WindowHeight"));
}

#[test]
fn parse_command_cases() {
    assert_eq!(parse_command(None), Command::Help);
    assert_eq!(parse_command(Some("--register")), Command::Register);
    assert_eq!(parse_command(Some("--unregister")), Command::Unregister);
    assert_eq!(parse_command(Some("--help")), Command::Help);
    assert_eq!(parse_command(Some("-h")), Command::Help);
    assert_eq!(parse_command(Some("song.wav")), Command::Open("song.wav".to_string()));
    assert_eq!(parse_command(Some("--REGISTER")), Command::Open("--REGISTER".to_string()));
    assert_eq!(parse_command(Some("")), Command::Open(String::new()));
}

#[test]
fn only_opening_runs_without_console() {
    assert!(needs_console(&Command::Register));
    assert!(needs_console(&Command::Unregister));
    assert!(needs_console(&Command::Help));
    assert!(!needs_console(&Command::Open("a.wav".to_string())));
}

#[test]
fn pipe_name_drops_backslashes() {
    assert_eq!(pipe_name("bob"), "\\\\.\\pipe\\vgplay-bob");
    assert_eq!(pipe_name("DOMAIN\\bob"), "\\\\.\\pipe\\vgplay-DOMAINbob");
    assert_eq!(pipe_name(""), "\\\\.\\pipe\\vgplay-");
    assert_eq!(pipe_name("\\\\"), "\\\\.\\pipe\\vgplay-");
}

#[test]
fn handoff_path_decodes_utf8() {
    assert_eq!(handoff_path(b"C:\\Music\\a.wav".to_vec()), Some("C:\\Music\\a.wav".to_string()));
    assert_eq!(handoff_path("C:\\Müsik\\ä.flac".as_bytes().to_vec()), Some("C:\\Müsik\\ä.flac".to_string()));
    assert_eq!(handoff_path(Vec::new()), None);
    assert_eq!(handoff_path(vec![0x43, 0xff, 0x41]), None);
    assert_eq!(handoff_path(vec![0xc3]), None);
}

#[test]
fn app_icon_rejects_garbage() {
    assert!(load_app_icon(b"not an image").is_none());
    assert!(load_app_icon(&[]).is_none());
}

#[test]
fn app_icon_from_png() {
    let img = image::RgbaImage::from_pixel(2, 3, image::Rgba([10, 20, 30, 255]));
    let mut bytes = std::io::Cursor::new(Vec::new());
    img.write_to(&mut bytes, image::ImageFormat::Png).expect("encode");
    assert!(load_app_icon(bytes.get_ref()).is_some());
}

#[test]
fn handoff_bytes_are_utf8() {
    assert_eq!(handoff_bytes("a.wav"), b"a.wav".to_vec());
    assert_eq!(handoff_bytes("ä"), vec![0xc3, 0xa4]);
    assert_eq!(handoff_bytes(""), Vec::<u8>::new());
}

#[test]
fn handed_over_path_arrives_unchanged() {
    for p in ["C:\\Music\\a.wav", "D:\\Klänge\\ß.flac", "x", "\\\\server\\share\\日本.ogg"] {
        assert_eq!(handoff_path(handoff_bytes(p)), Some(p.to_string()));
    }
    assert_eq!(handoff_path(handoff_bytes("")), None);
}

#[test]
fn pipe_name_component_has_no_backslash() {
    for user in ["a\\b\\c", "\\x", "plain", "über\\"] {
        let name = pipe_name(user);
        let component = name.strip_prefix("\\\\.\\pipe\\vgplay-").expect("prefix");
        assert!(!component.contains('\\'), "{name}");
    }
}

#[test]
fn sound_iff_extension_registered() {
    let plan = register("C:/vgplay.exe");
    for name in ["a.wav", "B.MP3", "c.FlAc", "d.ogg", "e.txt", "f", ".wav", "g.wav.bak", "h.WAVE"] {
        let ext = std::path::Path::new(name).extension().map(|e| e.to_str().unwrap().to_ascii_lowercase());
        let registered = match ext {
            Some(e) => plan.iter().any(|w| {
                w.key == format!(".{e}\\OpenWithProgids")
                    && w.value == Some((PROG_ID.to_string(), String::new()))
            }),
            None => false,
        };
        assert_eq!(is_sound(name), registered, "{name}");
    }
}

#[test]
fn register_writes_no_extension_default() {
    for w in register("C:/vgplay.exe") {
        for ext in [".wav", ".mp3", ".flac", ".ogg"] {
            assert_ne!(w.key, ext);
        }
    }
}

fn png(w: u32, h: u32) -> Vec<u8> {
    let img = image::RgbaImage::from_pixel(w, h, image::Rgba([10, 20, 30, 255]));
    let mut bytes = std::io::Cursor::new(Vec::new());
    img.write_to(&mut bytes, image::ImageFormat::Png).expect("encode");
    bytes.into_inner()
}

#[test]
fn icon_pixels_decodes_to_rgba() {
    let (rgba, w, h) = icon_pixels(&png(2, 3)).expect("decodes");
    assert_eq!((w, h), (2, 3));
    assert_eq!(rgba, [10u8, 20, 30, 255].repeat(6));
    assert!(icon_pixels(b"garbage").is_none());
    assert!(icon_pixels(&[]).is_none());
}

#[test]
fn classify_server_cases() {
    assert_eq!(classify_server(true, 5), ServerOutcome::Created);
    assert_eq!(classify_server(true, 0), ServerOutcome::Created);
    assert_eq!(classify_server(false, 5), ServerOutcome::Exists);
    assert_eq!(classify_server(false, 2), ServerOutcome::Failed);
    assert_eq!(classify_server(false, 231), ServerOutcome::Failed);
}

#[test]
fn handoff_retries_busy_pipe_ten_times() {
    assert_eq!(handoff_next(0, true, 231), HandoffAction::Write);
    assert_eq!(handoff_next(9, true, 0), HandoffAction::Write);
    assert_eq!(handoff_next(0, false, 231), HandoffAction::WaitThenRetry);
    assert_eq!(handoff_next(8, false, 231), HandoffAction::WaitThenRetry);
    assert_eq!(handoff_next(9, false, 231), HandoffAction::WaitThenGiveUp);
    assert_eq!(handoff_next(0, false, 2), HandoffAction::GiveUp);
    let mut tries = 0;
    let mut waits = 0;
    loop {
        match handoff_next(tries, false, 231) {
            HandoffAction::WaitThenRetry => {
                waits += 1;
                tries += 1;
            }
            HandoffAction::WaitThenGiveUp => {
                waits += 1;
                break;
            }
            other => panic!("{other:?}"),
        }
    }
    assert_eq!((tries, waits), (9, 10));
}

#[test]
fn startup_arbitration_cases() {
    assert_eq!(startup_next(0, true, ServerOutcome::Created), StartupAction::Exit);
    assert_eq!(startup_next(4, true, ServerOutcome::Failed), StartupAction::Exit);
    assert_eq!(startup_next(0, false, ServerOutcome::Created), StartupAction::Serve);
    assert_eq!(startup_next(0, false, ServerOutcome::Failed), StartupAction::Standalone);
    assert_eq!(startup_next(0, false, ServerOutcome::Exists), StartupAction::Retry);
    assert_eq!(startup_next(3, false, ServerOutcome::Exists), StartupAction::Retry);
    assert_eq!(startup_next(4, false, ServerOutcome::Exists), StartupAction::Standalone);
    assert_eq!(startup_next(u32::MAX, false, ServerOutcome::Exists), StartupAction::Standalone);
}

#[test]
fn icon_pixels_of_a_one_pixel_png() {
    let img = image::RgbaImage::from_pixel(1, 1, image::Rgba([1, 2, 3, 4]));
    let mut out = std::io::Cursor::new(Vec::new());
    img.write_to(&mut out, image::ImageFormat::Png).expect("encode");
    let bytes = out.into_inner();
    assert_eq!(icon_pixels(&bytes), Some((vec![1, 2, 3, 4], 1, 1)));
    assert!(icon_pixels(&bytes[..bytes.len() / 2]).is_none());
}
