use vstd::prelude::*;
use vstd::string::StringExecFns;
use crate::ascii::push_char;
use crate::files::{sound_extensions, extension, spec_is_sound};
use crate::ascii::lower_seq;

verus! {

/// The ProgID the player registers its sound handler under.
pub open spec fn prog_id() -> Seq<char> {
    "vgplay.sound"@
}

/// The application entry that makes the player show up in "Open with".
pub open spec fn app_key() -> Seq<char> {
    "Applications\\vgplay.exe"@
}

/// One registry write under the current user's `Software\Classes`: create (or
/// open) `key`, then, when `value` is present, set the string value of that
/// name (empty for the default value) to that data.
pub struct RegWrite {
    pub key: String,
    pub value: Option<(String, String)>,
}

/// A write as plain character sequences.
pub open spec fn write_view(w: RegWrite) -> (Seq<char>, Option<(Seq<char>, Seq<char>)>) {
    (
        w.key@,
        match w.value {
            Some((n, d)) => Some((n@, d@)),
            None => None,
        },
    )
}

/// `s` with every `/` turned into `\`.
pub open spec fn backslashed(s: Seq<char>) -> Seq<char> {
    s.map_values(|c: char| if c == '/' { '\\' } else { c })
}

/// The open command: the executable path and the file argument, each quoted.
pub open spec fn open_command(exe: Seq<char>) -> Seq<char> {
    "\""@ + backslashed(exe) + "\" \"%1\""@
}

/// The writes for one sound extension `ext`: list the ProgID among the
/// extension's "Open with" candidates (without touching its default), and
/// list the extension among the application's supported types.
pub open spec fn extension_writes(ext: Seq<char>) -> Seq<(Seq<char>, Option<(Seq<char>, Seq<char>)>)> {
    seq![
        ("."@ + ext + "\\OpenWithProgids"@, Some(("vgplay.sound"@, ""@))),
        ("Applications\\vgplay.exe\\SupportedTypes"@, Some(("."@ + ext, ""@))),
    ]
}

/// Everything registering the player as a handler writes, in order, for the
/// executable at `exe`.
pub open spec fn register_plan(exe: Seq<char>) -> Seq<(Seq<char>, Option<(Seq<char>, Seq<char>)>)> {
    let exts = sound_extensions();
    seq![
        ("vgplay.sound"@, Some((""@, "Sound (vgplay)"@))),
        ("vgplay.sound\\DefaultIcon"@, Some((""@, backslashed(exe) + ",0"@))),
        ("vgplay.sound\\shell\\open\\command"@, Some((""@, open_command(exe)))),
        ("Applications\\vgplay.exe\\shell\\open\\command"@, Some((""@, open_command(exe)))),
        ("Applications\\vgplay.exe"@, Some(("FriendlyAppName"@, "vgplay"@))),
        ("Applications\\vgplay.exe\\SupportedTypes"@, None),
    ] + extension_writes(exts[0]) + extension_writes(exts[1]) + extension_writes(exts[2])
        + extension_writes(exts[3])
}

/// Append `s` with `/` turned into `\`.
fn push_backslashed(out: &mut String, s: &str)
    ensures
        final(out)@ == old(out)@ + backslashed(s@),
{
    for ch in it: s.chars()
        invariant
            it.seq() == s@,
            out@ == old(out)@ + backslashed(s@.take(it.index() as int)),
    {
        push_char(out, if ch == '/' { '\\' } else { ch });
        assert(backslashed(s@.take(it.index() + 1)) =~= backslashed(s@.take(it.index() as int)).push(
            if ch == '/' { '\\' } else { ch },
        ));
    }
    assert(s@.take(s@.len() as int) =~= s@);
}

/// A string holding `s`.
fn text(s: &str) -> (r: String)
    ensures
        r@ == s@,
{
    String::from_str(s)
}

/// A registry write that creates `key` and sets value `name` to `data`.
fn set(key: String, name: String, data: String) -> (w: RegWrite)
    ensures
        write_view(w) == (key@, Some((name@, data@))),
{
    RegWrite { key, value: Some((name, data)) }
}

/// The sound extension number `k` (0 to 3): wav, mp3, flac, ogg.
fn sound_extension(k: usize) -> (ext: String)
    requires
        k < 4,
    ensures
        ext@ == sound_extensions()[k as int],
{
    proof {
        reveal_strlit("wav");
        reveal_strlit("mp3");
        reveal_strlit("flac");
        reveal_strlit("ogg");
    }
    if k == 0 {
        let e = text("wav");
        assert(e@ =~= sound_extensions()[0]);
        e
    } else if k == 1 {
        let e = text("mp3");
        assert(e@ =~= sound_extensions()[1]);
        e
    } else if k == 2 {
        let e = text("flac");
        assert(e@ =~= sound_extensions()[2]);
        e
    } else {
        let e = text("ogg");
        assert(e@ =~= sound_extensions()[3]);
        e
    }
}

/// The registry writes that register the player, installed at `exe`, as a
/// candidate handler for sound files under the current user (no admin
/// rights): its ProgID with icon and open command, its "Open with" entry,
/// and, per sound extension, the ProgID among that extension's candidates
/// (never the extension's default) and the extension among the supported
/// types.
pub fn register(exe: &str) -> (plan: Vec<RegWrite>)
    ensures
        plan@.map_values(|w: RegWrite| write_view(w)) == register_plan(exe@),
{
    let mut exe_str = String::new();
    push_backslashed(&mut exe_str, exe);
    let mut cmd = text("\"");
    cmd.append(exe_str.as_str());
    cmd.append("\" \"%1\"");
    let mut icon = exe_str.clone();
    icon.append(",0");
    let mut plan: Vec<RegWrite> = Vec::new();
    plan.push(set(text("vgplay.sound"), text(""), text("Sound (vgplay)")));
    plan.push(set(text("vgplay.sound\\DefaultIcon"), text(""), icon));
    plan.push(set(text("vgplay.sound\\shell\\open\\command"), text(""), cmd.clone()));
    plan.push(set(text("Applications\\vgplay.exe\\shell\\open\\command"), text(""), cmd));
    plan.push(set(text("Applications\\vgplay.exe"), text("FriendlyAppName"), text("vgplay")));
    plan.push(RegWrite { key: text("Applications\\vgplay.exe\\SupportedTypes"), value: None });
    let ghost head = plan@.map_values(|w: RegWrite| write_view(w));
    assert(head =~= seq![
        ("vgplay.sound"@, Some((""@, "Sound (vgplay)"@))),
        ("vgplay.sound\\DefaultIcon"@, Some((""@, backslashed(exe@) + ",0"@))),
        ("vgplay.sound\\shell\\open\\command"@, Some((""@, open_command(exe@)))),
        ("Applications\\vgplay.exe\\shell\\open\\command"@, Some((""@, open_command(exe@)))),
        ("Applications\\vgplay.exe"@, Some(("FriendlyAppName"@, "vgplay"@))),
        ("Applications\\vgplay.exe\\SupportedTypes"@, None),
    ]);
    let mut k: usize = 0;
    while k < 4
        invariant
            k <= 4,
            plan@.map_values(|w: RegWrite| write_view(w)) == head + (if k == 0 {
                Seq::empty()
            } else if k == 1 {
                extension_writes(sound_extensions()[0])
            } else if k == 2 {
                extension_writes(sound_extensions()[0]) + extension_writes(sound_extensions()[1])
            } else if k == 3 {
                extension_writes(sound_extensions()[0]) + extension_writes(sound_extensions()[1])
                    + extension_writes(sound_extensions()[2])
            } else {
                extension_writes(sound_extensions()[0]) + extension_writes(sound_extensions()[1])
                    + extension_writes(sound_extensions()[2]) + extension_writes(
                    sound_extensions()[3],
                )
            }),
        decreases 4 - k,
    {
        let ext = sound_extension(k);
        let mut owp = text(".");
        owp.append(ext.as_str());
        owp.append("\\OpenWithProgids");
        let mut dotted = text(".");
        dotted.append(ext.as_str());
        let ghost before = plan@.map_values(|w: RegWrite| write_view(w));
        plan.push(set(owp, text("vgplay.sound"), text("")));
        plan.push(set(text("Applications\\vgplay.exe\\SupportedTypes"), dotted, text("")));
        assert(plan@.map_values(|w: RegWrite| write_view(w)) =~= before + extension_writes(
            sound_extensions()[k as int],
        ));
        k = k + 1;
    }
    plan
}

/// The value name the player's ProgID is listed under in an extension's
/// "Open with" candidates.
pub const PROG_ID: &'static str = "vgplay.sound";

/// What unregistering removes: whole key trees, and the ProgID value from
/// each extension's candidate list (other handlers' entries stay).
pub struct UnregisterPlan {
    pub trees: Vec<String>,
    pub progid_keys: Vec<String>,
}

/// The key trees unregistering deletes: the ProgID and the application entry.
pub open spec fn unregister_trees() -> Seq<Seq<char>> {
    seq!["vgplay.sound"@, "Applications\\vgplay.exe"@]
}

/// The "Open with" candidate keys from which unregistering deletes the
/// ProgID value, one per sound extension.
pub open spec fn unregister_value_keys() -> Seq<Seq<char>> {
    sound_extensions().map_values(|e: Seq<char>| "."@ + e + "\\OpenWithProgids"@)
}

/// The keys and values that remove the player's associations again.
pub fn unregister() -> (plan: UnregisterPlan)
    ensures
        plan.trees@.map_values(|t: String| t@) == unregister_trees(),
        plan.progid_keys@.map_values(|t: String| t@) == unregister_value_keys(),
{
    let mut trees: Vec<String> = Vec::new();
    trees.push(text("vgplay.sound"));
    trees.push(text("Applications\\vgplay.exe"));
    assert(trees@.map_values(|t: String| t@) =~= unregister_trees());
    let mut progid_keys: Vec<String> = Vec::new();
    let mut k: usize = 0;
    while k < 4
        invariant
            k <= 4,
            progid_keys@.map_values(|t: String| t@) == unregister_value_keys().take(k as int),
        decreases 4 - k,
    {
        let ext = sound_extension(k);
        let mut key = text(".");
        key.append(ext.as_str());
        key.append("\\OpenWithProgids");
        assert(unregister_value_keys()[k as int] == "."@ + sound_extensions()[k as int]
            + "\\OpenWithProgids"@);
        let ghost before = progid_keys@.map_values(|t: String| t@);
        progid_keys.push(key);
        assert(progid_keys@.map_values(|t: String| t@) =~= before.push(unregister_value_keys()[k as int]));
        assert(progid_keys@.map_values(|t: String| t@) =~= unregister_value_keys().take(k + 1));
        k = k + 1;
    }
    assert(unregister_value_keys().take(4) =~= unregister_value_keys());
    UnregisterPlan { trees, progid_keys }
}

/// `key` is the key `tree` or lies below it.
pub open spec fn key_under(key: Seq<char>, tree: Seq<char>) -> bool {
    key == tree || (key.len() > tree.len() && key.take(tree.len() as int) == tree && key[tree.len() as int]
        == '\\')
}

/// Unregistering undoes registering: every key registering writes lies in a
/// tree that unregistering deletes, except the extensions' candidate lists,
/// where the only value written is the ProgID, which unregistering deletes.
pub proof fn lemma_unregister_undoes_register(exe: Seq<char>)
    ensures
        forall|i: int|
            0 <= i < register_plan(exe).len() ==> {
                let w = #[trigger] register_plan(exe)[i];
                (key_under(w.0, unregister_trees()[0]) || key_under(w.0, unregister_trees()[1])) || (
                unregister_value_keys().contains(w.0) && w.1 == Some((prog_id(), ""@)))
            },
{
    reveal_strlit("vgplay.sound");
    reveal_strlit("Applications\\vgplay.exe");
    reveal_strlit("vgplay.sound\\DefaultIcon");
    reveal_strlit("vgplay.sound\\shell\\open\\command");
    reveal_strlit("Applications\\vgplay.exe\\shell\\open\\command");
    reveal_strlit("Applications\\vgplay.exe\\SupportedTypes");
    let p = register_plan(exe);
    let t0 = unregister_trees()[0];
    let t1 = unregister_trees()[1];
    assert(p[1].0.take(t0.len() as int) =~= t0);
    assert(p[2].0.take(t0.len() as int) =~= t0);
    assert(p[3].0.take(t1.len() as int) =~= t1);
    assert(p[5].0.take(t1.len() as int) =~= t1);
    assert forall|i: int| 0 <= i < p.len() implies {
        let w = #[trigger] p[i];
        (key_under(w.0, t0) || key_under(w.0, t1)) || (unregister_value_keys().contains(w.0) && w.1
            == Some((prog_id(), ""@)))
    } by {
        if i >= 6 {
            let k = (i - 6) / 2;
            assert(0 <= k < 4);
            let e = sound_extensions()[k];
            assert(p[i] == extension_writes(e)[(i - 6) % 2]);
            if (i - 6) % 2 == 0 {
                assert(unregister_value_keys()[k] == p[i].0);
            } else {
                assert(p[i].0.take(t1.len() as int) =~= t1);
            }
        }
    }
}

/// The write that lists the player among the "Open with" candidates of the
/// extension `ext`.
pub open spec fn candidate_write(ext: Seq<char>) -> (Seq<char>, Option<(Seq<char>, Seq<char>)>) {
    ("."@ + ext + "\\OpenWithProgids"@, Some((prog_id(), ""@)))
}

/// The keys registering writes before the per-extension writes, and the
/// second write of each extension, name no extension: they start with a
/// letter, not a dot.
proof fn lemma_plan_key_shapes(exe: Seq<char>, i: int)
    requires
        0 <= i < register_plan(exe).len(),
    ensures
        i < 6 || (i - 6) % 2 == 1 ==> register_plan(exe)[i].0.len() > 0 && register_plan(exe)[i].0[0]
            != '.',
        i >= 6 && (i - 6) % 2 == 0 ==> register_plan(exe)[i] == candidate_write(
            sound_extensions()[(i - 6) / 2],
        ),
{
    reveal_strlit("vgplay.sound");
    reveal_strlit("vgplay.sound\\DefaultIcon");
    reveal_strlit("vgplay.sound\\shell\\open\\command");
    reveal_strlit("Applications\\vgplay.exe\\shell\\open\\command");
    reveal_strlit("Applications\\vgplay.exe");
    reveal_strlit("Applications\\vgplay.exe\\SupportedTypes");
    let p = register_plan(exe);
    if i >= 6 {
        let k = (i - 6) / 2;
        assert(0 <= k < 4);
        assert(p[i] == extension_writes(sound_extensions()[k])[(i - 6) % 2]);
    }
}

/// A name passes `is_sound` exactly when registering lists the player among
/// the "Open with" candidates of its (lower-cased) extension: the player
/// opens the same files the associations offer it for.
pub proof fn lemma_sound_iff_registered(name: Seq<char>, exe: Seq<char>)
    ensures
        spec_is_sound(name) <==> match extension(name) {
            Some(e) => register_plan(exe).contains(candidate_write(lower_seq(e))),
            None => false,
        },
{
    reveal_strlit(".");
    let p = register_plan(exe);
    let exts = sound_extensions();
    if let Some(e) = extension(name) {
        let l = lower_seq(e);
        if exts.contains(l) {
            let k = choose|k: int| 0 <= k < exts.len() && exts[k] == l;
            lemma_plan_key_shapes(exe, 6 + 2 * k);
            assert(p[6 + 2 * k] == candidate_write(l));
        }
        if p.contains(candidate_write(l)) {
            let i = choose|i: int| 0 <= i < p.len() && p[i] == candidate_write(l);
            lemma_plan_key_shapes(exe, i);
            assert(candidate_write(l).0[0] == '.');
            let k = (i - 6) / 2;
            let x = exts[k];
            let key = candidate_write(l).0;
            assert(key == candidate_write(x).0);
            assert(x.len() == l.len());
            assert(x =~= key.subrange(1, 1 + l.len() as int));
            assert(l =~= key.subrange(1, 1 + l.len() as int));
            assert(exts[k] == l);
        }
    }
}

/// Registering never sets an extension's own default handler: no key it
/// writes is an extension key (`.wav` and the like); it only adds candidates.
pub proof fn lemma_register_keeps_defaults(exe: Seq<char>)
    ensures
        forall|i: int, k: int|
            0 <= i < register_plan(exe).len() && 0 <= k < sound_extensions().len() ==> #[trigger] register_plan(
                exe,
            )[i].0 != "."@ + #[trigger] sound_extensions()[k],
{
    reveal_strlit(".");
    reveal_strlit("\\OpenWithProgids");
    let p = register_plan(exe);
    assert forall|i: int, k: int|
        0 <= i < p.len() && 0 <= k < sound_extensions().len() implies #[trigger] p[i].0 != "."@
        + #[trigger] sound_extensions()[k] by {
        lemma_plan_key_shapes(exe, i);
        if i >= 6 && (i - 6) % 2 == 0 {
            let j = (i - 6) / 2;
            assert(p[i].0.len() == 1 + sound_extensions()[j].len() + 16);
            assert(sound_extensions()[k].len() <= 4);
        } else {
            assert(("."@ + sound_extensions()[k])[0] == '.');
        }
    }
}

/// The registered path is the executable's path with only `/` turned into
/// `\\`: same length, every other character kept as it is.
pub proof fn lemma_backslashed_keeps_path(exe: Seq<char>)
    ensures
        backslashed(exe).len() == exe.len(),
        forall|i: int|
            0 <= i < exe.len() ==> #[trigger] backslashed(exe)[i] == if exe[i] == '/' {
                '\\'
            } else {
                exe[i]
            },
{
}

/// Registering opens sounds with the executable it was given: the open
/// command is the quoted executable path (slashes as backslashes) followed
/// by the quoted file argument, and the icon is taken from that executable.
pub proof fn lemma_register_names_executable(exe: Seq<char>)
    ensures
        ({
            let q = open_command(exe);
            &&& q.len() == exe.len() + 7
            &&& q[0] == '"'
            &&& forall|i: int|
                0 <= i < exe.len() ==> #[trigger] q[i + 1] == if exe[i] == '/' { '\\' } else { exe[i] }
            &&& q.skip(exe.len() + 1int) == "\" \"%1\""@
        }),
        register_plan(exe)[2] == ("vgplay.sound\\shell\\open\\command"@, Some((""@, open_command(exe)))),
        register_plan(exe)[1].1 == Some((""@, backslashed(exe) + ",0"@)),
{
    reveal_strlit("\"");
    reveal_strlit("\" \"%1\"");
    let q = open_command(exe);
    let b = backslashed(exe);
    assert(q.skip(exe.len() + 1int) =~= "\" \"%1\""@);
    assert forall|i: int| 0 <= i < exe.len() implies #[trigger] q[i + 1] == if exe[i] == '/' {
        '\\'
    } else {
        exe[i]
    } by {
        assert(q[i + 1] == b[i]);
    }
}

} // verus!
