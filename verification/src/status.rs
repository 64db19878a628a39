use vstd::prelude::*;
use crate::ascii::{push_char, upper_seq, spec_upper, to_upper, chars_of};
use vstd::string::StringExecFns;
use crate::files::{extension, extension_start, spec_is_sound, sound_extensions};
use crate::ascii::{lower_seq, spec_lower, is_ascii_lower, is_digit};
use crate::font::has_glyph;
use crate::order::{all_digits, digits_value, digit_value, pow10};

verus! {

/// The decimal digit character for `d` (0 to 9).
pub open spec fn digit_char(d: int) -> char {
    (('0' as int) + d) as char
}

/// `n` written in decimal, without leading zeros (`0` is "0").
pub open spec fn decimal(n: nat) -> Seq<char>
    decreases n,
{
    if n < 10 {
        seq![digit_char(n as int)]
    } else {
        decimal(n / 10).push(digit_char((n % 10) as int))
    }
}

/// `n` in decimal, zero-padded to at least two digits.
pub open spec fn decimal2(n: nat) -> Seq<char> {
    if n < 10 {
        seq!['0', digit_char(n as int)]
    } else {
        decimal(n)
    }
}

/// Append `n` in decimal to `s`.
pub fn push_decimal(s: &mut String, n: u64)
    ensures
        final(s)@ == old(s)@ + decimal(n as nat),
    decreases n,
{
    if n >= 10 {
        push_decimal(s, n / 10);
    }
    let d: u8 = (n % 10) as u8;
    let c: char = (48u8 + d) as char;
    assert(c == digit_char((n % 10) as int));
    push_char(s, c);
    assert(decimal(n as nat) == if n < 10 {
        seq![digit_char(n as int)]
    } else {
        decimal((n / 10) as nat).push(digit_char((n % 10) as int))
    });
}

/// "M:SS" for a time of `secs` whole seconds: minutes unpadded, seconds
/// zero-padded to two digits.
pub open spec fn spec_fmt_time(secs: nat) -> Seq<char> {
    decimal(secs / 60) + seq![':'] + decimal2(secs % 60)
}

/// "M:SS" from a time in whole seconds (minutes are not zero-padded; seconds are).
pub fn fmt_time(secs: u64) -> (text: String)
    ensures
        text@ == spec_fmt_time(secs as nat),
{
    let mut text = String::new();
    push_decimal(&mut text, secs / 60);
    push_char(&mut text, ':');
    let rest = secs % 60;
    if rest < 10 {
        push_char(&mut text, '0');
    }
    push_decimal(&mut text, rest);
    proof {
        if rest < 10 {
            assert(decimal(rest as nat) == seq![digit_char(rest as int)]);
        }
    }
    assert(text@ =~= spec_fmt_time(secs as nat));
    text
}

/// What the status line shows of a decoded track.
#[derive(Clone, Copy, Debug, PartialEq, Eq)]
pub struct TrackInfo {
    /// Samples per second.
    pub sample_rate: u32,
    /// Channel count.
    pub channels: u16,
    /// Source bit depth; `None` for lossy codecs, which have none.
    pub bits: Option<u16>,
    /// Length of the track in whole seconds.
    pub duration_secs: u64,
}

/// The separator between status fields: three spaces.
pub open spec fn status_sep() -> Seq<char> {
    "   "@
}

/// The file's format as the status line names it: its extension, upper-cased
/// (ASCII); empty when it has none.
pub open spec fn format_label(name: Seq<char>) -> Seq<char> {
    match extension(name) {
        Some(e) => upper_seq(e),
        None => seq![],
    }
}

/// The channel layout: "MONO", "STEREO", or the count followed by "CH".
pub open spec fn channel_label(channels: u16) -> Seq<char> {
    if channels == 1 {
        "MONO"@
    } else if channels == 2 {
        "STEREO"@
    } else {
        decimal(channels as nat) + "CH"@
    }
}

/// The status line: the format alone while nothing is known of the track;
/// then format, sample rate in hertz, bit depth (when the codec has one),
/// channel layout, and position / duration, three spaces apart.
pub open spec fn spec_status_line(name: Seq<char>, info: Option<&TrackInfo>, pos_secs: nat) -> Seq<
    char,
> {
    match info {
        None => format_label(name),
        Some(t) => format_label(name) + status_sep() + decimal(t.sample_rate as nat) + " HZ"@ + (
        match t.bits {
            Some(b) => status_sep() + decimal(b as nat) + " BIT"@,
            None => seq![],
        }) + status_sep() + channel_label(t.channels) + status_sep() + spec_fmt_time(pos_secs)
            + " / "@ + spec_fmt_time(t.duration_secs as nat),
    }
}

/// Append `v[from..]`, ASCII upper-cased, to `s`.
fn push_upper_from(s: &mut String, v: &[char], from: usize)
    requires
        from <= v@.len(),
    ensures
        final(s)@ == old(s)@ + upper_seq(v@.skip(from as int)),
{
    let mut k = from;
    while k < v.len()
        invariant
            from <= k <= v@.len(),
            s@ == old(s)@ + upper_seq(v@.subrange(from as int, k as int)),
        decreases v@.len() - k,
    {
        push_char(s, to_upper(v[k]));
        assert(upper_seq(v@.subrange(from as int, k + 1)) =~= upper_seq(
            v@.subrange(from as int, k as int),
        ).push(spec_upper(v@[k as int])));
        k = k + 1;
    }
    assert(v@.subrange(from as int, v@.len() as int) =~= v@.skip(from as int));
}

/// Append the channel layout of `channels` to `s`.
fn push_channels(s: &mut String, channels: u16)
    ensures
        final(s)@ == old(s)@ + channel_label(channels),
{
    if channels == 1 {
        s.append("MONO");
    } else if channels == 2 {
        s.append("STEREO");
    } else {
        push_decimal(s, channels as u64);
        s.append("CH");
    }
}

/// The one-line status for the file named `name`: FORMAT, sample rate (full
/// Hz), bit depth (when the codec has one), channel layout, position /
/// duration, fields separated by three spaces. Before the track is analysed
/// (`info` is `None`) only the format shows.
pub fn status_line(name: &str, info: Option<&TrackInfo>, pos_secs: u64) -> (line: String)
    ensures
        line@ == spec_status_line(name@, info, pos_secs as nat),
{
    let v = chars_of(name);
    let mut line = String::new();
    match extension_start(v.as_slice()) {
        Some(p) => push_upper_from(&mut line, v.as_slice(), p),
        None => {},
    }
    assert(line@ =~= format_label(name@));
    match info {
        None => line,
        Some(t) => {
            line.append("   ");
            push_decimal(&mut line, t.sample_rate as u64);
            line.append(" HZ");
            match t.bits {
                Some(b) => {
                    line.append("   ");
                    push_decimal(&mut line, b as u64);
                    line.append(" BIT");
                },
                None => {},
            }
            line.append("   ");
            push_channels(&mut line, t.channels);
            line.append("   ");
            let now = fmt_time(pos_secs);
            line.append(now.as_str());
            line.append(" / ");
            let total = fmt_time(t.duration_secs);
            line.append(total.as_str());
            assert(line@ =~= spec_status_line(name@, info, pos_secs as nat));
            line
        },
    }
}

/// What a container header says of one of its tracks: whether it names a
/// codec, and the bits per sample it declares.
#[derive(Clone, Copy, Debug, PartialEq, Eq)]
pub struct TrackHeader {
    pub has_codec: bool,
    pub bits_per_sample: Option<u32>,
}

/// Index of the first track that names a codec, or `tracks.len()` if none.
pub open spec fn first_coded(tracks: Seq<TrackHeader>) -> int
    decreases tracks.len(),
{
    if tracks.len() == 0 {
        0
    } else if tracks[0].has_codec {
        0
    } else {
        1 + first_coded(tracks.drop_first())
    }
}

/// The source bit depth from a container's track headers: that of the first
/// track with a codec (truncated to 16 bits), none when there is no such
/// track or it declares none (lossy codecs).
pub fn source_bits(tracks: &[TrackHeader]) -> (bits: Option<u16>)
    ensures
        bits == if first_coded(tracks@) < tracks@.len() {
            match tracks@[first_coded(tracks@)].bits_per_sample {
                Some(b) => Some(b as u16),
                None => None,
            }
        } else {
            None
        },
{
    let mut i: usize = 0;
    assert(tracks@.skip(0) =~= tracks@);
    while i < tracks.len() && !tracks[i].has_codec
        invariant
            i <= tracks@.len(),
            first_coded(tracks@) == i + first_coded(tracks@.skip(i as int)),
        decreases tracks@.len() - i,
    {
        assert(tracks@.skip(i as int).drop_first() =~= tracks@.skip(i + 1));
        i = i + 1;
    }
    if i < tracks.len() {
        assert(tracks@.skip(i as int)[0] == tracks@[i as int]);
        match tracks[i].bits_per_sample {
            Some(b) => Some(b as u16),
            None => None,
        }
    } else {
        None
    }
}

/// Every character of `s` is a space or one the font draws.
pub open spec fn drawable(s: Seq<char>) -> bool {
    forall|i: int| 0 <= i < s.len() ==> #[trigger] s[i] == ' ' || has_glyph(s[i])
}

proof fn lemma_drawable_concat(a: Seq<char>, b: Seq<char>)
    requires
        drawable(a),
        drawable(b),
    ensures
        drawable(a + b),
{
    assert forall|i: int| 0 <= i < (a + b).len() implies #[trigger] (a + b)[i] == ' ' || has_glyph(
        (a + b)[i],
    ) by {
        if i < a.len() {
            assert((a + b)[i] == a[i]);
        } else {
            assert((a + b)[i] == b[i - a.len()]);
        }
    }
}

proof fn lemma_decimal_drawable(n: nat)
    ensures
        drawable(decimal(n)),
    decreases n,
{
    if n >= 10 {
        lemma_decimal_drawable(n / 10);
        lemma_drawable_concat(decimal(n / 10), seq![digit_char((n % 10) as int)]);
        assert(decimal(n / 10).push(digit_char((n % 10) as int)) =~= decimal(n / 10) + seq![
            digit_char((n % 10) as int),
        ]);
    }
}

proof fn lemma_fmt_time_drawable(secs: nat)
    ensures
        drawable(spec_fmt_time(secs)),
{
    lemma_decimal_drawable(secs / 60);
    lemma_decimal_drawable(secs % 60);
    lemma_drawable_concat(decimal(secs / 60), seq![':']);
    lemma_drawable_concat(decimal(secs / 60) + seq![':'], decimal2(secs % 60));
}

/// A character whose ASCII lower case is a lower-case letter or a digit
/// upper-cases to a character the font draws.
proof fn lemma_upper_drawable(c: char)
    requires
        is_ascii_lower(spec_lower(c)) || is_digit(spec_lower(c)),
    ensures
        has_glyph(spec_upper(c)),
{
}

/// The sound extensions are spelled with lower-case letters and digits.
proof fn lemma_extension_chars(k: int, i: int)
    requires
        0 <= k < sound_extensions().len(),
        0 <= i < sound_extensions()[k].len(),
    ensures
        is_ascii_lower(sound_extensions()[k][i]) || is_digit(sound_extensions()[k][i]),
{
    let x = sound_extensions()[k];
    assert(i == 0 || i == 1 || i == 2 || i == 3);
    assert(is_ascii_lower(x[0]) && (is_ascii_lower(x[1]) || is_digit(x[1])) && (is_ascii_lower(x[2])
        || is_digit(x[2])));
    if x.len() > 3 {
        assert(is_ascii_lower(x[3]));
    }
}

proof fn lemma_label_drawable(name: Seq<char>)
    requires
        spec_is_sound(name),
    ensures
        drawable(format_label(name)),
{
    let e = extension(name)->0;
    let exts = sound_extensions();
    let k = choose|k: int| 0 <= k < exts.len() && exts[k] == lower_seq(e);
    assert(0 <= k < 4);
    let l = upper_seq(e);
    assert forall|i: int| 0 <= i < l.len() implies #[trigger] l[i] == ' ' || has_glyph(l[i]) by {
        assert(lower_seq(e)[i] == spec_lower(e[i]));
        assert(exts[k][i] == spec_lower(e[i]));
        lemma_extension_chars(k, i);
        lemma_upper_drawable(e[i]);
    }
}

/// The status line of a sound file only uses characters the bitmap font
/// draws (besides spaces): nothing in it renders blank by accident.
pub proof fn lemma_status_line_drawable(name: Seq<char>, info: Option<&TrackInfo>, pos_secs: nat)
    requires
        spec_is_sound(name),
    ensures
        drawable(spec_status_line(name, info, pos_secs)),
{
    reveal_strlit("   ");
    reveal_strlit(" HZ");
    reveal_strlit(" BIT");
    reveal_strlit("MONO");
    reveal_strlit("STEREO");
    reveal_strlit("CH");
    reveal_strlit(" / ");
    lemma_label_drawable(name);
    if let Some(t) = info {
        let sep = status_sep();
        let rate = decimal(t.sample_rate as nat) + " HZ"@;
        let bits = match t.bits {
            Some(b) => status_sep() + decimal(b as nat) + " BIT"@,
            None => seq![],
        };
        let chans = channel_label(t.channels);
        let now = spec_fmt_time(pos_secs);
        let total = spec_fmt_time(t.duration_secs as nat);
        assert(drawable(sep));
        assert(drawable(" HZ"@));
        assert(drawable(" BIT"@));
        assert(drawable(" / "@));
        lemma_decimal_drawable(t.sample_rate as nat);
        lemma_drawable_concat(decimal(t.sample_rate as nat), " HZ"@);
        if let Some(b) = t.bits {
            lemma_decimal_drawable(b as nat);
            lemma_drawable_concat(sep, decimal(b as nat));
            lemma_drawable_concat(sep + decimal(b as nat), " BIT"@);
        }
        assert(drawable(bits));
        if t.channels != 1 && t.channels != 2 {
            lemma_decimal_drawable(t.channels as nat);
            assert(drawable("CH"@));
            lemma_drawable_concat(decimal(t.channels as nat), "CH"@);
        } else {
            assert(drawable("MONO"@));
            assert(drawable("STEREO"@));
        }
        assert(drawable(chans));
        lemma_fmt_time_drawable(pos_secs);
        lemma_fmt_time_drawable(t.duration_secs as nat);
        let label = format_label(name);
        lemma_drawable_concat(label, sep);
        lemma_drawable_concat(label + sep, rate);
        lemma_drawable_concat(label + sep + rate, bits);
        lemma_drawable_concat(label + sep + rate + bits, sep);
        lemma_drawable_concat(label + sep + rate + bits + sep, chans);
        lemma_drawable_concat(label + sep + rate + bits + sep + chans, sep);
        lemma_drawable_concat(label + sep + rate + bits + sep + chans + sep, now);
        lemma_drawable_concat(label + sep + rate + bits + sep + chans + sep + now, " / "@);
        lemma_drawable_concat(label + sep + rate + bits + sep + chans + sep + now + " / "@, total);
        assert(spec_status_line(name, info, pos_secs) =~= label + sep + rate + bits + sep + chans + sep
            + now + " / "@ + total);
    }
}

/// Appending digit `c` to digits `s` multiplies their value by ten and adds
/// the digit.
proof fn lemma_digits_value_push(s: Seq<char>, c: char)
    ensures
        digits_value(s.push(c)) == 10 * digits_value(s) + digit_value(c),
    decreases s.len(),
{
    let u = s.push(c);
    assert(digits_value(u) == digit_value(u[0]) * pow10((u.len() - 1) as nat) + digits_value(
        u.drop_first(),
    ));
    if s.len() > 0 {
        let t = s.drop_first();
        assert(u.drop_first() =~= t.push(c));
        assert(u[0] == s[0]);
        lemma_digits_value_push(t, c);
        let d = digit_value(s[0]);
        let p = pow10((s.len() - 1) as nat);
        assert(digits_value(s) == d * p + digits_value(t));
        assert(pow10(s.len()) == 10 * p);
        assert(d * (10 * p) == 10 * (d * p)) by (nonlinear_arith);
        assert((u.len() - 1) as nat == s.len());
        assert(digits_value(u) == d * (10 * p) + digits_value(t.push(c)));
    } else {
        assert(u.drop_first() =~= Seq::<char>::empty());
        assert(u[0] == c);
        assert(pow10(0) == 1);
        assert(digits_value(s) == 0);
        assert(digits_value(u.drop_first()) == 0);
        assert(digit_value(c) * pow10(0) == digit_value(c)) by (nonlinear_arith)
            requires pow10(0) == 1;
    }
}

/// `decimal(n)` spells `n`: it is made of digits, their value is `n`, and it
/// has no leading zero (only `0` itself starts with `'0'`); below ten it is a
/// single digit.
pub proof fn lemma_decimal_spells(n: nat)
    ensures
        decimal(n).len() >= 1,
        all_digits(decimal(n)),
        digits_value(decimal(n)) == n,
        n >= 1 ==> decimal(n)[0] != '0',
        n < 10 <==> decimal(n).len() == 1,
    decreases n,
{
    if n < 10 {
        lemma_digits_value_push(Seq::<char>::empty(), digit_char(n as int));
        assert(Seq::<char>::empty().push(digit_char(n as int)) =~= seq![digit_char(n as int)]);
        assert(digit_value(digit_char(n as int)) == n);
    } else {
        let m = n / 10;
        lemma_decimal_spells(m);
        let d = digit_char((n % 10) as int);
        lemma_digits_value_push(decimal(m), d);
        assert(digit_value(d) == n % 10);
        assert(decimal(n) == decimal(m).push(d));
        assert(decimal(n)[0] == decimal(m)[0]);
        assert forall|i: int| 0 <= i < decimal(n).len() implies crate::ascii::is_digit(
            #[trigger] decimal(n)[i],
        ) by {
            if i < decimal(m).len() {
                assert(decimal(n)[i] == decimal(m)[i]);
            }
        }
    }
}

/// The time "M:SS" spells `secs`: whole minutes in digits without leading
/// zeros, a colon, and the seconds within the minute in exactly two digits.
pub proof fn lemma_fmt_time_fields(secs: nat)
    ensures
        ({
            let r = spec_fmt_time(secs);
            let k = r.len() - 3;
            &&& k >= 1
            &&& r[k] == ':'
            &&& all_digits(r.take(k))
            &&& digits_value(r.take(k)) == secs / 60
            &&& (k == 1 || r[0] != '0')
            &&& r.skip(k + 1).len() == 2
            &&& all_digits(r.skip(k + 1))
            &&& digits_value(r.skip(k + 1)) == secs % 60
        }),
{
    let m = decimal(secs / 60);
    let t = decimal2(secs % 60);
    lemma_decimal_spells(secs / 60);
    lemma_decimal_spells(secs % 60);
    let n = secs % 60;
    if n < 10 {
        let c = digit_char(n as int);
        lemma_digits_value_push(seq!['0'], c);
        assert(seq!['0'].push(c) =~= t);
        assert(digits_value(seq!['0']) == digit_value('0') * pow10(0) + digits_value(seq!['0'].drop_first()));
        assert(seq!['0'].drop_first() =~= Seq::<char>::empty());
        assert(all_digits(t)) by {
            assert(t[0] == '0');
            assert(t[1] == c);
        }
    } else {
        assert(decimal(n) == decimal(n / 10).push(digit_char((n % 10) as int)));
        lemma_decimal_spells(n / 10);
    }
    let r = spec_fmt_time(secs);
    assert(r =~= m + seq![':'] + t);
    let k = r.len() - 3;
    assert(k == m.len());
    assert(r.take(k) =~= m);
    assert(r.skip(k + 1) =~= t);
    if k > 1 {
        assert(m[0] != '0');
    }
}

} // verus!
