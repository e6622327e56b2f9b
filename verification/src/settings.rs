//! The user's settings and the text file they are stored in.
//!
//! The file holds one `key=value` pair per line. Reading it never fails:
//! anything missing, unknown or malformed keeps its default.

use vstd::prelude::*;

use crate::animation::{BlinkRate, key_of, lemma_key_round_trip, rate_of_key};
use crate::text::{
    chars_of, decimal_digits, find_char, find_char_in, index_of, is_whitespace,
    lemma_decimal_digits, lemma_digits_plain, lemma_index_of_at, lemma_parse_unsigned_decimal,
    lemma_split_first, lemma_split_whole, lemma_trim_unchanged, parse_unsigned,
    parse_unsigned_range, push_char, push_decimal, push_str, range_equals, split, split_from, trim,
    trimmed,
};

verus! {

/// Opacity levels offered in the tray and context menus, in percent.
pub const OPACITY_CHOICES: [u8; 4] = [100, 75, 50, 25];

/// The faintest the face is ever drawn, in percent.
pub const MIN_OPACITY: u8 = 10;

pub const ALWAYS_ON_TOP_KEY: &'static str = "always_on_top";
pub const ALL_DESKTOPS_KEY: &'static str = "show_on_all_desktops";
pub const OPACITY_KEY: &'static str = "opacity";
pub const BLINK_KEY: &'static str = "blink";

#[derive(Clone, Copy, Debug, PartialEq, Eq, Structural)]
pub struct Settings {
    pub always_on_top: bool,
    /// Whether the window follows the user between desktops. Only macOS acts on
    /// this; Windows offers no supported way to pin a window across its virtual
    /// desktops.
    pub show_on_all_desktops: bool,
    pub opacity_percent: u8,
    pub blink: BlinkRate,
}

pub open spec fn default_settings() -> Settings {
    Settings {
        always_on_top: false,
        show_on_all_desktops: true,
        opacity_percent: 100,
        blink: BlinkRate::Standard,
    }
}

/// An opacity kept within the visible range `MIN_OPACITY ..= 100`.
pub open spec fn visible_opacity(percent: u8) -> u8 {
    if percent < MIN_OPACITY {
        MIN_OPACITY
    } else if percent > 100 {
        100
    } else {
        percent
    }
}

/// `settings` with its opacity kept within the visible range: what a
/// settings file can hold.
pub open spec fn normalized(settings: Settings) -> Settings {
    Settings { opacity_percent: visible_opacity(settings.opacity_percent), ..settings }
}

pub open spec fn bool_text(b: bool) -> Seq<char> {
    if b {
        "true"@
    } else {
        "false"@
    }
}

/// The setting one `key=value` line leaves behind when read on top of
/// `settings`. A line without `=`, an unknown key, or a value that does not
/// fit the key leaves `settings` as it was.
pub open spec fn apply_line(settings: Settings, line: Seq<char>) -> Settings {
    let eq = index_of(line, '=', 0);
    if eq >= line.len() {
        settings
    } else {
        let key = trim(line.subrange(0, eq));
        let value = trim(line.subrange(eq + 1, line.len() as int));
        if key == ALWAYS_ON_TOP_KEY@ {
            Settings { always_on_top: value == "true"@, ..settings }
        } else if key == ALL_DESKTOPS_KEY@ {
            Settings { show_on_all_desktops: value == "true"@, ..settings }
        } else if key == BLINK_KEY@ {
            match rate_of_key(value) {
                Some(rate) => Settings { blink: rate, ..settings },
                None => settings,
            }
        } else if key == OPACITY_KEY@ {
            match parse_unsigned(value, 255) {
                Some(percent) => Settings {
                    opacity_percent: visible_opacity(percent as u8),
                    ..settings
                },
                None => settings,
            }
        } else {
            settings
        }
    }
}

/// The settings a file holding `text` describes: its lines read one after
/// the other on top of the defaults.
///
/// The lines are the pieces between newlines. `str::lines` also drops a final
/// empty piece and a carriage return before each newline; neither can change
/// a setting, since an empty line holds no `=` and the return is whitespace
/// that the value is trimmed of.
pub open spec fn parse_text(text: Seq<char>) -> Settings {
    split(text, '\n').fold_left(
        default_settings(),
        |settings: Settings, line: Seq<char>| apply_line(settings, line),
    )
}

/// One `key=value` line with its newline.
pub open spec fn entry(key: Seq<char>, value: Seq<char>) -> Seq<char> {
    key + seq!['='] + value + seq!['\n']
}

/// The text `serialize` writes for `settings`.
pub open spec fn serialized(settings: Settings) -> Seq<char> {
    entry(ALWAYS_ON_TOP_KEY@, bool_text(settings.always_on_top)) + entry(
        ALL_DESKTOPS_KEY@,
        bool_text(settings.show_on_all_desktops),
    ) + entry(OPACITY_KEY@, decimal_digits(visible_opacity(settings.opacity_percent) as nat))
        + entry(BLINK_KEY@, key_of(settings.blink))
}

impl Default for Settings {
    fn default() -> (settings: Self)
        ensures
            settings == default_settings(),
    {
        Settings {
            always_on_top: false,
            show_on_all_desktops: true,
            opacity_percent: 100,
            blink: BlinkRate::Standard,
        }
    }
}

impl Settings {
    /// The opacity in percent, kept within the visible range.
    pub fn visible_opacity_percent(self) -> (percent: u8)
        ensures
            percent == visible_opacity(self.opacity_percent),
            MIN_OPACITY <= percent <= 100,
    {
        clamp_opacity(self.opacity_percent)
    }
}

fn clamp_opacity(percent: u8) -> (r: u8)
    ensures
        r == visible_opacity(percent),
{
    if percent < MIN_OPACITY {
        MIN_OPACITY
    } else if percent > 100 {
        100
    } else {
        percent
    }
}

/// The settings file's text for `settings`.
pub fn serialize(settings: Settings) -> (text: String)
    ensures
        text@ == serialized(settings),
{
    let mut text = String::new();
    push_entry_start(&mut text, ALWAYS_ON_TOP_KEY);
    push_bool(&mut text, settings.always_on_top);
    push_char(&mut text, '\n');
    push_entry_start(&mut text, ALL_DESKTOPS_KEY);
    push_bool(&mut text, settings.show_on_all_desktops);
    push_char(&mut text, '\n');
    push_entry_start(&mut text, OPACITY_KEY);
    push_decimal(&mut text, clamp_opacity(settings.opacity_percent) as u64);
    push_char(&mut text, '\n');
    push_entry_start(&mut text, BLINK_KEY);
    push_str(&mut text, settings.blink.key());
    push_char(&mut text, '\n');
    assert(text@ =~= serialized(settings));
    text
}

fn push_entry_start(text: &mut String, key: &str)
    ensures
        final(text)@ == old(text)@ + key@ + seq!['='],
{
    push_str(text, key);
    push_char(text, '=');
}

fn push_bool(text: &mut String, b: bool)
    ensures
        final(text)@ == old(text)@ + bool_text(b),
{
    if b {
        push_str(text, "true");
    } else {
        push_str(text, "false");
    }
}

/// The settings a file holding `text` describes; anything missing or
/// malformed keeps its default.
pub fn parse(text: &str) -> (settings: Settings)
    ensures
        settings == parse_text(text@),
{
    let chars = chars_of(text);
    let n = chars.len();
    let mut settings = Settings::default();
    let mut i: usize = 0;
    let ghost f = |settings: Settings, line: Seq<char>| apply_line(settings, line);
    let ghost mut done: Seq<Seq<char>> = Seq::empty();
    assert(split(chars@, '\n') == done + split_from(chars@, '\n', 0));
    loop
        invariant_except_break
            split(chars@, '\n') == done + split_from(chars@, '\n', i as int),
            settings == done.fold_left(default_settings(), f),
        invariant
            i <= n,
            n == chars@.len(),
            chars@ == text@,
            f == (|settings: Settings, line: Seq<char>| apply_line(settings, line)),
        ensures
            settings == split(chars@, '\n').fold_left(default_settings(), f),
        decreases n - i,
    {
        let e = find_char(&chars, '\n', i);
        let ghost line = chars@.subrange(i as int, e as int);
        let ghost before = done;
        settings = apply_line_in(settings, &chars, i, e);
        proof {
            done = done.push(line);
            assert(done.drop_last() =~= before);
        }
        if e == n {
            assert(split_from(chars@, '\n', i as int) =~= seq![line]);
            assert(split(chars@, '\n') =~= done);
            break;
        }
        assert(split_from(chars@, '\n', i as int) =~= seq![line] + split_from(
            chars@,
            '\n',
            e + 1,
        ));
        assert(split(chars@, '\n') =~= done + split_from(chars@, '\n', e + 1));
        i = e + 1;
    }
    settings
}

/// Reads the line `s[start..end]` on top of `settings`.
fn apply_line_in(settings: Settings, s: &[char], start: usize, end: usize) -> (r: Settings)
    requires
        start <= end <= s@.len(),
    ensures
        r == apply_line(settings, s@.subrange(start as int, end as int)),
{
    let ghost line = s@.subrange(start as int, end as int);
    let eq = find_char_in(s, '=', start, end);
    if eq == end {
        return settings;
    }
    let (key_start, key_end) = trimmed(s, start, eq);
    let (value_start, value_end) = trimmed(s, eq + 1, end);
    assert(line.subrange(0, eq - start) =~= s@.subrange(start as int, eq as int));
    assert(line.subrange(eq - start + 1, line.len() as int) =~= s@.subrange(eq + 1, end as int));
    let mut r = settings;
    if range_equals(s, key_start, key_end, &chars_of(ALWAYS_ON_TOP_KEY)) {
        r.always_on_top = range_equals(s, value_start, value_end, &chars_of("true"));
    } else if range_equals(s, key_start, key_end, &chars_of(ALL_DESKTOPS_KEY)) {
        r.show_on_all_desktops = range_equals(s, value_start, value_end, &chars_of("true"));
    } else if range_equals(s, key_start, key_end, &chars_of(BLINK_KEY)) {
        if let Some(rate) = BlinkRate::from_key_in(s, value_start, value_end) {
            r.blink = rate;
        }
    } else if range_equals(s, key_start, key_end, &chars_of(OPACITY_KEY)) {
        if let Some(percent) = parse_unsigned_range(s, value_start, value_end, 255) {
            r.opacity_percent = clamp_opacity(percent as u8);
        }
    }
    r
}

/// The parts a plain `key=value` line is read as: the first `=` ends the key,
/// and neither side has whitespace to trim.
proof fn lemma_entry_parts(key: Seq<char>, value: Seq<char>)
    requires
        key.len() > 0,
        !key.contains('='),
        !is_whitespace(key[0]),
        !is_whitespace(key.last()),
        value.len() > 0 ==> !is_whitespace(value[0]) && !is_whitespace(value.last()),
    ensures
        ({
            let line = key + seq!['='] + value;
            &&& index_of(line, '=', 0) == key.len()
            &&& trim(line.subrange(0, key.len() as int)) == key
            &&& trim(line.subrange(key.len() + 1int, line.len() as int)) == value
        }),
{
    let line = key + seq!['='] + value;
    assert forall|k: int| 0 <= k < key.len() implies line[k] != '=' by {
        assert(line[k] == key[k]);
        if key[k] == '=' {
            assert(key.contains('='));
        }
    }
    lemma_index_of_at(line, '=', 0, key.len() as int);
    assert(line.subrange(0, key.len() as int) =~= key);
    assert(line.subrange(key.len() + 1int, line.len() as int) =~= value);
    lemma_trim_unchanged(key);
    lemma_trim_unchanged(value);
}

/// A plain key or value, seen through the facts the parser needs.
proof fn lemma_plain(s: Seq<char>)
    requires
        s.len() > 0,
        forall|k: int| 0 <= k < s.len() ==> 'a' as u32 <= #[trigger] s[k] as u32 <= 'z' as u32
            || s[k] == '_',
    ensures
        !s.contains('='),
        !s.contains('\n'),
        !is_whitespace(s[0]),
        !is_whitespace(s.last()),
{
    if s.contains('=') {
        let k = choose|k: int| 0 <= k < s.len() && s[k] == '=';
        assert('a' as u32 <= s[k] as u32 <= 'z' as u32 || s[k] == '_');
    }
    if s.contains('\n') {
        let k = choose|k: int| 0 <= k < s.len() && s[k] == '\n';
        assert('a' as u32 <= s[k] as u32 <= 'z' as u32 || s[k] == '_');
    }
    assert('a' as u32 <= s[0] as u32 <= 'z' as u32 || s[0] == '_');
    assert('a' as u32 <= s[s.len() - 1] as u32 <= 'z' as u32 || s[s.len() - 1] == '_');
}

/// The four lines `serialize` writes, without their newlines.
spec fn serialized_lines(settings: Settings) -> Seq<Seq<char>> {
    seq![
        ALWAYS_ON_TOP_KEY@ + seq!['='] + bool_text(settings.always_on_top),
        ALL_DESKTOPS_KEY@ + seq!['='] + bool_text(settings.show_on_all_desktops),
        OPACITY_KEY@ + seq!['='] + decimal_digits(visible_opacity(settings.opacity_percent) as nat),
        BLINK_KEY@ + seq!['='] + key_of(settings.blink),
    ]
}

/// The literal keys and values, spelled out.
proof fn lemma_literals()
    ensures
        ALWAYS_ON_TOP_KEY@ =~= seq!['a', 'l', 'w', 'a', 'y', 's', '_', 'o', 'n', '_', 't', 'o', 'p'],
        ALL_DESKTOPS_KEY@ =~= seq![
            's', 'h', 'o', 'w', '_', 'o', 'n', '_', 'a', 'l', 'l', '_', 'd', 'e', 's', 'k', 't',
            'o', 'p', 's'
        ],
        OPACITY_KEY@ =~= seq!['o', 'p', 'a', 'c', 'i', 't', 'y'],
        BLINK_KEY@ =~= seq!['b', 'l', 'i', 'n', 'k'],
        "true"@ =~= seq!['t', 'r', 'u', 'e'],
        "false"@ =~= seq!['f', 'a', 'l', 's', 'e'],
{
    reveal_strlit("always_on_top");
    reveal_strlit("show_on_all_desktops");
    reveal_strlit("opacity");
    reveal_strlit("blink");
    reveal_strlit("true");
    reveal_strlit("false");
}

/// Every key and value `serialize` writes is plain: no `=`, no newline, no
/// whitespace at either end.
proof fn lemma_serialized_parts_plain(settings: Settings)
    ensures
        !ALWAYS_ON_TOP_KEY@.contains('=') && !ALWAYS_ON_TOP_KEY@.contains('\n'),
        !ALL_DESKTOPS_KEY@.contains('=') && !ALL_DESKTOPS_KEY@.contains('\n'),
        !OPACITY_KEY@.contains('=') && !OPACITY_KEY@.contains('\n'),
        !BLINK_KEY@.contains('=') && !BLINK_KEY@.contains('\n'),
        !is_whitespace(ALWAYS_ON_TOP_KEY@[0]) && !is_whitespace(ALWAYS_ON_TOP_KEY@.last()),
        !is_whitespace(ALL_DESKTOPS_KEY@[0]) && !is_whitespace(ALL_DESKTOPS_KEY@.last()),
        !is_whitespace(OPACITY_KEY@[0]) && !is_whitespace(OPACITY_KEY@.last()),
        !is_whitespace(BLINK_KEY@[0]) && !is_whitespace(BLINK_KEY@.last()),
        ALWAYS_ON_TOP_KEY@.len() > 0 && ALL_DESKTOPS_KEY@.len() > 0,
        OPACITY_KEY@.len() > 0 && BLINK_KEY@.len() > 0,
        ALWAYS_ON_TOP_KEY@ != ALL_DESKTOPS_KEY@ && ALWAYS_ON_TOP_KEY@ != OPACITY_KEY@,
        ALWAYS_ON_TOP_KEY@ != BLINK_KEY@ && ALL_DESKTOPS_KEY@ != OPACITY_KEY@,
        ALL_DESKTOPS_KEY@ != BLINK_KEY@ && OPACITY_KEY@ != BLINK_KEY@,
        "true"@ != "false"@,
        ({
            let v = bool_text(settings.always_on_top);
            v.len() > 0 && !v.contains('\n') && !is_whitespace(v[0]) && !is_whitespace(v.last())
        }),
        ({
            let v = bool_text(settings.show_on_all_desktops);
            v.len() > 0 && !v.contains('\n') && !is_whitespace(v[0]) && !is_whitespace(v.last())
        }),
        ({
            let v = decimal_digits(visible_opacity(settings.opacity_percent) as nat);
            v.len() > 0 && !v.contains('\n') && !is_whitespace(v[0]) && !is_whitespace(v.last())
        }),
        ({
            let v = key_of(settings.blink);
            v.len() > 0 && !v.contains('\n') && !is_whitespace(v[0]) && !is_whitespace(v.last())
        }),
{
    lemma_literals();
    lemma_plain(ALWAYS_ON_TOP_KEY@);
    lemma_plain(ALL_DESKTOPS_KEY@);
    lemma_plain(OPACITY_KEY@);
    lemma_plain(BLINK_KEY@);
    lemma_plain("true"@);
    lemma_plain("false"@);
    let percent = visible_opacity(settings.opacity_percent);
    lemma_decimal_digits(percent as nat);
    lemma_digits_plain(decimal_digits(percent as nat), '\n');
    match settings.blink {
        BlinkRate::Standard => lemma_plain(key_of(settings.blink)),
        BlinkRate::Slow => lemma_plain(key_of(settings.blink)),
        BlinkRate::Off => lemma_plain(key_of(settings.blink)),
    }
}

/// The text `serialize` writes splits into its four lines and the empty piece
/// after the last newline.
proof fn lemma_serialized_split(settings: Settings)
    ensures
        split(serialized(settings), '\n') == serialized_lines(settings).push(Seq::<char>::empty()),
{
    lemma_serialized_parts_plain(settings);
    let lines = serialized_lines(settings);
    lemma_no_newline(ALWAYS_ON_TOP_KEY@, bool_text(settings.always_on_top));
    lemma_no_newline(ALL_DESKTOPS_KEY@, bool_text(settings.show_on_all_desktops));
    lemma_no_newline(
        OPACITY_KEY@,
        decimal_digits(visible_opacity(settings.opacity_percent) as nat),
    );
    lemma_no_newline(BLINK_KEY@, key_of(settings.blink));
    let empty = Seq::<char>::empty();
    let r4 = lines[3] + seq!['\n'] + empty;
    let r3 = lines[2] + seq!['\n'] + r4;
    let r2 = lines[1] + seq!['\n'] + r3;
    let text = lines[0] + seq!['\n'] + r2;
    assert(serialized(settings) =~= text);
    lemma_split_whole(empty, '\n');
    lemma_split_first(lines[3], '\n', empty);
    lemma_split_first(lines[2], '\n', r4);
    lemma_split_first(lines[1], '\n', r3);
    lemma_split_first(lines[0], '\n', r2);
    assert(split(text, '\n') =~= lines.push(empty));
}

/// Folding over five lines reads them one after the other.
proof fn lemma_fold_five(lines: Seq<Seq<char>>, start: Settings)
    requires
        lines.len() == 5,
    ensures
        lines.fold_left(start, |settings: Settings, line: Seq<char>| apply_line(settings, line))
            == apply_line(
            apply_line(
                apply_line(apply_line(apply_line(start, lines[0]), lines[1]), lines[2]),
                lines[3],
            ),
            lines[4],
        ),
{
    let g = |settings: Settings, line: Seq<char>| apply_line(settings, line);
    let p0 = Seq::<Seq<char>>::empty();
    let p1 = p0.push(lines[0]);
    let p2 = p1.push(lines[1]);
    let p3 = p2.push(lines[2]);
    let p4 = p3.push(lines[3]);
    assert(lines =~= p4.push(lines[4]));
    assert(p1.drop_last() =~= p0);
    assert(p2.drop_last() =~= p1);
    assert(p3.drop_last() =~= p2);
    assert(p4.drop_last() =~= p3);
    assert(lines.drop_last() =~= p4);
    assert(p0.fold_left(start, g) == start);
    assert(p1.fold_left(start, g) == g(start, lines[0]));
    assert(p2.fold_left(start, g) == g(p1.fold_left(start, g), lines[1]));
    assert(p3.fold_left(start, g) == g(p2.fold_left(start, g), lines[2]));
    assert(p4.fold_left(start, g) == g(p3.fold_left(start, g), lines[3]));
    assert(lines.fold_left(start, g) == g(p4.fold_left(start, g), lines[4]));
}

/// Reading back what `serialize` wrote gives the settings it was given, with
/// the opacity kept within the visible range.
pub proof fn lemma_serialize_round_trip(settings: Settings)
    ensures
        parse_text(serialized(settings)) == normalized(settings),
{
    lemma_serialized_parts_plain(settings);
    lemma_serialized_split(settings);
    let lines = serialized_lines(settings).push(Seq::<char>::empty());
    lemma_fold_five(lines, default_settings());
    let percent = visible_opacity(settings.opacity_percent);
    lemma_parse_unsigned_decimal(percent as nat, 255);
    lemma_key_round_trip(settings.blink);
    lemma_entry_parts(ALWAYS_ON_TOP_KEY@, bool_text(settings.always_on_top));
    lemma_entry_parts(ALL_DESKTOPS_KEY@, bool_text(settings.show_on_all_desktops));
    lemma_entry_parts(OPACITY_KEY@, decimal_digits(percent as nat));
    lemma_entry_parts(BLINK_KEY@, key_of(settings.blink));
    let s1 = apply_line(default_settings(), lines[0]);
    let s2 = apply_line(s1, lines[1]);
    let s3 = apply_line(s2, lines[2]);
    let s4 = apply_line(s3, lines[3]);
    assert(s1.always_on_top == settings.always_on_top);
    assert(s2.show_on_all_desktops == settings.show_on_all_desktops);
    assert(s3.opacity_percent == percent);
    assert(s4.blink == settings.blink);
    assert(index_of(lines[4], '=', 0) == 0);
}

/// A line built from plain parts holds no newline.
proof fn lemma_no_newline(key: Seq<char>, value: Seq<char>)
    requires
        !key.contains('\n'),
        !value.contains('\n'),
    ensures
        !(key + seq!['='] + value).contains('\n'),
{
    let line = key + seq!['='] + value;
    if line.contains('\n') {
        let k = choose|k: int| 0 <= k < line.len() && line[k] == '\n';
        if k < key.len() {
            assert(key[k] == '\n');
            assert(key.contains('\n'));
        } else if k > key.len() {
            assert(value[k - key.len() - 1] == '\n');
            assert(value.contains('\n'));
        }
    }
}

/// Whatever a settings file holds, the opacity read from it is within the
/// visible range.
pub proof fn lemma_parsed_opacity_is_visible(text: Seq<char>)
    ensures
        MIN_OPACITY <= parse_text(text).opacity_percent <= 100,
{
    lemma_fold_keeps_opacity_visible(split(text, '\n'), default_settings());
}

proof fn lemma_fold_keeps_opacity_visible(lines: Seq<Seq<char>>, start: Settings)
    requires
        MIN_OPACITY <= start.opacity_percent <= 100,
    ensures
        ({
            let end = lines.fold_left(
                start,
                |settings: Settings, line: Seq<char>| apply_line(settings, line),
            );
            MIN_OPACITY <= end.opacity_percent <= 100
        }),
    decreases lines.len(),
{
    if lines.len() > 0 {
        lemma_fold_keeps_opacity_visible(lines.drop_last(), start);
    }
}

/// A line with no `=`, or with a key the file does not use, leaves the
/// settings as they were.
pub proof fn lemma_unknown_lines_change_nothing(settings: Settings, line: Seq<char>)
    requires
        ({
            let eq = index_of(line, '=', 0);
            let key = trim(line.subrange(0, eq));
            eq >= line.len() || (key != ALWAYS_ON_TOP_KEY@ && key != ALL_DESKTOPS_KEY@ && key
                != BLINK_KEY@ && key != OPACITY_KEY@)
        }),
    ensures
        apply_line(settings, line) == settings,
{
}

} // verus!
