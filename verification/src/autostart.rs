//! The texts that launch Gaze automatically when the user signs in.
//!
//! Windows runs the command stored under the per-user `Run` registry key;
//! macOS runs the LaunchAgent property list in `~/Library/LaunchAgents`.
//! Writing them is the caller's; this module says what they hold.

use vstd::prelude::*;

use crate::text::{chars_of, push_char, push_str};

verus! {

/// The per-user registry key Windows runs programs from at sign-in.
pub const RUN_KEY: &'static str = "Software\\Microsoft\\Windows\\CurrentVersion\\Run";

/// The name Gaze's command is stored under in `RUN_KEY`.
pub const VALUE_NAME: &'static str = "Gaze";

/// Matches the bundle identifier the installer gives `Gaze.app`.
pub const LABEL: &'static str = "org.spumoni.gaze";

/// The LaunchAgent up to the executable's path.
pub const PLIST_HEAD: &'static str = "<?xml version=\"1.0\" encoding=\"UTF-8\"?>
<!DOCTYPE plist PUBLIC \"-//Apple//DTD PLIST 1.0//EN\" \"http://www.apple.com/DTDs/PropertyList-1.0.dtd\">
<plist version=\"1.0\">
<dict>
\t<key>Label</key>
\t<string>org.spumoni.gaze</string>
\t<key>ProgramArguments</key>
\t<array>
\t\t<string>";

/// The LaunchAgent after the executable's path.
pub const PLIST_TAIL: &'static str = "</string>
\t</array>
\t<key>RunAtLoad</key>
\t<true/>
\t<key>LimitLoadToSessionType</key>
\t<string>Aqua</string>
</dict>
</plist>
";

pub open spec fn amp_entity() -> Seq<char> {
    seq!['&', 'a', 'm', 'p', ';']
}

pub open spec fn lt_entity() -> Seq<char> {
    seq!['&', 'l', 't', ';']
}

pub open spec fn gt_entity() -> Seq<char> {
    seq!['&', 'g', 't', ';']
}

/// `str::replace` with a single character as the pattern: every `c` in `s`
/// becomes `r`.
pub open spec fn replace(s: Seq<char>, c: char, r: Seq<char>) -> Seq<char>
    decreases s.len(),
{
    if s.len() == 0 {
        Seq::empty()
    } else {
        replace(s.drop_last(), c, r) + if s.last() == c {
            r
        } else {
            seq![s.last()]
        }
    }
}

/// What `escape_xml` gives: `&`, `<` and `>` replaced by their entities, in
/// that order.
pub open spec fn escaped_xml(s: Seq<char>) -> Seq<char> {
    replace(replace(replace(s, '&', amp_entity()), '<', lt_entity()), '>', gt_entity())
}

/// One character as `escape_xml` writes it.
pub open spec fn escaped_char(c: char) -> Seq<char> {
    if c == '&' {
        amp_entity()
    } else if c == '<' {
        lt_entity()
    } else if c == '>' {
        gt_entity()
    } else {
        seq![c]
    }
}

/// The command the `Run` key holds: the executable's path in double quotes,
/// so that a path with spaces in it stays one argument.
pub open spec fn quoted(path: Seq<char>) -> Seq<char> {
    seq!['"'] + path + seq!['"']
}

/// The command that starts `executable` at sign-in.
pub fn startup_command(executable: &str) -> (command: String)
    ensures
        command@ == quoted(executable@),
{
    let mut command = String::new();
    push_char(&mut command, '"');
    push_str(&mut command, executable);
    push_char(&mut command, '"');
    assert(command@ =~= quoted(executable@));
    command
}

/// The LaunchAgent that runs `executable` at login.
pub fn agent_plist(executable: &str) -> (plist: String)
    ensures
        plist@ == PLIST_HEAD@ + escaped_xml(executable@) + PLIST_TAIL@,
{
    let mut plist = String::new();
    push_str(&mut plist, PLIST_HEAD);
    let escaped = escape_xml(executable);
    push_str(&mut plist, escaped.as_str());
    push_str(&mut plist, PLIST_TAIL);
    plist
}

/// `value` with the characters XML gives a meaning to written as entities.
pub fn escape_xml(value: &str) -> (escaped: String)
    ensures
        escaped@ == escaped_xml(value@),
{
    let chars = chars_of(value);
    let mut escaped = String::new();
    let mut i: usize = 0;
    while i < chars.len()
        invariant
            i <= chars@.len(),
            chars@ == value@,
            escaped@ == escaped_xml(chars@.subrange(0, i as int)),
        decreases chars.len() - i,
    {
        let c = chars[i];
        let ghost before = escaped@;
        if c == '&' {
            push_str(&mut escaped, "&amp;");
            proof { reveal_strlit("&amp;"); }
        } else if c == '<' {
            push_str(&mut escaped, "&lt;");
            proof { reveal_strlit("&lt;"); }
        } else if c == '>' {
            push_str(&mut escaped, "&gt;");
            proof { reveal_strlit("&gt;"); }
        } else {
            push_char(&mut escaped, c);
        }
        proof {
            assert(escaped@ =~= before + escaped_char(c));
            lemma_escaped_push(chars@.subrange(0, i as int), c);
            assert(chars@.subrange(0, i + 1) =~= chars@.subrange(0, i as int).push(c));
        }
        i += 1;
    }
    assert(chars@.subrange(0, chars@.len() as int) =~= chars@);
    escaped
}

/// Escaping one more character appends that character's escape.
proof fn lemma_escaped_push(s: Seq<char>, c: char)
    ensures
        escaped_xml(s.push(c)) == escaped_xml(s) + escaped_char(c),
{
    let p = s.push(c);
    assert(p.drop_last() =~= s);
    let a = replace(p, '&', amp_entity());
    let a0 = replace(s, '&', amp_entity());
    let ca = if c == '&' {
        amp_entity()
    } else {
        seq![c]
    };
    assert(a == a0 + ca);
    lemma_replace_concat(a0, ca, '<', lt_entity());
    let b0 = replace(a0, '<', lt_entity());
    let cb = replace(ca, '<', lt_entity());
    lemma_replace_concat(b0, cb, '>', gt_entity());
    let cc = replace(cb, '>', gt_entity());
    assert(cc == escaped_char(c)) by {
        lemma_replace_small(c);
    }
}

/// Replacing in a concatenation replaces in each part.
proof fn lemma_replace_concat(a: Seq<char>, b: Seq<char>, c: char, r: Seq<char>)
    ensures
        replace(a + b, c, r) == replace(a, c, r) + replace(b, c, r),
    decreases b.len(),
{
    if b.len() == 0 {
        assert(a + b =~= a);
        assert(replace(a, c, r) + replace(b, c, r) =~= replace(a, c, r));
    } else {
        assert((a + b).drop_last() =~= a + b.drop_last());
        lemma_replace_concat(a, b.drop_last(), c, r);
        assert((a + b).last() == b.last());
        let tail = if b.last() == c {
            r
        } else {
            seq![b.last()]
        };
        assert(replace(a + b, c, r) =~= replace(a, c, r) + replace(b.drop_last(), c, r) + tail);
    }
}

/// The three replacements, applied to what one character became.
proof fn lemma_replace_small(c: char)
    ensures
        replace(
            replace(
                if c == '&' {
                    amp_entity()
                } else {
                    seq![c]
                },
                '<',
                lt_entity(),
            ),
            '>',
            gt_entity(),
        ) == escaped_char(c),
{
    reveal_with_fuel(replace, 6);
    if c == '&' {
        let a = amp_entity();
        assert(a.drop_last().drop_last().drop_last().drop_last().drop_last() =~= Seq::<
            char,
        >::empty());
        assert(replace(a, '<', lt_entity()) =~= a);
        assert(replace(a, '>', gt_entity()) =~= a);
    } else {
        let a = seq![c];
        assert(a.drop_last() =~= Seq::<char>::empty());
        if c == '<' {
            let l = lt_entity();
            assert(replace(a, '<', lt_entity()) =~= l);
            assert(replace(l, '>', gt_entity()) =~= l);
        } else {
            assert(replace(a, '<', lt_entity()) =~= a);
        }
    }
}

/// What an XML reader makes of text holding the three entities `escape_xml`
/// writes: each entity read back as its character, everything else as it is.
pub open spec fn unescaped_xml(s: Seq<char>) -> Seq<char>
    decreases s.len(),
{
    if s.len() == 0 {
        Seq::empty()
    } else if s.len() >= 5 && s.subrange(0, 5) == amp_entity() {
        seq!['&'] + unescaped_xml(s.subrange(5, s.len() as int))
    } else if s.len() >= 4 && s.subrange(0, 4) == lt_entity() {
        seq!['<'] + unescaped_xml(s.subrange(4, s.len() as int))
    } else if s.len() >= 4 && s.subrange(0, 4) == gt_entity() {
        seq!['>'] + unescaped_xml(s.subrange(4, s.len() as int))
    } else {
        seq![s[0]] + unescaped_xml(s.drop_first())
    }
}

/// Escaping a concatenation escapes each part.
proof fn lemma_escaped_concat(a: Seq<char>, b: Seq<char>)
    ensures
        escaped_xml(a + b) == escaped_xml(a) + escaped_xml(b),
{
    lemma_replace_concat(a, b, '&', amp_entity());
    let a1 = replace(a, '&', amp_entity());
    let b1 = replace(b, '&', amp_entity());
    lemma_replace_concat(a1, b1, '<', lt_entity());
    let a2 = replace(a1, '<', lt_entity());
    let b2 = replace(b1, '<', lt_entity());
    lemma_replace_concat(a2, b2, '>', gt_entity());
}

/// The path an XML reader finds in the agent is the path that was escaped:
/// escaping loses nothing and mixes nothing up.
pub proof fn lemma_escaped_path_reads_back(s: Seq<char>)
    ensures
        unescaped_xml(escaped_xml(s)) == s,
    decreases s.len(),
{
    if s.len() == 0 {
        assert(escaped_xml(s) =~= Seq::<char>::empty());
    } else {
        let c = s[0];
        let rest = s.drop_first();
        assert(s =~= Seq::<char>::empty().push(c) + rest);
        lemma_escaped_push(Seq::<char>::empty(), c);
        assert(escaped_xml(Seq::<char>::empty()) =~= Seq::<char>::empty());
        lemma_escaped_concat(Seq::<char>::empty().push(c), rest);
        lemma_escaped_path_reads_back(rest);
        let e = escaped_xml(s);
        let head = escaped_char(c);
        let tail = escaped_xml(rest);
        assert(e =~= head + tail);
        if c == '&' {
            assert(e.subrange(0, 5) =~= amp_entity());
            assert(e.subrange(5, e.len() as int) =~= tail);
        } else if c == '<' {
            assert(e.subrange(0, 4) =~= lt_entity());
            assert(e.subrange(0, 5) != amp_entity() || e.len() < 5) by {
                if e.len() >= 5 {
                    assert(e.subrange(0, 5)[1] == 'l');
                }
            }
            assert(e.subrange(4, e.len() as int) =~= tail);
        } else if c == '>' {
            assert(e.subrange(0, 4) =~= gt_entity());
            assert(e.subrange(0, 5) != amp_entity() || e.len() < 5) by {
                if e.len() >= 5 {
                    assert(e.subrange(0, 5)[1] == 'g');
                }
            }
            assert(e.subrange(0, 4) != lt_entity()) by {
                assert(e.subrange(0, 4)[1] == 'g');
            }
            assert(e.subrange(4, e.len() as int) =~= tail);
        } else {
            assert(e[0] == c);
            assert(e.len() >= 5 ==> e.subrange(0, 5)[0] != '&');
            assert(e.len() >= 4 ==> e.subrange(0, 4)[0] != '&');
            assert(e.drop_first() =~= tail);
        }
        assert(s =~= seq![c] + rest);
    }
}

/// An escaped path holds no `<` or `>`, so it cannot close the `<string>`
/// element it is written into or open another.
pub proof fn lemma_escaped_has_no_angle_brackets(s: Seq<char>)
    ensures
        !escaped_xml(s).contains('<'),
        !escaped_xml(s).contains('>'),
    decreases s.len(),
{
    if s.len() == 0 {
        assert(escaped_xml(s) =~= Seq::<char>::empty());
    } else {
        let front = s.drop_last();
        let c = s.last();
        lemma_escaped_has_no_angle_brackets(front);
        assert(front.push(c) =~= s);
        lemma_escaped_push(front, c);
        let e = escaped_xml(s);
        let head = escaped_xml(front);
        let tail = escaped_char(c);
        assert(!tail.contains('<') && !tail.contains('>')) by {
            if tail.contains('<') {
                let k = choose|k: int| 0 <= k < tail.len() && tail[k] == '<';
                assert(tail[k] == '<');
            }
            if tail.contains('>') {
                let k = choose|k: int| 0 <= k < tail.len() && tail[k] == '>';
                assert(tail[k] == '>');
            }
        }
        if e.contains('<') {
            let k = choose|k: int| 0 <= k < e.len() && e[k] == '<';
            if k < head.len() {
                assert(head[k] == '<');
                assert(head.contains('<'));
            } else {
                assert(tail[k - head.len()] == '<');
                assert(tail.contains('<'));
            }
        }
        if e.contains('>') {
            let k = choose|k: int| 0 <= k < e.len() && e[k] == '>';
            if k < head.len() {
                assert(head[k] == '>');
                assert(head.contains('>'));
            } else {
                assert(tail[k - head.len()] == '>');
                assert(tail.contains('>'));
            }
        }
    }
}

} // verus!
