use gaze::autostart::{agent_plist, escape_xml, startup_command, LABEL};

#[test]
fn startup_executable_is_quoted() {
    assert_eq!(
        startup_command(r"C:\Program Files\Gaze\gaze.exe"),
        r#""C:\Program Files\Gaze\gaze.exe""#
    );
}

#[test]
fn the_agent_runs_the_current_executable_at_login() {
    let plist = agent_plist("/Users/someone/bin/gaze");
    assert!(plist.contains("<string>/Users/someone/bin/gaze</string>"));
    assert!(plist.contains("<key>RunAtLoad</key>\n\t<true/>"));
    assert!(plist.contains(LABEL));
}

#[test]
fn a_path_with_xml_characters_cannot_break_the_agent() {
    let plist = agent_plist("/Users/a&b/<gaze>");
    assert!(plist.contains("<string>/Users/a&amp;b/&lt;gaze&gt;</string>"));
}

#[test]
fn the_agent_is_the_whole_property_list() {
    let plist = agent_plist("/Applications/Gaze.app/Contents/MacOS/gaze");
    let expected = r#"<?xml version="1.0" encoding="UTF-8"?>
<!DOCTYPE plist PUBLIC "-//Apple//DTD PLIST 1.0//EN" "http://www.apple.com/DTDs/PropertyList-1.0.dtd">
<plist version="1.0">
<dict>
	<key>Label</key>
	<string>org.spumoni.gaze</string>
	<key>ProgramArguments</key>
	<array>
		<string>/Applications/Gaze.app/Contents/MacOS/gaze</string>
	</array>
	<key>RunAtLoad</key>
	<true/>
	<key>LimitLoadToSessionType</key>
	<string>Aqua</string>
</dict>
</plist>
"#;
    assert_eq!(plist, expected);
}

#[test]
fn escaping_matches_replacing_in_turn() {
    for value in ["", "plain", "&&", "<&>", "a&lt;b", "&amp;", "x>y<z&w", "日本&語"] {
        let replaced = value
            .replace('&', "&amp;")
            .replace('<', "&lt;")
            .replace('>', "&gt;");
        assert_eq!(escape_xml(value), replaced);
    }
}

#[test]
fn an_empty_path_is_still_quoted() {
    assert_eq!(startup_command(""), "\"\"");
}

#[test]
fn an_escaped_path_reads_back_as_the_path() {
    for value in ["/Users/a&b/<gaze>", "&amp;", "&lt;&gt;", "plain", ""] {
        let escaped = escape_xml(value);
        let read_back = escaped
            .replace("&lt;", "<")
            .replace("&gt;", ">")
            .replace("&amp;", "&");
        assert_eq!(read_back, value);
        assert!(!escaped.contains('<') && !escaped.contains('>'));
    }
}
