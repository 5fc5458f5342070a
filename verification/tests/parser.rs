//! Descriptor-parser behavior on concrete descriptor texts.

use gyr::xdg::{Action, App, ParseError};

#[test]
fn no_command_yields_no_command_error() {
    let text = "[Desktop Entry]\nName=Foo\nComment=A thing\n";
    let r = App::parse(text, None);
    assert_eq!(r.unwrap_err(), ParseError::NoCommand);
}

#[test]
fn empty_text_yields_no_command_error() {
    let r = App::parse("", None);
    assert_eq!(r.unwrap_err(), ParseError::NoCommand);
}

#[test]
fn no_display_true_yields_hidden() {
    let text = "[Desktop Entry]\nName=Foo\nNoDisplay=true\nExec=foo\n";
    let r = App::parse(text, None);
    assert_eq!(r.unwrap_err(), ParseError::Hidden);
}

#[test]
fn no_display_is_case_insensitive() {
    let text = "[Desktop Entry]\nExec=foo\nNoDisplay=TRUE\n";
    assert_eq!(App::parse(text, None).unwrap_err(), ParseError::Hidden);
    let text2 = "[Desktop Entry]\nExec=foo\nNoDisplay=True\n";
    assert_eq!(App::parse(text2, None).unwrap_err(), ParseError::Hidden);
    let text3 = "[Desktop Entry]\nExec=foo\nNoDisplay=yes\n";
    assert!(App::parse(text3, None).is_ok());
}

#[test]
fn no_display_outside_section_is_ignored() {
    let text = "[Desktop Entry]\nExec=foo\n[Desktop Action a]\nNoDisplay=true\n";
    assert!(App::parse(text, None).is_ok());
}

#[test]
fn empty_action_name_is_rejected() {
    let text = "[Desktop Entry]\nExec=foo\n";
    let ac = Action::default().name("").from("Foo");
    assert_eq!(App::parse(text, Some(&ac)).unwrap_err(), ParseError::EmptyAction);
}

#[test]
fn strips_one_field_code() {
    let text = "[Desktop Entry]\nExec=firefox %u\n";
    let app = App::parse(text, None).unwrap();
    assert_eq!(app.command, "firefox");
}

#[test]
fn strips_only_the_last_field_code() {
    let text = "[Desktop Entry]\nExec=vlc %U %f\n";
    let app = App::parse(text, None).unwrap();
    // exactly one substitution, of the last placeholder: earlier ones stay
    assert_eq!(app.command, "vlc %U");
}

#[test]
fn earlier_field_codes_survive_the_single_substitution() {
    let text = "[Desktop Entry]\nExec=play %f %u %d\n";
    let app = App::parse(text, None).unwrap();
    assert_eq!(app.command, "play %f %u");
}

#[test]
fn bare_exec_value_yields_no_command() {
    let text = "[Desktop Entry]\nName=Foo\nExec=\n";
    assert_eq!(App::parse(text, None).unwrap_err(), ParseError::NoCommand);
}

#[test]
fn exec_of_only_a_field_code_yields_no_command() {
    // the whole value is stripped away, leaving no command
    let text = "[Desktop Entry]\nExec=%u\n";
    assert_eq!(App::parse(text, None).unwrap_err(), ParseError::NoCommand);
    let text2 = "[Desktop Entry]\nExec= %u\n";
    assert_eq!(App::parse(text2, None).unwrap_err(), ParseError::NoCommand);
}

#[test]
fn empty_name_value_falls_back_to_unknown() {
    let text = "[Desktop Entry]\nName=\nExec=foo\n";
    let app = App::parse(text, None).unwrap();
    assert_eq!(app.name, "Unknown");
}

#[test]
fn field_code_without_space_is_stripped() {
    let text = "[Desktop Entry]\nExec=run%F now\n";
    let app = App::parse(text, None).unwrap();
    assert_eq!(app.command, "run now");
}

#[test]
fn missing_name_falls_back_to_unknown() {
    let text = "[Desktop Entry]\nExec=foo\n";
    let app = App::parse(text, None).unwrap();
    assert_eq!(app.name, "Unknown");
}

#[test]
fn reads_name_comment_terminal_path() {
    let text = "[Desktop Entry]\nName=Foo\nComment=Does things\nTerminal=true\nExec=foo\nPath=/opt/foo\n";
    let app = App::parse(text, None).unwrap();
    assert_eq!(app.name, "Foo");
    assert_eq!(app.description, "Does things");
    assert!(app.is_terminal);
    assert_eq!(app.command, "foo");
    assert_eq!(app.path.as_deref(), Some("/opt/foo"));
}

#[test]
fn terminal_false_is_not_terminal() {
    let text = "[Desktop Entry]\nTerminal=false\nExec=foo\n";
    let app = App::parse(text, None).unwrap();
    assert!(!app.is_terminal);
    // the flag is only ever set, never reset
    let text2 = "[Desktop Entry]\nTerminal=true\nTerminal=false\nExec=foo\n";
    let app2 = App::parse(text2, None).unwrap();
    assert!(app2.is_terminal);
}

#[test]
fn first_occurrence_of_a_key_wins() {
    let text = "[Desktop Entry]\nName=First\nName=Second\nExec=one\nExec=two\n";
    let app = App::parse(text, None).unwrap();
    assert_eq!(app.name, "First");
    assert_eq!(app.command, "one");
}

#[test]
fn repeated_key_prefix_is_stripped_repeatedly() {
    // values are read by stripping every leading repetition of the key
    let text = "[Desktop Entry]\nName=Name=Foo\nExec=foo\n";
    let app = App::parse(text, None).unwrap();
    assert_eq!(app.name, "Foo");
}

#[test]
fn keys_outside_target_section_are_ignored() {
    let text = "Name=Outside\n[Desktop Entry]\nExec=foo\n[Desktop Action a]\nName=Inside\n";
    let app = App::parse(text, None).unwrap();
    assert_eq!(app.name, "Unknown");
}

#[test]
fn any_desktop_header_closes_the_section() {
    let text = "[Desktop Entry]\nName=Foo\n[Desktop Whatever]\nExec=foo\n";
    assert_eq!(App::parse(text, None).unwrap_err(), ParseError::NoCommand);
}

#[test]
fn section_can_be_reopened() {
    let text = "[Desktop Entry]\nName=Foo\n[Desktop Other]\n[Desktop Entry]\nExec=foo\n";
    let app = App::parse(text, None).unwrap();
    assert_eq!(app.name, "Foo");
    assert_eq!(app.command, "foo");
}

#[test]
fn action_parse_reads_its_own_section() {
    let text = "[Desktop Entry]\nName=Foo\nExec=foo\nActions=open\n[Desktop Action open]\nName=Open Thing\nExec=foo --open\n";
    let ac = Action::default().name("open").from("Foo");
    let app = App::parse(text, Some(&ac)).unwrap();
    assert_eq!(app.name, "Foo (Open Thing)");
    assert_eq!(app.command, "foo --open");
}

#[test]
fn crlf_lines_are_handled() {
    let text = "[Desktop Entry]\r\nName=Foo\r\nExec=foo\r\n";
    let app = App::parse(text, None).unwrap();
    assert_eq!(app.name, "Foo");
    assert_eq!(app.command, "foo");
}

#[test]
fn discover_entries_yields_actions_then_base() {
    let text = "[Desktop Entry]\nName=Foo\nExec=foo\nActions=open;edit\n[Desktop Action open]\nName=Opener\nExec=foo --open\n[Desktop Action edit]\nName=Editor\nExec=foo --edit\n";
    let entries = gyr::xdg::discover_entries(text);
    assert_eq!(entries.len(), 3);
    assert_eq!(entries[0].name, "Foo (Opener)");
    assert_eq!(entries[1].name, "Foo (Editor)");
    assert_eq!(entries[2].name, "Foo");
}

#[test]
fn discover_entries_skips_failing_actions() {
    // the second declared action has no section, so only the first
    // action entry and the base entry come out
    let text = "[Desktop Entry]\nName=Foo\nExec=foo\nActions=open;missing\n[Desktop Action open]\nName=Opener\nExec=foo --open\n";
    let entries = gyr::xdg::discover_entries(text);
    assert_eq!(entries.len(), 2);
    assert_eq!(entries[0].name, "Foo (Opener)");
    assert_eq!(entries[1].name, "Foo");
}

#[test]
fn discover_entries_of_hidden_descriptor_is_empty() {
    let text = "[Desktop Entry]\nName=Foo\nExec=foo\nNoDisplay=true\n";
    let entries = gyr::xdg::discover_entries(text);
    assert_eq!(entries.len(), 0);
}

#[test]
fn trailing_semicolon_in_actions_is_harmless() {
    // the split keeps an empty trailing segment; the empty action name
    // is rejected and skipped, leaving the declared action and the base
    let text = "[Desktop Entry]\nName=Foo\nExec=foo\nActions=open;\n[Desktop Action open]\nName=Opener\nExec=foo --open\n";
    let entries = gyr::xdg::discover_entries(text);
    assert_eq!(entries.len(), 2);
    assert_eq!(entries[0].name, "Foo (Opener)");
    assert_eq!(entries[1].name, "Foo");
}
