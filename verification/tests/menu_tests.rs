use notemac::menu::{checkbox_ids, menu_action_wire, parse_menu_event, MenuEventAction};

// ── Encoding parsing ─────────────────────────────────────────

#[test]
fn parse_encoding_utf8() {
    assert_eq!(parse_menu_event("encoding-utf-8"), MenuEventAction::Encoding("utf-8".into()));
}

#[test]
fn parse_encoding_utf8_bom() {
    assert_eq!(
        parse_menu_event("encoding-utf-8-bom"),
        MenuEventAction::Encoding("utf-8-bom".into())
    );
}

#[test]
fn parse_encoding_utf16le() {
    assert_eq!(
        parse_menu_event("encoding-utf-16le"),
        MenuEventAction::Encoding("utf-16le".into())
    );
}

#[test]
fn parse_encoding_windows_1252() {
    assert_eq!(
        parse_menu_event("encoding-windows-1252"),
        MenuEventAction::Encoding("windows-1252".into())
    );
}

// ── Language parsing ─────────────────────────────────────────

#[test]
fn parse_language_javascript() {
    assert_eq!(
        parse_menu_event("lang-javascript"),
        MenuEventAction::Language("javascript".into())
    );
}

#[test]
fn parse_language_typescript() {
    assert_eq!(
        parse_menu_event("lang-typescript"),
        MenuEventAction::Language("typescript".into())
    );
}

#[test]
fn parse_language_rust() {
    assert_eq!(parse_menu_event("lang-rust"), MenuEventAction::Language("rust".into()));
}

#[test]
fn parse_language_plaintext() {
    assert_eq!(
        parse_menu_event("lang-plaintext"),
        MenuEventAction::Language("plaintext".into())
    );
}

// ── Line ending parsing ──────────────────────────────────────

#[test]
fn parse_line_ending_lf() {
    assert_eq!(parse_menu_event("line-ending-lf"), MenuEventAction::LineEnding("LF".into()));
}

#[test]
fn parse_line_ending_crlf() {
    assert_eq!(parse_menu_event("line-ending-crlf"), MenuEventAction::LineEnding("CRLF".into()));
}

#[test]
fn parse_line_ending_cr() {
    assert_eq!(parse_menu_event("line-ending-cr"), MenuEventAction::LineEnding("CR".into()));
}

// ── Checkbox parsing ─────────────────────────────────────────

#[test]
fn parse_checkbox_word_wrap() {
    assert_eq!(parse_menu_event("word-wrap"), MenuEventAction::Checkbox("word-wrap".into()));
}

#[test]
fn parse_checkbox_show_whitespace() {
    assert_eq!(
        parse_menu_event("show-whitespace"),
        MenuEventAction::Checkbox("show-whitespace".into())
    );
}

#[test]
fn parse_checkbox_always_on_top() {
    assert_eq!(
        parse_menu_event("always-on-top"),
        MenuEventAction::Checkbox("always-on-top".into())
    );
}

#[test]
fn parse_all_checkbox_ids() {
    for id in checkbox_ids() {
        assert_eq!(
            parse_menu_event(&id),
            MenuEventAction::Checkbox(id.to_string()),
            "Failed for checkbox: {}",
            id
        );
    }
}

// ── Dialog parsing ───────────────────────────────────────────

#[test]
fn parse_dialog_open() {
    assert_eq!(parse_menu_event("open"), MenuEventAction::Dialog("open".into()));
}

#[test]
fn parse_dialog_open_folder() {
    assert_eq!(parse_menu_event("open-folder"), MenuEventAction::Dialog("open-folder".into()));
}

// ── Generic action parsing ───────────────────────────────────

#[test]
fn parse_generic_save() {
    assert_eq!(parse_menu_event("save"), MenuEventAction::Action("save".into()));
}

#[test]
fn parse_generic_new() {
    assert_eq!(parse_menu_event("new"), MenuEventAction::Action("new".into()));
}

#[test]
fn parse_generic_close_tab() {
    assert_eq!(parse_menu_event("close-tab"), MenuEventAction::Action("close-tab".into()));
}

#[test]
fn parse_generic_find() {
    assert_eq!(parse_menu_event("find"), MenuEventAction::Action("find".into()));
}

#[test]
fn parse_generic_sort_asc() {
    assert_eq!(parse_menu_event("sort-asc"), MenuEventAction::Action("sort-asc".into()));
}

#[test]
fn parse_generic_toggle_comment() {
    assert_eq!(
        parse_menu_event("toggle-comment"),
        MenuEventAction::Action("toggle-comment".into())
    );
}

#[test]
fn parse_generic_base64_encode() {
    assert_eq!(
        parse_menu_event("base64-encode"),
        MenuEventAction::Action("base64-encode".into())
    );
}

#[test]
fn parse_generic_macro_start() {
    assert_eq!(parse_menu_event("macro-start"), MenuEventAction::Action("macro-start".into()));
}

// ── Edge cases ───────────────────────────────────────────────

#[test]
fn parse_empty_string() {
    assert_eq!(parse_menu_event(""), MenuEventAction::Action("".into()));
}

#[test]
fn parse_unknown_action() {
    assert_eq!(
        parse_menu_event("some-unknown-action"),
        MenuEventAction::Action("some-unknown-action".into())
    );
}

#[test]
fn encoding_prefix_not_confused_with_similar() {
    // "encoding" without hyphen should be a generic action.
    assert_eq!(parse_menu_event("encoding"), MenuEventAction::Action("encoding".into()));
}

#[test]
fn lang_prefix_not_confused_with_similar() {
    // "language" should not match the "lang-" prefix.
    assert_eq!(parse_menu_event("language"), MenuEventAction::Action("language".into()));
}

// ── MenuEventAction coverage ─────────────────────────────────

#[test]
fn all_menu_categories_have_coverage() {
    let cases: Vec<(&str, MenuEventAction)> = vec![
        ("encoding-utf-8", MenuEventAction::Encoding("utf-8".into())),
        ("lang-python", MenuEventAction::Language("python".into())),
        ("line-ending-lf", MenuEventAction::LineEnding("LF".into())),
        ("word-wrap", MenuEventAction::Checkbox("word-wrap".into())),
        ("open", MenuEventAction::Dialog("open".into())),
        ("save", MenuEventAction::Action("save".into())),
    ];

    for (input, expected) in cases {
        assert_eq!(parse_menu_event(input), expected, "Failed for: {}", input);
    }
}

// ── Wire mapping ─────────────────────────────────────────────

#[test]
fn wire_maps_value_carrying_actions() {
    assert_eq!(
        menu_action_wire(&MenuEventAction::Encoding("utf-8".into())),
        ("encoding".to_string(), Some("utf-8".to_string()))
    );
    assert_eq!(
        menu_action_wire(&MenuEventAction::Language("rust".into())),
        ("language".to_string(), Some("rust".to_string()))
    );
    assert_eq!(
        menu_action_wire(&MenuEventAction::LineEnding("CRLF".into())),
        ("line-ending".to_string(), Some("CRLF".to_string()))
    );
}

#[test]
fn wire_maps_plain_actions_to_their_id() {
    assert_eq!(
        menu_action_wire(&MenuEventAction::Checkbox("word-wrap".into())),
        ("word-wrap".to_string(), None)
    );
    assert_eq!(
        menu_action_wire(&MenuEventAction::Dialog("open".into())),
        ("open".to_string(), None)
    );
    assert_eq!(
        menu_action_wire(&MenuEventAction::Action("save".into())),
        ("save".to_string(), None)
    );
}
