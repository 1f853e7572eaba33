use oxid_relay::logging::{build_filter, choose_filter};

#[test]
fn build_filter_accepts_known_levels() {
    for level in ["trace", "debug", "info", "warn", "error"] {
        assert_eq!(build_filter(None, level), level);
    }
}

#[test]
fn build_filter_falls_back_on_garbage() {
    // Building must not panic.
    let _ = build_filter(None, "this is not a valid filter !!!");
    assert_eq!(build_filter(None, "oxid_relay=verbose"), "info");
}

#[test]
fn environment_overrides_the_level_where_it_is_valid() {
    let set = Some("oxid_relay=debug,warn".to_string());
    assert_eq!(build_filter(set, "error"), "oxid_relay=debug,warn");
    let garbage = Some("oxid_relay=verbose".to_string());
    assert_eq!(build_filter(garbage, "error"), "error");
}

#[test]
fn choice_goes_by_what_is_valid() {
    assert_eq!(choose_filter(Some("e".to_string()), true, "l", true), "e");
    assert_eq!(choose_filter(Some("e".to_string()), false, "l", true), "l");
    assert_eq!(choose_filter(Some("e".to_string()), false, "l", false), "info");
    assert_eq!(choose_filter(None, true, "l", true), "l");
    assert_eq!(choose_filter(None, true, "l", false), "info");
}

#[test]
fn directives_that_cannot_be_cut_are_not_valid() {
    for text in ["\u{a0}a=info", " é=info", "warn, é=info", "warn,\u{2003}a=info"] {
        assert_eq!(build_filter(None, text), "info", "{text}");
        assert_eq!(build_filter(Some(text.to_string()), "error"), "error", "{text}");
    }
    assert_eq!(build_filter(None, "é=warn"), "é=warn");
    assert_eq!(build_filter(None, "warn,é=info"), "warn,é=info");
}

#[test]
fn every_directive_is_judged_by_itself() {
    for text in [
        " info,é=debug",
        "é=debug, info",
        " é",
        "\u{a0}a",
        "warn, é]",
        " a[éb]",
        " a[éb{f}]",
        "a[bé]",
    ] {
        assert_eq!(build_filter(None, text), text);
        assert_eq!(build_filter(Some(text.to_string()), "error"), text);
    }
    for text in [" a[bé]", " a[é{f}]", " [{é}]", " é[a]=info", " a[éb]x"] {
        assert_eq!(build_filter(None, text), "info", "{text}");
    }
}
