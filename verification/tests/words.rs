//! Texts: characters, numbers, messages and small tables.

use webbrowser_plugin::consent::{lower_accepts, lower_refuses};
use webbrowser_plugin::forms::{
    build_click_js, build_reopened_click_js, copy_values, find_submit, ControlKind, FieldValues,
    FormControl, FormMap,
};
use webbrowser_plugin::gate::html_escape;
use webbrowser_plugin::languages::{contains_word, language_label, primary_subtag};
use webbrowser_plugin::localize::{t, t_args, Args};
use webbrowser_plugin::page::{notice_in, CAPTCHA_NOTICE};
use webbrowser_plugin::text::{
    chars_of, comes_before, decimal_text, is_control, is_white_space, join, lines, parse_number,
    split, text_of, trim, NumberError,
};
use webbrowser_plugin::tree::{ffon_text_len, Element, Section};

#[test]
fn white_space_and_control_characters_are_those_of_unicode() {
    for c in '\u{0}'..=char::MAX {
        assert_eq!(is_white_space(c), c.is_whitespace(), "{c:?}");
        assert_eq!(is_control(c), c.is_control(), "{c:?}");
    }
}

#[test]
fn texts_are_taken_apart_and_put_together() {
    let all = chars_of(" a\u{3000}b ");
    assert_eq!(text_of(trim(&all)), "a\u{3000}b");
    assert_eq!(lines(&chars_of("a\r\nb\n\nc")), "a\r\nb\n\nc".lines().collect::<Vec<_>>());
    assert_eq!(lines(&chars_of("a\n")), vec!["a"]);
    assert_eq!(split(&chars_of("a//b"), '/'), vec!["a", "", "b"]);
    assert_eq!(join(&["a".to_owned(), "b".to_owned()], ", "), "a, b");
    assert!(comes_before("a", "ab") && !comes_before("b", "ab") && comes_before("z", "ä"));
}

#[test]
fn numbers_are_written_and_read() {
    for n in [0, 7, 10, 1920, u64::MAX] {
        assert_eq!(decimal_text(n), n.to_string());
        assert_eq!(parse_number(&chars_of(&n.to_string()), u64::MAX), Ok(n));
    }
    assert_eq!(parse_number(&chars_of("+5"), u64::MAX), Ok(5));
    assert_eq!(parse_number(&chars_of(""), 99), Err(NumberError::Empty));
    assert_eq!(parse_number(&chars_of("+"), 99), Err(NumberError::InvalidDigit));
    assert_eq!(parse_number(&chars_of("-1"), 99), Err(NumberError::InvalidDigit));
    assert_eq!(parse_number(&chars_of("100"), 99), Err(NumberError::TooLarge));
    assert_eq!(parse_number(&chars_of("3"), 4), Ok(3));
    assert_eq!(parse_number(&chars_of("5"), 4), Err(NumberError::TooLarge));
}

#[test]
fn a_message_is_found_and_filled() {
    let bundle = "# comment\nhello = Hello, { $name }!\nbye = Bye { $a } and { $a }, { $b }\n";
    assert_eq!(t(bundle, "missing"), "missing");
    assert_eq!(t(bundle, "hello"), "Hello, { $name }!");
    let mut args = Args::new();
    args.set("name", "you");
    assert_eq!(t_args(bundle, "hello", &args), "Hello, you!");
    let mut args = Args::new();
    args.set("a", "{ $b }");
    args.set("b", "x");
    assert_eq!(t_args(bundle, "bye", &args), "Bye x and x, x");
}

#[test]
fn a_language_goes_by_its_own_name() {
    assert_eq!(primary_subtag(" NL-be "), "nl");
    assert_eq!(primary_subtag("pt_BR"), "pt");
    assert_eq!(language_label("nl"), "Nederlands");
    assert_eq!(language_label("fy"), "FY");
    assert!(contains_word(&chars_of("ALTERNATE stylesheet"), "alternate"));
    assert!(!contains_word(&chars_of("alternates"), "alternate"));
}

#[test]
fn a_refusal_is_never_an_acceptance() {
    assert!(lower_refuses("alles weigeren") && !lower_accepts("alles weigeren"));
    assert!(lower_accepts("alles accepteren"));
    assert!(!lower_accepts("accept settings"));
}

#[test]
fn a_bot_check_is_named_and_a_captcha_needs_an_empty_page() {
    let short = vec![Element::new_str("Verify")];
    let long = vec![Element::Obj(Section { key: "x".repeat(400), children: vec![Element::Str("y".repeat(400))] })];
    assert_eq!(ffon_text_len(&long), 800);
    assert_eq!(
        notice_in("<div id=px-captcha>", &long).as_deref(),
        Some("Bot check (PerimeterX). The page it returned is shown below.")
    );
    assert_eq!(notice_in("<div class=hcaptcha>", &short).as_deref(), Some(CAPTCHA_NOTICE));
    assert_eq!(notice_in("<div class=hcaptcha>", &long), None);
}

#[test]
fn a_text_is_escaped_for_a_document() {
    assert_eq!(html_escape("a&b<c>\"d\""), "a&amp;b&lt;c&gt;&quot;d&quot;");
}

#[test]
fn a_table_has_each_name_once() {
    let mut values = FieldValues::new();
    values.insert("form_1/q", "a".to_owned());
    values.insert("form_1/q", "b".to_owned());
    values.insert("form_1/r", "c".to_owned());
    assert_eq!(values.get("form_1/q").map(String::as_str), Some("b"));
    assert!(values.contains_key("form_1/r") && !values.contains_key("form_2/r"));
    let copy = copy_values(&values);
    assert_eq!(copy.entries, values.entries);
    assert_eq!(copy.entries.len(), 2);
}

#[test]
fn a_submit_button_belongs_to_its_form() {
    let mut forms = FormMap::new();
    let control = |selector: &str, kind: ControlKind| FormControl {
        css_selector: selector.to_owned(),
        kind,
        form_index: 1,
        match_index: 2,
    };
    forms.insert("form_1/q", control("#q", ControlKind::TextInput));
    forms.insert("form_10/Go", control("#ten", ControlKind::Submit));
    forms.insert("form_1/Go", control("#one", ControlKind::Submit));
    assert_eq!(find_submit(&forms, 1), ("#one".to_owned(), 2));
    assert_eq!(find_submit(&forms, 2), ("[type=\"submit\"]".to_owned(), 0));
    assert_eq!(
        build_click_js(1, "#one", 2),
        "(() => { const fi = 1; \
         const root = fi > 0 ? (document.forms[fi-1] || document) : document; \
         const el = root.querySelectorAll(\"#one\")[2]; \
         if (el) { el.click(); return true; } \
         if (fi > 0 && document.forms[fi-1]) { document.forms[fi-1].submit(); return true; } \
         return false; })()"
    );
    assert_eq!(
        build_reopened_click_js("#one", 1),
        "(() => { const el = document.querySelector(\"#one\"); \
         if (el) { el.click(); return true; } \
         const f = document.querySelector('form:nth-of-type(1)'); \
         if (f) { f.submit(); return true; } return false; })()"
    );
}
