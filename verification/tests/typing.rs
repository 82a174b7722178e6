//! What is typed: addresses and form fields.

use webbrowser_plugin::address::normalize_url_input;
use webbrowser_plugin::forms::{
    build_fill_js, check_form_drift, extract_form_key, js_quote, ControlKind, FieldValues,
    FormControl, FormMap,
};
use webbrowser_plugin::history::{sanitize_history_url, MAX_HISTORY_URL_LEN};
use webbrowser_plugin::tree::{patch_form_field_in_tree, Element, Section};

/// What a node of the tree is.
trait Reading {
    fn as_str(&self) -> Option<&str>;
    fn as_obj(&self) -> Option<&Section>;
}

impl Reading for Element {
    fn as_str(&self) -> Option<&str> {
        match self {
            Element::Str(s) => Some(s),
            Element::Obj(_) => None,
        }
    }

    fn as_obj(&self) -> Option<&Section> {
        match self {
            Element::Str(_) => None,
            Element::Obj(o) => Some(o),
        }
    }
}

fn section(key: &str, children: Vec<Element>) -> Element {
    Element::Obj(Section { key: key.to_owned(), children })
}

fn fresh_map(keys: &[&str]) -> FormMap {
    let mut map = FormMap::new();
    for k in keys {
        map.insert(
            k,
            FormControl {
                css_selector: format!("#{k}"),
                kind: ControlKind::TextInput,
                form_index: 1,
                match_index: 0,
            },
        );
    }
    map
}

fn stored_map(pairs: &[(&str, &str)]) -> FieldValues {
    let mut map = FieldValues::new();
    for (k, v) in pairs {
        map.insert(k, (*v).to_owned());
    }
    map
}


#[test]
fn normalize_url_input_prepends_https_when_no_scheme() {
    assert_eq!(
        normalize_url_input("example.com"),
        Some("https://example.com".to_owned()),
    );
}

#[test]
fn normalize_url_input_preserves_existing_scheme() {
    assert_eq!(
        normalize_url_input("http://example.com"),
        Some("http://example.com".to_owned()),
    );
    assert_eq!(
        normalize_url_input("https://example.com"),
        Some("https://example.com".to_owned()),
    );
}

#[test]
fn normalize_url_input_trims_whitespace() {
    assert_eq!(
        normalize_url_input("   example.com  "),
        Some("https://example.com".to_owned()),
    );
}

#[test]
fn normalize_url_input_returns_none_for_empty() {
    assert_eq!(normalize_url_input(""), None);
    assert_eq!(normalize_url_input("   "), None);
}

#[test]
fn extract_form_key_finds_form_segment() {
    assert_eq!(
        extract_form_key("/https://example.com/form_1/email"),
        Some("form_1/email".to_owned())
    );
}

#[test]
fn extract_form_key_returns_none_for_url_path() {
    assert_eq!(extract_form_key("/https://example.com"), None);
    assert_eq!(extract_form_key("/"), None);
}

#[test]
fn js_quote_escapes_double_quotes() {
    assert_eq!(js_quote(r#"input[name="q"]"#), r#""input[name=\"q\"]""#);
}

#[test]
fn js_quote_escapes_backslashes() {
    assert_eq!(js_quote(r"a\b"), r#""a\\b""#);
}

#[test]
fn build_fill_js_contains_selector_and_value() {
    let js = build_fill_js(1, 0, "#my-input", "hello world", false);
    assert!(js.contains("\"#my-input\""), "selector missing: {js}");
    assert!(js.contains("\"hello world\""), "value missing: {js}");
    assert!(js.contains("dispatchEvent"), "event dispatch missing");
    assert!(
        js.contains("document.forms[0]"),
        "form scoping missing: {js}"
    );
}

#[test]
fn build_fill_js_standalone_resolves_against_document_and_submits() {
    let js = build_fill_js(0, 0, "[name=\"q\"]", "query", true);
    assert!(
        js.contains("const root = document;"),
        "global scope missing: {js}"
    );
    assert!(
        js.contains("KeyboardEvent"),
        "Enter submit missing for standalone: {js}"
    );
}

#[test]
fn sanitize_history_url_rejects_unusable_entries() {
    assert_eq!(sanitize_history_url(""), None);
    assert_eq!(sanitize_history_url("   "), None);
    assert_eq!(sanitize_history_url("https://a.invalid/a b"), None);
    assert_eq!(sanitize_history_url("https://a.invalid\u{7}"), None);
    assert_eq!(
        sanitize_history_url(&format!(
            "https://{}.invalid",
            "x".repeat(MAX_HISTORY_URL_LEN)
        )),
        None,
    );
    assert_eq!(
        sanitize_history_url("  https://a.invalid  "),
        Some("https://a.invalid".to_owned()),
    );
    assert_eq!(
        sanitize_history_url("*://x.invalid"),
        Some("%2A://x.invalid".to_owned()),
    );
    assert_eq!(
        sanitize_history_url("https://x.invalid/*star"),
        Some("https://x.invalid/*star".to_owned()),
        "only the leading one is ambiguous",
    );
}

#[test]
fn drift_check_all_present_returns_ok() {
    let stored = stored_map(&[("form_1/email", "a@b"), ("form_1/name", "Nico")]);
    let fresh = fresh_map(&["form_1/email", "form_1/name", "form_1/submit"]);
    assert!(check_form_drift(&stored, &fresh).is_ok());
}

#[test]
fn drift_check_missing_field_returns_err_with_missing_keys() {
    let stored = stored_map(&[("form_1/email", "a@b"), ("form_1/csrf", "x")]);
    let fresh = fresh_map(&["form_1/email"]);
    let err = check_form_drift(&stored, &fresh).expect_err("should detect drift");
    assert_eq!(err, vec!["form_1/csrf".to_owned()]);
}

#[test]
fn drift_check_empty_stored_returns_ok() {
    let stored = FieldValues::new();
    let fresh = fresh_map(&["form_1/anything"]);
    assert!(check_form_drift(&stored, &fresh).is_ok());
}

#[test]
fn drift_check_empty_fresh_with_stored_returns_err_for_all() {
    let stored = stored_map(&[("form_1/a", "1"), ("form_1/b", "2")]);
    let fresh = FormMap::new();
    let err = check_form_drift(&stored, &fresh).expect_err("should detect drift");
    assert_eq!(err, vec!["form_1/a".to_owned(), "form_1/b".to_owned()]);
}

#[test]
fn patch_form_field_updates_cached_str() {
    let mut elems = vec![section("form_1", vec![Element::new_str("q: <input></input>")])];
    let patched = patch_form_field_in_tree(
        &mut elems,
        "form_1",
        "q: <input>",
        "q: <input>hello</input>",
    );
    assert!(patched, "should find and patch the field");
    let child = elems[0].as_obj().unwrap().children[0].as_str().unwrap();
    assert_eq!(child, "q: <input>hello</input>");
}

#[test]
fn patch_form_field_nested_under_heading() {
    let form = section("form_1", vec![Element::new_str("q: <input></input>")]);
    let mut elems = vec![section("Search", vec![form])];
    let patched = patch_form_field_in_tree(
        &mut elems,
        "form_1",
        "q: <input>",
        "q: <input>world</input>",
    );
    assert!(patched);
    let heading_obj = elems[0].as_obj().unwrap();
    let form_obj = heading_obj.children[0].as_obj().unwrap();
    assert_eq!(
        form_obj.children[0].as_str().unwrap(),
        "q: <input>world</input>"
    );
}

#[test]
fn patch_form_field_id_prefixed_form_key() {
    let mut elems = vec![section(
        "<id>login</id>form_1",
        vec![Element::new_str("email: <input></input>")],
    )];
    let patched = patch_form_field_in_tree(
        &mut elems,
        "form_1",
        "email: <input>",
        "email: <input>user@x.com</input>",
    );
    assert!(patched, "should match by suffix for id-prefixed form keys");
    assert_eq!(
        elems[0].as_obj().unwrap().children[0].as_str().unwrap(),
        "email: <input>user@x.com</input>"
    );
}

#[test]
fn a_fill_script_is_this_script() {
    assert_eq!(
        build_fill_js(2, 3, "#q", "a\"b", false),
        r##"(() => {
            const root = (document.forms[1] || document);
            const el = root.querySelectorAll("#q")[3];
            if (!el) return false;
            el.focus();
            const setter =
                Object.getOwnPropertyDescriptor(window.HTMLInputElement.prototype, 'value')?.set
                || Object.getOwnPropertyDescriptor(window.HTMLTextAreaElement.prototype, 'value')?.set;
            if (setter) { setter.call(el, "a\"b"); }
            else { el.value = "a\"b"; }
            el.dispatchEvent(new Event('input',  { bubbles: true }));
            el.dispatchEvent(new Event('change', { bubbles: true }));
            
            return true;
        })()"##
    );
    let js = build_fill_js(0, 0, "#q", "a", true);
    assert!(js.contains("\nconst f = el.closest('form'); if (f) {"), "{js}");
}

#[test]
fn a_quoted_text_is_json_and_reads_back() {
    assert_eq!(js_quote("a\tb\u{7}\u{1f}"), r#""a\u0009b\u0007\u001f""#);
    assert_eq!(js_quote("a\nb\rc"), r#""a\nb\rc""#);
    let mut all: String = (0u8..0x80).map(char::from).collect();
    all.push_str("\0\u{31}\u{7f}\u{2028}é😀");
    let back: String = serde_json::from_str(&js_quote(&all)).expect("a JSON string");
    assert_eq!(back, all);
}

#[test]
fn an_address_is_measured_as_it_is_stored() {
    assert_eq!(sanitize_history_url(&"<".repeat(MAX_HISTORY_URL_LEN)), None);
    assert_eq!(sanitize_history_url(&"<".repeat(1366)), None);
    let stored = sanitize_history_url(&"<".repeat(1365)).expect("4095 bytes fit");
    assert_eq!(stored.len(), 4095);
    assert_eq!(sanitize_history_url(&stored), Some(stored.clone()));
    let longest = "x".repeat(MAX_HISTORY_URL_LEN);
    assert_eq!(sanitize_history_url(&longest), Some(longest.clone()));
    assert_eq!(sanitize_history_url(&format!("*{}", "x".repeat(4093))).map(|u| u.len()), Some(4096));
    assert_eq!(sanitize_history_url(&format!("*{}", "x".repeat(4094))), None);
}
