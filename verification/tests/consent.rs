//! Consent walls, cookie banners and the step made of them.

use webbrowser_plugin::consent::{
    google_consent_or_fallback, google_consent_values, html_has_consent_wall,
    html_has_inline_consent_banner, is_accept_keyword, is_consent_wall_str, is_reject_text,
    is_settings_text, js_var, BANNER_MARKERS, CMP_REJECT_SELECTORS, GOOGLE_SOCS_FALLBACK,
};
use webbrowser_plugin::forms::FormMap;
use webbrowser_plugin::gate::{gate_page_html, gate_surface_js, html_escape, js_array};
use webbrowser_plugin::page::{page_to_ffon_with_forms, PageLoad};
use webbrowser_plugin::tree::Element;

const GOOGLE_WALL_SNIPPET: &str = r#"<script nonce="JNJ">(function(){var cookieDomain='.google.com';var cookieUpdateConsentUrl='';var sCAS='CAISHAgBEhJnd3NfMjAyNjA4MDYtMF9SQzEaAm5sIAEaBgiAht_TBg';var sCRS='CAESHAgBEhJnd3NfMjAyNjA4MDYtMF9SQzEaAm5sIAEaBgiAht_TBg';var sL=34128000;var sEE=false;var aAU='https://consent.google.com/save?continue\x3dhttps://www.google.com/\x26set_eom\x3dfalse';var rAU='https://consent.google.com/save?continue\x3dhttps://www.google.com/\x26set_eom\x3dtrue';})();</script>"#;

fn html_to_ffon_with_forms(html: &str, url: &str) -> (Vec<Element>, FormMap) {
    page_to_ffon_with_forms(&PageLoad::plain(html.to_owned()), url)
}


#[test]
fn test_is_consent_wall_detects_dpgmedia() {
    assert!(is_consent_wall_str(
        "https://myprivacy.dpgmedia.be/consent?siteKey=Uqxf9TXhjmaG4pbQ&callbackUrl=https%3A%2F%2Fwww.hln.be%2F"
    ));
}

#[test]
fn test_is_consent_wall_passes_normal_url() {
    assert!(!is_consent_wall_str("https://www.hln.be/sport"));
}

#[test]
fn test_is_consent_wall_detects_generic_consent_path() {
    assert!(is_consent_wall_str(
        "https://example.com/consent?redirect=/"
    ));
}

#[test]
fn test_is_consent_wall_detects_cookie_consent_path() {
    assert!(is_consent_wall_str(
        "https://example.com/page/cookie-consent/accept"
    ));
}

#[test]
fn test_is_consent_wall_detects_sourcepoint() {
    assert!(is_consent_wall_str(
        "https://cdn.sp-prod.net/unified/v2/notice.html"
    ));
}

#[test]
fn test_is_consent_wall_detects_consent_subdomain() {
    assert!(is_consent_wall_str(
        "https://consent.youtube.com/m?continue=https%3A%2F%2Fwww.youtube.com%2F"
    ));
}

#[test]
fn test_is_consent_wall_detects_privacy_mgmt() {
    assert!(is_consent_wall_str(
        "https://privacy-mgmt.com/cmp?redirect=https://example.com"
    ));
}

#[test]
fn test_is_consent_wall_detects_cmp_subdomain() {
    assert!(is_consent_wall_str("https://cmp.example.com/notice"));
}

#[test]
fn test_html_consent_wall_detects_google_save_endpoint() {
    let html = r#"<button jsaction="click:...">
        <div role="none">Alles accepteren</div></button>
        <script>var u="https://consent.google.com/save?continue=https://www.google.com/";</script>"#;
    assert!(html_has_consent_wall(html));
}

#[test]
fn test_html_consent_wall_ignores_google_d_endpoint() {
    let html =
        r#"<a href="https://consent.google.com/d?continue=https://www.google.com/">More</a>"#;
    assert!(!html_has_consent_wall(html));
}

#[test]
fn test_html_consent_wall_detects_youtube() {
    let html = r#"<form action="https://consent.youtube.com/save"></form>"#;
    assert!(html_has_consent_wall(html));
}

#[test]
fn test_html_consent_wall_ignores_normal_page() {
    let html = r#"<html><body><form action="/search" role="search">
        <input name="q" aria-label="Zoeken"></form>
        <p>We asked for consent before continuing.</p>
        <a href="https://www.google.com/">Google</a></body></html>"#;
    assert!(!html_has_consent_wall(html));
}

#[test]
fn test_is_reject_text_english() {
    assert!(is_reject_text("Reject all"));
    assert!(is_reject_text("Decline cookies"));
    assert!(is_reject_text("Only necessary cookies"));
    assert!(is_reject_text("Manage preferences"));
    assert!(is_reject_text("Settings"));
}

#[test]
fn test_is_reject_text_dutch() {
    assert!(is_reject_text("Weigeren"));
    assert!(is_reject_text("Instellingen"));
    assert!(is_reject_text("Alleen noodzakelijke"));
}

#[test]
fn test_is_reject_text_german() {
    assert!(is_reject_text("Ablehnen"));
    assert!(is_reject_text("Nur notwendige"));
}

#[test]
fn test_is_reject_text_false_for_accept() {
    assert!(!is_reject_text("Accept all"));
    assert!(!is_reject_text("Alles accepteren"));
    assert!(!is_reject_text("Tout accepter"));
}

#[test]
fn test_is_accept_keyword_english() {
    assert!(is_accept_keyword("Accept all cookies"));
    assert!(is_accept_keyword("Allow all"));
    assert!(is_accept_keyword("Agree and continue"));
    assert!(is_accept_keyword("I accept"));
    assert!(is_accept_keyword("Got it"));
}

#[test]
fn test_is_accept_keyword_dutch() {
    assert!(is_accept_keyword("Alles accepteren"));
    assert!(is_accept_keyword("Accepteer alles"));
    assert!(is_accept_keyword("Akkoord"));
    assert!(is_accept_keyword("Ja, ik accepteer"));
    assert!(is_accept_keyword("Ik ga akkoord"));
    assert!(is_accept_keyword("Alles toestaan"));
}

#[test]
fn test_is_accept_keyword_french() {
    assert!(is_accept_keyword("Tout accepter"));
    assert!(is_accept_keyword("J'accepte"));
    assert!(is_accept_keyword("Accepter et fermer"));
    assert!(is_accept_keyword("Continuer et accepter"));
}

#[test]
fn test_is_accept_keyword_german() {
    assert!(is_accept_keyword("Alle akzeptieren"));
    assert!(is_accept_keyword("Alles annehmen"));
    assert!(is_accept_keyword("Zustimmen"));
    assert!(is_accept_keyword("Einverstanden"));
    assert!(is_accept_keyword("Akzeptieren und weiter"));
}

#[test]
fn test_is_accept_keyword_italian() {
    assert!(is_accept_keyword("Accetta tutto"));
    assert!(is_accept_keyword("Accetto"));
    assert!(is_accept_keyword("Acconsento"));
}

#[test]
fn test_is_accept_keyword_spanish() {
    assert!(is_accept_keyword("Aceptar todo"));
    assert!(is_accept_keyword("Acepto"));
    assert!(is_accept_keyword("Aceptar y continuar"));
}

#[test]
fn test_is_accept_keyword_reject_guard_takes_priority() {
    assert!(!is_accept_keyword("Alles ablehnen"));
    assert!(!is_accept_keyword("Reject all cookies"));
    assert!(!is_accept_keyword("Decline and manage settings"));
}

#[test]
fn test_js_array_produces_valid_json_array() {
    let result = js_array(&["foo", "bar"]);
    assert_eq!(result, r#"["foo","bar"]"#);
}

#[test]
fn test_js_array_escapes_double_quotes() {
    let result = js_array(&[r#"button[data-testid="pur-accept-button"]"#]);
    assert!(
        result.contains(r#"\""#),
        "embedded quotes must be escaped: {result}"
    );
}

#[test]
fn inline_banner_detected_for_every_vendor() {
    for marker in BANNER_MARKERS {
        let html = format!(r#"<html><body><div id="{marker}">Cookies</div></body></html>"#);
        assert!(
            html_has_inline_consent_banner(&html),
            "vendor marker {marker} not detected"
        );
    }
}

#[test]
fn inline_banner_not_detected_on_an_ordinary_page() {
    assert!(!html_has_inline_consent_banner(
        "<html><body><h1>Hello</h1><p>Some article text.</p></body></html>"
    ));
}

#[test]
fn inline_banner_not_detected_from_prose_or_a_policy_link() {
    let prose = "<html><body><p>We use cookies and a cookie consent tool. \
                 Read our cookie policy about cookies.</p>\
                 <a href=\"/en/cookie-policy\">Cookies notice</a>\
                 <a href=\"/cookie-consent\">Cookies setting</a></body></html>";
    assert!(!html_has_inline_consent_banner(prose));
}

#[test]
fn bpost_style_onetrust_banner_is_detected() {
    let html = r#"<html><body><div id="onetrust-consent-sdk">
        <div id="onetrust-banner-sdk"><button id="onetrust-accept-btn-handler">Alles accepteren</button></div>
    </div><h1>Welkom bij Bpost</h1></body></html>"#;
    assert!(html_has_inline_consent_banner(html));
    assert!(!is_consent_wall_str("https://www.bpost.be/nl"));
    assert!(!html_has_consent_wall(html));
}

#[test]
fn settings_buttons_are_not_a_consent_choice() {
    for text in [
        "Manage preferences",
        "Cookie settings",
        "Instellingen",
        "Personnaliser",
        "Einstellungen",
    ] {
        assert!(is_settings_text(text), "{text} should read as settings");
        assert!(is_reject_text(text), "{text} must never count as accept");
        assert!(!is_accept_keyword(text));
    }
}

#[test]
fn every_vendor_offers_a_reject_selector_and_it_reaches_the_page() {
    assert!(CMP_REJECT_SELECTORS.contains(&"#onetrust-reject-all-handler"));
    let js = gate_surface_js(&None, false, false);
    for sel in CMP_REJECT_SELECTORS {
        assert!(
            js.contains(&format!("{sel:?}")),
            "reject selector {sel} never reaches the page"
        );
    }
    let rej = js.find("matchesAny(CMPREJ)").expect("reject check");
    let acc = js.find("matchesAny(CMP)").expect("accept check");
    assert!(rej < acc, "reject must be classified first");
}

#[test]
fn dutch_and_french_reject_wordings_are_recognised() {
    for text in [
        "Alles afwijzen",
        "Alles weigeren",
        "Continuer sans accepter",
        "Alleen essenti\u{eb}le cookies",
        "Nur erforderliche Cookies",
    ] {
        assert!(is_reject_text(text), "{text} should read as a refusal");
        assert!(
            !is_accept_keyword(text),
            "{text} must never count as accept"
        );
        assert!(!is_settings_text(text), "{text} decides something");
    }
}

#[test]
fn a_real_reject_is_not_classified_as_settings() {
    for text in ["Reject all", "Alles weigeren", "Alleen noodzakelijke"] {
        assert!(is_reject_text(text));
        assert!(!is_settings_text(text), "{text} decides something");
    }
}

#[test]
fn js_var_reads_single_and_double_quoted_and_bare_values() {
    assert_eq!(
        js_var("var cookieDomain='.google.com';", "cookieDomain").as_deref(),
        Some(".google.com")
    );
    assert_eq!(
        js_var(r#"var sCAS = "CAIS";"#, "sCAS").as_deref(),
        Some("CAIS")
    );
    assert_eq!(
        js_var("var sL=34128000;", "sL").as_deref(),
        Some("34128000")
    );
}

#[test]
fn js_var_skips_an_identifier_that_only_shares_a_prefix() {
    assert_eq!(
        js_var("var sLater='nope';var sL=42;", "sL").as_deref(),
        Some("42")
    );
    assert_eq!(js_var("var sLater='nope';", "sL"), None);
}

#[test]
fn google_consent_values_are_read_from_the_wall() {
    let g = google_consent_values(GOOGLE_WALL_SNIPPET).expect("wall values");
    assert_eq!(g.domain, ".google.com");
    assert!(g.accept.starts_with("CAIS"), "accept payload: {}", g.accept);
    assert!(g.reject.starts_with("CAES"), "reject payload: {}", g.reject);
    assert_ne!(g.accept, g.reject);
    assert_eq!(g.max_age, "34128000");
}

#[test]
fn google_consent_values_absent_on_an_ordinary_page() {
    assert_eq!(
        google_consent_values("<html><body><p>Nothing here.</p></body></html>"),
        None
    );
}

#[test]
fn google_consent_falls_back_to_the_stale_constant() {
    let g = google_consent_or_fallback("<html><body></body></html>");
    assert_eq!(g.domain, ".google.com");
    assert_eq!(g.accept, GOOGLE_SOCS_FALLBACK);
}

#[test]
fn google_consent_rejects_a_non_dotted_domain() {
    assert_eq!(
        google_consent_values(
            "var cookieDomain='https://example.com';var sCAS='a';var sCRS='b';"
        ),
        None
    );
}

#[test]
fn gate_script_embeds_the_google_values_it_was_given() {
    let g = google_consent_values(GOOGLE_WALL_SNIPPET).unwrap();
    let (accept, reject) = (g.accept.clone(), g.reject.clone());
    let js = gate_surface_js(&Some(g), true, false);
    assert!(js.contains(&accept));
    assert!(js.contains(&reject));
    assert!(js.contains(".google.com"));
    assert!(js.contains("const IS_WALL = true;"));
}

#[test]
fn gate_script_carries_the_vendor_selectors_and_no_google_block() {
    let js = gate_surface_js(&None, false, false);
    assert!(js.contains("const GOOGLE = null;"));
    assert!(js.contains("const IS_WALL = false;"));
    assert!(js.contains("#onetrust-banner-sdk"));
    assert!(js.contains("#CybotCookiebotDialog"));
    assert!(js.contains("createElement('form')"));
}

#[test]
fn the_gate_script_never_looks_for_a_language_chooser() {
    let js = gate_surface_js(&None, false, false);
    for probe in ["hreflang", "data-lang", "STORED_LANG", "sic-lang-"] {
        assert!(
            !js.contains(probe),
            "a cookie step asks about languages through {probe}"
        );
    }
}

#[test]
fn gate_page_contains_only_the_choices() {
    let html = gate_page_html(
        &vec!["Alles weigeren".to_owned(), "Alles aanvaarden".to_owned()],
        &vec!["sic-consent-0".to_owned(), "sic-consent-1".to_owned()],
    );
    let (elems, map) = html_to_ffon_with_forms(&html, "");
    assert_eq!(elems.len(), 2, "expected exactly two choices: {elems:?}");
    assert_eq!(
        map.get("form_1/Alles weigeren")
            .map(|n| n.css_selector.as_str()),
        Some("#sic-consent-0")
    );
    assert_eq!(
        map.get("form_2/Alles aanvaarden")
            .map(|n| n.css_selector.as_str()),
        Some("#sic-consent-1")
    );
}

#[test]
fn gate_page_escapes_a_hostile_label() {
    let html = gate_page_html(
        &vec!["</button><script>bad()</script>".to_owned()],
        &vec!["sic-consent-0".to_owned()],
    );
    assert!(!html.contains("<script>"), "label was not escaped: {html}");
}

#[test]
fn an_array_is_json_and_reads_back() {
    assert_eq!(js_array(&[]), "[]");
    let bell = String::from("\u{7}");
    let items = ["", "a\"b\\c", bell.as_str(), "\u{0}1", "], [", "paramètres"];
    let back: Vec<String> = serde_json::from_str(&js_array(&items)).expect("a JSON array");
    assert_eq!(back, items);
}

#[test]
fn an_escaped_text_is_told_from_an_entity() {
    assert_eq!(html_escape("&lt;"), "&amp;lt;");
    let s = "a & b < c > \"d\" &amp;quot;";
    let escaped = html_escape(s);
    assert!(!escaped.contains(['<', '>', '"']));
    let back = escaped
        .replace("&quot;", "\"")
        .replace("&gt;", ">")
        .replace("&lt;", "<")
        .replace("&amp;", "&");
    assert_eq!(back, s);
}

#[test]
fn case_does_not_matter_on_a_button() {
    for text in ["Reject all", "Cookie Settings", "Accept All", "Read more", "Paramètres", "Ζητώ ΣΑΣ"] {
        for same in [text.to_lowercase(), text.to_uppercase()] {
            assert_eq!(is_reject_text(&same), is_reject_text(text), "{same}");
            assert_eq!(is_settings_text(&same), is_settings_text(text), "{same}");
            assert_eq!(is_accept_keyword(&same), is_accept_keyword(text), "{same}");
        }
    }
    assert!(is_reject_text("Reject all") && !is_settings_text("Reject all"));
}
