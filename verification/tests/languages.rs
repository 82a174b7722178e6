//! The language versions that a page declares.

use sicompass_sdk::localize;
use webbrowser_plugin::gate::gate_page_html;
use webbrowser_plugin::languages::declared_languages;
use webbrowser_plugin::page::{page_to_ffon_with_forms, PageLoad};
use webbrowser_plugin::tree::{Element, Section};

const BPOST_HEAD: &str = r#"<!DOCTYPE html><html lang="nl"><head>
        <link rel="alternate" hreflang="nl" href="https://www.bpost.be/nl" />
        <link rel="alternate" hreflang="en" href="https://www.bpost.be/en" />
        <link rel="alternate" hreflang="fr" href="https://www.bpost.be/fr" />
        <link rel="alternate" hreflang="de" href="https://www.bpost.be/de" />
        </head><body>
        <div aria-hidden="true" class="modal fade pre_homepage_language_modal">
          <p><a class="choose-lang" data-lang="nl">Ik spreek Nederlands</a></p>
          <p><a class="choose-lang" data-lang="fr">Je parle Français</a></p>
        </div>
        <h1>Welkom bij Bpost</h1>
        </body></html>"#;

/// What a node of the tree is.
trait Reading {
    fn as_str(&self) -> Option<&str>;
    fn as_obj(&self) -> Option<&Section>;
}

impl Reading for Element {
    fn as_str(&self) -> Option<&str> {
        match self {
            Element::Str(s) => Some(s),
            Element::Obj(_) => None,
        }
    }

    fn as_obj(&self) -> Option<&Section> {
        match self {
            Element::Str(_) => None,
            Element::Obj(o) => Some(o),
        }
    }
}


#[test]
fn a_site_declaring_four_languages_offers_all_four() {
    let langs = declared_languages(BPOST_HEAD, "https://www.bpost.be/nl");
    let codes: Vec<&str> = langs.iter().map(|(l, _)| l.as_str()).collect();
    assert_eq!(langs.len(), 4, "expected bpost's four languages: {codes:?}");
    assert!(langs[0].0.starts_with("Nederlands"), "{codes:?}");
    assert_eq!(langs[1].0, "English");
    assert_eq!(langs[2].0, "Français");
    assert_eq!(langs[3].0, "Deutsch");
    assert_eq!(langs[3].1, "https://www.bpost.be/de");
    assert!(
        langs[0]
            .0
            .contains(&localize::t("webbrowser-language-current")),
        "the current language is not marked: {codes:?}"
    );
    assert_eq!(
        langs
            .iter()
            .filter(|(l, _)| l.contains(&localize::t("webbrowser-language-current")))
            .count(),
        1,
        "exactly one language is the current one: {codes:?}"
    );
}

#[test]
fn the_language_you_are_reading_is_listed_even_when_undeclared() {
    let html = r#"<!DOCTYPE html><html lang="nl"><head>
        <link href="https://www.anysurfer.be/en" rel="alternate" hreflang="en">
        <link href="https://www.anysurfer.be/fr" rel="alternate" hreflang="fr">
        </head><body><h1>Toegankelijkheid</h1></body></html>"#;
    let langs = declared_languages(html, "https://www.anysurfer.be/nl");
    assert_eq!(langs.len(), 3, "Dutch is missing: {langs:?}");
    let dutch = langs
        .iter()
        .find(|(l, _)| l.starts_with("Nederlands"))
        .expect("no Dutch entry");
    assert_eq!(dutch.1, "https://www.anysurfer.be/nl");
    assert!(
        dutch
            .0
            .contains(&localize::t("webbrowser-language-current"))
    );
}

#[test]
fn a_page_offering_no_real_choice_declares_nothing() {
    for html in [
        r#"<html lang="nl"><head></head><body><p>Hallo</p></body></html>"#,
        r#"<html lang="nl"><head>
           <link rel="alternate" hreflang="nl" href="/nl"></head><body></body></html>"#,
        r#"<html><head><link rel="alternate" hreflang="fr" href="/fr"></head><body></body></html>"#,
    ] {
        assert!(
            declared_languages(html, "https://x.invalid/nl").is_empty(),
            "a page with no choice offered one: {html}"
        );
    }
}

#[test]
fn region_variants_and_x_default_are_not_languages() {
    let html = r#"<!DOCTYPE html><html lang="nl-BE"><head>
        <link rel="alternate" hreflang="x-default" href="https://x.invalid/">
        <link rel="alternate" hreflang="nl-BE" href="https://x.invalid/nl-be">
        <link rel="alternate" hreflang="nl" href="https://x.invalid/nl">
        <link rel="alternate" hreflang="FR" href="https://x.invalid/fr">
        </head><body></body></html>"#;
    let langs = declared_languages(html, "https://x.invalid/nl-be");
    assert_eq!(
        langs.len(),
        2,
        "expected one Dutch and one French: {langs:?}"
    );
    assert_eq!(langs[0].1, "https://x.invalid/nl-be");
    assert!(langs[0].0.starts_with("Nederlands"));
    assert_eq!(langs[1].0, "Français");
}

#[test]
fn only_head_alternates_count_as_a_language_version() {
    let html = r#"<!DOCTYPE html><html lang="nl"><head>
        <link rel="alternate stylesheet" hreflang="de" href="/print.css">
        <link rel="alternate" hreflang="fr" href="/fr">
        </head><body>
        <a hreflang="en" href="/nl/contact">CONTACT</a>
        </body></html>"#;
    let langs = declared_languages(html, "https://x.invalid/nl");
    let labels: Vec<&str> = langs.iter().map(|(l, _)| l.as_str()).collect();
    assert_eq!(langs.len(), 2, "expected only Dutch and French: {labels:?}");
    assert!(
        !labels.iter().any(|l| l.starts_with("English")),
        "{labels:?}"
    );
    assert!(
        !labels.iter().any(|l| l.starts_with("Deutsch")),
        "{labels:?}"
    );
}

#[test]
fn relative_alternates_resolve_against_the_page() {
    let html = r#"<html lang="nl"><head>
        <link rel="alternate" hreflang="fr" href="/fr/thuis">
        </head><body></body></html>"#;
    let langs = declared_languages(html, "https://x.invalid/nl/thuis");
    let french = langs
        .iter()
        .find(|(l, _)| l == "Français")
        .expect("no French");
    assert_eq!(french.1, "https://x.invalid/fr/thuis");
}

#[test]
fn an_unknown_language_code_still_lists() {
    let html = r#"<html lang="nl"><head>
        <link rel="alternate" hreflang="fy" href="/fy"></head><body></body></html>"#;
    let langs = declared_languages(html, "https://x.invalid/nl");
    assert_eq!(langs.len(), 2, "{langs:?}");
    assert!(langs.iter().any(|(l, _)| l == "FY"), "{langs:?}");
}

#[test]
fn a_cookie_step_is_still_only_a_question() {
    let html = gate_page_html(
        &vec!["Alles weigeren".to_owned(), "Alles aanvaarden".to_owned()],
        &vec!["sic-consent-0".to_owned(), "sic-consent-1".to_owned()],
    );
    assert!(declared_languages(&html, "https://www.bpost.be/nl").is_empty());
}

#[test]
fn the_language_section_is_the_last_thing_on_the_page() {
    let (elements, _) = page_to_ffon_with_forms(
        &PageLoad::plain(BPOST_HEAD.to_owned()),
        "https://www.bpost.be/nl",
    );
    let last = elements.last().expect("no elements");
    let obj = last.as_obj().expect("the language section is a section");
    assert_eq!(obj.key, localize::t("webbrowser-languages"));
    assert_eq!(obj.children.len(), 4, "{:?}", obj.children);
    let rendered = format!("{:?}", obj.children);
    assert!(
        rendered.contains("Deutsch <link>https://www.bpost.be/de</link>"),
        "{rendered}"
    );
    let all = format!("{elements:?}");
    assert!(all.contains("Welkom bij Bpost"), "{all}");
    assert!(
        !all.contains("Ik spreek Nederlands <link>"),
        "an href-less anchor became a link: {all}"
    );
}

#[test]
fn a_link_in_the_body_is_no_language_version() {
    let html = r#"<html lang="nl"><head></head><body><p>x</p><link rel="alternate" hreflang="fr" href="https://x.invalid/fr"></body></html>"#;
    assert!(declared_languages(html, "https://x.invalid/nl").is_empty());
    let html = html.replace("<head></head>", r#"<head><link rel="alternate" hreflang="en" href="/en"></head>"#);
    let langs = declared_languages(&html, "https://x.invalid/nl");
    assert_eq!(langs[0], ("English".to_owned(), "https://x.invalid/en".to_owned()));
    assert_eq!(langs.len(), 2, "{langs:?}");
}
