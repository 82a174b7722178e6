//! Pages as the reader gets them.

use sicompass_sdk::ffon::html_resolve_href;
use webbrowser_plugin::forms::FormMap;
use webbrowser_plugin::page::{challenge_notice, page_to_ffon_with_forms, PageLoad};
use webbrowser_plugin::tree::{Element, Section};

/// What a node of the tree is.
trait Reading {
    fn as_str(&self) -> Option<&str>;
    fn as_obj(&self) -> Option<&Section>;
}

impl Reading for Element {
    fn as_str(&self) -> Option<&str> {
        match self {
            Element::Str(s) => Some(s),
            Element::Obj(_) => None,
        }
    }

    fn as_obj(&self) -> Option<&Section> {
        match self {
            Element::Str(_) => None,
            Element::Obj(o) => Some(o),
        }
    }
}

fn html_to_ffon_with_forms(html: &str, url: &str) -> (Vec<Element>, FormMap) {
    page_to_ffon_with_forms(&PageLoad::plain(html.to_owned()), url)
}

fn html_to_ffon(html: &str, url: &str) -> Vec<Element> {
    html_to_ffon_with_forms(html, url).0
}

fn notice_for(html: &str) -> Option<String> {
    let elements = html_to_ffon(html, "https://example.com");
    challenge_notice(html, &elements)
}


#[test]
fn test_paragraph_under_heading_becomes_child() {
    let result = html_to_ffon(
        "<html><body><h2>Section</h2><p>Content</p></body></html>",
        "https://example.com",
    );
    let section = result
        .iter()
        .find(|e| e.as_obj().map_or(false, |o| o.key == "Section"));
    assert!(section.is_some(), "h2 should become an Obj");
    let children = &section.unwrap().as_obj().unwrap().children;
    assert!(
        children
            .iter()
            .any(|c| c.as_str().map_or(false, |s| s.contains("Content"))),
        "paragraph should be a child of the heading, not a sibling"
    );
}

#[test]
fn test_nested_headings_build_outline() {
    let result = html_to_ffon(
        "<html><body><h1>Top</h1><h2>Sub</h2><p>Leaf</p></body></html>",
        "https://example.com",
    );
    let top = result
        .iter()
        .find(|e| e.as_obj().map_or(false, |o| o.key == "Top"));
    assert!(top.is_some(), "h1 should be at the top level");
    let top_children = &top.unwrap().as_obj().unwrap().children;
    let sub = top_children
        .iter()
        .find(|e| e.as_obj().map_or(false, |o| o.key == "Sub"));
    assert!(sub.is_some(), "h2 should be a child of h1");
    let sub_children = &sub.unwrap().as_obj().unwrap().children;
    assert!(
        sub_children
            .iter()
            .any(|c| c.as_str().map_or(false, |s| s.contains("Leaf"))),
        "paragraph should be a child of h2"
    );
}

#[test]
fn test_custom_element_wrappers_do_not_collapse_to_one_blob() {
    let result = html_to_ffon(
        "<html><body><main>\
           <al-widgets><al-widget><div>\
             <h2>Alpha</h2><p>First paragraph</p>\
           </div></al-widget><al-widget><div>\
             <h2>Beta</h2><p>Second paragraph</p>\
           </div></al-widget></al-widgets>\
         </main></body></html>",
        "https://example.com",
    );
    fn find_key<'a>(elems: &'a [Element], key: &str) -> bool {
        elems.iter().any(|e| match e {
            Element::Obj(o) => o.key == key || find_key(&o.children, key),
            _ => false,
        })
    }
    assert!(find_key(&result, "Alpha"), "h2 'Alpha' lost: {result:?}");
    assert!(find_key(&result, "Beta"), "h2 'Beta' lost: {result:?}");
    fn any_blob(elems: &[Element]) -> bool {
        elems.iter().any(|e| match e {
            Element::Str(s) => {
                s.contains("First paragraph") && s.contains("Second paragraph")
            }
            Element::Obj(o) => any_blob(&o.children),
        })
    }
    assert!(
        !any_blob(&result),
        "content collapsed into one blob: {result:?}"
    );
}

#[test]
fn test_whitespace_normalized_in_paragraph() {
    let result = html_to_ffon(
        "<html><body><p>Hello\n    world\t  here</p></body></html>",
        "https://example.com",
    );
    assert!(
        result
            .iter()
            .any(|e| e.as_str().map_or(false, |s| s == "Hello world here")),
        "internal whitespace should be collapsed to single spaces"
    );
}

#[test]
fn test_empty_page_returns_placeholder() {
    let result = html_to_ffon("<html><body></body></html>", "https://example.com");
    assert!(result.len() <= 1);
}

#[test]
fn test_paragraph_becomes_str() {
    let result = html_to_ffon(
        "<html><body><p>Hello world</p></body></html>",
        "https://example.com",
    );
    assert!(
        result
            .iter()
            .any(|e| e.as_str().map_or(false, |s| s.contains("Hello world")))
    );
}

#[test]
fn test_heading_becomes_obj() {
    let result = html_to_ffon(
        "<html><body><h1>Title</h1></body></html>",
        "https://example.com",
    );
    assert!(
        result
            .iter()
            .any(|e| e.as_obj().map_or(false, |o| o.key.contains("Title")))
    );
}

#[test]
fn test_script_skipped() {
    let result = html_to_ffon(
        "<html><body><script>alert('x')</script><p>visible</p></body></html>",
        "https://example.com",
    );
    for e in &result {
        if let Some(s) = e.as_str() {
            assert!(!s.contains("alert"));
        }
    }
    assert!(
        result
            .iter()
            .any(|e| e.as_str().map_or(false, |s| s.contains("visible")))
    );
}

#[test]
fn synthesized_landmarks_group_the_page() {
    let result = html_to_ffon(
        "<html><body><nav><a href='/a'>Alpha</a><a href='/b'>Beta</a></nav>\
         <main><h1>Article</h1><p>Body text</p></main>\
         <footer><a href='/p'>Privacy</a></footer></body></html>",
        "https://example.com",
    );
    let keys: Vec<String> = result
        .iter()
        .map(|e| {
            e.as_obj()
                .map(|o| o.key.clone())
                .or_else(|| e.as_str().map(|s| s.to_owned()))
                .unwrap_or_default()
        })
        .collect();
    let joined = keys.join(" | ");
    assert!(
        keys.iter().any(|k| k.starts_with("navigation")),
        "expected a navigation landmark; got: {joined}"
    );
    assert!(
        keys.iter().any(|k| k == "main content"),
        "expected a main content landmark; got: {joined}"
    );
    assert!(
        keys.iter().any(|k| k == "footer"),
        "expected a footer landmark; got: {joined}"
    );
    let article = format!(
        "{:?}",
        result
            .iter()
            .find_map(|e| e.as_obj())
            .map(|o| &o.children)
    );
    let main = result
        .iter()
        .find_map(|e| e.as_obj().filter(|o| o.key == "main content"))
        .expect("main content obj");
    assert!(
        !format!("{main:?}").contains("Privacy"),
        "the <h1> must not swallow what follows the landmark; got: {article}"
    );
}

#[test]
fn a_landmark_boundary_holds_even_when_its_name_collapses_away() {
    let wrapped = html_to_ffon(
        "<html><body><nav><h2>Menu</h2><a href='/a'>Alpha</a></nav>\
         <p>AFTER-TEXT</p></body></html>",
        "https://example.com",
    );
    let after_is_sibling = wrapped
        .iter()
        .any(|e| e.as_str().is_some_and(|s| s.contains("AFTER-TEXT")));
    assert!(
        after_is_sibling,
        "the landmark must stop the heading swallowing what follows; got: {wrapped:?}"
    );

    let bare = html_to_ffon(
        "<html><body><h2>Menu</h2><a href='/a'>Alpha</a>\
         <p>AFTER-TEXT</p></body></html>",
        "https://example.com",
    );
    let bare_after_is_sibling = bare
        .iter()
        .any(|e| e.as_str().is_some_and(|s| s.contains("AFTER-TEXT")));
    assert!(
        !bare_after_is_sibling,
        "without a landmark the heading swallows it — this is the bug \
         banding exists to fix; got: {bare:?}"
    );
}

#[test]
fn wrapping_a_run_in_a_landmark_does_not_renumber_forms() {
    let plain = "<html><body><form><input name='one'></form>\
                 <form><input name='two'></form></body></html>";
    let wrapped = "<html><body><form><input name='one'></form>\
                   <main><form><input name='two'></form></main></body></html>";
    let (_e, before) = html_to_ffon_with_forms(plain, "https://example.com");
    let (_e, after) = html_to_ffon_with_forms(wrapped, "https://example.com");
    let key_of = |map: &FormMap, name: &str| -> Option<String> {
        map.entries
            .iter()
            .find(|(_, v)| v.css_selector.contains(name))
            .map(|(k, _)| k.clone())
    };
    assert_eq!(
        key_of(&before, "two"),
        key_of(&after, "two"),
        "wrapping must not renumber; before: {before:?} after: {after:?}"
    );
    assert!(
        key_of(&after, "two")
            .unwrap_or_default()
            .starts_with("form_2/"),
        "the second form is still form_2; got: {after:?}"
    );
}

#[test]
fn a_generic_nav_is_renamed_from_its_content() {
    let result = html_to_ffon(
        "<html><body><nav><a href='/s'>Pakje verzenden</a>\
         <a href='/o'>Pakje ontvangen</a></nav></body></html>",
        "https://example.com",
    );
    let rendered = format!("{result:?}");
    assert!(
        rendered.contains("navigation:") && rendered.contains("Pakje verzenden"),
        "the container is named from its links; got: {rendered}"
    );
}

#[test]
fn test_nav_renders_children() {
    let result = html_to_ffon(
        "<html><body><nav><a href='/'>Home</a></nav><p>content</p></body></html>",
        "https://example.com",
    );
    let nav = result
        .iter()
        .find_map(|e| e.as_obj())
        .filter(|o| o.key.starts_with("navigation"))
        .expect("nav should be wrapped in a navigation Obj");
    let found = nav.children.iter().any(|c| {
        c.as_obj().map_or(false, |o| {
            o.key.contains("<link>") && o.key.contains("Home")
        })
    });
    assert!(
        found,
        "nav link should render inside the navigation Obj, got: {result:?}"
    );
}

#[test]
fn test_footer_renders_children() {
    let result = html_to_ffon(
        "<html><body><footer><p>Copyright</p></footer></body></html>",
        "https://example.com",
    );
    let footer = result
        .iter()
        .find_map(|e| e.as_obj())
        .filter(|o| o.key == "footer")
        .expect("footer should be wrapped in a footer Obj");
    let found = footer
        .children
        .iter()
        .any(|c| c.as_str().map_or(false, |s| s.contains("Copyright")));
    assert!(
        found,
        "footer children should render inside the footer Obj, got: {result:?}"
    );
}

#[test]
fn test_link_gets_link_tag() {
    let result = html_to_ffon(
        "<html><body><p><a href='https://rust-lang.org'>Rust</a></p></body></html>",
        "https://example.com",
    );
    let found = result.iter().any(|e| {
        e.as_obj().map_or(false, |o| {
            o.key.contains("<link>") && o.key.contains("rust-lang.org")
        })
    });
    assert!(found, "link should be an Obj with <link> tag in key");
}

#[test]
fn test_relative_link_resolved() {
    let result = html_to_ffon(
        "<html><body><p><a href='/page'>Page</a></p></body></html>",
        "https://example.com",
    );
    let found = result.iter().any(|e| {
        e.as_obj()
            .map_or(false, |o| o.key.contains("example.com/page"))
    });
    assert!(
        found,
        "relative link should be resolved and appear as Obj key"
    );
}

#[test]
fn test_unordered_list_becomes_obj() {
    let result = html_to_ffon(
        "<html><body><ul><li>Alpha</li><li>Beta</li></ul></body></html>",
        "https://example.com",
    );
    let list = result
        .iter()
        .find(|e| e.as_obj().map_or(false, |o| o.key.starts_with("list")));
    assert!(list.is_some());
    let children = &list.unwrap().as_obj().unwrap().children;
    assert_eq!(children.len(), 2);
    assert!(children[0].as_str().unwrap().contains("Alpha"));
    assert!(children[1].as_str().unwrap().contains("Beta"));
}

#[test]
fn test_ordered_list_numbered() {
    let result = html_to_ffon(
        "<html><body><ol><li>First</li><li>Second</li></ol></body></html>",
        "https://example.com",
    );
    let list = result.iter().find(|e| {
        e.as_obj()
            .map_or(false, |o| o.key.starts_with("ordered list"))
    });
    assert!(list.is_some());
    let children = &list.unwrap().as_obj().unwrap().children;
    assert!(children[0].as_str().unwrap().starts_with("1."));
    assert!(children[1].as_str().unwrap().starts_with("2."));
}

#[test]
fn test_table_row_pipe_delimited() {
    let result = html_to_ffon(
        "<html><body><table><tr><td>A</td><td>B</td></tr></table></body></html>",
        "https://example.com",
    );
    let row = result
        .iter()
        .find(|e| e.as_str().map_or(false, |s| s.contains(" | ")));
    assert!(row.is_some());
    assert!(row.unwrap().as_str().unwrap().contains("A | B"));
}

#[test]
fn test_image_shows_alt() {
    let result = html_to_ffon(
        "<html><body><img alt='A diagram' src='x.png'/></body></html>",
        "https://example.com",
    );
    let img = result.iter().find(|e| {
        e.as_str()
            .map_or(false, |s| s.contains("A diagram") && s.contains("[img]"))
    });
    assert!(img.is_some());
}

#[test]
fn test_resolve_href_absolute() {
    let result = html_resolve_href("https://other.com/page", "https://base.com");
    assert_eq!(result, "https://other.com/page");
}

#[test]
fn test_resolve_href_relative() {
    let result = html_resolve_href("/path/to/page", "https://example.com/current");
    assert!(result.contains("example.com/path/to/page"));
}

#[test]
fn test_resolve_href_anchor_preserved() {
    let result = html_resolve_href("#section", "https://example.com");
    assert_eq!(result, "#section");
}

#[test]
fn test_resolve_href_anchor_complex() {
    let result = html_resolve_href("#page-main-content", "https://www.hln.be/");
    assert_eq!(result, "#page-main-content");
}

#[test]
fn test_fragment_link_in_p_becomes_navigable_obj() {
    let result = html_to_ffon(
        "<html><body><p><a href=\"#foo\">skip to foo</a></p></body></html>",
        "https://example.com",
    );
    let found = result.iter().any(|e| {
        e.as_obj()
            .map_or(false, |o| o.key.contains("<link>#foo</link>"))
    });
    assert!(
        found,
        "fragment link should become an Obj with <link>#foo</link>: {result:?}"
    );
}

#[test]
fn test_heading_with_id_gets_id_tag() {
    let result = html_to_ffon(
        "<html><body><h2 id=\"bar\">Section</h2></body></html>",
        "https://example.com",
    );
    let heading = result
        .iter()
        .find(|e| e.as_obj().map_or(false, |o| o.key.contains("Section")));
    assert!(heading.is_some(), "heading should exist: {result:?}");
    let key = &heading.unwrap().as_obj().unwrap().key;
    assert!(
        key.contains("<id>bar</id>"),
        "heading key should contain <id>bar</id>: {key}"
    );
}

#[test]
fn test_container_with_id_propagates_to_first_child() {
    let result = html_to_ffon(
        "<html><body><main id=\"x\"><p>hi</p></main></body></html>",
        "https://example.com",
    );
    let has_id_tag = result.iter().any(|e| match e {
        Element::Str(s) => s.contains("<id>x</id>"),
        Element::Obj(o) => o.key.contains("<id>x</id>"),
    });
    assert!(
        has_id_tag,
        "first element inside <main id=x> should have <id>x</id>: {result:?}"
    );
}

#[test]
fn test_ul_with_id_annotates_wrapper_not_item() {
    let result = html_to_ffon(
        "<html><body><ul id=\"things\"><li>a</li><li>b</li></ul></body></html>",
        "https://example.com",
    );
    let list = result.iter().find(|e| {
        e.as_obj().map_or(false, |o| {
            o.key.contains("list") && o.key.contains("<id>things</id>")
        })
    });
    assert!(
        list.is_some(),
        "list wrapper should have <id>things</id>: {result:?}"
    );
    if let Some(Element::Obj(l)) = list {
        let item_has_id = l.children.iter().any(|c| match c {
            Element::Str(s) => s.contains("<id>things</id>"),
            Element::Obj(o) => o.key.contains("<id>things</id>"),
        });
        assert!(!item_has_id, "list items should not have the id tag");
    }
}

#[test]
fn test_skip_link_and_target_end_to_end() {
    let result = html_to_ffon(
        "<html><body>\
         <a href=\"#foo\">skip</a>\
         <main id=\"foo\"><p>Main content</p></main>\
         </body></html>",
        "https://example.com",
    );
    let has_link = result.iter().any(|e| {
        e.as_obj()
            .map_or(false, |o| o.key.contains("<link>#foo</link>"))
    });
    assert!(has_link, "should have a navigable link to #foo: {result:?}");
    let has_target = result.iter().any(|e| match e {
        Element::Str(s) => s.contains("<id>foo</id>"),
        Element::Obj(o) => o.key.contains("<id>foo</id>"),
    });
    assert!(
        has_target,
        "should have a target element with <id>foo</id>: {result:?}"
    );
}

#[test]
fn challenge_notice_detects_cloudflare_block() {
    let html = r#"<html><body><h1>Sorry, you have been blocked</h1></body></html>"#;
    let notice = notice_for(html).expect("Cloudflare block wall should be recognised");
    assert!(
        notice.contains("Cloudflare"),
        "notice should name the vendor: {notice}"
    );
}

#[test]
fn challenge_notice_detects_cloudflare_error_code() {
    let html = r#"<html><body><div class="cf-error-1010">Access denied</div></body></html>"#;
    assert!(notice_for(html).is_some());
}

#[test]
fn challenge_notice_passes_normal_page() {
    let html =
        r#"<html><head><title>News</title></head><body><p>Article content</p></body></html>"#;
    assert_eq!(notice_for(html), None);
}

#[test]
fn challenge_notice_detects_bare_captcha_page() {
    let html = r#"<html><body><h1>Verify you are human</h1>
        <div class="h-captcha" data-sitekey="x"></div></body></html>"#;
    assert!(
        notice_for(html).is_some(),
        "a page that is nothing but a CAPTCHA widget is an interstitial"
    );
}

#[test]
fn challenge_notice_ignores_captcha_widget_on_a_real_page() {
    let body = "Sign in to your account. ".repeat(60); // well past the text limit
    let html =
        format!(r#"<html><body><p>{body}</p><div class="g-recaptcha"></div></body></html>"#);
    assert_eq!(notice_for(&html), None);
}

#[test]
fn interstitial_page_keeps_its_own_content() {
    let html = r#"<html><body><h1>Sorry, you have been blocked</h1>
        <p>You can email support@example.com to be unblocked.</p></body></html>"#;
    let load = PageLoad::plain(html.to_owned());
    let (elements, _) = page_to_ffon_with_forms(&load, "https://example.com");
    assert!(
        elements[0]
            .as_str()
            .map_or(false, |s| s.contains("Cloudflare")),
        "notice should lead the page: {:?}",
        elements[0]
    );
    let rendered = format!("{elements:?}");
    assert!(
        rendered.contains("support@example.com"),
        "the wall's own text must still be there: {rendered}"
    );
}

#[test]
fn load_notices_precede_content_and_content_notices() {
    let html = r#"<html><body><h1>Sorry, you have been blocked</h1>
        <p>Accept cookies to continue.</p></body></html>"#;
    let load = PageLoad {
        html: html.to_owned(),
        notices: vec!["Cookie-consent wall".to_owned()],
    };
    let (elements, _) = page_to_ffon_with_forms(&load, "https://example.com");
    assert!(
        elements[0]
            .as_str()
            .map_or(false, |s| s.contains("Cookie-consent wall"))
    );
    assert!(
        elements[1]
            .as_str()
            .map_or(false, |s| s.contains("Cloudflare"))
    );
}
