use soyuz_studio::markdown::{heading_ids, markdown_to_html, slugify, MdEvent};

#[test]
fn slugs_are_lowercase_dashed_and_trimmed() {
    assert_eq!(slugify("Getting Started"), "getting-started");
    assert_eq!(slugify("  Leading space"), "leading-space");
    assert_eq!(slugify("Trailing --"), "trailing");
    assert_eq!(slugify("A & B"), "a--b");
    assert_eq!(slugify("snake_case name"), "snake-case-name");
    assert_eq!(slugify("v2.0 Notes"), "v20-notes");
    assert_eq!(slugify("???"), "");
    assert_eq!(slugify(""), "");
}

#[test]
fn repeated_headings_get_numbered_ids() {
    let events = vec![
        MdEvent::HeadingStart,
        MdEvent::Text("Intro".to_string()),
        MdEvent::HeadingEnd,
        MdEvent::Other,
        MdEvent::HeadingStart,
        MdEvent::Text("Intro".to_string()),
        MdEvent::HeadingEnd,
        MdEvent::HeadingStart,
        MdEvent::Text("Use ".to_string()),
        MdEvent::Code("sphere()".to_string()),
        MdEvent::HeadingEnd,
        MdEvent::HeadingStart,
        MdEvent::Text("Intro".to_string()),
        MdEvent::HeadingEnd,
    ];
    let ids = heading_ids(&events);
    assert_eq!(ids.len(), events.len());
    assert_eq!(ids[0].as_deref(), Some("intro"));
    assert_eq!(ids[1], None);
    assert_eq!(ids[3], None);
    assert_eq!(ids[4].as_deref(), Some("intro-1"));
    assert_eq!(ids[7].as_deref(), Some("use-sphere"));
    assert_eq!(ids[11].as_deref(), Some("intro-2"));
}

#[test]
fn rendered_headings_carry_their_anchor_ids() {
    let html = markdown_to_html("# Intro\n\nText\n\n## Intro\n\n### Use `cube`\n");
    assert!(html.contains("<h1 id=\"intro\">Intro</h1>"));
    assert!(html.contains("<h2 id=\"intro-1\">Intro</h2>"));
    assert!(html.contains("<h3 id=\"use-cube\">Use <code>cube</code></h3>"));
    assert!(html.contains("<p>Text</p>"));
}

#[test]
fn documents_without_headings_render_plainly() {
    assert_eq!(markdown_to_html("plain *text*"), "<p>plain <em>text</em></p>\n");
    assert_eq!(markdown_to_html(""), "");
}
