use arxiv::{derive_pdf_url, response_to_items, ArxivError, Feed};

const TWO_ENTRY_FEED: &str = r#"<?xml version="1.0" encoding="UTF-8"?>
<feed xmlns="http://www.w3.org/2005/Atom">
  <link href="http://arxiv.org/api/query" rel="self" type="application/atom+xml"/>
  <title type="html">ArXiv Query results</title>
  <entry>
    <id>http://arxiv.org/abs/1234.5678v1</id>
    <updated>2019-06-04T17:59:59Z</updated>
    <published>2019-06-03T12:00:00Z</published>
    <title>First paper</title>
    <summary>About electrons.</summary>
    <author>
      <name>Ada Lovelace</name>
      <affiliation>Analytical Engine Institute</affiliation>
    </author>
    <author>
      <name>Charles Babbage</name>
    </author>
    <category term="cs.CR" scheme="http://arxiv.org/schemas/atom"/>
  </entry>
  <entry>
    <id>http://arxiv.org/abs/9999.0001v2</id>
    <updated>2020-01-01T00:00:00Z</updated>
    <published>2019-12-31T23:59:59Z</published>
    <title>Second paper: A &amp; B &lt;C&gt;</title>
    <summary>More work.</summary>
    <author>
      <name>Grace Hopper</name>
    </author>
  </entry>
</feed>
"#;

#[test]
fn feed_maps_every_entry_in_order() {
    let feed = Feed::from_text(TWO_ENTRY_FEED).expect("well-formed feed should parse");
    let items = feed.into_items();
    assert_eq!(items.len(), 2);

    let first = &items[0];
    assert_eq!(first.id, "http://arxiv.org/abs/1234.5678v1");
    assert_eq!(first.updated.as_str(), "2019-06-04T17:59:59Z");
    assert_eq!(first.published.as_str(), "2019-06-03T12:00:00Z");
    assert_eq!(first.title, "First paper");
    assert_eq!(first.summary, "About electrons.");
    assert_eq!(first.author.len(), 2);
    assert_eq!(first.author[0].name, "Ada Lovelace");
    assert_eq!(
        first.author[0].affiliation.as_deref(),
        Some("Analytical Engine Institute")
    );
    assert_eq!(first.author[1].name, "Charles Babbage");
    assert_eq!(first.author[1].affiliation, None);
    assert_eq!(first.pdf.as_deref(), Some("http://arxiv.org/pdf/1234.5678v1"));

    let second = &items[1];
    assert_eq!(second.id, "http://arxiv.org/abs/9999.0001v2");
    assert_eq!(second.title, "Second paper: A & B <C>");
    assert_eq!(second.author.len(), 1);
    assert_eq!(second.author[0].name, "Grace Hopper");
    assert_eq!(second.pdf.as_deref(), Some("http://arxiv.org/pdf/9999.0001v2"));
}

#[test]
fn empty_feed_yields_no_items() {
    let feed = Feed::from_text("<feed></feed>").expect("empty feed should parse");
    assert_eq!(feed.into_items().len(), 0);

    let feed = Feed::from_text("  <feed/>  ").expect("self-closing feed should parse");
    assert_eq!(feed.into_items().len(), 0);
}

#[test]
fn pdf_link_substitutes_the_first_abs_segment() {
    assert_eq!(
        derive_pdf_url("http://arxiv.org/abs/1234.5678v1"),
        "http://arxiv.org/pdf/1234.5678v1"
    );
    // only the first occurrence is replaced
    assert_eq!(
        derive_pdf_url("http://arxiv.org/abs/abs1"),
        "http://arxiv.org/pdf/abs1"
    );
}

#[test]
fn pdf_link_without_abs_is_the_id_unchanged() {
    assert_eq!(
        derive_pdf_url("http://example.org/papers/1234"),
        "http://example.org/papers/1234"
    );
}

#[test]
fn malformed_xml_is_a_parse_error() {
    assert!(matches!(
        Feed::from_text("this is not xml"),
        Err(ArxivError::Parse(_))
    ));
    assert!(matches!(
        Feed::from_text("<feed><entry></feed>"),
        Err(ArxivError::Parse(_))
    ));
    assert!(matches!(
        Feed::from_text("<feed><entry><id>x</id></entry></feed>"),
        Err(ArxivError::Parse(_))
    ));
}

#[test]
fn parse_errors_carry_a_message() {
    match Feed::from_text("not xml") {
        Err(e) => assert!(!e.message().is_empty()),
        Ok(_) => panic!("garbage must not parse"),
    }
}

#[test]
fn bad_timestamp_is_a_parse_error() {
    let text = "<feed><entry>\
        <id>http://arxiv.org/abs/1.2</id>\
        <updated>yesterday</updated>\
        <published>2019-06-03T12:00:00Z</published>\
        <title>t</title><summary>s</summary>\
        <author><name>n</name></author>\
        </entry></feed>";
    assert!(matches!(Feed::from_text(text), Err(ArxivError::Parse(_))));
}

#[test]
fn non_success_status_is_a_transport_error() {
    let r = response_to_items(404, "<feed></feed>");
    assert!(matches!(r, Err(ArxivError::Transport(_))));

    // the body is not parsed at all on a non-success status
    let r = response_to_items(500, "garbage that would never parse");
    assert!(matches!(r, Err(ArxivError::Transport(_))));
}

#[test]
fn success_status_hands_the_body_to_the_parser() {
    let items = response_to_items(200, TWO_ENTRY_FEED).expect("success status with a good body");
    assert_eq!(items.len(), 2);

    assert!(matches!(
        response_to_items(200, "not xml"),
        Err(ArxivError::Parse(_))
    ));
}
