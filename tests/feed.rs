use arxiv_tui::arxiv::{
    entries_of, get_authors, get_last_updated, get_pdf_link, get_summary, get_title, parse,
    SearchError, XmlNode,
};

const FEED: &str = r#"<?xml version="1.0" encoding="UTF-8"?>
<feed xmlns="http://www.w3.org/2005/Atom">
  <title type="html">ArXiv Query: search_query=all:electron</title>
  <updated>2024-01-01T00:00:00-05:00</updated>
  <entry>
    <id>http://arxiv.org/abs/0001</id>
    <updated>2023-05-01T10:00:00Z</updated>
    <title>First paper</title>
    <summary>Line one
	line two</summary>
    <author><name>Ada Lovelace</name></author>
    <author><name>Alan Turing</name></author>
    <link href="http://arxiv.org/abs/0001" rel="alternate" type="text/html"/>
    <link title="pdf" href="http://arxiv.org/pdf/0001" rel="related" type="application/pdf"/>
  </entry>
  <entry>
    <title>Second paper</title>
    <author><name>Grace Hopper</name></author>
    <link title="pdf" href="http://arxiv.org/pdf/0002" rel="related"/>
  </entry>
</feed>"#;

#[test]
fn one_record_per_entry() {
    let records = parse(FEED).unwrap();
    assert_eq!(records.len(), 2);
    assert_eq!(records[0].title, "First paper");
    assert_eq!(records[0].summary, "Line one  line two");
    assert_eq!(records[0].authors, "Ada Lovelace, Alan Turing");
    assert_eq!(records[0].pdf_link, "http://arxiv.org/pdf/0001");
    assert_eq!(records[1].title, "Second paper");
    assert_eq!(records[1].authors, "Grace Hopper");
    assert_eq!(records[1].pdf_link, "http://arxiv.org/pdf/0002");
}

#[test]
fn missing_summary_gets_default() {
    let records = parse(FEED).unwrap();
    assert_eq!(records[1].summary, "No summary found");
    assert_eq!(records[1].title, "Second paper");
    assert_eq!(records[1].authors, "Grace Hopper");
    assert_eq!(records[1].pdf_link, "http://arxiv.org/pdf/0002");
}

#[test]
fn entry_with_no_fields_gets_all_defaults() {
    let records = parse("<feed><entry><id>x</id></entry></feed>").unwrap();
    assert_eq!(records.len(), 1);
    assert_eq!(records[0].title, "Missing Title");
    assert_eq!(records[0].summary, "No summary found");
    assert_eq!(records[0].authors, "");
    assert_eq!(records[0].pdf_link, "https://arxiv.org");
}

#[test]
fn empty_title_element_gets_default() {
    let records = parse("<feed><entry><title/><summary></summary></entry></feed>").unwrap();
    assert_eq!(records[0].title, "Missing Title");
    assert_eq!(records[0].summary, "No summary found");
}

#[test]
fn pdf_link_without_href_gets_fallback() {
    let records = parse(r#"<feed><entry><link title="pdf"/></entry></feed>"#).unwrap();
    assert_eq!(records[0].pdf_link, "https://arxiv.org");
    let records = parse(r#"<feed><entry><link href="a"/><link title="abs" href="b"/></entry></feed>"#).unwrap();
    assert_eq!(records[0].pdf_link, "https://arxiv.org");
}

#[test]
fn feed_without_entries_gives_no_records() {
    assert_eq!(parse("<feed><title>t</title></feed>").unwrap().len(), 0);
}

#[test]
fn malformed_feed_is_an_error() {
    assert!(matches!(parse("<feed><entry>"), Err(SearchError::MalformedFeed)));
    assert!(matches!(parse("not xml at all"), Err(SearchError::MalformedFeed)));
    assert!(matches!(parse(""), Err(SearchError::MalformedFeed)));
}

#[test]
fn author_without_name_text_gives_empty_part() {
    let records =
        parse("<feed><entry><author><name/></author><author><name>B</name></author></entry></feed>").unwrap();
    assert_eq!(records[0].authors, ", B");
}

fn node(depth: usize, name: &str, text: Option<&str>, attributes: &[(&str, &str)]) -> XmlNode {
    XmlNode {
        element: !name.is_empty(),
        name: name.to_string(),
        text: text.map(|t| t.to_string()),
        attributes: attributes.iter().map(|(a, v)| (a.to_string(), v.to_string())).collect(),
        depth,
    }
}

fn sample_nodes() -> Vec<XmlNode> {
    vec![
        node(1, "", None, &[]),
        node(2, "feed", None, &[]),
        node(3, "title", Some("Feed title"), &[]),
        node(3, "entry", None, &[]),
        node(4, "updated", Some("2023-05-01"), &[]),
        node(4, "title", Some("Paper"), &[]),
        node(5, "", Some("Paper"), &[]),
        node(4, "summary", Some("a\tb"), &[]),
        node(4, "author", None, &[]),
        node(5, "name", Some("X"), &[]),
        node(4, "author", None, &[]),
        node(5, "name", Some("Y"), &[]),
        node(4, "link", None, &[("title", "pdf"), ("href", "p.pdf")]),
        node(3, "entry", None, &[]),
    ]
}

#[test]
fn field_extraction_on_nodes() {
    let nodes = sample_nodes();
    assert_eq!(get_title(&nodes, 3), "Paper");
    assert_eq!(get_summary(&nodes, 3), "a b");
    assert_eq!(get_authors(&nodes, 3), "X, Y");
    assert_eq!(get_pdf_link(&nodes, 3), "p.pdf");
    assert_eq!(get_last_updated(&nodes, 3), "2023-05-01");
}

#[test]
fn field_extraction_stays_inside_the_entry() {
    let nodes = sample_nodes();
    assert_eq!(get_title(&nodes, 13), "Missing Title");
    assert_eq!(get_summary(&nodes, 13), "No summary found");
    assert_eq!(get_authors(&nodes, 13), "");
    assert_eq!(get_pdf_link(&nodes, 13), "https://arxiv.org");
    assert_eq!(get_last_updated(&nodes, 13), "Unknown");
}

#[test]
fn records_from_nodes() {
    let records = entries_of(&sample_nodes());
    assert_eq!(records.len(), 2);
    assert_eq!(records[0].title, "Paper");
    assert_eq!(records[1].title, "Missing Title");
}
