//! The arXiv Atom feed: a parsed document seen as its nodes in document
//! order, and the paper records drawn from its `entry` elements.
use vstd::prelude::*;
use vstd::string::*;

use crate::text::{flatten_whitespace, flattened};

verus! {

/// One node of a parsed XML document, as the feed extraction reads it.
/// A document is the list of its nodes in document order; the subtree of a
/// node is the node itself and the run of deeper nodes that follows it.
pub struct XmlNode {
    /// Whether the node is an element (and not text, a comment or the root).
    pub element: bool,
    /// The local tag name of an element; empty for other nodes.
    pub name: String,
    /// For an element, the text of its first child if that is a text node.
    pub text: Option<String>,
    /// The attributes of an element by local name, in document order.
    pub attributes: Vec<(String, String)>,
    /// The number of nodes from this one up to the root, both counted.
    pub depth: usize,
}

/// What the feed extraction sees of an `XmlNode`.
pub ghost struct NodeView {
    pub element: bool,
    pub name: Seq<char>,
    pub text: Option<Seq<char>>,
    pub attributes: Seq<(Seq<char>, Seq<char>)>,
    pub depth: nat,
}

/// The text of an optional string.
pub open spec fn opt_view(o: Option<String>) -> Option<Seq<char>> {
    match o {
        Some(t) => Some(t@),
        None => None,
    }
}

/// The texts of an attribute's name and value.
pub open spec fn pair_view(a: (String, String)) -> (Seq<char>, Seq<char>) {
    (a.0@, a.1@)
}

impl View for XmlNode {
    type V = NodeView;

    open spec fn view(&self) -> NodeView {
        NodeView {
            element: self.element,
            name: self.name@,
            text: opt_view(self.text),
            attributes: self.attributes@.map_values(|a: (String, String)| pair_view(a)),
            depth: self.depth as nat,
        }
    }
}

/// What the feed extraction sees of a document's nodes.
pub open spec fn nodes_view(v: Seq<XmlNode>) -> Seq<NodeView> {
    v.map_values(|n: XmlNode| n@)
}

/// The error of `roxmltree::Document::parse`, only ever mapped to
/// `SearchError::MalformedFeed`.
#[verifier::external_type_specification]
#[verifier::external_body]
pub struct ExXmlError(roxmltree::Error);

/// The nodes of the XML document `text` in document order, or `None` where
/// the text is not well-formed XML.
pub uninterp spec fn xml_document(text: Seq<char>) -> Option<Seq<NodeView>>;

/// Relies on `roxmltree::Document::parse` and `Document::descendants`: the
/// text is parsed, and its nodes come out in document order, the root first.
#[verifier::external_body]
fn parse_xml(text: &str) -> (r: Result<Vec<XmlNode>, roxmltree::Error>)
    ensures
        r is Ok ==> xml_document(text@) == Some(nodes_view(r->Ok_0@)),
        r is Err ==> xml_document(text@) is None,
{
    let doc = roxmltree::Document::parse(text)?;
    Ok(doc.descendants().map(|n| XmlNode {
        element: n.is_element(),
        name: n.tag_name().name().to_string(),
        text: n.text().map(|t| t.to_string()),
        attributes: n.attributes().map(|a| (a.name().to_string(), a.value().to_string())).collect(),
        depth: n.ancestors().count(),
    }).collect())
}

/// Whether the node is an element with the local name `tag`.
pub open spec fn has_tag(n: NodeView, tag: Seq<char>) -> bool {
    n.element && n.name == tag
}

/// The first position from `j` on whose node is no deeper than `d`, or the
/// end of the document.
pub open spec fn scan_end(ns: Seq<NodeView>, d: nat, j: int) -> int
    decreases ns.len() - j,
{
    if j < 0 || j >= ns.len() || ns[j].depth <= d {
        j
    } else {
        scan_end(ns, d, j + 1)
    }
}

/// One past the last node of the subtree of node `i`.
pub open spec fn subtree_end(ns: Seq<NodeView>, i: int) -> int {
    scan_end(ns, ns[i].depth, i + 1)
}

/// The first position in `[lo, hi)` whose node is an element named `tag`.
pub open spec fn first_tagged(ns: Seq<NodeView>, tag: Seq<char>, lo: int, hi: int) -> Option<int>
    decreases hi - lo,
{
    if hi <= lo {
        None
    } else {
        match first_tagged(ns, tag, lo, hi - 1) {
            Some(k) => Some(k),
            None => if has_tag(ns[hi - 1], tag) {
                Some(hi - 1)
            } else {
                None
            },
        }
    }
}

/// The text of the first element named `tag` in the subtree of node `i`,
/// or `default` where there is no such element or it holds no text.
pub open spec fn field_text(ns: Seq<NodeView>, i: int, tag: Seq<char>, default: Seq<char>) -> Seq<char> {
    match first_tagged(ns, tag, i, subtree_end(ns, i)) {
        Some(k) => match ns[k].text {
            Some(t) => t,
            None => default,
        },
        None => default,
    }
}

/// The title of the entry at node `i`.
pub open spec fn title_of(ns: Seq<NodeView>, i: int) -> Seq<char> {
    field_text(ns, i, "title"@, "Missing Title"@)
}

/// The summary of the entry at node `i`, line feeds and tabs made spaces.
pub open spec fn summary_of(ns: Seq<NodeView>, i: int) -> Seq<char> {
    match first_tagged(ns, "summary"@, i, subtree_end(ns, i)) {
        Some(k) => match ns[k].text {
            Some(t) => flattened(t),
            None => "No summary found"@,
        },
        None => "No summary found"@,
    }
}

/// The `updated` timestamp text of the entry at node `i`.
pub open spec fn last_updated_of(ns: Seq<NodeView>, i: int) -> Seq<char> {
    field_text(ns, i, "updated"@, "Unknown"@)
}

/// One past the last node of the subtree of node `i`.
fn find_subtree_end(nodes: &Vec<XmlNode>, i: usize) -> (r: usize)
    requires
        i < nodes.len(),
    ensures
        i < r <= nodes.len(),
        r == subtree_end(nodes_view(nodes@), i as int),
{
    let ghost ns = nodes_view(nodes@);
    let d = nodes[i].depth;
    let mut j: usize = i + 1;
    while j < nodes.len() && nodes[j].depth > d
        invariant
            ns == nodes_view(nodes@),
            d as nat == ns[i as int].depth,
            i < j <= nodes.len(),
            scan_end(ns, d as nat, j as int) == subtree_end(ns, i as int),
        decreases nodes.len() - j,
    {
        j = j + 1;
    }
    j
}

/// Whether the node is an element named `tag`.
fn is_tagged(n: &XmlNode, tag: &str) -> (r: bool)
    ensures
        r == has_tag(n@, tag@),
{
    n.element && n.name == String::from_str(tag)
}

/// The first position in `[lo, hi)` whose node is an element named `tag`.
fn find_tagged(nodes: &Vec<XmlNode>, tag: &str, lo: usize, hi: usize) -> (r: Option<usize>)
    requires
        lo <= hi <= nodes.len(),
    ensures
        r is Some ==> lo <= r->Some_0 < hi,
        first_tagged(nodes_view(nodes@), tag@, lo as int, hi as int) == match r {
            Some(k) => Some(k as int),
            None => None::<int>,
        },
{
    let ghost ns = nodes_view(nodes@);
    let mut k: usize = lo;
    while k < hi
        invariant
            ns == nodes_view(nodes@),
            lo <= k <= hi <= nodes.len(),
            first_tagged(ns, tag@, lo as int, k as int) is None,
        decreases hi - k,
    {
        if is_tagged(&nodes[k], tag) {
            assert(first_tagged(ns, tag@, lo as int, k + 1) == Some(k as int));
            proof { lemma_first_tagged_found(ns, tag@, lo as int, k as int + 1, hi as int); }
            return Some(k);
        }
        assert(first_tagged(ns, tag@, lo as int, k + 1) is None);
        k = k + 1;
    }
    None
}

proof fn lemma_first_tagged_found(ns: Seq<NodeView>, tag: Seq<char>, lo: int, mid: int, hi: int)
    requires
        lo <= mid <= hi,
        first_tagged(ns, tag, lo, mid) is Some,
    ensures
        first_tagged(ns, tag, lo, hi) == first_tagged(ns, tag, lo, mid),
    decreases hi - mid,
{
    if mid < hi {
        lemma_first_tagged_found(ns, tag, lo, mid, hi - 1);
    }
}

/// The text of the first element named `tag` in the subtree of node `i`,
/// or `default`.
fn get_field_text(nodes: &Vec<XmlNode>, node: usize, tag: &str, default: &str) -> (r: String)
    requires
        node < nodes.len(),
    ensures
        r@ == field_text(nodes_view(nodes@), node as int, tag@, default@),
{
    let end = find_subtree_end(nodes, node);
    match find_tagged(nodes, tag, node, end) {
        Some(k) => match &nodes[k].text {
            Some(t) => {
                assert(nodes_view(nodes@)[k as int] == nodes@[k as int]@);
                t.clone()
            },
            None => {
                assert(nodes_view(nodes@)[k as int] == nodes@[k as int]@);
                String::from_str(default)
            },
        },
        None => String::from_str(default),
    }
}

/// The title of the entry at `node`, or "Missing Title".
pub fn get_title(nodes: &Vec<XmlNode>, node: usize) -> (r: String)
    requires
        node < nodes.len(),
    ensures
        r@ == title_of(nodes_view(nodes@), node as int),
{
    get_field_text(nodes, node, "title", "Missing Title")
}

/// The summary of the entry at `node` with line feeds and tabs made
/// spaces, or "No summary found".
pub fn get_summary(nodes: &Vec<XmlNode>, node: usize) -> (r: String)
    requires
        node < nodes.len(),
    ensures
        r@ == summary_of(nodes_view(nodes@), node as int),
{
    let end = find_subtree_end(nodes, node);
    match find_tagged(nodes, "summary", node, end) {
        Some(k) => match &nodes[k].text {
            Some(t) => {
                assert(nodes_view(nodes@)[k as int] == nodes@[k as int]@);
                flatten_whitespace(t.as_str())
            },
            None => {
                assert(nodes_view(nodes@)[k as int] == nodes@[k as int]@);
                String::from_str("No summary found")
            },
        },
        None => String::from_str("No summary found"),
    }
}

/// The `updated` timestamp text of the entry at `node`, or "Unknown".
pub fn get_last_updated(nodes: &Vec<XmlNode>, node: usize) -> (r: String)
    requires
        node < nodes.len(),
    ensures
        r@ == last_updated_of(nodes_view(nodes@), node as int),
{
    get_field_text(nodes, node, "updated", "Unknown")
}

/// Whether the node is a `link` element marked as the PDF variant.
pub open spec fn is_pdf_link(n: NodeView) -> bool {
    has_tag(n, "link"@) && n.attributes.contains(("title"@, "pdf"@))
}

/// The first position in `[lo, hi)` whose node is the PDF link.
pub open spec fn first_pdf_link(ns: Seq<NodeView>, lo: int, hi: int) -> Option<int>
    decreases hi - lo,
{
    if hi <= lo {
        None
    } else {
        match first_pdf_link(ns, lo, hi - 1) {
            Some(k) => Some(k),
            None => if is_pdf_link(ns[hi - 1]) {
                Some(hi - 1)
            } else {
                None
            },
        }
    }
}

/// The value of the first of the first `hi` attributes named `name`.
pub open spec fn attr_value(attrs: Seq<(Seq<char>, Seq<char>)>, name: Seq<char>, hi: int) -> Option<Seq<char>>
    decreases hi,
{
    if hi <= 0 {
        None
    } else {
        match attr_value(attrs, name, hi - 1) {
            Some(v) => Some(v),
            None => if attrs[hi - 1].0 == name {
                Some(attrs[hi - 1].1)
            } else {
                None
            },
        }
    }
}

/// The page that stands in for a paper whose PDF link is missing.
pub open spec fn fallback_link() -> Seq<char> {
    "https://arxiv.org"@
}

/// The PDF link of the entry at node `i`.
pub open spec fn pdf_link_of(ns: Seq<NodeView>, i: int) -> Seq<char> {
    match first_pdf_link(ns, i, subtree_end(ns, i)) {
        Some(k) => match attr_value(ns[k].attributes, "href"@, ns[k].attributes.len() as int) {
            Some(v) => v,
            None => fallback_link(),
        },
        None => fallback_link(),
    }
}

/// Whether the node has the attribute `name` with the value `value`.
fn has_attribute(n: &XmlNode, name: &str, value: &str) -> (r: bool)
    ensures
        r == n@.attributes.contains((name@, value@)),
{
    let ghost attrs = n@.attributes;
    let mut j: usize = 0;
    while j < n.attributes.len()
        invariant
            attrs == n@.attributes,
            attrs.len() == n.attributes@.len(),
            j <= n.attributes.len(),
            forall|m: int| 0 <= m < j ==> attrs[m] != (name@, value@),
        decreases n.attributes.len() - j,
    {
        let a = &n.attributes[j];
        assert(attrs[j as int] == pair_view(n.attributes@[j as int]));
        if a.0 == String::from_str(name) && a.1 == String::from_str(value) {
            assert(attrs[j as int] == (name@, value@));
            return true;
        }
        j = j + 1;
    }
    false
}

/// The value of the first attribute of the node named `name`.
fn attribute_value(n: &XmlNode, name: &str) -> (r: Option<String>)
    ensures
        opt_view(r) == attr_value(n@.attributes, name@, n@.attributes.len() as int),
{
    let ghost attrs = n@.attributes;
    let mut j: usize = 0;
    while j < n.attributes.len()
        invariant
            attrs == n@.attributes,
            attrs.len() == n.attributes@.len(),
            j <= n.attributes.len(),
            attr_value(attrs, name@, j as int) is None,
        decreases n.attributes.len() - j,
    {
        let a = &n.attributes[j];
        assert(attrs[j as int] == pair_view(n.attributes@[j as int]));
        if a.0 == String::from_str(name) {
            proof { lemma_attr_value_found(attrs, name@, j as int + 1, attrs.len() as int); }
            return Some(a.1.clone());
        }
        j = j + 1;
    }
    None
}

proof fn lemma_attr_value_found(attrs: Seq<(Seq<char>, Seq<char>)>, name: Seq<char>, mid: int, hi: int)
    requires
        0 <= mid <= hi,
        attr_value(attrs, name, mid) is Some,
    ensures
        attr_value(attrs, name, hi) == attr_value(attrs, name, mid),
    decreases hi - mid,
{
    if mid < hi {
        lemma_attr_value_found(attrs, name, mid, hi - 1);
    }
}

proof fn lemma_first_pdf_link_found(ns: Seq<NodeView>, lo: int, mid: int, hi: int)
    requires
        lo <= mid <= hi,
        first_pdf_link(ns, lo, mid) is Some,
    ensures
        first_pdf_link(ns, lo, hi) == first_pdf_link(ns, lo, mid),
    decreases hi - mid,
{
    if mid < hi {
        lemma_first_pdf_link_found(ns, lo, mid, hi - 1);
    }
}

/// The PDF link of the entry at `node`: the `href` of the first `link`
/// element with `title="pdf"` in its subtree, or "https://arxiv.org".
pub fn get_pdf_link(nodes: &Vec<XmlNode>, node: usize) -> (r: String)
    requires
        node < nodes.len(),
    ensures
        r@ == pdf_link_of(nodes_view(nodes@), node as int),
{
    let ghost ns = nodes_view(nodes@);
    let end = find_subtree_end(nodes, node);
    let mut k: usize = node;
    while k < end
        invariant
            ns == nodes_view(nodes@),
            node <= k <= end <= nodes.len(),
            end == subtree_end(ns, node as int),
            first_pdf_link(ns, node as int, k as int) is None,
        decreases end - k,
    {
        assert(ns[k as int] == nodes@[k as int]@);
        if is_tagged(&nodes[k], "link") && has_attribute(&nodes[k], "title", "pdf") {
            assert(first_pdf_link(ns, node as int, k + 1) == Some(k as int));
            proof { lemma_first_pdf_link_found(ns, node as int, k as int + 1, end as int); }
            return match attribute_value(&nodes[k], "href") {
                Some(v) => v,
                None => String::from_str("https://arxiv.org"),
            };
        }
        k = k + 1;
    }
    String::from_str("https://arxiv.org")
}

/// The text of an element, or nothing where it holds none.
pub open spec fn text_or_empty(n: NodeView) -> Seq<char> {
    match n.text {
        Some(t) => t,
        None => Seq::empty(),
    }
}

/// The texts of the `name` elements in `[lo, hi)`, in document order.
pub open spec fn name_texts(ns: Seq<NodeView>, lo: int, hi: int) -> Seq<Seq<char>>
    decreases hi - lo,
{
    if hi <= lo {
        Seq::empty()
    } else {
        name_texts(ns, lo, hi - 1) + if has_tag(ns[hi - 1], "name"@) {
            seq![text_or_empty(ns[hi - 1])]
        } else {
            Seq::empty()
        }
    }
}

/// For each `author` element in `[lo, hi)`, in document order, the texts
/// of the `name` elements in its subtree.
pub open spec fn author_names(ns: Seq<NodeView>, lo: int, hi: int) -> Seq<Seq<char>>
    decreases hi - lo,
{
    if hi <= lo {
        Seq::empty()
    } else {
        author_names(ns, lo, hi - 1) + if has_tag(ns[hi - 1], "author"@) {
            name_texts(ns, hi - 1, subtree_end(ns, hi - 1))
        } else {
            Seq::empty()
        }
    }
}

/// The parts joined, with `sep` between each two.
pub open spec fn joined(parts: Seq<Seq<char>>, sep: Seq<char>) -> Seq<char>
    decreases parts.len(),
{
    if parts.len() == 0 {
        Seq::empty()
    } else if parts.len() == 1 {
        parts[0]
    } else {
        joined(parts.drop_last(), sep) + sep + parts.last()
    }
}

/// The authors of the entry at node `i`, joined by ", ".
pub open spec fn authors_of(ns: Seq<NodeView>, i: int) -> Seq<char> {
    joined(author_names(ns, i, subtree_end(ns, i)), ", "@)
}

/// The texts of a list of strings.
pub open spec fn strings_view(v: Seq<String>) -> Seq<Seq<char>> {
    v.map_values(|s: String| s@)
}

/// Appends the texts of the `name` elements in `[lo, hi)` to `out`.
fn push_name_texts(nodes: &Vec<XmlNode>, lo: usize, hi: usize, out: &mut Vec<String>)
    requires
        lo <= hi <= nodes.len(),
    ensures
        strings_view(final(out)@) == strings_view(old(out)@) + name_texts(nodes_view(nodes@), lo as int, hi as int),
{
    let ghost ns = nodes_view(nodes@);
    let mut k: usize = lo;
    while k < hi
        invariant
            ns == nodes_view(nodes@),
            lo <= k <= hi <= nodes.len(),
            strings_view(out@) == strings_view(old(out)@) + name_texts(ns, lo as int, k as int),
        decreases hi - k,
    {
        assert(ns[k as int] == nodes@[k as int]@);
        if is_tagged(&nodes[k], "name") {
            let t = match &nodes[k].text {
                Some(t) => t.clone(),
                None => String::new(),
            };
            assert(t@ == text_or_empty(ns[k as int]));
            let ghost prev = out@;
            out.push(t);
            assert(strings_view(out@) =~= strings_view(prev).push(t@));
            assert(strings_view(out@) =~= strings_view(old(out)@) + name_texts(ns, lo as int, k + 1));
        } else {
            assert(name_texts(ns, lo as int, k + 1) == name_texts(ns, lo as int, k as int));
        }
        k = k + 1;
    }
}

/// The parts joined, with `sep` between each two.
fn join_with(parts: &Vec<String>, sep: &str) -> (r: String)
    ensures
        r@ == joined(strings_view(parts@), sep@),
{
    let ghost ps = strings_view(parts@);
    let mut r = String::new();
    let mut i: usize = 0;
    while i < parts.len()
        invariant
            ps == strings_view(parts@),
            i <= parts.len(),
            r@ == joined(ps.subrange(0, i as int), sep@),
        decreases parts.len() - i,
    {
        if i > 0 {
            r.append(sep);
        }
        r.append(parts[i].as_str());
        proof {
            let p = ps.subrange(0, i + 1);
            assert(p.drop_last() == ps.subrange(0, i as int));
            assert(p.last() == parts@[i as int]@);
        }
        i = i + 1;
    }
    proof {
        assert(ps.subrange(0, parts.len() as int) == ps);
    }
    r
}

/// The authors of the entry at `node`: the texts of the `name` elements
/// under each of its `author` elements, joined by ", ".
pub fn get_authors(nodes: &Vec<XmlNode>, node: usize) -> (r: String)
    requires
        node < nodes.len(),
    ensures
        r@ == authors_of(nodes_view(nodes@), node as int),
{
    let ghost ns = nodes_view(nodes@);
    let end = find_subtree_end(nodes, node);
    let mut names: Vec<String> = Vec::new();
    let mut k: usize = node;
    while k < end
        invariant
            ns == nodes_view(nodes@),
            node <= k <= end <= nodes.len(),
            end == subtree_end(ns, node as int),
            strings_view(names@) == author_names(ns, node as int, k as int),
        decreases end - k,
    {
        assert(ns[k as int] == nodes@[k as int]@);
        if is_tagged(&nodes[k], "author") {
            let sub = find_subtree_end(nodes, k);
            push_name_texts(nodes, k, sub, &mut names);
        } else {
            assert(author_names(ns, node as int, k + 1) == author_names(ns, node as int, k as int));
        }
        k = k + 1;
    }
    join_with(&names, ", ")
}

/// One paper of a search result.
pub struct Entry {
    pub title: String,
    pub pdf_link: String,
    pub authors: String,
    pub summary: String,
}

/// The texts of an `Entry`.
pub ghost struct EntryView {
    pub title: Seq<char>,
    pub pdf_link: Seq<char>,
    pub authors: Seq<char>,
    pub summary: Seq<char>,
}

impl View for Entry {
    type V = EntryView;

    open spec fn view(&self) -> EntryView {
        EntryView {
            title: self.title@,
            pdf_link: self.pdf_link@,
            authors: self.authors@,
            summary: self.summary@,
        }
    }
}

/// The texts of a list of entries.
pub open spec fn entries_view(v: Seq<Entry>) -> Seq<EntryView> {
    v.map_values(|e: Entry| e@)
}

/// Why a search gave no result list.
#[derive(PartialEq, Eq, Structural, Clone, Copy, Debug)]
pub enum SearchError {
    /// The response is not well-formed XML.
    MalformedFeed,
    /// The request ran out of time.
    Timeout,
    /// The request could not be sent or its answer not read.
    NetworkError,
    /// The server answered with this HTTP status.
    HttpError(u16),
}

/// The record drawn from the entry at node `i`, each field defaulted on
/// its own where the feed lacks it.
pub open spec fn record_of(ns: Seq<NodeView>, i: int) -> EntryView {
    EntryView {
        title: title_of(ns, i),
        pdf_link: pdf_link_of(ns, i),
        authors: authors_of(ns, i),
        summary: summary_of(ns, i),
    }
}

/// The records of the `entry` elements among the first `hi` nodes.
pub open spec fn records_upto(ns: Seq<NodeView>, hi: int) -> Seq<EntryView>
    decreases hi,
{
    if hi <= 0 {
        Seq::empty()
    } else {
        records_upto(ns, hi - 1) + if has_tag(ns[hi - 1], "entry"@) {
            seq![record_of(ns, hi - 1)]
        } else {
            Seq::empty()
        }
    }
}

/// The records of all `entry` elements of the document, in document order.
pub open spec fn feed_records(ns: Seq<NodeView>) -> Seq<EntryView> {
    records_upto(ns, ns.len() as int)
}

/// The positions of the `entry` elements among the first `hi` nodes.
pub open spec fn entry_positions(ns: Seq<NodeView>, hi: int) -> Seq<int>
    decreases hi,
{
    if hi <= 0 {
        Seq::empty()
    } else {
        entry_positions(ns, hi - 1) + if has_tag(ns[hi - 1], "entry"@) {
            seq![hi - 1]
        } else {
            Seq::empty()
        }
    }
}

/// The records of a document's nodes, one for each `entry` element.
pub fn entries_of(nodes: &Vec<XmlNode>) -> (r: Vec<Entry>)
    ensures
        entries_view(r@) == feed_records(nodes_view(nodes@)),
{
    let ghost ns = nodes_view(nodes@);
    let mut r: Vec<Entry> = Vec::new();
    let mut k: usize = 0;
    while k < nodes.len()
        invariant
            ns == nodes_view(nodes@),
            k <= nodes.len(),
            entries_view(r@) == records_upto(ns, k as int),
        decreases nodes.len() - k,
    {
        assert(ns[k as int] == nodes@[k as int]@);
        if is_tagged(&nodes[k], "entry") {
            let title = get_title(nodes, k);
            let summary = get_summary(nodes, k);
            let pdf_link = get_pdf_link(nodes, k);
            let authors = get_authors(nodes, k);
            let e = Entry { title, pdf_link, authors, summary };
            let ghost prev = r@;
            r.push(e);
            assert(entries_view(r@) =~= entries_view(prev).push(record_of(ns, k as int)));
            assert(entries_view(r@) =~= records_upto(ns, k + 1));
        } else {
            assert(records_upto(ns, k + 1) == records_upto(ns, k as int));
        }
        k = k + 1;
    }
    r
}

/// The records of the feed `xml`, or `MalformedFeed` where it is not
/// well-formed XML.
pub fn parse(xml: &str) -> (r: Result<Vec<Entry>, SearchError>)
    ensures
        xml_document(xml@) is None ==> r == Err::<Vec<Entry>, SearchError>(SearchError::MalformedFeed),
        xml_document(xml@) is Some ==> r is Ok && entries_view(r->Ok_0@) == feed_records(xml_document(xml@)->Some_0),
{
    match parse_xml(xml) {
        Ok(nodes) => Ok(entries_of(&nodes)),
        Err(_) => Err(SearchError::MalformedFeed),
    }
}

proof fn lemma_records_upto(ns: Seq<NodeView>, hi: int)
    requires
        0 <= hi <= ns.len(),
    ensures
        records_upto(ns, hi).len() == entry_positions(ns, hi).len(),
        forall|k: int| 0 <= k < records_upto(ns, hi).len() ==> 0 <= #[trigger] entry_positions(ns, hi)[k] < hi
            && has_tag(ns[entry_positions(ns, hi)[k]], "entry"@)
            && records_upto(ns, hi)[k] == record_of(ns, entry_positions(ns, hi)[k]),
        forall|k: int, m: int| 0 <= k < m < entry_positions(ns, hi).len()
            ==> entry_positions(ns, hi)[k] < entry_positions(ns, hi)[m],
        forall|j: int| 0 <= j < hi && has_tag(ns[j], "entry"@)
            ==> entry_positions(ns, hi).contains(j),
    decreases hi,
{
    if hi > 0 {
        lemma_records_upto(ns, hi - 1);
        let p = entry_positions(ns, hi - 1);
        if has_tag(ns[hi - 1], "entry"@) {
            assert(entry_positions(ns, hi)[p.len() as int] == hi - 1);
        }
        assert forall|j: int| 0 <= j < hi && has_tag(ns[j], "entry"@)
            implies entry_positions(ns, hi).contains(j) by {
            if j < hi - 1 {
                assert(p.contains(j));
                let w = choose|w: int| 0 <= w < p.len() && p[w] == j;
                assert(entry_positions(ns, hi)[w] == p[w]);
            } else {
                assert(entry_positions(ns, hi)[p.len() as int] == j);
            }
        }
    }
}

/// A feed gives exactly one record for each of its `entry` elements, in
/// document order: record `k` is drawn from the `k`-th `entry` element, each
/// of its fields taken from that entry or else given its default.
pub proof fn lemma_one_record_per_entry(ns: Seq<NodeView>)
    ensures
        feed_records(ns).len() == entry_positions(ns, ns.len() as int).len(),
        forall|j: int| 0 <= j < ns.len() && has_tag(ns[j], "entry"@)
            ==> entry_positions(ns, ns.len() as int).contains(j),
        forall|k: int| 0 <= k < feed_records(ns).len() ==> {
            let i = #[trigger] entry_positions(ns, ns.len() as int)[k];
            &&& 0 <= i < ns.len()
            &&& has_tag(ns[i], "entry"@)
            &&& feed_records(ns)[k] == record_of(ns, i)
        },
        forall|k: int, m: int| 0 <= k < m < feed_records(ns).len()
            ==> entry_positions(ns, ns.len() as int)[k] < entry_positions(ns, ns.len() as int)[m],
{
    lemma_records_upto(ns, ns.len() as int);
}

} // verus!
