//! The output record, the typed extraction failures, and the pipeline that
//! turns a document into an ordered collection of records.

use vstd::prelude::*;

use crate::dom::{
    all_matches, attr_of, child_text_nodes, child_texts_of, doc_of, first_match, node_attr,
    node_text, parse_document, select_all, select_first, text_of,
};
use crate::text::{parse_u32, spec_parse_u32, trim, trim_of};
use crate::time::{epoch_of, localize, parse_rfc3339, spec_parse_rfc3339, Timestamp};

verus! {

/// The output fields, as the failures name them.
#[derive(Debug, Clone, Copy, PartialEq, Eq, Structural)]
pub enum FieldName {
    Count,
    Title,
    Href,
    DatePublished,
    Source,
    Description,
    Author,
    AuthorUrl,
}

impl FieldName {
    /// The field's name as it appears in failure messages and in the JSON
    /// output.
    pub open spec fn spec_text(self) -> Seq<char> {
        match self {
            FieldName::Count => "count"@,
            FieldName::Title => "title"@,
            FieldName::Href => "href"@,
            FieldName::DatePublished => "date_published"@,
            FieldName::Source => "source"@,
            FieldName::Description => "description"@,
            FieldName::Author => "author"@,
            FieldName::AuthorUrl => "author_url"@,
        }
    }

    /// The field's name as text.
    pub fn text(&self) -> (r: String)
        ensures
            r@ == self.spec_text(),
    {
        match self {
            FieldName::Count => "count".to_owned(),
            FieldName::Title => "title".to_owned(),
            FieldName::Href => "href".to_owned(),
            FieldName::DatePublished => "date_published".to_owned(),
            FieldName::Source => "source".to_owned(),
            FieldName::Description => "description".to_owned(),
            FieldName::Author => "author".to_owned(),
            FieldName::AuthorUrl => "author_url".to_owned(),
        }
    }
}

/// Why an item could not be extracted: a required selector or attribute
/// matched nothing, or a matched value failed its type conversion.
#[derive(Debug, Clone, Copy, PartialEq, Eq, Structural)]
pub enum ExtractionError {
    FieldMissing(FieldName),
    FieldMalformed(FieldName),
}

/// One extracted record; every field is present and well-typed.
#[derive(Debug, Clone, PartialEq, Eq)]
pub struct Item {
    pub count: u32,
    pub title: String,
    pub href: String,
    pub date_published: Timestamp,
    pub source: String,
    pub description: String,
    pub author: String,
    pub author_url: String,
}

/// The mathematical view of a record.
pub ghost struct ItemV {
    pub count: u32,
    pub title: Seq<char>,
    pub href: Seq<char>,
    pub date_published: Timestamp,
    pub source: Seq<char>,
    pub description: Seq<char>,
    pub author: Seq<char>,
    pub author_url: Seq<char>,
}

impl View for Item {
    type V = ItemV;

    open spec fn view(&self) -> ItemV {
        ItemV {
            count: self.count,
            title: self.title@,
            href: self.href@,
            date_published: self.date_published,
            source: self.source@,
            description: self.description@,
            author: self.author@,
            author_url: self.author_url@,
        }
    }
}

/// What one extraction run yields.
#[derive(Debug, PartialEq, Eq)]
pub enum ExtractionOutcome {
    /// The records of the matched containers, in document order, capped.
    Items(Vec<Item>),
    /// The container selector matched nothing: absence of content, no defect.
    NoContainersFound,
    /// A field of some container could not be extracted.
    ExtractionFailed(ExtractionError),
}

/// At most this many records are extracted; surplus containers are dropped
/// silently.
pub const MAX_ITEMS: usize = 40;

pub open spec fn container_sel() -> Seq<char> {
    "#itemsStream li"@
}

pub open spec fn count_sel() -> Seq<char> {
    ".diggbox span:first-of-type"@
}

pub open spec fn title_sel() -> Seq<char> {
    "h2 a"@
}

pub open spec fn date_sel() -> Seq<char> {
    "[itemprop='datePublished']"@
}

pub open spec fn source_sel() -> Seq<char> {
    "[title~='\u{17a}r\u{f3}d\u{142}o']"@
}

pub open spec fn description_sel() -> Seq<char> {
    ".description a"@
}

pub open spec fn author_sel() -> Seq<char> {
    "a[href*='ludzie']"@
}

/// What extracting one container node yields: the first field that fails, in
/// field order, or the view of the record, with the timestamp still in the
/// offset its text carried.
pub open spec fn spec_item_of(n: kuchiki::NodeRef) -> Result<ItemV, ExtractionError> {
    match first_match(n, count_sel()) {
        None => Err(ExtractionError::FieldMissing(FieldName::Count)),
        Some(cnode) => match spec_parse_u32(text_of(cnode)) {
            None => Err(ExtractionError::FieldMalformed(FieldName::Count)),
            Some(count) => match first_match(n, title_sel()) {
                None => Err(ExtractionError::FieldMissing(FieldName::Title)),
                Some(anode) => match attr_of(anode, "href"@) {
                    None => Err(ExtractionError::FieldMissing(FieldName::Href)),
                    Some(href) => match first_match(n, date_sel()) {
                        None => Err(ExtractionError::FieldMissing(FieldName::DatePublished)),
                        Some(dnode) => match attr_of(dnode, "datetime"@) {
                            None => Err(ExtractionError::FieldMissing(FieldName::DatePublished)),
                            Some(dtext) => match spec_parse_rfc3339(dtext) {
                                None => Err(
                                    ExtractionError::FieldMalformed(FieldName::DatePublished),
                                ),
                                Some(ts) => match first_match(n, source_sel()) {
                                    None => Err(ExtractionError::FieldMissing(FieldName::Source)),
                                    Some(snode) => match attr_of(snode, "href"@) {
                                        None => Err(
                                            ExtractionError::FieldMissing(FieldName::Source),
                                        ),
                                        Some(source) => match first_match(n, description_sel()) {
                                            None => Err(
                                                ExtractionError::FieldMissing(
                                                    FieldName::Description,
                                                ),
                                            ),
                                            Some(descnode) => match first_match(n, author_sel()) {
                                                None => Err(
                                                    ExtractionError::FieldMissing(
                                                        FieldName::Author,
                                                    ),
                                                ),
                                                Some(aunode) => match attr_of(aunode, "href"@) {
                                                    None => Err(
                                                        ExtractionError::FieldMissing(
                                                            FieldName::AuthorUrl,
                                                        ),
                                                    ),
                                                    Some(author_url) => Ok(
                                                        ItemV {
                                                            count,
                                                            title: text_of(anode),
                                                            href,
                                                            date_published: ts,
                                                            source,
                                                            description: trim_of(text_of(descnode)),
                                                            author: spec_author_text(
                                                                child_texts_of(aunode),
                                                            ),
                                                            author_url,
                                                        },
                                                    ),
                                                },
                                            },
                                        },
                                    },
                                },
                            },
                        },
                    },
                },
            },
        },
    }
}

/// The author's name from the link's direct child text nodes: the last one,
/// trimmed; the empty text where the link holds no text node at all.
pub open spec fn spec_author_text(texts: Seq<Seq<char>>) -> Seq<char> {
    if texts.len() == 0 {
        Seq::empty()
    } else {
        trim_of(texts.last())
    }
}

/// How the extracted record relates to its view: every text field and the
/// count are exactly the view's, and the timestamp is the view's instant,
/// re-expressed well-formed (in the local zone).
pub open spec fn item_matches(a: ItemV, v: ItemV) -> bool {
    &&& a.count == v.count
    &&& a.title == v.title
    &&& a.href == v.href
    &&& a.source == v.source
    &&& a.description == v.description
    &&& a.author == v.author
    &&& a.author_url == v.author_url
    &&& a.date_published.wf()
    &&& epoch_of(a.date_published) == epoch_of(v.date_published)
}

/// The author's name from the link's direct child text nodes.
fn author_text(texts: &Vec<String>) -> (r: String)
    ensures
        r@ == spec_author_text(texts@.map_values(|s: String| s@)),
{
    if texts.len() == 0 {
        String::new()
    } else {
        trim(texts[texts.len() - 1].as_str())
    }
}

/// Extract all eight fields of one container node, or the first failure.
pub fn extract_item(n: &kuchiki::NodeRef) -> (r: Result<Item, ExtractionError>)
    ensures
        spec_item_of(*n) matches Err(e) ==> r == Result::<Item, ExtractionError>::Err(e),
        spec_item_of(*n) matches Ok(v) ==> r matches Ok(item) && item_matches(item@, v),
{
    let cnode = match select_first(n, ".diggbox span:first-of-type") {
        Some(c) => c,
        None => {
            return Err(ExtractionError::FieldMissing(FieldName::Count));
        },
    };
    let count = match parse_u32(node_text(&cnode).as_str()) {
        Some(v) => v,
        None => {
            return Err(ExtractionError::FieldMalformed(FieldName::Count));
        },
    };
    let anode = match select_first(n, "h2 a") {
        Some(a) => a,
        None => {
            return Err(ExtractionError::FieldMissing(FieldName::Title));
        },
    };
    let title = node_text(&anode);
    let href = match node_attr(&anode, "href") {
        Some(h) => h,
        None => {
            return Err(ExtractionError::FieldMissing(FieldName::Href));
        },
    };
    let dnode = match select_first(n, "[itemprop='datePublished']") {
        Some(d) => d,
        None => {
            return Err(ExtractionError::FieldMissing(FieldName::DatePublished));
        },
    };
    let dtext = match node_attr(&dnode, "datetime") {
        Some(d) => d,
        None => {
            return Err(ExtractionError::FieldMissing(FieldName::DatePublished));
        },
    };
    let parsed = match parse_rfc3339(dtext.as_str()) {
        Some(ts) => ts,
        None => {
            return Err(ExtractionError::FieldMalformed(FieldName::DatePublished));
        },
    };
    proof {
        crate::time::lemma_parse_rfc3339_wf(dtext@);
    }
    let date_published = localize(&parsed);
    let snode = match select_first(n, "[title~='\u{17a}r\u{f3}d\u{142}o']") {
        Some(s) => s,
        None => {
            return Err(ExtractionError::FieldMissing(FieldName::Source));
        },
    };
    let source = match node_attr(&snode, "href") {
        Some(s) => s,
        None => {
            return Err(ExtractionError::FieldMissing(FieldName::Source));
        },
    };
    let descnode = match select_first(n, ".description a") {
        Some(d) => d,
        None => {
            return Err(ExtractionError::FieldMissing(FieldName::Description));
        },
    };
    let description = trim(node_text(&descnode).as_str());
    let aunode = match select_first(n, "a[href*='ludzie']") {
        Some(a) => a,
        None => {
            return Err(ExtractionError::FieldMissing(FieldName::Author));
        },
    };
    let author = author_text(&child_text_nodes(&aunode));
    let author_url = match node_attr(&aunode, "href") {
        Some(u) => u,
        None => {
            return Err(ExtractionError::FieldMissing(FieldName::AuthorUrl));
        },
    };
    Ok(Item { count, title, href, date_published, source, description, author, author_url })
}

/// The containers whose records the output holds: the first `MAX_ITEMS`, or
/// all of them where fewer match.
pub open spec fn capped(ns: Seq<kuchiki::NodeRef>) -> Seq<kuchiki::NodeRef> {
    if ns.len() <= MAX_ITEMS {
        ns
    } else {
        ns.take(MAX_ITEMS as int)
    }
}

/// The records correspond one to one, in order, to the nodes: each node
/// extracts without failure, and each record matches its node's view.
pub open spec fn items_match(items: Seq<Item>, cs: Seq<kuchiki::NodeRef>) -> bool {
    &&& items.len() == cs.len()
    &&& (forall|i: int|
        0 <= i < items.len() ==> #[trigger] spec_item_of(cs[i]) is Ok && item_matches(
            items[i]@,
            spec_item_of(cs[i])->Ok_0,
        ))
}

/// The first extraction failure over the nodes, in document order.
pub open spec fn spec_first_error(ns: Seq<kuchiki::NodeRef>) -> Option<ExtractionError>
    decreases ns.len(),
{
    if ns.len() == 0 {
        None
    } else {
        match spec_item_of(ns.first()) {
            Err(e) => Some(e),
            Ok(_) => spec_first_error(ns.skip(1)),
        }
    }
}

proof fn lemma_first_error_skip(ns: Seq<kuchiki::NodeRef>, i: int)
    requires
        0 <= i <= ns.len(),
        forall|k: int| 0 <= k < i ==> spec_item_of(ns[k]) is Ok,
    ensures
        spec_first_error(ns) == spec_first_error(ns.skip(i)),
    decreases i,
{
    if i == 0 {
        assert(ns.skip(0) =~= ns);
    } else {
        lemma_first_error_skip(ns, i - 1);
        let t = ns.skip(i - 1);
        assert(t.first() == ns[i - 1]);
        assert(t.skip(1) =~= ns.skip(i));
        assert(spec_first_error(t) == spec_first_error(ns.skip(i)));
    }
}

/// Run all eight extractors on each container in order, capped at
/// `MAX_ITEMS`; the first failing field anywhere aborts the whole batch.
pub fn assemble_items(containers: &Vec<kuchiki::NodeRef>) -> (r: Result<
    Vec<Item>,
    ExtractionError,
>)
    ensures
        spec_first_error(capped(containers@)) matches Some(e) ==> r == Result::<
            Vec<Item>,
            ExtractionError,
        >::Err(e),
        spec_first_error(capped(containers@)) is None ==> (r matches Ok(items) && items_match(
            items@,
            capped(containers@),
        )),
{
    let ghost cs = capped(containers@);
    let cap: usize = if containers.len() < MAX_ITEMS {
        containers.len()
    } else {
        MAX_ITEMS
    };
    proof {
        assert(cs.len() == cap);
        assert(forall|k: int| 0 <= k < cs.len() ==> cs[k] == containers@[k]);
    }
    let mut items: Vec<Item> = Vec::new();
    let mut i: usize = 0;
    while i < cap
        invariant
            0 <= i <= cap,
            cap <= containers.len(),
            cs == capped(containers@),
            cs.len() == cap,
            forall|k: int| 0 <= k < cs.len() ==> cs[k] == containers@[k],
            items@.len() == i,
            forall|k: int|
                0 <= k < i ==> #[trigger] spec_item_of(cs[k]) is Ok && item_matches(
                    items@[k]@,
                    spec_item_of(cs[k])->Ok_0,
                ),
        decreases cap - i,
    {
        match extract_item(&containers[i]) {
            Ok(item) => {
                items.push(item);
            },
            Err(e) => {
                proof {
                    lemma_first_error_skip(cs, i as int);
                    assert(cs.skip(i as int).first() == cs[i as int]);
                }
                return Err(e);
            },
        }
        i = i + 1;
    }
    proof {
        lemma_first_error_skip(cs, cap as int);
        assert(cs.skip(cap as int).len() == 0);
    }
    Ok(items)
}

/// What `extract` promises of its result, given the HTML text.
pub open spec fn extract_post(html: Seq<char>, r: ExtractionOutcome) -> bool {
    let ns = all_matches(doc_of(html), container_sel());
    let cs = capped(ns);
    &&& (ns.len() == 0 <==> r == ExtractionOutcome::NoContainersFound)
    &&& (ns.len() > 0 ==> (spec_first_error(cs) matches Some(e) ==> r
        == ExtractionOutcome::ExtractionFailed(e)))
    &&& (ns.len() > 0 && spec_first_error(cs) is None ==> (r matches ExtractionOutcome::Items(
        items,
    ) && items_match(items@, cs)))
}

/// Extract the listing's records from its raw HTML text: parse the document,
/// locate the item containers, and assemble one record per container in
/// document order, capped at `MAX_ITEMS`.  A document without containers is
/// `NoContainersFound`; a failing field anywhere in the batch fails the whole
/// extraction, naming that field.
pub fn extract(html: &str) -> (r: ExtractionOutcome)
    ensures
        extract_post(html@, r),
{
    let doc = parse_document(html);
    let containers = select_all(&doc, "#itemsStream li");
    if containers.len() == 0 {
        return ExtractionOutcome::NoContainersFound;
    }
    match assemble_items(&containers) {
        Ok(items) => ExtractionOutcome::Items(items),
        Err(e) => ExtractionOutcome::ExtractionFailed(e),
    }
}

} // verus!
