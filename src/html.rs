use vstd::prelude::*;
use scraper::{ElementRef, Html, Selector};
use crate::parse::{DocumentExtractor, PlayerRow, PlayerTable};

verus! {

#[verifier::external_type_specification]
#[verifier::external_body]
pub struct ExHtml(Html);

#[verifier::external_type_specification]
#[verifier::external_body]
pub struct ExSelector(Selector);

#[verifier::external_type_specification]
#[verifier::external_body]
pub struct ExElementRef<'a>(ElementRef<'a>);

/// Relies on scraper's Html::parse_document: the HTML5 parse of a page (it
/// never fails; malformed markup is repaired as browsers do).
#[verifier::external_body]
fn parse_document(text: &str) -> (r: Html) {
    Html::parse_document(text)
}

/// Relies on scraper's Selector::parse: a CSS selector group, or `None` for
/// text that is not one.
#[verifier::external_body]
fn selector(css: &str) -> (r: Option<Selector>) {
    match Selector::parse(css) {
        Ok(s) => Some(s),
        Err(_) => None,
    }
}

/// Relies on scraper's Html::select: the elements of the page that match, in
/// document order.
#[verifier::external_body]
fn select_in_page<'a>(doc: &'a Html, sel: &Selector) -> (r: Vec<ElementRef<'a>>) {
    doc.select(sel).collect()
}

/// Relies on scraper's ElementRef::select: the descendants of `e` that
/// match, in document order.
#[verifier::external_body]
fn select_within<'a>(e: &ElementRef<'a>, sel: &Selector) -> (r: Vec<ElementRef<'a>>) {
    e.select(sel).collect()
}

/// Relies on scraper's ElementRef::inner_html: the markup inside `e`.
#[verifier::external_body]
fn inner_html(e: &ElementRef) -> (r: String) {
    e.inner_html()
}

/// Relies on scraper's ElementRef::attr: the value of the attribute `name`.
#[verifier::external_body]
fn attribute(e: &ElementRef, name: &str) -> (r: Option<String>) {
    match e.attr(name) {
        Some(v) => Some(v.to_string()),
        None => None,
    }
}

/// The elements matching `css` in the page; none for a selector that does not parse.
fn find_all<'a>(doc: &'a Html, css: &str) -> (r: Vec<ElementRef<'a>>) {
    match selector(css) {
        Some(s) => select_in_page(doc, &s),
        None => Vec::new(),
    }
}

/// The descendants of `e` matching `css`; none for a selector that does not parse.
fn find_within<'a>(e: &ElementRef<'a>, css: &str) -> (r: Vec<ElementRef<'a>>) {
    match selector(css) {
        Some(s) => select_within(e, &s),
        None => Vec::new(),
    }
}

/// The inner markup of each element, in order.
fn inner_texts(elements: &Vec<ElementRef>) -> (r: Vec<String>)
    ensures
        r@.len() == elements@.len(),
{
    let mut out: Vec<String> = Vec::new();
    let mut i: usize = 0;
    while i < elements.len()
        invariant
            i <= elements@.len(),
            out@.len() == i,
        decreases elements@.len() - i,
    {
        out.push(inner_html(&elements[i]));
        i = i + 1;
    }
    out
}

/// The `dd` entries of the first `dl` matching `css`.
fn definition_list(doc: &Html, css: &str) -> (r: Option<Vec<String>>) {
    let lists = find_all(doc, css);
    if lists.len() == 0 {
        return None;
    }
    let entries = find_within(&lists[0], "dd");
    Some(inner_texts(&entries))
}

/// The rows of the `tbody` of the first `table` with id `players`.
fn player_table(doc: &Html) -> (r: PlayerTable) {
    let tables = find_all(doc, "table[id=\"players\"]");
    if tables.len() == 0 {
        return PlayerTable::Missing;
    }
    let bodies = find_within(&tables[0], "tbody");
    if bodies.len() == 0 {
        return PlayerTable::NoBody;
    }
    let trs = find_within(&bodies[0], "tr");
    let mut rows: Vec<PlayerRow> = Vec::new();
    let mut i: usize = 0;
    while i < trs.len()
        invariant
            i <= trs@.len(),
            rows@.len() == i,
        decreases trs@.len() - i,
    {
        let tds = find_within(&trs[i], "td");
        let marks = find_within(&trs[i], "em");
        rows.push(PlayerRow { cells: inner_texts(&tds), has_em: marks.len() > 0 });
        i = i + 1;
    }
    PlayerTable::Rows(rows)
}

impl DocumentExtractor {
    /// Parses an admin page and keeps what the logic reads from it: the
    /// login form's token input, the players table, and the `currentGame` and
    /// `currentRules` lists.
    pub fn new(document: &str) -> (r: DocumentExtractor) {
        let doc = parse_document(document);
        let inputs = find_all(&doc, "input[name=\"token\"]");
        let token_input = if inputs.len() == 0 {
            None
        } else {
            Some(attribute(&inputs[0], "value"))
        };
        DocumentExtractor {
            token_input,
            player_table: player_table(&doc),
            current_game: definition_list(&doc, "dl[id=\"currentGame\"]"),
            current_rules: definition_list(&doc, "dl[id=\"currentRules\"]"),
        }
    }
}

} // verus!
