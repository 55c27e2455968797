//! The calls into the HTML parser and the entity decoder.
//!
//! Nothing here decides anything about playlists: each function hands one
//! outside call its arguments and returns what came back.

use vstd::prelude::*;
use scraper::{ElementRef, Html, Selector};

verus! {

#[verifier::external_type_specification]
#[verifier::external_body]
pub struct ExHtml(scraper::Html);

#[verifier::external_type_specification]
#[verifier::external_body]
pub struct ExSelector(scraper::Selector);

#[verifier::external_type_specification]
#[verifier::external_body]
pub struct ExElementRef<'a>(scraper::ElementRef<'a>);

/// What `html_escape::decode_html_entities` makes of a text.
pub uninterp spec fn html_decoded(s: Seq<char>) -> Seq<char>;

/// A character that may stand in a reference between `&` and `;`: an ASCII
/// letter or digit, or `#`.
pub open spec fn is_reference_char(c: char) -> bool {
    ('a' <= c <= 'z') || ('A' <= c <= 'Z') || ('0' <= c <= '9') || c == '#'
}

/// No span of `s` from an `&` to the next `;`, with no other `&` between, holds
/// only reference characters: `s` holds no character reference.
pub open spec fn holds_no_reference(s: Seq<char>) -> bool {
    forall|i: int, j: int|
        #![trigger s[i], s[j]]
        0 <= i < j < s.len() && s[i] == '&' && s[j] == ';' && (forall|k: int|
            i < k < j ==> s[k] != '&') ==> exists|k: int| i < k < j && !is_reference_char(s[k])
}

/// Relies on `html_escape::decode_html_entities`: only a span from `&` to the
/// next `;` is replaced, and only when it names one of its entities (whose
/// names are ASCII letters and digits) or is `#` followed by decimal digits
/// or by `x` and hex digits. A text without such a span comes back as it is.
#[verifier::external_body]
pub(crate) fn decode_html_entities(s: &str) -> (r: String)
    ensures
        r@ == html_decoded(s@),
        holds_no_reference(s@) ==> r@ == s@,
{
    html_escape::decode_html_entities(s).to_string()
}

/// How many elements match the selector with text `sel` among the
/// descendants of the element that `path` leads to, in the fragment parsed
/// from `markup`. The empty path leads to the fragment's root element; each
/// step `(s, i)` goes on to the `i`-th descendant, in document order, that
/// matches the selector with text `s`.
pub uninterp spec fn match_count(markup: Seq<char>, path: Seq<(Seq<char>, int)>, sel: Seq<char>) -> nat;

/// The serialized inner markup of the element that `path` leads to, in the
/// fragment parsed from `markup`.
pub uninterp spec fn inner_at(markup: Seq<char>, path: Seq<(Seq<char>, int)>) -> Seq<char>;

/// A type selector: one or more lowercase ASCII letters.
pub open spec fn is_tag_name(s: Seq<char>) -> bool {
    s.len() > 0 && forall|i: int| 0 <= i < s.len() ==> 'a' <= #[trigger] s[i] <= 'z'
}

/// A parsed fragment, with the markup it was parsed from.
///
/// The types of this module are made only by the functions of this module,
/// so their ghost fields always describe the value they stand beside.
pub struct Document {
    html: Html,
    markup: Ghost<Seq<char>>,
}

/// An element of a parsed fragment, with the path that leads to it.
pub struct Element<'a> {
    elem: ElementRef<'a>,
    markup: Ghost<Seq<char>>,
    path: Ghost<Seq<(Seq<char>, int)>>,
}

/// A parsed CSS selector, with its text.
pub struct TagSelector {
    sel: Selector,
    text: Ghost<Seq<char>>,
}

impl Document {
    pub closed spec fn markup(&self) -> Seq<char> {
        self.markup@
    }
}

impl<'a> Element<'a> {
    pub closed spec fn markup(&self) -> Seq<char> {
        self.markup@
    }

    pub closed spec fn path(&self) -> Seq<(Seq<char>, int)> {
        self.path@
    }
}

impl TagSelector {
    pub closed spec fn text(&self) -> Seq<char> {
        self.text@
    }
}

/// Relies on `scraper::Html::parse_fragment`, which never fails: malformed
/// markup is repaired the way an HTML parser does.
#[verifier::external_body]
pub(crate) fn parse_fragment(markup: &str) -> (d: Document)
    ensures
        d.markup() == markup@,
{
    Document { html: Html::parse_fragment(markup), markup: Ghost(markup@) }
}

/// Relies on `scraper::Html::root_element`: a parsed fragment always has its
/// `html` root element, so the call does not panic.
#[verifier::external_body]
pub(crate) fn root_element<'a>(d: &'a Document) -> (e: Element<'a>)
    ensures
        e.markup() == d.markup(),
        e.path() == Seq::<(Seq<char>, int)>::empty(),
{
    Element { elem: d.html.root_element(), markup: Ghost(d.markup@), path: Ghost(Seq::empty()) }
}

/// Relies on `scraper::Selector::parse`: a plain type selector is accepted.
#[verifier::external_body]
pub(crate) fn css_selector(text: &str) -> (r: Option<TagSelector>)
    ensures
        r matches Some(s) ==> s.text() == text@,
        is_tag_name(text@) ==> r is Some,
{
    Selector::parse(text).ok().map(|sel| TagSelector { sel, text: Ghost(text@) })
}

/// Relies on `scraper::ElementRef::select`: the descendants of the element
/// that match, in document order.
#[verifier::external_body]
pub(crate) fn select<'a>(e: &Element<'a>, sel: &TagSelector) -> (r: Vec<Element<'a>>)
    ensures
        r@.len() == match_count(e.markup(), e.path(), sel.text()),
        forall|i: int|
            0 <= i < r@.len() ==> (#[trigger] r@[i]).markup() == e.markup() && r@[i].path()
                == e.path().push((sel.text(), i)),
{
    e.elem.select(&sel.sel).enumerate().map(|(i, elem)| Element {
        elem,
        markup: Ghost(e.markup@),
        path: Ghost(e.path@.push((sel.text@, i as int))),
    }).collect()
}

/// Relies on `scraper::ElementRef::inner_html`: the serialized markup of the
/// element's children.
#[verifier::external_body]
pub(crate) fn inner_html(e: &Element) -> (r: String)
    ensures
        r@ == inner_at(e.markup(), e.path()),
{
    e.elem.inner_html()
}

} // verus!
