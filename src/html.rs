use vstd::prelude::*;
use select::document::Document;
use select::predicate::{Class, Name, Predicate};

verus! {

/// The longest page, in characters, that is handed to the markup parser. The
/// parser gathers a run of text in one buffer whose capacity, rounded up to a
/// power of two in a `u32`, must stay under 2^31 bytes. A character takes at most
/// four bytes, and the tokenizer may replace a one-byte character by a
/// three-byte one, so a page of `n` characters is kept with `12 * n < 2^31`.
pub const MAX_PAGE_CHARS: usize = 134217727;

/// The text of each value of an optional string.
pub open spec fn text_options(v: Seq<Option<String>>) -> Seq<Option<Seq<char>>> {
    v.map_values(|o: Option<String>| text_option(o))
}

pub open spec fn text_option(o: Option<String>) -> Option<Seq<char>> {
    match o {
        Some(s) => Some(s@),
        None => None,
    }
}

/// The text of each value of a doubly optional string.
pub open spec fn nested_text_options(v: Seq<Option<Option<String>>>) -> Seq<
    Option<Option<Seq<char>>>,
> {
    v.map_values(
        |o: Option<Option<String>>|
            match o {
                Some(inner) => Some(text_option(inner)),
                None => None,
            },
    )
}

/// For each element named `tag` of the parsed `page`, in document order, its
/// attribute `attr` where it has one.
pub uninterp spec fn element_attrs_of(page: Seq<char>, tag: Seq<char>, attr: Seq<char>) -> Seq<
    Option<Seq<char>>,
>;

/// How many elements of the parsed `page` carry the class `card`.
pub uninterp spec fn card_count_of(page: Seq<char>, card: Seq<char>) -> nat;

/// For each element of class `card` of the parsed `page`: the text of its first
/// descendant named `tag` that has some ancestor of class `container` (that
/// ancestor may lie inside the card or above it).
pub uninterp spec fn card_texts_by_name_of(
    page: Seq<char>,
    card: Seq<char>,
    container: Seq<char>,
    tag: Seq<char>,
) -> Seq<Option<Seq<char>>>;

/// For each element of class `card` of the parsed `page`: the text of its first
/// descendant of class `class` that has some ancestor of class `container`
/// (inside the card or above it).
pub uninterp spec fn card_texts_by_class_of(
    page: Seq<char>,
    card: Seq<char>,
    container: Seq<char>,
    class: Seq<char>,
) -> Seq<Option<Seq<char>>>;

/// For each element of class `card` of the parsed `page`: whether it has a
/// descendant named `tag` with some ancestor of class `container` (inside the
/// card or above it), and if so the first such descendant's attribute `attr`,
/// where it has one.
pub uninterp spec fn card_attrs_by_name_of(
    page: Seq<char>,
    card: Seq<char>,
    container: Seq<char>,
    tag: Seq<char>,
    attr: Seq<char>,
) -> Seq<Option<Option<Seq<char>>>>;

/// Relies on `select`'s `Document::from(&str)`, `Document::find` with `Name`,
/// and `Node::attr`: the attribute of every element of that name, in order.
///
/// The parser panics once a text run outgrows its `u32`-sized buffer, hence
/// the bound on the page (see [`MAX_PAGE_CHARS`]). The tree is built and its text read by recursion, so a very deeply
/// nested page can exhaust the stack.
#[verifier::external_body]
pub(crate) fn element_attrs(page: &str, tag: &str, attr: &str) -> (r: Vec<Option<String>>)
    requires
        page@.len() <= MAX_PAGE_CHARS,
    ensures
        text_options(r@) == element_attrs_of(page@, tag@, attr@),
{
    Document::from(page).find(Name(tag)).map(|n| n.attr(attr).map(String::from)).collect()
}

/// Relies on `select`'s `Document::find` with `Class`, then, inside each card,
/// `Node::find` with `Class(container).descendant(Name(tag))`, its first match,
/// and `Node::text`: one entry per card.
///
/// The parser panics once a text run outgrows its `u32`-sized buffer, hence
/// the bound on the page (see [`MAX_PAGE_CHARS`]). The tree is built and its text read by recursion, so a very deeply
/// nested page can exhaust the stack.
#[verifier::external_body]
pub(crate) fn card_texts_by_name(page: &str, card: &str, container: &str, tag: &str) -> (r: Vec<
    Option<String>,
>)
    requires
        page@.len() <= MAX_PAGE_CHARS,
    ensures
        r@.len() == card_count_of(page@, card@),
        text_options(r@) == card_texts_by_name_of(page@, card@, container@, tag@),
{
    let doc = Document::from(page);
    doc.find(Class(card)).map(
        |c| c.find(Class(container).descendant(Name(tag))).next().map(|n| n.text()),
    ).collect()
}

/// Relies on `select`'s `Document::find` with `Class`, then, inside each card,
/// `Node::find` with `Class(container).descendant(Class(class))`, its first
/// match, and `Node::text`: one entry per card.
///
/// The parser panics once a text run outgrows its `u32`-sized buffer, hence
/// the bound on the page (see [`MAX_PAGE_CHARS`]). The tree is built and its text read by recursion, so a very deeply
/// nested page can exhaust the stack.
#[verifier::external_body]
pub(crate) fn card_texts_by_class(page: &str, card: &str, container: &str, class: &str) -> (r: Vec<
    Option<String>,
>)
    requires
        page@.len() <= MAX_PAGE_CHARS,
    ensures
        r@.len() == card_count_of(page@, card@),
        text_options(r@) == card_texts_by_class_of(page@, card@, container@, class@),
{
    let doc = Document::from(page);
    doc.find(Class(card)).map(
        |c| c.find(Class(container).descendant(Class(class))).next().map(|n| n.text()),
    ).collect()
}

/// Relies on `select`'s `Document::find` with `Class`, then, inside each card,
/// `Node::find` with `Class(container).descendant(Name(tag))`, its first match,
/// and `Node::attr`: one entry per card.
///
/// The parser panics once a text run outgrows its `u32`-sized buffer, hence
/// the bound on the page (see [`MAX_PAGE_CHARS`]). The tree is built and its text read by recursion, so a very deeply
/// nested page can exhaust the stack.
#[verifier::external_body]
pub(crate) fn card_attrs_by_name(
    page: &str,
    card: &str,
    container: &str,
    tag: &str,
    attr: &str,
) -> (r: Vec<Option<Option<String>>>)
    requires
        page@.len() <= MAX_PAGE_CHARS,
    ensures
        r@.len() == card_count_of(page@, card@),
        nested_text_options(r@) == card_attrs_by_name_of(page@, card@, container@, tag@, attr@),
{
    let doc = Document::from(page);
    doc.find(Class(card)).map(
        |c|
            c.find(Class(container).descendant(Name(tag))).next().map(
                |n| n.attr(attr).map(String::from),
            ),
    ).collect()
}

} // verus!
