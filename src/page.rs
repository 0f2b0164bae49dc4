use vstd::prelude::*;
use crate::dedup::{first_of_each, merged, push_unique};
use crate::html::{
    MAX_PAGE_CHARS, card_attrs_by_name, card_attrs_by_name_of, card_count_of, card_texts_by_class,
    card_texts_by_class_of, card_texts_by_name, card_texts_by_name_of, text_option,
};
use crate::price::{price_from_text, price_of_text};
use crate::record::{ProductRecord, RecordView, ScrapeError, record_views};

verus! {

/// Class of a product card.
pub const CARD_CLASS: &'static str = "product-item";

/// Class of the container of a card's caption link.
pub const CAPTION_CLASS: &'static str = "product-item__caption";

/// Class of the container of a card's item-type list.
pub const FORM_CLASS: &'static str = "product-item__form";

/// Class of the container of a card's prices.
pub const PRICE_CLASS: &'static str = "product-item__price";

/// Class of the promotional price inside the price container.
pub const PROMO_PRICE_CLASS: &'static str = "price-new";

/// Class of the container of a card's discount flag.
pub const DISCOUNT_CLASS: &'static str = "product-item__flags--discounts";

/// What the page queries found in one product card; `None` where nothing matched.
pub struct CardFields {
    pub name: Option<String>,
    /// `Some(None)`: the caption link was found but has no `href`.
    pub link: Option<Option<String>>,
    pub item_type: Option<String>,
    pub price: Option<String>,
    pub price_promo: Option<String>,
    pub discount: Option<String>,
}

pub struct CardView {
    pub name: Option<Seq<char>>,
    pub link: Option<Option<Seq<char>>>,
    pub item_type: Option<Seq<char>>,
    pub price: Option<Seq<char>>,
    pub price_promo: Option<Seq<char>>,
    pub discount: Option<Seq<char>>,
}

impl View for CardFields {
    type V = CardView;

    open spec fn view(&self) -> CardView {
        CardView {
            name: text_option(self.name),
            link: match self.link {
                Some(inner) => Some(text_option(inner)),
                None => None,
            },
            item_type: text_option(self.item_type),
            price: text_option(self.price),
            price_promo: text_option(self.price_promo),
            discount: text_option(self.discount),
        }
    }
}

pub open spec fn text_or_empty(o: Option<Seq<char>>) -> Seq<char> {
    match o {
        Some(t) => t,
        None => Seq::empty(),
    }
}

pub open spec fn price_or_zero(o: Option<Seq<char>>) -> u64 {
    match o {
        Some(t) => price_of_text(t),
        None => 0,
    }
}

/// The caption link of the card was found without an `href`.
pub open spec fn bare_caption(c: CardView) -> bool {
    c.link == Some(None::<Seq<char>>)
}

/// The record that a card's fields make: each field that was not found keeps
/// its empty or zero value, and a price that cannot be read is zero.
pub open spec fn card_record(c: CardView) -> RecordView {
    RecordView {
        name: text_or_empty(c.name),
        item_type: text_or_empty(c.item_type),
        link: match c.link {
            Some(Some(h)) => h,
            _ => Seq::empty(),
        },
        price: price_or_zero(c.price),
        price_promo: price_or_zero(c.price_promo),
        discount: text_or_empty(c.discount),
    }
}

/// The fields of each product card of `page`, in document order.
pub open spec fn page_cards(page: Seq<char>) -> Seq<CardView> {
    Seq::new(
        card_count_of(page, CARD_CLASS@),
        |i: int|
            CardView {
                name: card_texts_by_name_of(page, CARD_CLASS@, CAPTION_CLASS@, "a"@)[i],
                link: card_attrs_by_name_of(page, CARD_CLASS@, CAPTION_CLASS@, "a"@, "href"@)[i],
                item_type: card_texts_by_name_of(page, CARD_CLASS@, FORM_CLASS@, "li"@)[i],
                price: card_texts_by_name_of(page, CARD_CLASS@, PRICE_CLASS@, "span"@)[i],
                price_promo: card_texts_by_class_of(
                    page,
                    CARD_CLASS@,
                    PRICE_CLASS@,
                    PROMO_PRICE_CLASS@,
                )[i],
                discount: card_texts_by_name_of(page, CARD_CLASS@, DISCOUNT_CLASS@, "p"@)[i],
            },
    )
}

/// Some card of `page` has a caption link without an `href`.
pub open spec fn page_has_bare_caption(page: Seq<char>) -> bool {
    exists|i: int| 0 <= i < page_cards(page).len() && bare_caption(#[trigger] page_cards(page)[i])
}

/// The records of `page`: one per card, each product once, the first card winning.
pub open spec fn page_records(page: Seq<char>) -> Seq<RecordView> {
    first_of_each(page_cards(page).map_values(|c: CardView| card_record(c)))
}

/// What processing `page` gives: its records, or why it cannot be read.
pub open spec fn page_outcome(page: Seq<char>) -> Result<Seq<RecordView>, ScrapeError> {
    if page.len() > MAX_PAGE_CHARS {
        Err(ScrapeError::PageTooLarge)
    } else if page_has_bare_caption(page) {
        Err(ScrapeError::CaptionWithoutHref)
    } else {
        Ok(page_records(page))
    }
}

fn text_or_empty_exec(o: Option<String>) -> (r: String)
    ensures
        r@ == text_or_empty(text_option(o)),
{
    match o {
        Some(t) => t,
        None => String::new(),
    }
}

fn price_or_zero_exec(o: &Option<String>) -> (r: u64)
    ensures
        r == price_or_zero(text_option(*o)),
{
    match o {
        Some(t) => price_from_text(t.as_str()),
        None => 0,
    }
}

/// Builds the record of one product card; fails only where the caption link
/// was found without an `href`.
pub fn extract_record(fields: CardFields) -> (r: Result<ProductRecord, ScrapeError>)
    ensures
        match r {
            Ok(rec) => !bare_caption(fields@) && rec@ == card_record(fields@),
            Err(e) => bare_caption(fields@) && e == ScrapeError::CaptionWithoutHref,
        },
{
    let ghost c = fields@;
    let link = match fields.link {
        Some(Some(h)) => h,
        Some(None) => {
            return Err(ScrapeError::CaptionWithoutHref);
        },
        None => String::new(),
    };
    let price = price_or_zero_exec(&fields.price);
    let price_promo = price_or_zero_exec(&fields.price_promo);
    let rec = ProductRecord {
        name: text_or_empty_exec(fields.name),
        item_type: text_or_empty_exec(fields.item_type),
        link,
        price,
        price_promo,
        discount: text_or_empty_exec(fields.discount),
    };
    assert(rec@ == card_record(c));
    Ok(rec)
}

fn take_entry(v: &mut Vec<Option<String>>, i: usize) -> (r: Option<String>)
    requires
        i < old(v)@.len(),
    ensures
        r == old(v)@[i as int],
        final(v)@.len() == old(v)@.len(),
        forall|k: int| 0 <= k < old(v)@.len() && k != i ==> final(v)@[k] == old(v)@[k],
{
    let mut slot: Option<String> = None;
    std::mem::swap(&mut slot, &mut v[i]);
    slot
}

/// The records of one listing page, each product once; fails where the page
/// is too long to parse or a card's caption link has no `href`.
pub fn process_page(page: &str) -> (r: Result<Vec<ProductRecord>, ScrapeError>)
    ensures
        match page_outcome(page@) {
            Ok(recs) => r is Ok && record_views(r->Ok_0@) == recs,
            Err(e) => r == Err::<Vec<ProductRecord>, ScrapeError>(e),
        },
{
    if page.unicode_len() > MAX_PAGE_CHARS {
        return Err(ScrapeError::PageTooLarge);
    }
    let mut names = card_texts_by_name(page, CARD_CLASS, CAPTION_CLASS, "a");
    let links = card_attrs_by_name(page, CARD_CLASS, CAPTION_CLASS, "a", "href");
    let mut types = card_texts_by_name(page, CARD_CLASS, FORM_CLASS, "li");
    let mut prices = card_texts_by_name(page, CARD_CLASS, PRICE_CLASS, "span");
    let mut promos = card_texts_by_class(page, CARD_CLASS, PRICE_CLASS, PROMO_PRICE_CLASS);
    let mut discounts = card_texts_by_name(page, CARD_CLASS, DISCOUNT_CLASS, "p");
    let ghost cards = page_cards(page@);
    let ghost built = cards.map_values(|c: CardView| card_record(c));
    let ghost (n0, t0, p0, q0, d0) = (names@, types@, prices@, promos@, discounts@);
    let n = names.len();
    let mut out: Vec<ProductRecord> = Vec::new();
    let mut i: usize = 0;
    while i < n
        invariant
            i <= n == cards.len() == links@.len(),
            names@.len() == n && types@.len() == n && prices@.len() == n,
            promos@.len() == n && discounts@.len() == n,
            n0.len() == n && t0.len() == n && p0.len() == n && q0.len() == n && d0.len() == n,
            forall|k: int| i <= k < n ==> names@[k] == n0[k] && types@[k] == t0[k] && prices@[k]
                == p0[k] && promos@[k] == q0[k] && discounts@[k] == d0[k],
            forall|k: int|
                0 <= k < n ==> (#[trigger] cards[k]) == (CardFields {
                    name: n0[k],
                    link: links@[k],
                    item_type: t0[k],
                    price: p0[k],
                    price_promo: q0[k],
                    discount: d0[k],
                })@,
            cards == page_cards(page@),
            page@.len() <= MAX_PAGE_CHARS,
            built == cards.map_values(|c: CardView| card_record(c)),
            forall|k: int| 0 <= k < i ==> !bare_caption(#[trigger] cards[k]),
            record_views(out@) == merged(Seq::empty(), built.take(i as int)),
        decreases n - i,
    {
        let fields = CardFields {
            name: take_entry(&mut names, i),
            link: links[i].clone(),
            item_type: take_entry(&mut types, i),
            price: take_entry(&mut prices, i),
            price_promo: take_entry(&mut promos, i),
            discount: take_entry(&mut discounts, i),
        };
        assert(fields@ == cards[i as int]);
        match extract_record(fields) {
            Ok(rec) => {
                push_unique(&mut out, rec);
                proof {
                    let t = built.take(i + 1);
                    assert(t.drop_last() =~= built.take(i as int));
                    assert(t.last() == card_record(cards[i as int]));
                }
            },
            Err(e) => {
                assert(bare_caption(page_cards(page@)[i as int]));
                return Err(e);
            },
        }
        i += 1;
    }
    assert(built.take(n as int) =~= built);
    Ok(out)
}

} // verus!
