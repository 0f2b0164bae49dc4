use vstd::prelude::*;

verus! {

/// The failures that stop a crawl: the markup breaks an assumption that the
/// scraper relies on.
#[derive(Debug, Clone, Copy, PartialEq, Eq, Structural)]
pub enum ScrapeError {
    /// An anchor of the landing page has no `href`.
    AnchorWithoutHref,
    /// The caption link of a product card has no `href`.
    CaptionWithoutHref,
    /// A page is longer than the markup parser accepts.
    PageTooLarge,
}

/// One product as read from a listing page.
///
/// Prices are held in hundredths of the currency unit (`19.99` is `1999`);
/// a price that was absent or unreadable is `0`.
#[derive(Debug)]
pub struct ProductRecord {
    pub name: String,
    pub item_type: String,
    pub link: String,
    pub price: u64,
    pub price_promo: u64,
    pub discount: String,
}

/// Mathematical model of a [`ProductRecord`].
pub struct RecordView {
    pub name: Seq<char>,
    pub item_type: Seq<char>,
    pub link: Seq<char>,
    pub price: u64,
    pub price_promo: u64,
    pub discount: Seq<char>,
}

impl View for ProductRecord {
    type V = RecordView;

    open spec fn view(&self) -> RecordView {
        RecordView {
            name: self.name@,
            item_type: self.item_type@,
            link: self.link@,
            price: self.price,
            price_promo: self.price_promo,
            discount: self.discount@,
        }
    }
}

/// Two records describe the same product when name and item type agree.
pub open spec fn same_product(a: RecordView, b: RecordView) -> bool {
    a.name == b.name && a.item_type == b.item_type
}

/// The view of every record of a vector.
pub open spec fn record_views(v: Seq<ProductRecord>) -> Seq<RecordView> {
    v.map_values(|r: ProductRecord| r@)
}

impl ProductRecord {
    /// A field-by-field copy.
    pub fn duplicate(&self) -> (r: ProductRecord)
        ensures
            r@ == self@,
    {
        ProductRecord {
            name: self.name.clone(),
            item_type: self.item_type.clone(),
            link: self.link.clone(),
            price: self.price,
            price_promo: self.price_promo,
            discount: self.discount.clone(),
        }
    }

    /// Whether `self` and `other` describe the same product.
    pub fn same_product_as(&self, other: &ProductRecord) -> (r: bool)
        ensures
            r == same_product(self@, other@),
    {
        self.name == other.name && self.item_type == other.item_type
    }
}

impl Default for ProductRecord {
    /// A record with every field empty or zero.
    fn default() -> (r: ProductRecord)
        ensures
            r@.name.len() == 0,
            r@.item_type.len() == 0,
            r@.link.len() == 0,
            r.price == 0,
            r.price_promo == 0,
            r@.discount.len() == 0,
    {
        ProductRecord {
            name: String::new(),
            item_type: String::new(),
            link: String::new(),
            price: 0,
            price_promo: 0,
            discount: String::new(),
        }
    }
}

impl PartialEq for ProductRecord {
    fn eq(&self, other: &ProductRecord) -> (r: bool)
        ensures
            r == same_product(self@, other@),
    {
        self.same_product_as(other)
    }
}

impl vstd::std_specs::cmp::PartialEqSpecImpl for ProductRecord {
    open spec fn obeys_eq_spec() -> bool {
        true
    }

    open spec fn eq_spec(&self, other: &ProductRecord) -> bool {
        same_product(self@, other@)
    }
}

} // verus!
