use bnbscraper::crawl::{absorb_page, crawl_pages};
use bnbscraper::dedup::{contains_product, merge_records, push_unique};
use bnbscraper::group::group_by_discount;
use bnbscraper::links::{contains_www, discover_links, unique_links};
use bnbscraper::page::{extract_record, process_page, CardFields};
use bnbscraper::html::MAX_PAGE_CHARS;
use bnbscraper::price::{parse_hundredths, price_from_text, strip_dollars};
use bnbscraper::record::{ProductRecord, ScrapeError};

fn rec(name: &str, item_type: &str, link: &str, discount: &str) -> ProductRecord {
    ProductRecord {
        name: name.to_string(),
        item_type: item_type.to_string(),
        link: link.to_string(),
        price: 0,
        price_promo: 0,
        discount: discount.to_string(),
    }
}

fn card(name: &str, kind: &str, href: &str, price: Option<&str>, discount: &str) -> String {
    let price_html = match price {
        Some(p) => format!("<div class=\"product-item__price\"><span>{}</span></div>", p),
        None => String::new(),
    };
    format!(
        "<div class=\"product-item\"><div class=\"product-item__caption\"><a href=\"{}\">{}</a></div>\
         <div class=\"product-item__form\"><ul><li>{}</li></ul></div>{}\
         <div class=\"product-item__flags--discounts\"><p>{}</p></div></div>",
        href, name, kind, price_html, discount
    )
}

fn page(cards: &[String]) -> String {
    format!("<html><body>{}</body></html>", cards.concat())
}

#[test]
fn first_record_of_a_product_wins() {
    let mut all = vec![rec("Soap", "Small", "/one", "")];
    merge_records(
        &mut all,
        vec![rec("Soap", "Small", "/two", "10% off"), rec("Soap", "Large", "/three", ""), rec("Soap", "Large", "/four", "")],
    );
    assert_eq!(all.len(), 2);
    assert_eq!(all[0].link, "/one");
    assert_eq!(all[0].discount, "");
    assert_eq!(all[1].link, "/three");
}

#[test]
fn push_unique_skips_same_name_and_type() {
    let mut all = Vec::new();
    push_unique(&mut all, rec("Candle", "3-wick", "/a", ""));
    push_unique(&mut all, rec("Candle", "3-wick", "/b", "sale"));
    push_unique(&mut all, rec("Candle", "1-wick", "/c", ""));
    assert_eq!(all.len(), 2);
    assert!(contains_product(&all, &rec("Candle", "1-wick", "/zzz", "x")));
    assert!(!contains_product(&all, &rec("Lotion", "1-wick", "/c", "")));
}

#[test]
fn records_compare_by_identity() {
    assert!(rec("A", "B", "/x", "1") == rec("A", "B", "/y", "2"));
    assert!(rec("A", "B", "/x", "1") != rec("A", "C", "/x", "1"));
}

#[test]
fn link_discovery_filters_and_collapses() {
    let anchors = vec![
        Some("/a".to_string()),
        Some("http://www.other.com/x".to_string()),
        Some("/b".to_string()),
        Some("/a".to_string()),
    ];
    let mut links = unique_links("https://site.test", &anchors).unwrap();
    links.sort();
    assert_eq!(links, vec!["https://site.test/a".to_string(), "https://site.test/b".to_string()]);
}

#[test]
fn link_discovery_from_markup() {
    let html = "<html><body><a href=\"/a\">A</a><a href=\"http://www.other.com/x\">X</a>\
                <a href=\"/b\">B</a><a href=\"/a\">A again</a></body></html>";
    let links = discover_links("https://site.test", html).unwrap();
    assert_eq!(links, vec!["https://site.test/a".to_string(), "https://site.test/b".to_string()]);
}

#[test]
fn anchor_without_href_is_an_error() {
    let anchors = vec![Some("/a".to_string()), None];
    assert_eq!(unique_links("https://site.test", &anchors), Err(ScrapeError::AnchorWithoutHref));
    let html = "<html><body><a href=\"/a\">A</a><a name=\"top\">top</a></body></html>";
    assert_eq!(discover_links("https://site.test", html), Err(ScrapeError::AnchorWithoutHref));
}

#[test]
fn empty_landing_page_gives_no_links() {
    assert_eq!(unique_links("https://site.test", &vec![]), Ok(vec![]));
}

#[test]
fn www_substring_detection() {
    assert!(contains_www("http://www.x.com"));
    assert!(contains_www("www"));
    assert!(!contains_www("ww.w"));
    assert!(!contains_www(""));
}

#[test]
fn missing_price_defaults_to_zero() {
    let fields = CardFields {
        name: Some("Soap".to_string()),
        link: Some(Some("/soap".to_string())),
        item_type: Some("Small".to_string()),
        price: None,
        price_promo: None,
        discount: Some("2x1".to_string()),
    };
    let r = extract_record(fields).unwrap();
    assert_eq!(r.name, "Soap");
    assert_eq!(r.link, "/soap");
    assert_eq!(r.item_type, "Small");
    assert_eq!(r.price, 0);
    assert_eq!(r.price_promo, 0);
    assert_eq!(r.discount, "2x1");
}

#[test]
fn card_without_price_span_still_yields_record() {
    let html = page(&[card("Soap", "Small", "/soap", None, "2x1")]);
    let records = process_page(&html).unwrap();
    assert_eq!(records.len(), 1);
    assert_eq!(records[0].name, "Soap");
    assert_eq!(records[0].item_type, "Small");
    assert_eq!(records[0].link, "/soap");
    assert_eq!(records[0].price, 0);
    assert_eq!(records[0].discount, "2x1");
}

#[test]
fn caption_without_href_is_an_error() {
    let fields = CardFields {
        name: Some("Soap".to_string()),
        link: Some(None),
        item_type: None,
        price: None,
        price_promo: None,
        discount: None,
    };
    assert!(matches!(extract_record(fields), Err(ScrapeError::CaptionWithoutHref)));
    let html = "<html><body><div class=\"product-item\"><div class=\"product-item__caption\">\
                <a>Soap</a></div></div></body></html>";
    assert!(matches!(process_page(html), Err(ScrapeError::CaptionWithoutHref)));
}

#[test]
fn card_with_nothing_found_is_empty_record() {
    let html = "<html><body><div class=\"product-item\"></div></body></html>";
    let records = process_page(html).unwrap();
    assert_eq!(records.len(), 1);
    assert_eq!(records[0].name, "");
    assert_eq!(records[0].link, "");
    assert_eq!(records[0].price, 0);
}

#[test]
fn page_with_promo_price() {
    let html = "<html><body><div class=\"product-item\"><div class=\"product-item__caption\">\
                <a href=\"/l\">Lotion</a></div><div class=\"product-item__price\">\
                <span>$250.00</span><span class=\"price-new\">$199.50</span></div></div></body></html>";
    let records = process_page(html).unwrap();
    assert_eq!(records[0].price, 25000);
    assert_eq!(records[0].price_promo, 19950);
}

#[test]
fn repeated_card_on_one_page_is_kept_once() {
    let html = page(&[
        card("Soap", "Small", "/soap", Some("$1.00"), ""),
        card("Soap", "Small", "/soap-2", Some("$2.00"), ""),
    ]);
    let records = process_page(&html).unwrap();
    assert_eq!(records.len(), 1);
    assert_eq!(records[0].price, 100);
}

#[test]
fn page_without_cards_gives_nothing() {
    assert_eq!(process_page("<html><body><p>none</p></body></html>").unwrap().len(), 0);
}

#[test]
fn price_parsing_examples() {
    assert_eq!(price_from_text("$19.99"), 1999);
    assert_eq!(price_from_text("N/A"), 0);
    assert_eq!(price_from_text("$$5"), 500);
    assert_eq!(price_from_text("7.5$"), 750);
    assert_eq!(price_from_text("$.5"), 50);
    assert_eq!(price_from_text("$1.999"), 200);
}

#[test]
fn hundredths_grammar() {
    assert_eq!(parse_hundredths("19.99"), Some(1999));
    assert_eq!(parse_hundredths("0"), Some(0));
    assert_eq!(parse_hundredths("12."), Some(1200));
    assert_eq!(parse_hundredths("3.1"), Some(310));
    assert_eq!(parse_hundredths(""), None);
    assert_eq!(parse_hundredths(".5"), Some(50));
    assert_eq!(parse_hundredths("+5"), Some(500));
    assert_eq!(parse_hundredths("1.234"), Some(123));
    assert_eq!(parse_hundredths("1.235"), Some(124));
    assert_eq!(parse_hundredths("1.999"), Some(200));
    assert_eq!(parse_hundredths("."), None);
    assert_eq!(parse_hundredths("+"), None);
    assert_eq!(parse_hundredths("1e2"), None);
    assert_eq!(parse_hundredths("-5"), None);
    assert_eq!(parse_hundredths("1.2.3"), None);
    assert_eq!(parse_hundredths("1,299.00"), None);
    assert_eq!(parse_hundredths("$5"), None);
    assert_eq!(parse_hundredths("184467440737095517"), None);
    assert_eq!(parse_hundredths("184467440737095516"), Some(18446744073709551600));
    assert_eq!(parse_hundredths("184467440737095516.15"), Some(18446744073709551615));
    assert_eq!(parse_hundredths("184467440737095516.16"), None);
    assert_eq!(parse_hundredths("184467440737095516.154"), Some(18446744073709551615));
    assert_eq!(parse_hundredths("184467440737095516.155"), None);
}

#[test]
fn failed_fetch_is_passed_over() {
    let one = page(&[card("Soap", "Small", "/soap", Some("$1.00"), "")]);
    let three = page(&[card("Candle", "Large", "/candle", Some("$3.00"), "10% off")]);
    let all = crawl_pages(vec![Some(one), None, Some(three)]).unwrap();
    assert_eq!(all.len(), 2);
    assert_eq!(all[0].name, "Soap");
    assert_eq!(all[1].name, "Candle");
}

#[test]
fn crawl_of_no_links_is_empty() {
    assert_eq!(crawl_pages(vec![]).unwrap().len(), 0);
}

#[test]
fn duplicates_across_pages_keep_first_arrival() {
    let one = page(&[card("Soap", "Small", "/first", Some("$1.00"), "")]);
    let two = page(&[card("Soap", "Small", "/second", Some("$2.00"), "x")]);
    let all = crawl_pages(vec![Some(one), Some(two)]).unwrap();
    assert_eq!(all.len(), 1);
    assert_eq!(all[0].link, "/first");
}

#[test]
fn absorbing_outcomes_one_by_one() {
    let mut all = Vec::new();
    assert_eq!(absorb_page(&mut all, None), Ok(()));
    assert_eq!(all.len(), 0);
    let one = page(&[card("Soap", "Small", "/soap", None, "")]);
    assert_eq!(absorb_page(&mut all, Some(one)), Ok(()));
    assert_eq!(all.len(), 1);
    let bad = "<html><body><div class=\"product-item\"><div class=\"product-item__caption\">\
               <a>Soap</a></div></div></body></html>"
        .to_string();
    assert_eq!(absorb_page(&mut all, Some(bad)), Err(ScrapeError::CaptionWithoutHref));
    assert_eq!(all.len(), 1);
}

#[test]
fn grouping_by_discount_label() {
    let records = vec![rec("A", "1", "/a", "10% off"), rec("B", "1", "/b", ""), rec("C", "1", "/c", "10% off")];
    let groups = group_by_discount(&records);
    assert_eq!(groups.len(), 2);
    assert_eq!(groups[0].discount, "10% off");
    assert_eq!(groups[0].records.len(), 2);
    assert_eq!(groups[0].records[0].name, "A");
    assert_eq!(groups[0].records[1].name, "C");
    assert_eq!(groups[1].discount, "");
    assert_eq!(groups[1].records.len(), 1);
    assert_eq!(groups[1].records[0].name, "B");
}

#[test]
fn grouping_twice_gives_same_output() {
    let records = vec![rec("A", "1", "/a", "x"), rec("B", "2", "/b", ""), rec("C", "3", "/c", "x")];
    let first = group_by_discount(&records);
    let second = group_by_discount(&records);
    assert_eq!(first.len(), second.len());
    for (g, h) in first.iter().zip(second.iter()) {
        assert_eq!(g.discount, h.discount);
        let a: Vec<&str> = g.records.iter().map(|r| r.link.as_str()).collect();
        let b: Vec<&str> = h.records.iter().map(|r| r.link.as_str()).collect();
        assert_eq!(a, b);
    }
}

#[test]
fn grouping_nothing_gives_no_groups() {
    assert_eq!(group_by_discount(&vec![]).len(), 0);
}

#[test]
fn default_record_is_empty() {
    let r = ProductRecord::default();
    assert_eq!(r.name, "");
    assert_eq!(r.item_type, "");
    assert_eq!(r.link, "");
    assert_eq!(r.price, 0);
    assert_eq!(r.price_promo, 0);
    assert_eq!(r.discount, "");
}

#[test]
fn page_records_grouped_by_discount() {
    let html = page(&[
        card("A", "1", "/a", Some("$1.00"), "10% off"),
        card("B", "1", "/b", Some("$1.00"), ""),
        card("C", "1", "/c", Some("$1.00"), "10% off"),
    ]);
    let records = process_page(&html).unwrap();
    assert_eq!(records.len(), 3);
    let groups = group_by_discount(&records);
    assert_eq!(groups.len(), 2);
    assert_eq!(groups[0].discount, "10% off");
    assert_eq!(groups[0].records.len(), 2);
    assert_eq!(groups[1].discount, "");
    assert_eq!(groups[1].records.len(), 1);
}

#[test]
fn dollar_signs_are_removed() {
    assert_eq!(strip_dollars("$1$2$"), "12");
    assert_eq!(strip_dollars("$$"), "");
    assert_eq!(strip_dollars("précio $ü9"), "précio ü9");
    assert_eq!(strip_dollars(""), "");
}

#[test]
fn overlong_pages_are_refused_or_passed_over() {
    let huge = "a".repeat(MAX_PAGE_CHARS + 1);
    assert_eq!(discover_links("https://site.test", &huge), Err(ScrapeError::PageTooLarge));
    assert!(matches!(process_page(&huge), Err(ScrapeError::PageTooLarge)));
    let mut all = vec![rec("Soap", "Small", "/soap", "")];
    assert_eq!(absorb_page(&mut all, Some(huge)), Ok(()));
    assert_eq!(all.len(), 1);
}
