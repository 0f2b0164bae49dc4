use vstd::prelude::*;
use crate::html::{MAX_PAGE_CHARS, element_attrs, element_attrs_of, text_options};
use crate::record::ScrapeError;

verus! {

/// `s` holds the substring `www`.
pub open spec fn has_www(s: Seq<char>) -> bool {
    exists|i: int| 0 <= i && i + 3 <= s.len() && #[trigger] s[i] == 'w' && s[i + 1] == 'w' && s[i + 2] == 'w'
}

/// The absolute links that the hrefs give, in order of first appearance: each
/// href without `www` prefixed by `root`, each link once.
pub open spec fn links_of(root: Seq<char>, hrefs: Seq<Seq<char>>) -> Seq<Seq<char>>
    decreases hrefs.len(),
{
    if hrefs.len() == 0 {
        Seq::empty()
    } else {
        let before = links_of(root, hrefs.drop_last());
        let h = hrefs.last();
        if has_www(h) || before.contains(root + h) {
            before
        } else {
            before.push(root + h)
        }
    }
}

/// Some anchor has no href.
pub open spec fn some_href_missing(anchors: Seq<Option<Seq<char>>>) -> bool {
    exists|i: int| 0 <= i < anchors.len() && #[trigger] anchors[i] is None
}

/// The hrefs of anchors that all have one.
pub open spec fn present_hrefs(anchors: Seq<Option<Seq<char>>>) -> Seq<Seq<char>> {
    anchors.map_values(|a: Option<Seq<char>>| a->0)
}

pub open spec fn string_views(v: Seq<String>) -> Seq<Seq<char>> {
    v.map_values(|s: String| s@)
}

/// Whether `s` holds the substring `www`.
pub fn contains_www(s: &str) -> (r: bool)
    ensures
        r == has_www(s@),
{
    let n = s.unicode_len();
    let mut i: usize = 0;
    while n >= 3 && i <= n - 3
        invariant
            n == s@.len(),
            i <= n,
            forall|k: int|
                0 <= k < i && k + 3 <= n ==> !(#[trigger] s@[k] == 'w' && s@[k + 1] == 'w' && s@[k
                    + 2] == 'w'),
        decreases n - i,
    {
        if s.get_char(i) == 'w' && s.get_char(i + 1) == 'w' && s.get_char(i + 2) == 'w' {
            return true;
        }
        i += 1;
    }
    false
}

fn contains_string(v: &Vec<String>, x: &String) -> (r: bool)
    ensures
        r == string_views(v@).contains(x@),
{
    let mut i: usize = 0;
    while i < v.len()
        invariant
            i <= v.len(),
            forall|k: int| 0 <= k < i ==> v@[k]@ != x@,
        decreases v.len() - i,
    {
        if v[i] == *x {
            assert(string_views(v@)[i as int] == x@);
            return true;
        }
        i += 1;
    }
    false
}

/// The links to visit, from the href of each anchor of the landing page (`None`
/// for an anchor without one, which is an error).
pub fn unique_links(root: &str, anchors: &Vec<Option<String>>) -> (r: Result<
    Vec<String>,
    ScrapeError,
>)
    ensures
        match r {
            Ok(v) => !some_href_missing(text_options(anchors@)) && string_views(v@) == links_of(
                root@,
                present_hrefs(text_options(anchors@)),
            ),
            Err(e) => some_href_missing(text_options(anchors@)) && e == ScrapeError::AnchorWithoutHref,
        },
{
    let ghost hs = text_options(anchors@);
    let mut out: Vec<String> = Vec::new();
    let mut i: usize = 0;
    while i < anchors.len()
        invariant
            i <= anchors.len(),
            hs == text_options(anchors@),
            !some_href_missing(hs.take(i as int)),
            string_views(out@) == links_of(root@, present_hrefs(hs.take(i as int))),
        decreases anchors.len() - i,
    {
        proof {
            let t = hs.take(i + 1);
            assert(present_hrefs(t).drop_last() =~= present_hrefs(hs.take(i as int)));
        }
        match &anchors[i] {
            None => {
                assert(hs[i as int] is None);
                return Err(ScrapeError::AnchorWithoutHref);
            },
            Some(h) => {
                proof {
                    assert(present_hrefs(hs.take(i + 1)).last() == h@);
                    assert forall|k: int| 0 <= k < i + 1 implies !(#[trigger] hs.take(i + 1)[k] is None) by {
                        if k < i {
                            assert(hs.take(i + 1)[k] == hs.take(i as int)[k]);
                        }
                    }
                }
                if !contains_www(h.as_str()) {
                    let link = String::from_str(root).concat(h.as_str());
                    if !contains_string(&out, &link) {
                        let ghost before = string_views(out@);
                        out.push(link);
                        assert(string_views(out@) =~= before.push(root@ + h@));
                    }
                }
            },
        }
        i += 1;
    }
    assert(hs.take(anchors.len() as int) =~= hs);
    Ok(out)
}

/// The links to visit from the landing page's markup: the `href` of every
/// anchor, as [`unique_links`] reduces them; fails on a page too long to parse.
pub fn discover_links(root: &str, page: &str) -> (r: Result<Vec<String>, ScrapeError>)
    ensures
        page@.len() > MAX_PAGE_CHARS ==> r == Err::<Vec<String>, ScrapeError>(
            ScrapeError::PageTooLarge,
        ),
        page@.len() <= MAX_PAGE_CHARS ==> match r {
            Ok(v) => !some_href_missing(element_attrs_of(page@, "a"@, "href"@)) && string_views(v@)
                == links_of(root@, present_hrefs(element_attrs_of(page@, "a"@, "href"@))),
            Err(e) => some_href_missing(element_attrs_of(page@, "a"@, "href"@)) && e
                == ScrapeError::AnchorWithoutHref,
        },
{
    if page.unicode_len() > MAX_PAGE_CHARS {
        return Err(ScrapeError::PageTooLarge);
    }
    let anchors = element_attrs(page, "a", "href");
    unique_links(root, &anchors)
}

} // verus!
