//! Decisions of the paged fetcher: which page to ask for next and when to stop.
use vstd::prelude::*;
use crate::text::{chars_of, decimal, find, find_from, push_decimal, push_text, string_of};

verus! {

/// The address of page `page` of `base`, with `per_page` items a page.
pub open spec fn page_address(base: Seq<char>, per_page: u32, page: u32) -> Seq<char> {
    base + (if find(base, 0, "?"@) is Some { "&"@ } else { "?"@ }) + "per_page="@ + decimal(per_page as nat)
        + "&page="@ + decimal(page as nat)
}

/// The address of page `page` of `base`.
pub fn page_url(base: &str, per_page: u32, page: u32) -> (r: String)
    ensures
        r@ == page_address(base@, per_page, page),
{
    let b = chars_of(base);
    let q = chars_of("?");
    let mut out: Vec<char> = Vec::new();
    push_text(&mut out, base);
    if find_from(&b, 0, &q).is_some() {
        push_text(&mut out, "&");
    } else {
        push_text(&mut out, "?");
    }
    push_text(&mut out, "per_page=");
    push_decimal(&mut out, per_page as u64);
    push_text(&mut out, "&page=");
    push_decimal(&mut out, page as u64);
    string_of(&out)
}

/// Whether a `link` header announces a next page.
pub fn has_next_page(link: Option<&str>) -> (r: bool)
    ensures
        r == (link is Some && find(link->0@, 0, "rel=\"next\""@) is Some),
{
    match link {
        Some(l) => {
            let v = chars_of(l);
            let needle = chars_of("rel=\"next\"");
            find_from(&v, 0, &needle).is_some()
        },
        None => false,
    }
}

/// Whether to ask for another page: the server announced one, the last page
/// was full, and, under a cap, fewer than `cap` items are in hand.
pub fn should_fetch_more(has_next: bool, page_len: usize, per_page: u32, collected: usize, cap: Option<u32>) -> (r: bool)
    ensures
        r == (has_next && page_len >= per_page && (cap is None || collected < cap->0)),
{
    let under_cap = match cap {
        Some(c) => collected < c as usize,
        None => true,
    };
    has_next && page_len >= per_page as usize && under_cap
}

/// Cuts `items` to at most `cap` of them.
pub fn cap_items<T>(items: &mut Vec<T>, cap: u32)
    ensures
        final(items)@ == (if old(items)@.len() > cap { old(items)@.take(cap as int) } else { old(items)@ }),
{
    items.truncate(cap as usize);
}

} // verus!
