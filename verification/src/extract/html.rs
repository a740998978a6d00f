//! HTML queries answered by the `scraper` crate.

use vstd::prelude::*;

verus! {

/// What `scraper` finds in the document `html` for the CSS `selector`: `None` when the
/// selector does not parse, else, for each matching element in the order that
/// `Html::select` yields them, the value of its attribute `attr` and of its attribute
/// `label_attr`.
pub uninterp spec fn html_select(
    html: Seq<char>,
    selector: Seq<char>,
    attr: Seq<char>,
    label_attr: Option<Seq<char>>,
) -> Option<Seq<(Option<Seq<char>>, Option<Seq<char>>)>>;

/// The text of the first `<title>` element that `scraper` finds in `html`, if any.
pub uninterp spec fn html_title(html: Seq<char>) -> Option<Seq<char>>;

pub open spec fn opt_str_view(o: Option<&str>) -> Option<Seq<char>> {
    match o {
        Some(s) => Some(s@),
        None => None,
    }
}

pub open spec fn attr_pair_views(v: Seq<(Option<String>, Option<String>)>) -> Seq<
    (Option<Seq<char>>, Option<Seq<char>>),
> {
    v.map_values(
        |p: (Option<String>, Option<String>)|
            (crate::weburl::opt_view(p.0), crate::weburl::opt_view(p.1)),
    )
}

/// Parses `html` with `scraper::Html::parse_document` and runs `Html::select` with
/// `scraper::Selector::parse(selector)`, reading `attr` and `label_attr` of each match
/// with `Element::attr`. The contract claims that the result is `html_select` of the
/// arguments.
#[verifier::external_body]
pub(crate) fn select_attrs(html: &str, selector: &str, attr: &str, label_attr: Option<&str>) -> (r: Option<
    Vec<(Option<String>, Option<String>)>,
>)
    ensures
        match html_select(html@, selector@, attr@, opt_str_view(label_attr)) {
            Some(ms) => r matches Some(v) && attr_pair_views(v@) == ms,
            None => r is None,
        },
{
    let sel = scraper::Selector::parse(selector).ok()?;
    let document = scraper::Html::parse_document(html);
    Some(
        document
            .select(&sel)
            .map(|el| (
                el.value().attr(attr).map(str::to_owned),
                label_attr.and_then(|name| el.value().attr(name)).map(str::to_owned),
            ))
            .collect(),
    )
}

/// Parses `html` with `scraper::Html::parse_document` and collects the text nodes of the
/// first element that the selector `title` matches. The contract claims that the result
/// is `html_title` of the document.
#[verifier::external_body]
pub(crate) fn title_text(html: &str) -> (r: Option<String>)
    ensures
        crate::weburl::opt_view(r) == html_title(html@),
{
    let document = scraper::Html::parse_document(html);
    let sel = scraper::Selector::parse("title").ok()?;
    document.select(&sel).next().map(|node| node.text().collect::<String>())
}

} // verus!
