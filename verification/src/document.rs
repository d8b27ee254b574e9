//! The parts of an HTML page that the crawler looks at.

use vstd::prelude::*;

verus! {

/// The view of an attribute.
pub open spec fn attribute_view(a: Option<String>) -> Option<Seq<char>> {
    match a {
        Some(s) => Some(s@),
        None => None,
    }
}

/// The views of a list of attributes.
pub open spec fn attribute_views(row: Seq<Option<String>>) -> Seq<Option<Seq<char>>> {
    row.map_values(|a: Option<String>| attribute_view(a))
}

/// The views of the attributes of a list of elements.
pub open spec fn row_views(rows: Seq<Vec<Option<String>>>) -> Seq<Seq<Option<Seq<char>>>> {
    rows.map_values(|row: Vec<Option<String>>| attribute_views(row@))
}

/// A `link` element with a `rel` attribute.
#[derive(Debug, Clone)]
pub struct LinkTag {
    pub rel: Option<String>,
    pub href: Option<String>,
}

/// View of a [`LinkTag`].
pub struct LinkView {
    pub rel: Option<Seq<char>>,
    pub href: Option<Seq<char>>,
}

impl View for LinkTag {
    type V = LinkView;

    open spec fn view(&self) -> LinkView {
        LinkView { rel: attribute_view(self.rel), href: attribute_view(self.href) }
    }
}

/// An `img` element with a `src` attribute.
#[derive(Debug, Clone)]
pub struct ImageTag {
    pub src: Option<String>,
    pub alt: Option<String>,
    pub class: Option<String>,
    pub id: Option<String>,
}

/// View of an [`ImageTag`].
pub struct ImageView {
    pub src: Option<Seq<char>>,
    pub alt: Option<Seq<char>>,
    pub class: Option<Seq<char>>,
    pub id: Option<Seq<char>>,
}

impl View for ImageTag {
    type V = ImageView;

    open spec fn view(&self) -> ImageView {
        ImageView {
            src: attribute_view(self.src),
            alt: attribute_view(self.alt),
            class: attribute_view(self.class),
            id: attribute_view(self.id),
        }
    }
}

/// An HTML page.
#[derive(Debug, Clone)]
pub struct HtmlDocument {
    /// The `link` elements with a `rel` attribute.
    pub links: Vec<LinkTag>,
    /// The `content` attributes of the `meta` elements with the property `og:image`.
    pub og_images: Vec<Option<String>>,
    /// The `img` elements with a `src` attribute.
    pub images: Vec<ImageTag>,
    /// The `href` attributes of the `a` elements that have one.
    pub anchors: Vec<Option<String>>,
}

/// View of an [`HtmlDocument`].
#[verifier::ext_equal]
pub struct DocumentView {
    pub links: Seq<LinkView>,
    pub og_images: Seq<Option<Seq<char>>>,
    pub images: Seq<ImageView>,
    pub anchors: Seq<Option<Seq<char>>>,
}

impl View for HtmlDocument {
    type V = DocumentView;

    open spec fn view(&self) -> DocumentView {
        DocumentView {
            links: self.links@.map_values(|l: LinkTag| l@),
            og_images: attribute_views(self.og_images@),
            images: self.images@.map_values(|i: ImageTag| i@),
            anchors: attribute_views(self.anchors@),
        }
    }
}

/// The largest number of characters of a page that is read. They make up to
/// four bytes each, and so at most 2^31, the largest size to which a buffer of
/// the parser grows.
pub const MAX_PAGE_CHARS: usize = 0x2000_0000;

/// The selectors that are used; each is a CSS selector.
pub open spec fn is_used_selector(selector: Seq<char>) -> bool {
    ||| selector == "link[rel]"@
    ||| selector == "meta[property=\"og:image\"]"@
    ||| selector == "img[src]"@
    ||| selector == "a[href]"@
}

/// The views of a list of attribute names.
pub open spec fn name_views(names: Seq<&str>) -> Seq<Seq<char>> {
    names.map_values(|n: &str| n@)
}

/// What `scraper` finds in a page: for each element that the selector matches,
/// in the order of `Html::select`, the attributes with the given names.
pub uninterp spec fn selected_attributes(
    html: Seq<char>,
    selector: Seq<char>,
    names: Seq<Seq<char>>,
) -> Seq<Seq<Option<Seq<char>>>>;

/// `scraper::Html::parse_document`, then `select` with the selector that
/// `scraper::Selector::parse` reads, then `attr` of each element for each name:
/// the result depends on the three arguments alone, and has one attribute, or
/// its absence, for each name. The parser panics on a text whose parts do not
/// fit in its buffers; one of no more than `MAX_PAGE_CHARS` characters does.
#[verifier::external_body]
pub(crate) fn select_attributes(html: &str, selector: &str, names: &Vec<&str>) -> (r: Vec<
    Vec<Option<String>>,
>)
    requires
        html@.len() <= MAX_PAGE_CHARS,
        is_used_selector(selector@),
    ensures
        row_views(r@) == selected_attributes(html@, selector@, name_views(names@)),
        forall|i: int| 0 <= i < r@.len() ==> #[trigger] r@[i]@.len() == names@.len(),
{
    let page = scraper::Html::parse_document(html);
    let selector = scraper::Selector::parse(selector).unwrap();
    page.select(&selector).map(
        |e| names.iter().map(|n| e.value().attr(n).map(String::from)).collect(),
    ).collect()
}

/// The first attribute of each element.
pub open spec fn first_attributes(rows: Seq<Seq<Option<Seq<char>>>>) -> Seq<Option<Seq<char>>> {
    rows.map_values(|row: Seq<Option<Seq<char>>>| row[0])
}

/// The page that a text denotes.
pub open spec fn parsed_document(html: Seq<char>) -> DocumentView {
    DocumentView {
        links: selected_attributes(html, "link[rel]"@, seq!["rel"@, "href"@]).map_values(
            |row: Seq<Option<Seq<char>>>| LinkView { rel: row[0], href: row[1] },
        ),
        og_images: first_attributes(
            selected_attributes(html, "meta[property=\"og:image\"]"@, seq!["content"@]),
        ),
        images: selected_attributes(
            html,
            "img[src]"@,
            seq!["src"@, "alt"@, "class"@, "id"@],
        ).map_values(
            |row: Seq<Option<Seq<char>>>|
                ImageView { src: row[0], alt: row[1], class: row[2], id: row[3] },
        ),
        anchors: first_attributes(selected_attributes(html, "a[href]"@, seq!["href"@])),
    }
}

/// A copy of an attribute.
fn copy_attribute(a: &Option<String>) -> (r: Option<String>)
    ensures
        attribute_view(r) == attribute_view(*a),
{
    match a {
        Some(s) => Some(s.clone()),
        None => None,
    }
}

/// The first attribute of each element.
fn first_column(rows: &Vec<Vec<Option<String>>>) -> (r: Vec<Option<String>>)
    requires
        forall|i: int| 0 <= i < rows@.len() ==> #[trigger] rows@[i]@.len() == 1,
    ensures
        attribute_views(r@) == first_attributes(row_views(rows@)),
{
    let mut r: Vec<Option<String>> = Vec::new();
    let mut i: usize = 0;
    while i < rows.len()
        invariant
            i <= rows.len(),
            r@.len() == i,
            forall|j: int| 0 <= j < rows@.len() ==> #[trigger] rows@[j]@.len() == 1,
            forall|j: int|
                0 <= j < i ==> attribute_view(#[trigger] r@[j]) == attribute_view(rows@[j]@[0]),
        decreases rows.len() - i,
    {
        assert(rows@[i as int]@.len() == 1);
        r.push(copy_attribute(&rows[i][0]));
        i += 1;
    }
    assert(attribute_views(r@) =~= first_attributes(row_views(rows@)));
    r
}

impl HtmlDocument {
    /// Reads a page.
    pub fn parse_document(html: &str) -> (r: HtmlDocument)
        requires
            html@.len() <= MAX_PAGE_CHARS,
        ensures
            r@ == parsed_document(html@),
    {
        let link_names: Vec<&str> = vec!["rel", "href"];
        assert(name_views(link_names@) =~= seq!["rel"@, "href"@]);
        let link_rows = select_attributes(html, "link[rel]", &link_names);
        let mut links: Vec<LinkTag> = Vec::new();
        let mut i: usize = 0;
        while i < link_rows.len()
            invariant
                i <= link_rows.len(),
                links@.len() == i,
                forall|j: int| 0 <= j < link_rows@.len() ==> #[trigger] link_rows@[j]@.len() == 2,
                forall|j: int|
                    0 <= j < i ==> (#[trigger] links@[j])@ == (LinkView {
                        rel: attribute_view(link_rows@[j]@[0]),
                        href: attribute_view(link_rows@[j]@[1]),
                    }),
            decreases link_rows.len() - i,
        {
            assert(link_rows@[i as int]@.len() == 2);
            let row = &link_rows[i];
            links.push(LinkTag { rel: copy_attribute(&row[0]), href: copy_attribute(&row[1]) });
            i += 1;
        }
        let meta_names: Vec<&str> = vec!["content"];
        assert(name_views(meta_names@) =~= seq!["content"@]);
        let og_images = first_column(
            &select_attributes(html, "meta[property=\"og:image\"]", &meta_names),
        );
        let image_names: Vec<&str> = vec!["src", "alt", "class", "id"];
        assert(name_views(image_names@) =~= seq!["src"@, "alt"@, "class"@, "id"@]);
        let image_rows = select_attributes(html, "img[src]", &image_names);
        let mut images: Vec<ImageTag> = Vec::new();
        let mut k: usize = 0;
        while k < image_rows.len()
            invariant
                k <= image_rows.len(),
                images@.len() == k,
                forall|j: int| 0 <= j < image_rows@.len() ==> #[trigger] image_rows@[j]@.len() == 4,
                forall|j: int|
                    0 <= j < k ==> (#[trigger] images@[j])@ == (ImageView {
                        src: attribute_view(image_rows@[j]@[0]),
                        alt: attribute_view(image_rows@[j]@[1]),
                        class: attribute_view(image_rows@[j]@[2]),
                        id: attribute_view(image_rows@[j]@[3]),
                    }),
            decreases image_rows.len() - k,
        {
            assert(image_rows@[k as int]@.len() == 4);
            let row = &image_rows[k];
            images.push(
                ImageTag {
                    src: copy_attribute(&row[0]),
                    alt: copy_attribute(&row[1]),
                    class: copy_attribute(&row[2]),
                    id: copy_attribute(&row[3]),
                },
            );
            k += 1;
        }
        let anchor_names: Vec<&str> = vec!["href"];
        assert(name_views(anchor_names@) =~= seq!["href"@]);
        let anchors = first_column(&select_attributes(html, "a[href]", &anchor_names));
        let r = HtmlDocument { links, og_images, images, anchors };
        assert(r@ =~= parsed_document(html@));
        r
    }
}

/// The parts of a page are what the selectors find in its text, element by
/// element and attribute by attribute.
pub proof fn law_parts_of_page(html: Seq<char>)
    ensures
        ({
            let page = parsed_document(html);
            let links = selected_attributes(html, "link[rel]"@, seq!["rel"@, "href"@]);
            let metas = selected_attributes(
                html,
                "meta[property=\"og:image\"]"@,
                seq!["content"@],
            );
            let images = selected_attributes(
                html,
                "img[src]"@,
                seq!["src"@, "alt"@, "class"@, "id"@],
            );
            let anchors = selected_attributes(html, "a[href]"@, seq!["href"@]);
            &&& page.links.len() == links.len() && forall|i: int|
                0 <= i < links.len() ==> (#[trigger] page.links[i]).rel == links[i][0]
                    && page.links[i].href == links[i][1]
            &&& page.og_images.len() == metas.len() && forall|i: int|
                0 <= i < metas.len() ==> #[trigger] page.og_images[i] == metas[i][0]
            &&& page.images.len() == images.len() && forall|i: int|
                0 <= i < images.len() ==> (#[trigger] page.images[i]).src == images[i][0]
                    && page.images[i].alt == images[i][1] && page.images[i].class == images[i][2]
                    && page.images[i].id == images[i][3]
            &&& page.anchors.len() == anchors.len() && forall|i: int|
                0 <= i < anchors.len() ==> #[trigger] page.anchors[i] == anchors[i][0]
        }),
{
}

} // verus!
