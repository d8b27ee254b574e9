//! Which addresses on a page may be those of logos.

use vstd::prelude::*;

use crate::document::{HtmlDocument, ImageTag, LinkTag};
#[allow(unused_imports)]
use crate::document::{DocumentView, ImageView, LinkView};
use crate::string_map::StringSet;
use crate::text::{contains_text, from_chars, to_chars, to_lowercase, trim_chars};
#[allow(unused_imports)]
use crate::{progress, text};

verus! {

/// The text of an attribute; that of an absent one is empty.
pub open spec fn attribute_text(a: Option<Seq<char>>) -> Seq<char> {
    match a {
        Some(s) => s,
        None => Seq::empty(),
    }
}

/// The text of an attribute without the white space around it, unless nothing is left.
pub open spec fn visible_text(a: Option<Seq<char>>) -> Option<Seq<char>> {
    if text::trim(attribute_text(a)).len() > 0 {
        Some(text::trim(attribute_text(a)))
    } else {
        None
    }
}

/// The address of an icon that a `link` element names, given its `rel`
/// attribute in lower case.
pub open spec fn icon_href_of(link: LinkView, lower_rel: Seq<char>) -> Option<Seq<char>> {
    if text::has_text(lower_rel, "icon"@) {
        visible_text(link.href)
    } else {
        None
    }
}

/// The texts in which the word for a logo may stand, with a space between each two.
pub open spec fn image_text(image: ImageView) -> Seq<char> {
    attribute_text(image.src) + " "@ + attribute_text(image.alt) + " "@ + attribute_text(
        image.class,
    ) + " "@ + attribute_text(image.id)
}

/// Whether an attribute, in lower case, speaks of a logo.
pub open spec fn speaks_of_logo(a: Option<Seq<char>>) -> bool {
    match a {
        Some(t) => text::has_text(text::lowercase(t), "logo"@),
        None => false,
    }
}

/// The address of a logo that an `img` element names: one of its attributes
/// speaks of it. The word has no space in it, so it does not span attributes.
pub open spec fn logo_of_image(image: ImageView) -> Option<Seq<char>> {
    if speaks_of_logo(image.src) || speaks_of_logo(image.alt) || speaks_of_logo(image.class)
        || speaks_of_logo(image.id) {
        visible_text(image.src)
    } else {
        None
    }
}

/// The address of a logo that an `img` element names, given the text of one of
/// its attributes, or of several, in lower case.
pub open spec fn logo_src_of(image: ImageView, lower_text: Seq<char>) -> Option<Seq<char>> {
    if text::has_text(lower_text, "logo"@) {
        visible_text(image.src)
    } else {
        None
    }
}

/// The addresses of the icons that `link` elements name, in their order.
pub open spec fn icon_links(links: Seq<LinkView>) -> Seq<Seq<char>>
    decreases links.len(),
{
    if links.len() == 0 {
        Seq::empty()
    } else {
        let before = icon_links(links.drop_last());
        let link = links.last();
        match link.rel {
            Some(rel) => match icon_href_of(link, text::lowercase(rel)) {
                Some(href) => before.push(href),
                None => before,
            },
            None => before,
        }
    }
}

/// The addresses that `meta` elements name, in their order.
pub open spec fn og_images(contents: Seq<Option<Seq<char>>>) -> Seq<Seq<char>>
    decreases contents.len(),
{
    if contents.len() == 0 {
        Seq::empty()
    } else {
        let before = og_images(contents.drop_last());
        match visible_text(contents.last()) {
            Some(content) => before.push(content),
            None => before,
        }
    }
}

/// The addresses of the logos that `img` elements name, in their order.
pub open spec fn logo_images(images: Seq<ImageView>) -> Seq<Seq<char>>
    decreases images.len(),
{
    if images.len() == 0 {
        Seq::empty()
    } else {
        let before = logo_images(images.drop_last());
        let image = images.last();
        match logo_of_image(image) {
            Some(src) => before.push(src),
            None => before,
        }
    }
}

/// `s` without what occurred in it before.
pub open spec fn keep_first(s: Seq<Seq<char>>) -> Seq<Seq<char>>
    decreases s.len(),
{
    if s.len() == 0 {
        Seq::empty()
    } else {
        let before = keep_first(s.drop_last());
        if before.contains(s.last()) {
            before
        } else {
            before.push(s.last())
        }
    }
}

/// The candidates on a page: icons, then `og:image`s, then images, each once.
pub open spec fn logo_candidates(document: DocumentView) -> Seq<Seq<char>> {
    keep_first(
        icon_links(document.links) + og_images(document.og_images) + logo_images(document.images),
    )
}

/// The text of an attribute.
fn text_of(a: &Option<String>) -> (r: String)
    ensures
        r@ == attribute_text(crate::document::attribute_view(*a)),
{
    match a {
        Some(s) => s.clone(),
        None => String::new(),
    }
}

/// The text of an attribute without the white space around it, unless nothing is left.
fn visible(a: &Option<String>) -> (r: Option<String>)
    ensures
        crate::document::attribute_view(r) == visible_text(crate::document::attribute_view(*a)),
{
    let all = to_chars(text_of(a).as_str());
    let chars = trim_chars(&all);
    if chars.len() > 0 {
        Some(from_chars(chars))
    } else {
        None
    }
}

/// The address of an icon that a `link` element names, given its `rel`
/// attribute in lower case.
pub fn icon_href(link: &LinkTag, lower_rel: &str) -> (r: Option<String>)
    ensures
        crate::document::attribute_view(r) == icon_href_of(link@, lower_rel@),
{
    let rel = to_chars(lower_rel);
    if contains_text(&rel, "icon") {
        visible(&link.href)
    } else {
        None
    }
}

/// The address of a logo that an `img` element names, given the text of one of
/// its attributes, or of several, in lower case.
pub fn logo_src(image: &ImageTag, lower_text: &str) -> (r: Option<String>)
    ensures
        crate::document::attribute_view(r) == logo_src_of(image@, lower_text@),
{
    let chars = to_chars(lower_text);
    if contains_text(&chars, "logo") {
        visible(&image.src)
    } else {
        None
    }
}

/// The addresses of the icons that `link` elements name.
pub fn find_icon_links(document: &HtmlDocument) -> (r: Vec<String>)
    ensures
        progress::string_views(r@) == icon_links(document@.links),
{
    let mut r: Vec<String> = Vec::new();
    let ghost links = document@.links;
    let mut i: usize = 0;
    assert(links.take(0) =~= Seq::empty());
    assert(progress::string_views(r@) =~= Seq::empty());
    while i < document.links.len()
        invariant
            i <= document.links.len(),
            links == document@.links,
            progress::string_views(r@) == icon_links(links.take(i as int)),
        decreases document.links.len() - i,
    {
        let link = &document.links[i];
        assert(links.take(i + 1).drop_last() =~= links.take(i as int));
        assert(links.take(i + 1).last() == link@);
        let ghost before = progress::string_views(r@);
        if let Some(rel) = &link.rel {
            let lower_rel = to_lowercase(rel.as_str());
            if let Some(href) = icon_href(link, lower_rel.as_str()) {
                r.push(href);
                assert(progress::string_views(r@) =~= before.push(href@));
            }
        }
        i += 1;
    }
    assert(links.take(i as int) =~= links);
    r
}

/// The addresses that `meta` elements with the property `og:image` name.
pub fn find_og_image(document: &HtmlDocument) -> (r: Vec<String>)
    ensures
        progress::string_views(r@) == og_images(document@.og_images),
{
    let mut r: Vec<String> = Vec::new();
    let ghost contents = document@.og_images;
    let mut i: usize = 0;
    assert(contents.take(0) =~= Seq::empty());
    assert(progress::string_views(r@) =~= Seq::empty());
    while i < document.og_images.len()
        invariant
            i <= document.og_images.len(),
            contents == document@.og_images,
            progress::string_views(r@) == og_images(contents.take(i as int)),
        decreases document.og_images.len() - i,
    {
        let content = &document.og_images[i];
        assert(contents.take(i + 1).drop_last() =~= contents.take(i as int));
        assert(contents.take(i + 1).last() == crate::document::attribute_view(*content));
        let ghost before = progress::string_views(r@);
        if let Some(url) = visible(content) {
            r.push(url);
            assert(progress::string_views(r@) =~= before.push(url@));
        }
        i += 1;
    }
    assert(contents.take(i as int) =~= contents);
    r
}

/// The address of a logo that an `img` element names, if the given attribute of
/// it speaks of it.
fn logo_by(image: &ImageTag, attribute: &Option<String>) -> (r: Option<String>)
    ensures
        crate::document::attribute_view(r) == (if speaks_of_logo(
            crate::document::attribute_view(*attribute),
        ) {
            visible_text(image@.src)
        } else {
            None
        }),
{
    match attribute {
        Some(t) => logo_src(image, to_lowercase(t.as_str()).as_str()),
        None => None,
    }
}

/// The address of a logo that an `img` element names, by the first of its
/// attributes that speaks of it.
fn image_logo(image: &ImageTag) -> (r: Option<String>)
    ensures
        crate::document::attribute_view(r) == logo_of_image(image@),
{
    let by_src = logo_by(image, &image.src);
    if by_src.is_some() {
        return by_src;
    }
    let by_alt = logo_by(image, &image.alt);
    if by_alt.is_some() {
        return by_alt;
    }
    let by_class = logo_by(image, &image.class);
    if by_class.is_some() {
        return by_class;
    }
    logo_by(image, &image.id)
}

/// The addresses of the images that speak of a logo in one of their attributes.
pub fn find_logo_images(document: &HtmlDocument) -> (r: Vec<String>)
    ensures
        progress::string_views(r@) == logo_images(document@.images),
{
    let mut r: Vec<String> = Vec::new();
    let ghost images = document@.images;
    let mut i: usize = 0;
    assert(images.take(0) =~= Seq::empty());
    assert(progress::string_views(r@) =~= Seq::empty());
    while i < document.images.len()
        invariant
            i <= document.images.len(),
            images == document@.images,
            progress::string_views(r@) == logo_images(images.take(i as int)),
        decreases document.images.len() - i,
    {
        let image = &document.images[i];
        assert(images.take(i + 1).drop_last() =~= images.take(i as int));
        assert(images.take(i + 1).last() == image@);
        let ghost before = progress::string_views(r@);
        if let Some(src) = image_logo(image) {
            r.push(src);
            assert(progress::string_views(r@) =~= before.push(src@));
        }
        i += 1;
    }
    assert(images.take(i as int) =~= images);
    r
}

/// Drops what occurred before.
pub fn without_repeats(v: Vec<String>) -> (r: Vec<String>)
    ensures
        progress::string_views(r@) == keep_first(progress::string_views(v@)),
{
    let mut r: Vec<String> = Vec::new();
    let mut seen = StringSet::new();
    let ghost views = progress::string_views(v@);
    assert(views.take(0) =~= Seq::empty());
    assert(progress::string_views(r@) =~= Seq::empty());
    let mut i: usize = 0;
    while i < v.len()
        invariant
            i <= v.len(),
            views == progress::string_views(v@),
            seen.wf(),
            progress::string_views(r@) == keep_first(views.take(i as int)),
            forall|x: Seq<char>| #[trigger] seen@.contains(x) <==> progress::string_views(r@).contains(x),
        decreases v.len() - i,
    {
        let item = v[i].clone();
        assert(views.take(i + 1).drop_last() =~= views.take(i as int));
        assert(views.take(i + 1).last() == item@);
        let ghost before = progress::string_views(r@);
        if seen.insert(item.clone()) {
            r.push(item);
            proof {
                let after = progress::string_views(r@);
                assert(after =~= before.push(item@));
                assert forall|x: Seq<char>| #[trigger] seen@.contains(x) <==> after.contains(x) by {
                    if x == item@ {
                        assert(after[before.len() as int] == x);
                    } else if before.contains(x) {
                        let j = choose|j: int| 0 <= j < before.len() && before[j] == x;
                        assert(after[j] == x);
                    } else if after.contains(x) {
                        let j = choose|j: int| 0 <= j < after.len() && after[j] == x;
                        assert(before[j] == x);
                    }
                }
            }
        }
        i += 1;
    }
    assert(views.take(i as int) =~= views);
    r
}

/// Finds the logo candidates on a page, in the order of their priority:
/// `link` elements for icons, `meta` elements with the property `og:image`,
/// `img` elements that speak of a logo.
pub fn find_logo_candidates(document: &HtmlDocument) -> (r: Vec<String>)
    ensures
        progress::string_views(r@) == logo_candidates(document@),
{
    let mut all = find_icon_links(document);
    let mut og = find_og_image(document);
    let mut images = find_logo_images(document);
    let ghost a = progress::string_views(all@);
    let ghost b = progress::string_views(og@);
    let ghost c = progress::string_views(images@);
    all.append(&mut og);
    all.append(&mut images);
    assert(progress::string_views(all@) =~= a + b + c);
    without_repeats(all)
}

/// Nothing is kept twice.
pub proof fn law_kept_are_distinct(s: Seq<Seq<char>>)
    ensures
        keep_first(s).no_duplicates(),
    decreases s.len(),
{
    if s.len() > 0 {
        law_kept_are_distinct(s.drop_last());
        let before = keep_first(s.drop_last());
        if !before.contains(s.last()) {
            assert forall|i: int| 0 <= i < before.len() implies before[i] != s.last() by {
                assert(before.contains(before[i]));
            }
        }
    }
}

/// Everything is kept once, and nothing is added.
pub proof fn law_all_are_kept(s: Seq<Seq<char>>, x: Seq<char>)
    ensures
        keep_first(s).contains(x) <==> s.contains(x),
    decreases s.len(),
{
    if s.len() > 0 {
        let t = s.drop_last();
        law_all_are_kept(t, x);
        let before = keep_first(t);
        let after = keep_first(s);
        if before.contains(x) {
            let i = choose|i: int| 0 <= i < before.len() && before[i] == x;
            assert(after[i] == x);
        }
        if t.contains(x) {
            let i = choose|i: int| 0 <= i < t.len() && t[i] == x;
            assert(s[i] == x);
        }
        if x == s.last() {
            assert(s[s.len() - 1] == x);
            if !before.contains(x) {
                assert(after[before.len() as int] == x);
            }
        } else {
            if after.contains(x) {
                let i = choose|i: int| 0 <= i < after.len() && after[i] == x;
                if i < before.len() {
                    assert(before[i] == x);
                }
            }
            if s.contains(x) {
                let i = choose|i: int| 0 <= i < s.len() && s[i] == x;
                assert(t[i] == x);
            }
        }
    }
}

/// What comes first is kept first: more at the end changes nothing before it.
pub proof fn law_earlier_come_first(s: Seq<Seq<char>>, more: Seq<Seq<char>>)
    ensures
        keep_first(s).is_prefix_of(keep_first(s + more)),
    decreases more.len(),
{
    if more.len() == 0 {
        assert(s + more =~= s);
    } else {
        let all = s + more;
        assert(all.drop_last() =~= s + more.drop_last());
        law_earlier_come_first(s, more.drop_last());
        assert(keep_first(s) =~= keep_first(all).subrange(0, keep_first(s).len() as int));
    }
}

/// Icons come before `og:image`s, and these before images; no candidate comes
/// twice, and every address that is found is a candidate.
pub proof fn law_candidates_by_priority(document: DocumentView)
    ensures
        ({
            let icons = icon_links(document.links);
            let og = og_images(document.og_images);
            let images = logo_images(document.images);
            let all = logo_candidates(document);
            &&& keep_first(icons).is_prefix_of(keep_first(icons + og))
            &&& keep_first(icons + og).is_prefix_of(all)
            &&& all.no_duplicates()
            &&& forall|x: Seq<char>| #[trigger]
                all.contains(x) <==> icons.contains(x) || og.contains(x) || images.contains(x)
        }),
{
    let icons = icon_links(document.links);
    let og = og_images(document.og_images);
    let images = logo_images(document.images);
    let chain = icons + og + images;
    let all = logo_candidates(document);
    law_earlier_come_first(icons, og);
    law_earlier_come_first(icons + og, images);
    law_kept_are_distinct(chain);
    assert forall|x: Seq<char>| #[trigger] all.contains(x) <==> icons.contains(x) || og.contains(x)
        || images.contains(x) by {
        law_all_are_kept(chain, x);
        if icons.contains(x) {
            let i = choose|i: int| 0 <= i < icons.len() && icons[i] == x;
            assert(chain[i] == x);
        }
        if og.contains(x) {
            let i = choose|i: int| 0 <= i < og.len() && og[i] == x;
            assert(chain[icons.len() + i] == x);
        }
        if images.contains(x) {
            let i = choose|i: int| 0 <= i < images.len() && images[i] == x;
            assert(chain[icons.len() + og.len() + i] == x);
        }
        if chain.contains(x) {
            let i = choose|i: int| 0 <= i < chain.len() && chain[i] == x;
            if i < icons.len() {
                assert(icons[i] == x);
            } else if i < icons.len() + og.len() {
                assert(og[i - icons.len()] == x);
            } else {
                assert(images[i - icons.len() - og.len()] == x);
            }
        }
    }
}

/// Whether a text is not empty, and has no white space at its ends.
pub open spec fn is_visible(t: Seq<char>) -> bool {
    t.len() > 0 && !text::is_white_space(t[0]) && !text::is_white_space(t.last())
}

proof fn lemma_visible_text(a: Option<Seq<char>>)
    ensures
        visible_text(a) matches Some(t) ==> is_visible(t),
{
    text::lemma_trim_ends(attribute_text(a));
}

proof fn lemma_icons_are_visible(links: Seq<LinkView>, x: Seq<char>)
    requires
        icon_links(links).contains(x),
    ensures
        is_visible(x),
    decreases links.len(),
{
    if links.len() > 0 {
        let before = icon_links(links.drop_last());
        lemma_visible_text(links.last().href);
        if before.contains(x) {
            lemma_icons_are_visible(links.drop_last(), x);
        } else {
            let i = choose|i: int| 0 <= i < icon_links(links).len() && icon_links(links)[i] == x;
            assert(i < before.len() ==> before[i] == x);
        }
    }
}

proof fn lemma_og_images_are_visible(contents: Seq<Option<Seq<char>>>, x: Seq<char>)
    requires
        og_images(contents).contains(x),
    ensures
        is_visible(x),
    decreases contents.len(),
{
    if contents.len() > 0 {
        let before = og_images(contents.drop_last());
        lemma_visible_text(contents.last());
        if before.contains(x) {
            lemma_og_images_are_visible(contents.drop_last(), x);
        } else {
            let i = choose|i: int|
                0 <= i < og_images(contents).len() && og_images(contents)[i] == x;
            assert(i < before.len() ==> before[i] == x);
        }
    }
}

proof fn lemma_images_are_visible(images: Seq<ImageView>, x: Seq<char>)
    requires
        logo_images(images).contains(x),
    ensures
        is_visible(x),
    decreases images.len(),
{
    if images.len() > 0 {
        let before = logo_images(images.drop_last());
        lemma_visible_text(images.last().src);
        if before.contains(x) {
            lemma_images_are_visible(images.drop_last(), x);
        } else {
            let i = choose|i: int|
                0 <= i < logo_images(images).len() && logo_images(images)[i] == x;
            assert(i < before.len() ==> before[i] == x);
        }
    }
}

/// No candidate is empty or has white space at its ends.
pub proof fn law_candidates_are_visible(document: DocumentView, candidate: Seq<char>)
    requires
        logo_candidates(document).contains(candidate),
    ensures
        is_visible(candidate),
{
    law_candidates_by_priority(document);
    if icon_links(document.links).contains(candidate) {
        lemma_icons_are_visible(document.links, candidate);
    } else if og_images(document.og_images).contains(candidate) {
        lemma_og_images_are_visible(document.og_images, candidate);
    } else {
        lemma_images_are_visible(document.images, candidate);
    }
}

/// What is found among two lists of elements is what is found among the first,
/// then what is found among the second.
pub proof fn law_icons_keep_their_order(a: Seq<LinkView>, b: Seq<LinkView>)
    ensures
        icon_links(a + b) == icon_links(a) + icon_links(b),
    decreases b.len(),
{
    if b.len() == 0 {
        assert(a + b =~= a);
        assert(icon_links(a) + icon_links(b) =~= icon_links(a));
    } else {
        law_icons_keep_their_order(a, b.drop_last());
        assert((a + b).drop_last() =~= a + b.drop_last());
        assert(icon_links(a + b) =~= icon_links(a) + icon_links(b));
    }
}

/// What is found among two lists of elements is what is found among the first,
/// then what is found among the second.
pub proof fn law_og_images_keep_their_order(
    a: Seq<Option<Seq<char>>>,
    b: Seq<Option<Seq<char>>>,
)
    ensures
        og_images(a + b) == og_images(a) + og_images(b),
    decreases b.len(),
{
    if b.len() == 0 {
        assert(a + b =~= a);
        assert(og_images(a) + og_images(b) =~= og_images(a));
    } else {
        law_og_images_keep_their_order(a, b.drop_last());
        assert((a + b).drop_last() =~= a + b.drop_last());
        assert(og_images(a + b) =~= og_images(a) + og_images(b));
    }
}

/// What is found among two lists of elements is what is found among the first,
/// then what is found among the second.
pub proof fn law_images_keep_their_order(a: Seq<ImageView>, b: Seq<ImageView>)
    ensures
        logo_images(a + b) == logo_images(a) + logo_images(b),
    decreases b.len(),
{
    if b.len() == 0 {
        assert(a + b =~= a);
        assert(logo_images(a) + logo_images(b) =~= logo_images(a));
    } else {
        law_images_keep_their_order(a, b.drop_last());
        assert((a + b).drop_last() =~= a + b.drop_last());
        assert(logo_images(a + b) =~= logo_images(a) + logo_images(b));
    }
}

/// Whether an attribute is there, and has a word in it when in lower case.
pub open spec fn has_word(a: Option<Seq<char>>, word: Seq<char>) -> bool {
    a matches Some(t) && text::has_text(text::lowercase(t), word)
}

/// The text that is left of an attribute without the white space around it: as
/// the only address, or none if nothing is left.
pub open spec fn address(a: Option<Seq<char>>) -> Seq<Seq<char>> {
    match a {
        Some(t) => if text::trim(t).len() > 0 {
            seq![text::trim(t)]
        } else {
            seq![]
        },
        None => seq![],
    }
}

proof fn lemma_address(a: Option<Seq<char>>)
    ensures
        address(a) == (match visible_text(a) {
            Some(t) => seq![t],
            None => seq![],
        }),
{
    if a is None {
        assert(Seq::<char>::empty() + Seq::empty() + Seq::empty() =~= Seq::<char>::empty());
        text::law_white_space_is_trimmed(Seq::empty(), Seq::empty(), Seq::empty());
    }
}

/// A `link` element names an icon exactly if its relation, whatever the case of
/// its letters, has the word in it; the address is that of its link.
pub proof fn law_icon_by_relation(link: LinkView)
    ensures
        icon_links(seq![link]) == (if has_word(link.rel, "icon"@) {
            address(link.href)
        } else {
            seq![]
        }),
{
    lemma_address(link.href);
    let one = seq![link];
    assert(one.drop_last() =~= Seq::empty());
    assert(icon_links(one.drop_last()) =~= Seq::empty());
    assert(icon_links(one) =~= (if has_word(link.rel, "icon"@) {
        address(link.href)
    } else {
        seq![]
    }));
}

/// A `meta` element names the address that its content is.
pub proof fn law_og_image_by_content(content: Option<Seq<char>>)
    ensures
        og_images(seq![content]) == address(content),
{
    lemma_address(content);
    let one = seq![content];
    assert(one.drop_last() =~= Seq::empty());
    assert(og_images(one.drop_last()) =~= Seq::empty());
    assert(og_images(one) =~= address(content));
}

/// An image names its source exactly if it speaks of a logo in its source, its
/// alternative text, its class or its identifier, whatever the case of the
/// letters.
pub proof fn law_logo_by_any_attribute(image: ImageView)
    ensures
        logo_images(seq![image]) == (if has_word(image.src, "logo"@) || has_word(
            image.alt,
            "logo"@,
        ) || has_word(image.class, "logo"@) || has_word(image.id, "logo"@) {
            address(image.src)
        } else {
            seq![]
        }),
{
    lemma_address(image.src);
    lemma_one_image(image);
}

proof fn lemma_one_image(image: ImageView)
    ensures
        logo_images(seq![image]) == (match logo_of_image(image) {
            Some(t) => seq![t],
            None => seq![],
        }),
{
    let one = seq![image];
    assert(one.drop_last() =~= Seq::empty());
    assert(logo_images(one.drop_last()) =~= Seq::empty());
    assert(logo_images(one) =~= (match logo_of_image(image) {
        Some(t) => seq![t],
        None => seq![],
    }));
}

proof fn lemma_image_among(images: Seq<ImageView>, i: int, x: Seq<char>)
    requires
        0 <= i < images.len(),
        logo_images(seq![images[i]]).contains(x),
    ensures
        logo_images(images).contains(x),
{
    let a = images.take(i);
    let b = seq![images[i]];
    let c = images.skip(i + 1);
    assert(images =~= a + b + c);
    law_images_keep_their_order(a + b, c);
    law_images_keep_their_order(a, b);
    let some = logo_images(b);
    let j = choose|j: int| 0 <= j < some.len() && some[j] == x;
    assert(logo_images(images)[logo_images(a).len() + j] == x);
}

proof fn lemma_icon_among(links: Seq<LinkView>, i: int, x: Seq<char>)
    requires
        0 <= i < links.len(),
        icon_links(seq![links[i]]).contains(x),
    ensures
        icon_links(links).contains(x),
{
    let a = links.take(i);
    let b = seq![links[i]];
    let c = links.skip(i + 1);
    assert(links =~= a + b + c);
    law_icons_keep_their_order(a + b, c);
    law_icons_keep_their_order(a, b);
    let some = icon_links(b);
    let j = choose|j: int| 0 <= j < some.len() && some[j] == x;
    assert(icon_links(links)[icon_links(a).len() + j] == x);
}

proof fn lemma_og_image_among(contents: Seq<Option<Seq<char>>>, i: int, x: Seq<char>)
    requires
        0 <= i < contents.len(),
        og_images(seq![contents[i]]).contains(x),
    ensures
        og_images(contents).contains(x),
{
    let a = contents.take(i);
    let b = seq![contents[i]];
    let c = contents.skip(i + 1);
    assert(contents =~= a + b + c);
    law_og_images_keep_their_order(a + b, c);
    law_og_images_keep_their_order(a, b);
    let some = og_images(b);
    let j = choose|j: int| 0 <= j < some.len() && some[j] == x;
    assert(og_images(contents)[og_images(a).len() + j] == x);
}

/// Every image of a page with a visible source is a candidate if its source,
/// its alternative text, its class or its identifier speaks of a logo.
pub proof fn law_images_of_logos_are_candidates(document: DocumentView, i: int, src: Seq<char>)
    requires
        0 <= i < document.images.len(),
        document.images[i].src == Some(src),
        text::trim(src).len() > 0,
        has_word(document.images[i].src, "logo"@) || has_word(document.images[i].alt, "logo"@)
            || has_word(document.images[i].class, "logo"@) || has_word(
            document.images[i].id,
            "logo"@,
        ),
    ensures
        logo_candidates(document).contains(text::trim(src)),
{
    let image = document.images[i];
    let x = text::trim(src);
    law_logo_by_any_attribute(image);
    assert(logo_images(seq![image])[0] == x);
    lemma_image_among(document.images, i, x);
    law_candidates_by_priority(document);
}

/// Every icon and every `og:image` that a page names is a candidate.
pub proof fn law_icons_and_og_images_are_candidates(document: DocumentView, i: int, t: Seq<char>)
    requires
        text::trim(t).len() > 0,
    ensures
        0 <= i < document.links.len() && document.links[i].href == Some(t) && has_word(
            document.links[i].rel,
            "icon"@,
        ) ==> logo_candidates(document).contains(text::trim(t)),
        0 <= i < document.og_images.len() && document.og_images[i] == Some(t)
            ==> logo_candidates(document).contains(text::trim(t)),
{
    let x = text::trim(t);
    law_candidates_by_priority(document);
    if 0 <= i < document.links.len() && document.links[i].href == Some(t) && has_word(
        document.links[i].rel,
        "icon"@,
    ) {
        law_icon_by_relation(document.links[i]);
        assert(icon_links(seq![document.links[i]])[0] == x);
        lemma_icon_among(document.links, i, x);
    }
    if 0 <= i < document.og_images.len() && document.og_images[i] == Some(t) {
        law_og_image_by_content(document.og_images[i]);
        assert(og_images(seq![document.og_images[i]])[0] == x);
        lemma_og_image_among(document.og_images, i, x);
    }
}

proof fn lemma_word_on_one_side(a: Seq<char>, b: Seq<char>, word: Seq<char>)
    requires
        word.len() > 0,
        !word.contains(' '),
    ensures
        text::has_text(a + " "@ + b, word) <==> text::has_text(a, word) || text::has_text(b, word),
{
    reveal_strlit(" ");
    let s = a + " "@ + b;
    let n = word.len() as int;
    if text::has_text(s, word) {
        let i = choose|i: int| 0 <= i && i + n <= s.len() && #[trigger] s.subrange(i, i + n) == word;
        if i + n <= a.len() {
            assert(a.subrange(i, i + n) =~= s.subrange(i, i + n));
        } else if i > a.len() {
            let j = i - a.len() - 1;
            assert(b.subrange(j, j + n) =~= s.subrange(i, i + n));
        } else {
            let k = a.len() - i;
            assert(s[a.len() as int] == ' ');
            assert(s.subrange(i, i + n)[k] == s[a.len() as int]);
            assert(word.contains(word[k]));
        }
    }
    if text::has_text(a, word) {
        let i = choose|i: int| 0 <= i && i + n <= a.len() && #[trigger] a.subrange(i, i + n) == word;
        assert(s.subrange(i, i + n) =~= a.subrange(i, i + n));
    }
    if text::has_text(b, word) {
        let j = choose|j: int| 0 <= j && j + n <= b.len() && #[trigger] b.subrange(j, j + n) == word;
        let i = a.len() + 1 + j;
        assert(s.subrange(i, i + n) =~= b.subrange(j, j + n));
    }
}

/// A word without a space stands in the attributes of an image, taken together,
/// exactly if it stands in one of them: it does not span two.
pub proof fn law_word_stands_in_one_attribute(image: ImageView, word: Seq<char>)
    requires
        word.len() > 0,
        !word.contains(' '),
    ensures
        text::has_text(image_text(image), word) <==> text::has_text(
            attribute_text(image.src),
            word,
        ) || text::has_text(attribute_text(image.alt), word) || text::has_text(
            attribute_text(image.class),
            word,
        ) || text::has_text(attribute_text(image.id), word),
{
    let src = attribute_text(image.src);
    let alt = attribute_text(image.alt);
    let class = attribute_text(image.class);
    lemma_word_on_one_side(src, alt, word);
    lemma_word_on_one_side(src + " "@ + alt, class, word);
    lemma_word_on_one_side(src + " "@ + alt + " "@ + class, attribute_text(image.id), word);
}

} // verus!
