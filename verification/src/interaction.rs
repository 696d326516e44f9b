//! The text and the links of a page.

use hayro::hayro_syntax::object::{Array, Dict};
use hayro::hayro_syntax::Pdf;
use vstd::prelude::*;
use vstd::string::*;

use crate::links::{self, read_link, LinkDestination};
use crate::number::Single;
use crate::parameters::readable;
use crate::pdf::{
    self, array_entry, array_items, is_readable_document, next_dict, page_dict, page_ids, DeviceRect,
};
use crate::text::same_text;

verus! {

/// The edges of a rectangle on a page.
#[derive(Clone, Copy, Debug, PartialEq, Eq, Structural)]
pub struct PageRect {
    pub x0: Single,
    pub y0: Single,
    pub x1: Single,
    pub y1: Single,
}

impl PageRect {
    /// Whether the edges are equal as numbers.
    pub open spec fn equal(self, other: PageRect) -> bool {
        &&& self.x0.equal(other.x0)
        &&& self.y0.equal(other.y0)
        &&& self.x1.equal(other.x1)
        &&& self.y1.equal(other.y1)
    }

    /// Whether the edges are equal as numbers.
    pub fn is_equal(self, other: PageRect) -> (r: bool)
        ensures
            r == self.equal(other),
    {
        self.x0.is_equal(other.x0) && self.y0.is_equal(other.y0) && self.x1.is_equal(other.x1)
            && self.y1.is_equal(other.y1)
    }
}

impl DeviceRect {
    /// Whether all edges are finite.
    pub open spec fn finite(self) -> bool {
        &&& self.x0.finite()
        &&& self.y0.finite()
        &&& self.x1.finite()
        &&& self.y1.finite()
    }

    /// Whether all edges are finite.
    pub fn is_finite(self) -> (r: bool)
        ensures
            r == self.finite(),
    {
        self.x0.is_finite() && self.y0.is_finite() && self.x1.is_finite() && self.y1.is_finite()
    }
}

/// A piece of text on a page.
#[derive(Debug)]
pub struct TextGlyph {
    pub text: String,
    pub bounds: PageRect,
}

/// A link on a page.
#[derive(Debug)]
pub struct PageLink {
    pub bounds: PageRect,
    pub destination: LinkDestination,
}

/// The text and the links of a page.
#[derive(Debug)]
pub struct PageContent {
    pub glyphs: Vec<TextGlyph>,
    pub links: Vec<PageLink>,
}

/// The text that a glyph stands for.
#[derive(Debug)]
pub enum GlyphText {
    Char(char),
    Text(String),
}

impl GlyphText {
    /// The characters of the text.
    pub open spec fn chars(self) -> Seq<char> {
        match self {
            GlyphText::Char(c) => seq![c],
            GlyphText::Text(text) => text@,
        }
    }
}

/// A string of one character, `String::from`.
#[verifier::external_body]
fn char_text(c: char) -> (r: String)
    ensures
        r@ == seq![c],
{
    String::from(c)
}

/// Whether two glyphs show the same text at the same place.
pub open spec fn same_glyph(a: TextGlyph, b: TextGlyph) -> bool {
    &&& a.text@ == b.text@
    &&& a.bounds.equal(b.bounds)
}

/// No glyph repeats the one before it.
pub open spec fn without_repeats(glyphs: Seq<TextGlyph>) -> bool {
    forall|i: int, j: int|
        0 <= i && j == i + 1 && j < glyphs.len() ==> !same_glyph(
            #[trigger] glyphs[i],
            #[trigger] glyphs[j],
        )
}

/// The text that a glyph stands for, if it stands for some.
pub open spec fn text_of(unicode: Option<GlyphText>) -> Option<Seq<char>> {
    match unicode {
        Some(unicode) => Some(unicode.chars()),
        None => None,
    }
}

/// Whether adding a glyph leaves these glyphs. One that repeats the last one leaves no trace.
pub open spec fn added(before: Seq<TextGlyph>, glyph: TextGlyph, after: Seq<TextGlyph>) -> bool {
    after == if before.len() > 0 && same_glyph(before.last(), glyph) {
        before
    } else {
        before.push(glyph)
    }
}

/// Whether drawing a glyph with this text at this place can leave these glyphs. One without text, or
/// outside what numbers can express, leaves no trace, and so does one that repeats the last one.
pub open spec fn drawn<F: Fn(DeviceRect) -> PageRect>(
    before: Seq<TextGlyph>,
    text: Option<Seq<char>>,
    bounds: DeviceRect,
    to_page: F,
    after: Seq<TextGlyph>,
) -> bool {
    if text is None || !bounds.finite() {
        after == before
    } else {
        exists|glyph: TextGlyph|
            {
                &&& #[trigger] added(before, glyph, after)
                &&& call_ensures(to_page, (bounds,), glyph.bounds)
                &&& glyph.text@ == text->0
            }
    }
}

/// The glyphs of a page that was drawn so far.
#[derive(Debug)]
pub struct TextDevice {
    pub glyphs: Vec<TextGlyph>,
}

impl TextDevice {
    /// A device on which nothing was drawn.
    pub fn new() -> (device: TextDevice)
        ensures
            device.glyphs@ == Seq::<TextGlyph>::empty(),
            without_repeats(device.glyphs@),
    {
        TextDevice { glyphs: Vec::new() }
    }

    /// Adds a glyph, unless it repeats the last one: text that is filled and then stroked is drawn
    /// twice.
    pub fn add(&mut self, glyph: TextGlyph)
        ensures
            added(old(self).glyphs@, glyph, final(self).glyphs@),
            without_repeats(old(self).glyphs@) ==> without_repeats(final(self).glyphs@),
    {
        let count: usize = self.glyphs.len();
        if count > 0 {
            let last = &self.glyphs[count - 1];
            if same_text(last.text.as_str(), glyph.text.as_str()) && last.bounds.is_equal(
                glyph.bounds,
            ) {
                return;
            }
        }
        self.glyphs.push(glyph);
    }

    /// Draws a glyph. One without text, or outside what numbers can express, leaves no trace.
    /// `to_page` rounds the edges of its bounds.
    pub fn draw_glyph<F: Fn(DeviceRect) -> PageRect>(
        &mut self,
        unicode: Option<GlyphText>,
        bounds: DeviceRect,
        to_page: F,
    )
        requires
            bounds.finite() ==> call_requires(to_page, (bounds,)),
        ensures
            drawn(old(self).glyphs@, text_of(unicode), bounds, to_page, final(self).glyphs@),
            without_repeats(old(self).glyphs@) ==> without_repeats(final(self).glyphs@),
    {
        let unicode = match unicode {
            Some(unicode) => unicode,
            None => {
                return;
            },
        };
        if !bounds.is_finite() {
            return;
        }
        let text = match unicode {
            GlyphText::Char(c) => char_text(c),
            GlyphText::Text(text) => text,
        };
        let glyph = TextGlyph { text, bounds: to_page(bounds) };
        self.add(glyph);
    }
}

/// Drawing a glyph twice in a row leaves what drawing it once leaves, where the edges of its bounds
/// are rounded to the same numbers both times.
pub proof fn drawing_twice_is_drawing_once<F: Fn(DeviceRect) -> PageRect>(
    before: Seq<TextGlyph>,
    text: Option<Seq<char>>,
    bounds: DeviceRect,
    to_page: F,
    once: Seq<TextGlyph>,
    twice: Seq<TextGlyph>,
)
    requires
        drawn(before, text, bounds, to_page, once),
        drawn(once, text, bounds, to_page, twice),
        forall|a: PageRect, b: PageRect| #[trigger]
            call_ensures(to_page, (bounds,), a) && #[trigger] call_ensures(to_page, (bounds,), b)
                ==> a.equal(b),
    ensures
        twice == once,
{
    if text is Some && bounds.finite() {
        let first = choose|glyph: TextGlyph|
            {
                &&& #[trigger] added(before, glyph, once)
                &&& call_ensures(to_page, (bounds,), glyph.bounds)
                &&& glyph.text@ == text->0
            };
        let second = choose|glyph: TextGlyph|
            {
                &&& #[trigger] added(once, glyph, twice)
                &&& call_ensures(to_page, (bounds,), glyph.bounds)
                &&& glyph.text@ == text->0
            };
        assert(first.bounds.equal(second.bounds));
        assert(same_glyph(once.last(), second));
    }
}

/// A glyph is added behind the others whenever the last one has another text or differs from it in any
/// of the four edges, and leaves no trace where the last one has the same text and the same edges.
pub proof fn only_repetitions_leave_no_trace(
    before: Seq<TextGlyph>,
    glyph: TextGlyph,
    after: Seq<TextGlyph>,
)
    requires
        added(before, glyph, after),
    ensures
        before.len() == 0 ==> after == before.push(glyph),
        before.len() > 0 ==> {
            let last = before.last();
            &&& last.text@ != glyph.text@ ==> after == before.push(glyph)
            &&& !last.bounds.x0.equal(glyph.bounds.x0) ==> after == before.push(glyph)
            &&& !last.bounds.y0.equal(glyph.bounds.y0) ==> after == before.push(glyph)
            &&& !last.bounds.x1.equal(glyph.bounds.x1) ==> after == before.push(glyph)
            &&& !last.bounds.y1.equal(glyph.bounds.y1) ==> after == before.push(glyph)
            &&& last.text@ == glyph.text@ && last.bounds.x0.equal(glyph.bounds.x0)
                && last.bounds.y0.equal(glyph.bounds.y0) && last.bounds.x1.equal(glyph.bounds.x1)
                && last.bounds.y1.equal(glyph.bounds.y1) ==> after == before
        },
{
}

/// Text that is drawn is kept: a glyph with text and finite bounds becomes the last one, with its
/// text and its rounded bounds, unless the rounded bounds are in all four edges those of the last
/// one, and its text is that of the last one.
pub proof fn drawn_text_is_kept<F: Fn(DeviceRect) -> PageRect>(
    before: Seq<TextGlyph>,
    text: Seq<char>,
    bounds: DeviceRect,
    to_page: F,
    after: Seq<TextGlyph>,
)
    requires
        drawn(before, Some(text), bounds, to_page, after),
        bounds.x0.finite() && bounds.y0.finite() && bounds.x1.finite() && bounds.y1.finite(),
        before.len() > 0 && before.last().text@ == text ==> forall|rounded: PageRect| #[trigger]
            call_ensures(to_page, (bounds,), rounded) ==> {
                let last = before.last().bounds;
                ||| !last.x0.equal(rounded.x0)
                ||| !last.y0.equal(rounded.y0)
                ||| !last.x1.equal(rounded.x1)
                ||| !last.y1.equal(rounded.y1)
            },
    ensures
        after.len() == before.len() + 1,
        after.drop_last() == before,
        after.last().text@ == text,
        call_ensures(to_page, (bounds,), after.last().bounds),
{
    let glyph = choose|glyph: TextGlyph|
        {
            &&& #[trigger] added(before, glyph, after)
            &&& call_ensures(to_page, (bounds,), glyph.bounds)
            &&& glyph.text@ == text
        };
    only_repetitions_leave_no_trace(before, glyph, after);
    assert(after == before.push(glyph));
    assert(before.push(glyph).drop_last() =~= before);
}

/// What has no text, or an edge that is not finite, is not kept.
pub proof fn unreadable_glyphs_are_not_kept<F: Fn(DeviceRect) -> PageRect>(
    before: Seq<TextGlyph>,
    text: Option<Seq<char>>,
    bounds: DeviceRect,
    to_page: F,
    after: Seq<TextGlyph>,
)
    requires
        drawn(before, text, bounds, to_page, after),
        text is None || !bounds.x0.finite() || !bounds.y0.finite() || !bounds.x1.finite()
            || !bounds.y1.finite(),
    ensures
        after == before,
{
}

/// The text of a glyph is all of its characters, in order.
pub proof fn glyphs_stand_for_their_characters(c: char, text: String)
    ensures
        text_of(Some(GlyphText::Char(c))) == Some(seq![c]),
        text_of(Some(GlyphText::Text(text))) == Some(text@),
        text_of(None) is None,
{
}

/// The links among the readings of annotations, with their places rounded, in order: `links` has one
/// for each reading that is a link.
pub open spec fn links_of<F: Fn(DeviceRect) -> PageRect>(
    readings: Seq<Option<links::LinkReading>>,
    to_page: F,
    links: Seq<PageLink>,
) -> bool
    decreases readings.len(),
{
    if readings.len() == 0 {
        links.len() == 0
    } else {
        match readings.last() {
            None => links_of(readings.drop_last(), to_page, links),
            Some(reading) => {
                &&& links.len() > 0
                &&& links.last().destination@ == reading.destination
                &&& call_ensures(to_page, (reading.bounds,), links.last().bounds)
                &&& links_of(readings.drop_last(), to_page, links.drop_last())
            },
        }
    }
}

/// Whether reading a list of annotations of the page `index` can give these links.
pub open spec fn reads_annotations(
    document: &Pdf,
    index: int,
    annotations: Seq<Dict<'_>>,
    readings: Seq<Option<links::LinkReading>>,
) -> bool {
    &&& readings.len() == annotations.len()
    &&& forall|i: int|
        0 <= i < annotations.len() ==> links::reads_link(
            document,
            index,
            annotations[i],
            #[trigger] readings[i],
        )
}

/// Whether reading the page `index` can give these links.
pub open spec fn reads_links<F: Fn(DeviceRect) -> PageRect>(
    document: &Pdf,
    index: int,
    to_page: F,
    links: Seq<PageLink>,
) -> bool {
    exists|array: Option<Array<'_>>| #[trigger]
        pdf::dict_arrays(pdf::document_dicts(document)[index]).contains(
            ("Annots".spec_bytes(), array),
        ) && match array {
            None => links.len() == 0,
            Some(array) => exists|
                annotations: Seq<Dict<'_>>,
                readings: Seq<Option<links::LinkReading>>,
            |
                {
                    &&& links::reads_dicts(pdf::array_start(array), annotations)
                    &&& #[trigger] reads_annotations(document, index, annotations, readings)
                    &&& links_of(readings, to_page, links)
                },
        }
}

/// Whether this is what can be found on a page, where `device` is what was drawn when the page was
/// interpreted. A page that the document does not have is empty.
pub open spec fn shows<F: Fn(DeviceRect) -> PageRect>(
    document: &Pdf,
    page_index: int,
    device: TextDevice,
    to_page: F,
    content: PageContent,
) -> bool {
    if page_index >= pdf::document_sizes(document).len() {
        content.glyphs@.len() == 0 && content.links@.len() == 0
    } else {
        content.glyphs == device.glyphs && reads_links(
            document,
            page_index,
            to_page,
            content.links@,
        )
    }
}

/// Whether all links within a document lead to pages that it has.
pub open spec fn lead_to_pages(document: &Pdf, links: Seq<PageLink>) -> bool {
    forall|i: int|
        0 <= i < links.len() ==> ((#[trigger] links[i]).destination matches LinkDestination::Page(
            page,
        ) ==> page < pdf::document_sizes(document).len())
}

/// The links of a page, together with the text that was drawn on `device` when the page was
/// interpreted. A page that the document does not have is empty. `to_page` rounds the edges of the
/// bounds of the links.
pub fn extract_page_content<F: Fn(DeviceRect) -> PageRect>(
    document: &Pdf,
    page_index: usize,
    device: TextDevice,
    to_page: F,
) -> (content: PageContent)
    requires
        readable(pdf::document_data(document)),
        forall|bounds: DeviceRect| #[trigger] call_requires(to_page, (bounds,)),
    ensures
        shows(document, page_index as int, device, to_page, content),
        lead_to_pages(document, content.links@),
{
    let ids = page_ids(document);
    if page_index >= ids.len() {
        return PageContent { glyphs: Vec::new(), links: Vec::new() };
    }
    let mut links: Vec<PageLink> = Vec::new();
    let array = array_entry(&page_dict(document, page_index), "Annots".as_bytes());
    let ghost read = array;
    proof {
        assert(pdf::dict_arrays(pdf::document_dicts(document)[page_index as int]).contains(
            ("Annots".spec_bytes(), read),
        ));
    }
    if let Some(array) = array {
        let mut items = array_items(&array);
        let ghost start = items;
        let ghost mut annotations = Seq::<Dict<'_>>::empty();
        let ghost mut readings = Seq::<Option<links::LinkReading>>::empty();
        let mut more = true;
        proof {
            links::lemma_reads_no_dict(start);
        }
        while more
            invariant
                page_index < pdf::document_sizes(document).len(),
                ids@.len() == pdf::document_sizes(document).len(),
                ids@ == pdf::page_objects(document),
                readable(pdf::document_data(document)),
                pdf::items_file(items) == pdf::document_data(document),
                start == pdf::array_start(array),
                forall|bounds: DeviceRect| #[trigger] call_requires(to_page, (bounds,)),
                more ==> links::continues_dicts(start, annotations, items),
                !more ==> links::reads_dicts(start, annotations),
                reads_annotations(document, page_index as int, annotations, readings),
                links_of(readings, to_page, links@),
                lead_to_pages(document, links@),
            decreases (if more { 1int } else { 0 }), pdf::unread_bytes(items),
        {
            let ghost before = items;
            match next_dict(&mut items) {
                Some(annotation) => {
                    let link = read_link(document, page_index, &ids, &annotation);
                    let ghost reading = links::reading_of(link);
                    let ghost known = links@;
                    if let Some((bounds, destination)) = link {
                        let rounded = to_page(bounds);
                        links.push(PageLink { bounds: rounded, destination });
                        proof {
                            assert(links@.drop_last() =~= known);
                        }
                    }
                    proof {
                        links::lemma_reads_dict(start, annotations, before, items, annotation);
                        let all = readings.push(reading);
                        assert(all.drop_last() =~= readings);
                        assert(all.last() == reading);
                        readings = all;
                        annotations = annotations.push(annotation);
                    }
                },
                None => {
                    proof {
                        links::lemma_reads_last_dict(start, annotations, before, items);
                    }
                    more = false;
                },
            }
        }
        proof {
            assert(reads_annotations(document, page_index as int, annotations, readings));
        }
    }
    PageContent { glyphs: device.glyphs, links }
}

/// The links and the text of a page, as far as the file of the document is one that can be read.
pub fn try_extract_page_content<F: Fn(DeviceRect) -> PageRect>(
    document: &Pdf,
    page_index: usize,
    device: TextDevice,
    to_page: F,
) -> (content: Option<PageContent>)
    requires
        forall|bounds: DeviceRect| #[trigger] call_requires(to_page, (bounds,)),
    ensures
        content is Some <==> readable(pdf::document_data(document)),
        content is Some ==> shows(document, page_index as int, device, to_page, content->0)
            && lead_to_pages(document, content->0.links@),
{
    if is_readable_document(document) {
        Some(extract_page_content(document, page_index, device, to_page))
    } else {
        None
    }
}

/// The test for an annotation that was read as a link.
pub open spec fn is_link() -> spec_fn(Option<links::LinkReading>) -> bool {
    |reading: Option<links::LinkReading>| reading is Some
}

/// Every annotation that is read as a link gives one link, with its destination and its rounded
/// bounds, in the order of the annotations, and nothing else gives any.
pub proof fn every_link_is_kept_in_order<F: Fn(DeviceRect) -> PageRect>(
    readings: Seq<Option<links::LinkReading>>,
    to_page: F,
    links: Seq<PageLink>,
)
    requires
        links_of(readings, to_page, links),
    ensures
        links.len() == readings.filter(is_link()).len(),
        forall|k: int|
            0 <= k < links.len() ==> {
                let reading = readings.filter(is_link())[k];
                &&& reading is Some
                &&& (#[trigger] links[k]).destination@ == reading->0.destination
                &&& call_ensures(to_page, (reading->0.bounds,), links[k].bounds)
            },
    decreases readings.len(),
{
    reveal(Seq::filter);
    if readings.len() > 0 {
        let front = readings.drop_last();
        match readings.last() {
            None => {
                every_link_is_kept_in_order(front, to_page, links);
            },
            Some(reading) => {
                every_link_is_kept_in_order(front, to_page, links.drop_last());
                let kept = front.filter(is_link());
                assert(readings.filter(is_link()) == kept.push(readings.last()));
                assert forall|k: int| 0 <= k < links.len() implies {
                    let reading = readings.filter(is_link())[k];
                    &&& reading is Some
                    &&& (#[trigger] links[k]).destination@ == reading->0.destination
                    &&& call_ensures(to_page, (reading->0.bounds,), links[k].bounds)
                } by {
                    if k < kept.len() {
                        assert(links[k] == links.drop_last()[k]);
                    }
                }
            },
        }
    }
}

/// A page that the document does not have shows nothing; any other shows the text that was drawn on
/// it.
pub proof fn pages_show_their_text<F: Fn(DeviceRect) -> PageRect>(
    document: &Pdf,
    page_index: int,
    device: TextDevice,
    to_page: F,
    content: PageContent,
)
    requires
        shows(document, page_index, device, to_page, content),
    ensures
        page_index < pdf::document_sizes(document).len() ==> content.glyphs@ == device.glyphs@,
        page_index >= pdf::document_sizes(document).len() ==> content.glyphs@.len() == 0
            && content.links@.len() == 0,
{
}

/// The links of a page are read from its annotations, all of them and in their order. A page without
/// annotations has no links.
pub proof fn links_are_read_from_the_annotations<F: Fn(DeviceRect) -> PageRect>(
    document: &Pdf,
    index: int,
    array: Option<Array<'_>>,
    annotations: Seq<Dict<'_>>,
    to_page: F,
    links: Seq<PageLink>,
)
    requires
        reads_links(document, index, to_page, links),
        links::reads_only(
            pdf::dict_arrays(pdf::document_dicts(document)[index]),
            "Annots".spec_bytes(),
            array,
        ),
        array is Some ==> links::reads_only_dicts(pdf::array_start(array->0), annotations),
    ensures
        array is None ==> links.len() == 0,
        array is Some ==> exists|readings: Seq<Option<links::LinkReading>>|
            {
                &&& readings.len() == annotations.len()
                &&& forall|i: int|
                    0 <= i < annotations.len() ==> links::reads_link(
                        document,
                        index,
                        annotations[i],
                        #[trigger] readings[i],
                    )
                &&& #[trigger] links_of(readings, to_page, links)
            },
{
    let read = choose|read: Option<Array<'_>>| #[trigger]
        pdf::dict_arrays(pdf::document_dicts(document)[index]).contains(
            ("Annots".spec_bytes(), read),
        ) && match read {
            None => links.len() == 0,
            Some(array) => exists|
                annotations: Seq<Dict<'_>>,
                readings: Seq<Option<links::LinkReading>>,
            |
                {
                    &&& links::reads_dicts(pdf::array_start(array), annotations)
                    &&& #[trigger] reads_annotations(document, index, annotations, readings)
                    &&& links_of(readings, to_page, links)
                },
        };
    assert(read == array);
    if let Some(array) = array {
        let (found, readings) = choose|
            annotations: Seq<Dict<'_>>,
            readings: Seq<Option<links::LinkReading>>,
        |
            {
                &&& links::reads_dicts(pdf::array_start(array), annotations)
                &&& #[trigger] reads_annotations(document, index, annotations, readings)
                &&& links_of(readings, to_page, links)
            };
        links::lemma_reads_dicts(pdf::array_start(array), annotations, found);
        assert(links_of(readings, to_page, links));
    }
}

/// Where no glyph repeats the one before it, two neighbours differ in their text or in one of their
/// edges.
pub proof fn neighbours_differ(glyphs: Seq<TextGlyph>, i: int)
    requires
        without_repeats(glyphs),
        0 <= i < glyphs.len() - 1,
    ensures
        ({
            let (a, b) = (glyphs[i], glyphs[i + 1]);
            ||| a.text@ != b.text@
            ||| !a.bounds.x0.equal(b.bounds.x0)
            ||| !a.bounds.y0.equal(b.bounds.y0)
            ||| !a.bounds.x1.equal(b.bounds.x1)
            ||| !a.bounds.y1.equal(b.bounds.y1)
        }),
{
    assert(!same_glyph(glyphs[i], glyphs[i + 1]));
}

/// A link within a document leads to one of its pages.
pub proof fn links_lead_to_pages_of_the_document(document: &Pdf, links: Seq<PageLink>, i: int)
    requires
        lead_to_pages(document, links),
        0 <= i < links.len(),
    ensures
        links[i].destination matches LinkDestination::Page(page) ==> page < pdf::document_sizes(
            document,
        ).len(),
{
}

} // verus!
