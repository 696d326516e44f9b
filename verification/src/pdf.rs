//! What the crate takes from the PDF reader `hayro`.
//!
//! The calls are made as they stand, and the contracts of the functions that make them are believed.
//! A document repairs its cross-reference table the first time that a reference turns out to be
//! broken, and then answers from the repaired table. What is read through a reference can so
//! depend on what was read before. The names for such reads are sets: they hold all that the read
//! can give, and the contracts say no more than that the result is one of them.
//!
//! A read can come to a stream that has to be decompressed first, so that it is made only in a file
//! whose parameters the reader can use, see [`readable`]. Every part of a document knows its file.

use hayro::hayro_interpret::TransformExt;
use hayro::hayro_syntax::object::array::FlexArrayIter;
use hayro::hayro_syntax::object::{
    Array, Dict, FromBytes, Name, Object, Rect, Stream, String as PdfString,
};
use hayro::hayro_syntax::{LoadPdfError, Pdf};
use vstd::prelude::*;

use crate::number::Double;
use crate::parameters::{is_readable, is_stream, readable, stream_fails};

verus! {

/// A PDF document.
#[verifier::external_type_specification]
#[verifier::external_body]
pub struct ExPdf(Pdf);

/// A dictionary of a document.
#[verifier::external_type_specification]
#[verifier::external_body]
pub struct ExDict<'a>(Dict<'a>);

/// An array of a document.
#[verifier::external_type_specification]
#[verifier::external_body]
pub struct ExArray<'a>(Array<'a>);

/// A position in an array of a document.
#[verifier::external_type_specification]
#[verifier::external_body]
pub struct ExFlexArrayIter<'a>(FlexArrayIter<'a>);

/// A rectangle in the coordinates of a page.
#[verifier::external_type_specification]
#[verifier::external_body]
pub struct ExRect(Rect);

/// Why a file could not be read.
#[derive(Clone, Copy, Debug, PartialEq, Eq, Structural)]
pub enum LoadFailure {
    /// The file is encrypted, and could not be decrypted without a password.
    Decryption,
    /// The file is no PDF file, or is damaged.
    Invalid,
}

/// The number and the generation of an object of a document.
#[derive(Clone, Copy, Debug, PartialEq, Eq, Structural)]
pub struct ObjectId {
    pub number: u32,
    pub generation: i32,
}

/// The edges of a rectangle, in the coordinates in which a page is rendered.
#[derive(Clone, Copy, Debug, PartialEq, Eq, Structural)]
pub struct DeviceRect {
    pub x0: Double,
    pub y0: Double,
    pub x1: Double,
    pub y1: Double,
}

/// A value that an entry of a name tree can have.
pub enum NamedValue<'a> {
    Array(Array<'a>),
    Dict(Dict<'a>),
    /// Anything that is no destination.
    Other,
}

/// What `Pdf::new` can make of the bytes of a file: the width and height of each page, as the bits
/// of single-precision numbers, or the reason why there is no document. Where the tree of the pages
/// cannot be read, the pages are found by a walk over a hash map, and two entries of it that name the
/// same place are met in an order that depends on the machine.
pub uninterp spec fn parse_results(content: Seq<u8>) -> Set<
    Result<Seq<(u32, u32)>, LoadFailure>,
>;

/// The bytes of the file that a document was read from.
pub uninterp spec fn document_data(document: &Pdf) -> Seq<u8>;

/// The bytes of the file that a dictionary is a part of.
pub uninterp spec fn dict_file(dict: Dict<'_>) -> Seq<u8>;

/// The bytes of the file that an array is a part of.
pub uninterp spec fn array_file(array: Array<'_>) -> Seq<u8>;

/// The bytes of the file that a position is in.
pub uninterp spec fn items_file(items: FlexArrayIter<'_>) -> Seq<u8>;

/// The width and height of each page of a document, as the bits of single-precision numbers.
pub uninterp spec fn document_sizes(document: &Pdf) -> Seq<(u32, u32)>;

/// The dictionaries that describe the pages of a document.
pub uninterp spec fn document_dicts(document: &Pdf) -> Seq<Dict<'_>>;

/// The object that a dictionary is, where it is one.
pub uninterp spec fn dict_object(dict: Dict<'_>) -> Option<ObjectId>;

/// The dictionaries, if any, that the catalog of a document can be.
pub uninterp spec fn catalogs(document: &Pdf) -> Set<Option<Dict<'_>>>;

/// The keys of a dictionary, with the names that can be read under them.
pub uninterp spec fn dict_names(dict: Dict<'_>) -> Set<(Seq<u8>, Option<Seq<u8>>)>;

/// The keys of a dictionary, with the strings that can be read under them.
pub uninterp spec fn dict_strings(dict: Dict<'_>) -> Set<(Seq<u8>, Option<Seq<u8>>)>;

/// The keys of a dictionary, with the whole numbers that can be read under them.
pub uninterp spec fn dict_numbers(dict: Dict<'_>) -> Set<(Seq<u8>, Option<u32>)>;

/// The keys of a dictionary, with the rectangles that can be read under them.
pub uninterp spec fn dict_rects(dict: Dict<'_>) -> Set<(Seq<u8>, Option<Rect>)>;

/// The keys of a dictionary, with the dictionaries that can be read under them.
pub uninterp spec fn dict_dicts(dict: Dict<'_>) -> Set<(Seq<u8>, Option<Dict<'_>>)>;

/// The keys of a dictionary, with the arrays that can be read under them.
pub uninterp spec fn dict_arrays(dict: Dict<'_>) -> Set<(Seq<u8>, Option<Array<'_>>)>;

/// The position before the first item of an array.
pub uninterp spec fn array_start(array: Array<'_>) -> FlexArrayIter<'_>;

/// The strings that can be read at a position, with the position behind them.
pub uninterp spec fn strings_at(items: FlexArrayIter<'_>) -> Set<
    (Option<Seq<u8>>, FlexArrayIter<'_>),
>;

/// The dictionaries that can be read at a position, with the position behind them.
pub uninterp spec fn dicts_at(items: FlexArrayIter<'_>) -> Set<
    (Option<Dict<'_>>, FlexArrayIter<'_>),
>;

/// The values that can be read at a position, with the position behind them.
pub uninterp spec fn values_at(items: FlexArrayIter<'_>) -> Set<
    (Option<NamedValue<'_>>, FlexArrayIter<'_>),
>;

/// How many bytes of its array a position has still before it.
pub uninterp spec fn unread_bytes(items: FlexArrayIter<'_>) -> nat;

/// The rectangles, in the coordinates in which the page `index` of a document is rendered, that a
/// rectangle of that page can become.
pub uninterp spec fn device_rects(document: &Pdf, index: int, rect: Rect) -> Set<DeviceRect>;

/// The bytes, if there are any.
pub open spec fn bytes_of(bytes: Option<Vec<u8>>) -> Option<Seq<u8>> {
    match bytes {
        Some(bytes) => Some(bytes@),
        None => None,
    }
}

/// The objects that describe the pages of a document.
pub open spec fn page_objects(document: &Pdf) -> Seq<Option<ObjectId>> {
    Seq::new(document_dicts(document).len(), |i: int| dict_object(document_dicts(document)[i]))
}

/// Whether a value of a name tree is a part of this file.
pub open spec fn value_in(value: NamedValue<'_>, file: Seq<u8>) -> bool {
    match value {
        NamedValue::Array(array) => array_file(array) == file,
        NamedValue::Dict(dict) => dict_file(dict) == file,
        NamedValue::Other => true,
    }
}

/// The bytes, decompressed, of the stream that a file starts with, where there is one and it can be
/// decompressed without any other object.
pub uninterp spec fn stream_data(file: Seq<u8>) -> Option<Seq<u8>>;

/// Decompresses the stream that a file starts with, `Stream::from_bytes` and then
/// `Stream::decoded_data`. A stream that is read so belongs to no document: it has no other object
/// that it could refer to.
#[verifier::external_body]
pub(crate) fn decode_stream(file: &[u8]) -> (r: Option<Vec<u8>>)
    requires
        is_stream(file@),
        !stream_fails(file@),
    ensures
        bytes_of(r) == stream_data(file@),
{
    Stream::from_bytes(file)?.decoded_data().ok().map(|data| data.into_owned())
}

/// Reads a file with `Pdf::new`. The document keeps the bytes.
#[verifier::external_body]
pub(crate) fn parse(content: Vec<u8>) -> (r: Result<Pdf, LoadFailure>)
    requires
        readable(content@),
    ensures
        r is Ok ==> parse_results(content@).contains(Ok(document_sizes(&r->Ok_0))),
        r is Ok ==> document_data(&r->Ok_0) == content@,
        r is Err ==> parse_results(content@).contains(Err(r->Err_0)),
{
    Pdf::new(content).map_err(
        |error|
            match error {
                LoadPdfError::Decryption(_) => LoadFailure::Decryption,
                LoadPdfError::Invalid => LoadFailure::Invalid,
            },
    )
}

/// The bytes that a document was read from, `Pdf::data`.
#[verifier::external_body]
fn document_bytes(document: &Pdf) -> (r: &[u8])
    ensures
        r@ == document_data(document),
{
    document.data().as_ref()
}

/// Tells whether the file that a document was read from is one that the PDF reader can be given.
pub fn is_readable_document(document: &Pdf) -> (r: bool)
    ensures
        r == readable(document_data(document)),
{
    is_readable(document_bytes(document))
}

/// How many pages a document has, `Pdf::pages`. Each has a size and a dictionary.
#[verifier::external_body]
fn page_count(document: &Pdf) -> (r: usize)
    ensures
        r == document_sizes(document).len(),
        r == document_dicts(document).len(),
{
    document.pages().len()
}

/// The width and height of a page, `Page::render_dimensions`, as the bits of numbers. They were
/// fixed when the document was read.
#[verifier::external_body]
fn page_dimension(document: &Pdf, index: usize) -> (r: (u32, u32))
    requires
        index < document_sizes(document).len(),
    ensures
        r == document_sizes(document)[index as int],
{
    let (width, height) = document.pages()[index].render_dimensions();
    (width.to_bits(), height.to_bits())
}

/// The dictionary of a page, `Page::raw`, which was fixed when the document was read.
#[verifier::external_body]
pub(crate) fn page_dict(document: &Pdf, index: usize) -> (r: Dict<'_>)
    requires
        index < document_sizes(document).len(),
    ensures
        r == document_dicts(document)[index as int],
        dict_file(r) == document_data(document),
{
    document.pages()[index].raw().clone()
}

/// The catalog of a document, `XRef::get` of `XRef::root_id`.
#[verifier::external_body]
pub(crate) fn catalog(document: &Pdf) -> (r: Option<Dict<'_>>)
    requires
        readable(document_data(document)),
    ensures
        catalogs(document).contains(r),
        r is Some ==> dict_file(r->0) == document_data(document),
{
    document.xref().get::<Dict<'_>>(document.xref().root_id())
}

/// The entry of a dictionary that is a name, `Dict::get`.
#[verifier::external_body]
pub(crate) fn name_entry(dict: &Dict<'_>, key: &[u8]) -> (r: Option<Vec<u8>>)
    requires
        readable(dict_file(*dict)),
    ensures
        dict_names(*dict).contains((key@, bytes_of(r))),
{
    dict.get::<Name<'_>>(key).map(|name| name.to_vec())
}

/// The entry of a dictionary that is a string, `Dict::get`.
#[verifier::external_body]
pub(crate) fn string_entry(dict: &Dict<'_>, key: &[u8]) -> (r: Option<Vec<u8>>)
    requires
        readable(dict_file(*dict)),
    ensures
        dict_strings(*dict).contains((key@, bytes_of(r))),
{
    dict.get::<PdfString<'_>>(key).map(|string| string.as_bytes().to_vec())
}

/// The entry of a dictionary that is a whole number, `Dict::get`.
#[verifier::external_body]
pub(crate) fn number_entry(dict: &Dict<'_>, key: &[u8]) -> (r: Option<u32>)
    requires
        readable(dict_file(*dict)),
    ensures
        dict_numbers(*dict).contains((key@, r)),
{
    dict.get::<u32>(key)
}

/// The entry of a dictionary that is a rectangle, `Dict::get`.
#[verifier::external_body]
pub(crate) fn rect_entry(dict: &Dict<'_>, key: &[u8]) -> (r: Option<Rect>)
    requires
        readable(dict_file(*dict)),
    ensures
        dict_rects(*dict).contains((key@, r)),
{
    dict.get::<Rect>(key)
}

/// The entry of a dictionary that is a dictionary, `Dict::get`.
#[verifier::external_body]
pub(crate) fn dict_entry<'a>(dict: &Dict<'a>, key: &[u8]) -> (r: Option<Dict<'a>>)
    requires
        readable(dict_file(*dict)),
    ensures
        dict_dicts(*dict).contains((key@, r)),
        r is Some ==> dict_file(r->0) == dict_file(*dict),
{
    dict.get::<Dict<'a>>(key)
}

/// The entry of a dictionary that is an array, `Dict::get`.
#[verifier::external_body]
pub(crate) fn array_entry<'a>(dict: &Dict<'a>, key: &[u8]) -> (r: Option<Array<'a>>)
    requires
        readable(dict_file(*dict)),
    ensures
        dict_arrays(*dict).contains((key@, r)),
        r is Some ==> array_file(r->0) == dict_file(*dict),
{
    dict.get::<Array<'a>>(key)
}

/// The object that a dictionary is, `Dict::obj_id`.
#[verifier::external_body]
pub(crate) fn dict_id(dict: &Dict<'_>) -> (r: Option<ObjectId>)
    ensures
        r == dict_object(*dict),
{
    dict.obj_id().map(|id| ObjectId { number: id.obj_number, generation: id.gen_number })
}

/// The start of an array, `Array::flex_iter`.
#[verifier::external_body]
pub(crate) fn array_items<'a>(array: &Array<'a>) -> (r: FlexArrayIter<'a>)
    ensures
        r == array_start(*array),
        items_file(r) == array_file(*array),
{
    array.flex_iter()
}

/// Reads a dictionary from an array, `FlexArrayIter::next`. A dictionary takes up some bytes.
#[verifier::external_body]
pub(crate) fn next_dict<'a>(items: &mut FlexArrayIter<'a>) -> (r: Option<Dict<'a>>)
    requires
        readable(items_file(*old(items))),
    ensures
        dicts_at(*old(items)).contains((r, *final(items))),
        r is Some ==> unread_bytes(*final(items)) < unread_bytes(*old(items)),
        r is Some ==> dict_file(r->0) == items_file(*old(items)),
        items_file(*final(items)) == items_file(*old(items)),
{
    items.next::<Dict<'a>>()
}

/// Reads a string from an array, `FlexArrayIter::next`. A string takes up some bytes.
#[verifier::external_body]
pub(crate) fn next_string(items: &mut FlexArrayIter<'_>) -> (r: Option<Vec<u8>>)
    requires
        readable(items_file(*old(items))),
    ensures
        items_file(*final(items)) == items_file(*old(items)),
        strings_at(*old(items)).contains((bytes_of(r), *final(items))),
        r is Some ==> unread_bytes(*final(items)) < unread_bytes(*old(items)),
{
    items.next::<PdfString<'_>>().map(|string| string.as_bytes().to_vec())
}

/// Reads a value from an array, `FlexArrayIter::next`. The position does not go back where there is
/// one.
#[verifier::external_body]
pub(crate) fn next_value<'a>(items: &mut FlexArrayIter<'a>) -> (r: Option<NamedValue<'a>>)
    requires
        readable(items_file(*old(items))),
    ensures
        items_file(*final(items)) == items_file(*old(items)),
        r is Some ==> value_in(r->0, items_file(*old(items))),
        values_at(*old(items)).contains((r, *final(items))),
        r is Some ==> unread_bytes(*final(items)) <= unread_bytes(*old(items)),
{
    items.next::<Object<'a>>().map(
        |object|
            match object {
                Object::Array(array) => NamedValue::Array(array),
                Object::Dict(dict) => NamedValue::Dict(dict),
                Object::Null(_) => NamedValue::Other,
                Object::Boolean(_) => NamedValue::Other,
                Object::Number(_) => NamedValue::Other,
                Object::String(_) => NamedValue::Other,
                Object::Name(_) => NamedValue::Other,
                Object::Stream(_) => NamedValue::Other,
            },
    )
}

/// Moves a rectangle from the coordinates of a page into those in which the page is rendered, with
/// `Page::initial_transform` and `Affine::transform_rect_bbox`.
#[verifier::external_body]
pub(crate) fn device_rect(document: &Pdf, index: usize, rect: Rect) -> (r: DeviceRect)
    requires
        index < document_sizes(document).len(),
    ensures
        device_rects(document, index as int, rect).contains(r),
{
    let area = kurbo::Rect::new(rect.x0, rect.y0, rect.x1, rect.y1);
    let moved = document.pages()[index].initial_transform(true).to_kurbo().transform_rect_bbox(area);
    DeviceRect {
        x0: Double { bits: moved.x0.to_bits() },
        y0: Double { bits: moved.y0.to_bits() },
        x1: Double { bits: moved.x1.to_bits() },
        y1: Double { bits: moved.y1.to_bits() },
    }
}

/// The widths and heights of the pages of a document, as the bits of numbers.
pub(crate) fn page_dimensions(document: &Pdf) -> (r: Vec<(u32, u32)>)
    ensures
        r@ == document_sizes(document),
{
    let count: usize = page_count(document);
    let mut dimensions: Vec<(u32, u32)> = Vec::new();
    let mut index: usize = 0;
    while index < count
        invariant
            index <= count,
            count == document_sizes(document).len(),
            dimensions@ == document_sizes(document).take(index as int),
        decreases count - index,
    {
        dimensions.push(page_dimension(document, index));
        index += 1;
        proof {
            assert(dimensions@ =~= document_sizes(document).take(index as int));
        }
    }
    proof {
        assert(dimensions@ =~= document_sizes(document));
    }
    dimensions
}

/// The objects that describe the pages of a document.
pub(crate) fn page_ids(document: &Pdf) -> (r: Vec<Option<ObjectId>>)
    ensures
        r@ == page_objects(document),
        r@.len() == document_sizes(document).len(),
{
    let count: usize = page_count(document);
    let mut ids: Vec<Option<ObjectId>> = Vec::new();
    let mut index: usize = 0;
    while index < count
        invariant
            index <= count,
            count == document_sizes(document).len(),
            count == document_dicts(document).len(),
            ids@ == page_objects(document).take(index as int),
        decreases count - index,
    {
        ids.push(dict_id(&page_dict(document, index)));
        index += 1;
        proof {
            assert(ids@ =~= page_objects(document).take(index as int));
        }
    }
    proof {
        assert(ids@ =~= page_objects(document));
    }
    ids
}

/// Bytes that are there are what they are, and bytes that are not there are nothing.
pub proof fn bytes_are_what_they_are(bytes: Vec<u8>)
    ensures
        bytes_of(Some(bytes)) == Some(bytes@),
        bytes_of(None) is None,
{
}

} // verus!
