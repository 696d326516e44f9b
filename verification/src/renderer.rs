//! Opening a PDF file and rendering its pages in the background.
//!
//! The views ask for pages by [`RenderKey`]. A [`RenderQueue`] holds what was asked for, the latest
//! request first, and the worker of a [`Renderer`] takes the keys from it one by one.

use std::collections::VecDeque;

use hayro::hayro_syntax::Pdf;
use vstd::prelude::*;

use crate::number::Single;
use crate::parameters::{is_readable, readable};
use crate::pdf::{self, page_dimensions, parse, LoadFailure};
use crate::raster::{self, bgra_from_rgba, Raster};

verus! {

/// The largest width and height of a rendered page, in pixels.
pub const MAX_DIMENSION: u16 = 8192;

/// How many pages can wait to be rendered.
pub const MAX_PENDING_PAGES: usize = 16;

/// How many pages are rendered with the same resource cache.
pub const PAGES_PER_CACHE: u32 = 32;

/// The size of a page, in points.
#[derive(Clone, Copy, Debug, PartialEq, Eq, Structural)]
pub struct PageSize {
    pub width: Single,
    pub height: Single,
}

impl PageSize {
    /// Whether a page of this size can be shown.
    pub open spec fn valid(self) -> bool {
        let zero = Single { bits: 0 };
        &&& self.width.finite()
        &&& self.height.finite()
        &&& zero.less(self.width)
        &&& zero.less(self.height)
    }
}

/// The sizes that a PDF reader gives as the bits of numbers.
pub open spec fn sizes_of(dimensions: Seq<(u32, u32)>) -> Seq<PageSize> {
    Seq::new(
        dimensions.len(),
        |i: int|
            PageSize {
                width: Single { bits: dimensions[i].0 },
                height: Single { bits: dimensions[i].1 },
            },
    )
}

/// Why a file cannot be shown.
#[derive(Clone, Copy, Debug, PartialEq, Eq, Structural)]
pub enum LoadError {
    Encrypted,
    Invalid,
    NoPages,
    InvalidPageSize,
    /// The PDF reader cannot be given the file.
    Stopped,
}

impl LoadError {
    /// The message for the user.
    pub open spec fn text(self) -> Seq<char> {
        match self {
            LoadError::Encrypted => {
                "This PDF is encrypted or requires a password. Open it in an external PDF viewer."@
            },
            LoadError::Invalid => "This file is not a valid PDF or is still being written"@,
            LoadError::NoPages => "This PDF has no pages"@,
            LoadError::InvalidPageSize => "This PDF contains an invalid page size"@,
            LoadError::Stopped => "PDF renderer stopped while opening the document"@,
        }
    }

    /// The message for the user.
    pub fn message(self) -> (r: &'static str)
        ensures
            r@ == self.text(),
    {
        match self {
            LoadError::Encrypted => {
                "This PDF is encrypted or requires a password. Open it in an external PDF viewer."
            },
            LoadError::Invalid => "This file is not a valid PDF or is still being written",
            LoadError::NoPages => "This PDF has no pages",
            LoadError::InvalidPageSize => "This PDF contains an invalid page size",
            LoadError::Stopped => "PDF renderer stopped while opening the document",
        }
    }
}

/// What becomes of a file that a PDF reader has read: the sizes of its pages, where it has some and
/// all of them can be shown.
pub open spec fn loaded(parsed: Result<Seq<(u32, u32)>, LoadFailure>) -> Result<
    Seq<PageSize>,
    LoadError,
> {
    match parsed {
        Err(LoadFailure::Decryption) => Err(LoadError::Encrypted),
        Err(LoadFailure::Invalid) => Err(LoadError::Invalid),
        Ok(dimensions) => {
            let sizes = sizes_of(dimensions);
            if sizes.len() == 0 {
                Err(LoadError::NoPages)
            } else if exists|i: int| 0 <= i < sizes.len() && !(#[trigger] sizes[i]).valid() {
                Err(LoadError::InvalidPageSize)
            } else {
                Ok(sizes)
            }
        },
    }
}

/// The error for a file that a PDF reader could not read.
pub fn load_error(failure: LoadFailure) -> (error: LoadError)
    ensures
        loaded(Err(failure)) == Err::<Seq<PageSize>, LoadError>(error),
{
    match failure {
        LoadFailure::Decryption => LoadError::Encrypted,
        LoadFailure::Invalid => LoadError::Invalid,
    }
}

/// The sizes of the pages of a document, from the widths and heights that a PDF reader gives as the
/// bits of numbers.
pub fn check_pages(dimensions: &Vec<(u32, u32)>) -> (r: Result<Vec<PageSize>, LoadError>)
    ensures
        match r {
            Ok(sizes) => loaded(Ok(dimensions@)) == Ok::<Seq<PageSize>, LoadError>(sizes@),
            Err(error) => loaded(Ok(dimensions@)) == Err::<Seq<PageSize>, LoadError>(error),
        },
{
    let ghost wanted = sizes_of(dimensions@);
    if dimensions.len() == 0 {
        return Err(LoadError::NoPages);
    }
    let mut sizes: Vec<PageSize> = Vec::new();
    let mut i: usize = 0;
    while i < dimensions.len()
        invariant
            i <= dimensions@.len(),
            dimensions@.len() > 0,
            wanted == sizes_of(dimensions@),
            sizes@ == wanted.take(i as int),
            forall|j: int| 0 <= j < i ==> (#[trigger] wanted[j]).valid(),
        decreases dimensions@.len() - i,
    {
        let size = PageSize {
            width: Single { bits: dimensions[i].0 },
            height: Single { bits: dimensions[i].1 },
        };
        proof {
            assert(wanted[i as int] == size);
        }
        if !(size.width.is_finite_positive() && size.height.is_finite_positive()) {
            return Err(LoadError::InvalidPageSize);
        }
        sizes.push(size);
        proof {
            assert(sizes@ =~= wanted.take(i + 1));
        }
        i += 1;
    }
    proof {
        assert(sizes@ =~= wanted);
    }
    Ok(sizes)
}

/// Whether a file can turn out to have these pages, or to have this fault.
pub open spec fn can_load(content: Seq<u8>, outcome: Result<Seq<PageSize>, LoadError>) -> bool {
    exists|parsed: Result<Seq<(u32, u32)>, LoadFailure>| #[trigger]
        pdf::parse_results(content).contains(parsed) && loaded(parsed) == outcome
}

/// Opens a file. The document that is returned was read from these bytes.
pub fn load_document(content: Vec<u8>) -> (r: Result<(Pdf, Vec<PageSize>), LoadError>)
    requires
        readable(content@),
    ensures
        match r {
            Ok((document, sizes)) => {
                &&& can_load(content@, Ok(sizes@))
                &&& pdf::document_data(&document) == content@
                &&& sizes@ == sizes_of(pdf::document_sizes(&document))
            },
            Err(error) => can_load(content@, Err(error)),
        },
{
    let document = match parse(content) {
        Ok(document) => document,
        Err(failure) => {
            return Err(load_error(failure));
        },
    };
    let dimensions = page_dimensions(&document);
    match check_pages(&dimensions) {
        Ok(sizes) => Ok((document, sizes)),
        Err(error) => Err(error),
    }
}

/// A page at the size, in pixels, at which it is rendered.
#[derive(Clone, Copy, Debug, PartialEq, Eq, Structural)]
pub struct RenderKey {
    pub page: usize,
    pub width: u16,
    pub height: u16,
}

/// A number of pixels, moved into the range that can be rendered.
pub open spec fn bounded_dimension(pixels: u32) -> u16 {
    if pixels < 1 {
        1
    } else if pixels > MAX_DIMENSION {
        MAX_DIMENSION
    } else {
        pixels as u16
    }
}

fn bound_dimension(pixels: u32) -> (r: u16)
    ensures
        r == bounded_dimension(pixels),
{
    if pixels < 1 {
        1
    } else if pixels > MAX_DIMENSION as u32 {
        MAX_DIMENSION
    } else {
        pixels as u16
    }
}

impl RenderKey {
    /// The key of a page whose size at the wanted scale, rounded up to whole pixels, is `width` by
    /// `height`.
    pub fn new(page: usize, width: u32, height: u32) -> (key: RenderKey)
        ensures
            key.page == page,
            key.width == bounded_dimension(width),
            key.height == bounded_dimension(height),
            1 <= key.width <= MAX_DIMENSION,
            1 <= key.height <= MAX_DIMENSION,
    {
        RenderKey { page, width: bound_dimension(width), height: bound_dimension(height) }
    }
}

/// What a queue holds: the keys that wait, the next one first, and the key that is being rendered.
#[verifier::ext_equal]
pub struct QueueView {
    pub pending: Seq<RenderKey>,
    pub active: Option<RenderKey>,
}

/// The test for a key other than `key`.
pub open spec fn other_than(key: RenderKey) -> spec_fn(RenderKey) -> bool {
    |k: RenderKey| k != key
}

/// The keys other than `key`, in their order.
pub open spec fn without(keys: Seq<RenderKey>, key: RenderKey) -> Seq<RenderKey> {
    keys.filter(other_than(key))
}

/// At most the first `n` keys.
pub open spec fn at_most(keys: Seq<RenderKey>, n: nat) -> Seq<RenderKey> {
    if keys.len() <= n {
        keys
    } else {
        keys.take(n as int)
    }
}

impl QueueView {
    /// No key waits twice, none waits that is being rendered, and not too many wait.
    pub open spec fn wf(self) -> bool {
        &&& self.pending.no_duplicates()
        &&& self.pending.len() <= MAX_PENDING_PAGES
        &&& self.active is Some ==> !self.pending.contains(self.active->0)
    }

    /// The queue after a request.
    pub open spec fn requested(self, key: RenderKey) -> QueueView {
        if self.active == Some(key) {
            self
        } else {
            QueueView {
                pending: at_most(
                    seq![key] + without(self.pending, key),
                    MAX_PENDING_PAGES as nat,
                ),
                active: self.active,
            }
        }
    }

    /// The queue after the next key was taken from it.
    pub open spec fn started(self) -> QueueView {
        if self.pending.len() == 0 {
            QueueView { pending: self.pending, active: None }
        } else {
            QueueView { pending: self.pending.drop_first(), active: Some(self.pending.first()) }
        }
    }
}

/// The pages that wait to be rendered.
pub struct RenderQueue {
    pending: VecDeque<RenderKey>,
    active: Option<RenderKey>,
}

impl View for RenderQueue {
    type V = QueueView;

    closed spec fn view(&self) -> QueueView {
        QueueView { pending: self.pending@, active: self.active }
    }
}

/// How the attempt to wake the worker ended.
#[derive(Clone, Copy, Debug, PartialEq, Eq, Structural)]
pub enum WakeOutcome {
    /// The worker was told.
    Sent,
    /// The worker was told before and has not looked yet.
    AlreadyAwake,
    /// There is no worker any more.
    Closed,
}

impl RenderQueue {
    /// A queue in which nothing waits.
    pub fn new() -> (queue: RenderQueue)
        ensures
            queue@ == (QueueView { pending: Seq::empty(), active: None }),
            queue@.wf(),
    {
        let queue = RenderQueue { pending: VecDeque::new(), active: None };
        proof {
            assert(queue@.pending =~= Seq::empty());
        }
        queue
    }

    /// Removes a key from those that wait.
    fn forget(&mut self, key: RenderKey)
        ensures
            final(self)@.pending == without(old(self)@.pending, key),
            final(self)@.active == old(self)@.active,
    {
        let ghost before = self.pending@;
        let ghost differs = other_than(key);
        let mut index: usize = 0;
        let ghost mut seen: int = 0;
        proof {
            reveal(Seq::filter);
            assert(before.take(0) =~= Seq::empty());
        }
        while index < self.pending.len()
            invariant
                0 <= seen <= before.len(),
                index <= self.pending@.len(),
                self.active == old(self).active,
                differs == other_than(key),
                self.pending@ == before.take(seen).filter(differs) + before.skip(seen),
                index == before.take(seen).filter(differs).len(),
            decreases before.len() - seen,
        {
            let current: RenderKey = self.pending[index];
            proof {
                reveal(Seq::filter);
                assert(before.skip(seen)[0] == current);
                assert(before.take(seen + 1).drop_last() =~= before.take(seen));
                assert(before.take(seen + 1).last() == current);
            }
            let ghost kept = before.take(seen).filter(differs);
            let ghost rest = before.skip(seen);
            if current == key {
                self.pending.remove(index);
                proof {
                    assert(self.pending@ =~= kept + before.skip(seen + 1));
                }
            } else {
                index += 1;
                proof {
                    assert(self.pending@ =~= kept.push(current) + before.skip(seen + 1));
                }
            }
            proof {
                seen = seen + 1;
            }
        }
        proof {
            assert(before.skip(seen).len() == 0);
            assert(before.take(seen) =~= before);
            assert(self.pending@ =~= before.filter(differs));
        }
    }

    /// Asks for a page, before all others that wait. Tells whether the worker has to be woken.
    pub fn request(&mut self, key: RenderKey) -> (wake: bool)
        ensures
            final(self)@ == old(self)@.requested(key),
            wake == (old(self)@.active != Some(key)),
            old(self)@.wf() ==> final(self)@.wf(),
    {
        proof {
            if self@.wf() {
                requesting_keeps_the_queue_well_formed(self@, key);
            }
        }
        if let Some(active) = self.active {
            if active == key {
                return false;
            }
        }
        self.forget(key);
        self.pending.push_front(key);
        proof {
            assert(self.pending@ =~= seq![key] + without(old(self)@.pending, key));
        }
        if self.pending.len() > MAX_PENDING_PAGES {
            self.pending.truncate(MAX_PENDING_PAGES);
        }
        proof {
            assert(self@ =~= old(self)@.requested(key));
        }
        true
    }

    /// Takes note of how the attempt to wake the worker ended: without a worker nothing waits.
    pub fn wake_attempted(&mut self, outcome: WakeOutcome)
        ensures
            final(self)@ == if outcome is Closed {
                (QueueView { pending: Seq::empty(), active: old(self)@.active })
            } else {
                old(self)@
            },
            old(self)@.wf() ==> final(self)@.wf(),
    {
        if outcome == WakeOutcome::Closed {
            self.pending.clear();
            proof {
                assert(self@.pending =~= Seq::empty());
            }
        }
    }

    /// Takes the next key, which is being rendered from then on.
    pub fn start_next(&mut self) -> (key: Option<RenderKey>)
        ensures
            final(self)@ == old(self)@.started(),
            key == final(self)@.active,
            old(self)@.wf() ==> final(self)@.wf(),
    {
        proof {
            if self@.wf() {
                starting_keeps_the_queue_well_formed(self@);
            }
        }
        self.active = self.pending.pop_front();
        proof {
            assert(self@ =~= old(self)@.started());
        }
        self.active
    }

    /// Takes note that the rendered page was handed over.
    pub fn finish(&mut self)
        ensures
            final(self)@ == (QueueView { pending: old(self)@.pending, active: None }),
            old(self)@.wf() ==> final(self)@.wf(),
    {
        self.active = None;
    }
}

/// Why a page could not be rendered.
#[derive(Clone, Copy, Debug, PartialEq, Eq, Structural)]
pub enum RenderError {
    PageMissing,
    InvalidPixels,
    Failed,
}

impl RenderError {
    /// The message for the user.
    pub open spec fn text(self) -> Seq<char> {
        match self {
            RenderError::PageMissing => "PDF page no longer exists"@,
            RenderError::InvalidPixels => "PDF renderer returned an invalid pixel buffer"@,
            RenderError::Failed => "The PDF renderer could not render this page"@,
        }
    }

    /// The message for the user.
    pub fn message(self) -> (r: &'static str)
        ensures
            r@ == self.text(),
    {
        match self {
            RenderError::PageMissing => "PDF page no longer exists",
            RenderError::InvalidPixels => "PDF renderer returned an invalid pixel buffer",
            RenderError::Failed => "The PDF renderer could not render this page",
        }
    }
}

/// How the attempt to render a page ended.
pub enum RenderOutcome {
    /// The document has no such page.
    NoSuchPage,
    /// The red, green, blue and alpha of each pixel, row by row.
    Pixels(Vec<u8>),
    /// The rendering was broken off.
    Aborted,
}

/// A page that was rendered, or the reason why it was not. The image holds the blue, green, red and
/// alpha of each pixel.
pub struct RenderedPage {
    pub key: RenderKey,
    pub result: Result<Raster, RenderError>,
}

/// The error that a page is answered with, if there is one: its pixels have to fill the image.
pub open spec fn render_error(key: RenderKey, outcome: RenderOutcome) -> Option<RenderError> {
    match outcome {
        RenderOutcome::NoSuchPage => Some(RenderError::PageMissing),
        RenderOutcome::Aborted => Some(RenderError::Failed),
        RenderOutcome::Pixels(pixels) => {
            if 4 * key.width * key.height <= pixels@.len() {
                None
            } else {
                Some(RenderError::InvalidPixels)
            }
        },
    }
}

impl RenderedPage {
    /// The answer to a request for `key`.
    pub fn new(key: RenderKey, outcome: RenderOutcome) -> (page: RenderedPage)
        ensures
            page.key == key,
            match page.result {
                Ok(image) => {
                    &&& render_error(key, outcome) is None
                    &&& image.width == key.width
                    &&& image.height == key.height
                    &&& image.bytes@ == raster::bgra(outcome->Pixels_0@)
                },
                Err(error) => render_error(key, outcome) == Some(error),
            },
    {
        let result = match outcome {
            RenderOutcome::NoSuchPage => Err(RenderError::PageMissing),
            RenderOutcome::Aborted => Err(RenderError::Failed),
            RenderOutcome::Pixels(pixels) => {
                let swapped = bgra_from_rgba(pixels);
                match Raster::new(key.width, key.height, swapped) {
                    Some(image) => Ok(image),
                    None => Err(RenderError::InvalidPixels),
                }
            },
        };
        RenderedPage { key, result }
    }
}

/// A page that the worker has to render.
#[derive(Clone, Copy, Debug, PartialEq, Eq, Structural)]
pub struct RenderJob {
    pub key: RenderKey,
    /// Whether the resources of earlier pages are released first.
    pub fresh_cache: bool,
}

/// What a renderer knows: the queue, and how many pages were rendered since the resources of
/// earlier ones were released.
#[verifier::ext_equal]
pub struct RendererView {
    pub queue: QueueView,
    pub rendered: nat,
}

impl RendererView {
    /// The queue is well-formed, and resources are released in time.
    pub open spec fn wf(self) -> bool {
        &&& self.queue.wf()
        &&& self.rendered <= PAGES_PER_CACHE
    }

    /// The worker has taken a page and has not rendered it yet.
    pub open spec fn ready(self) -> bool {
        self.rendered < PAGES_PER_CACHE
    }

    /// The next page for the worker, if one waits.
    pub open spec fn next_job(self) -> Option<RenderJob> {
        if self.queue.pending.len() == 0 {
            None
        } else {
            Some(
                RenderJob {
                    key: self.queue.pending.first(),
                    fresh_cache: self.rendered == PAGES_PER_CACHE,
                },
            )
        }
    }

    /// The renderer after the worker looked for a page.
    pub open spec fn looked(self) -> RendererView {
        RendererView {
            queue: self.queue.started(),
            rendered: if self.queue.pending.len() > 0 && self.rendered == PAGES_PER_CACHE {
                0
            } else {
                self.rendered
            },
        }
    }
}

/// An open document whose pages are rendered in the background.
pub struct Renderer {
    pub sizes: Vec<PageSize>,
    pub queue: RenderQueue,
    pub rendered: u32,
}

impl View for Renderer {
    type V = RendererView;

    open spec fn view(&self) -> RendererView {
        RendererView { queue: self.queue@, rendered: self.rendered as nat }
    }
}

impl Renderer {
    /// Opens a file for rendering. One that the PDF reader cannot be given is refused, as if the
    /// reader had stopped in it.
    pub fn new(content: Vec<u8>) -> (r: Result<(Renderer, Pdf), LoadError>)
        ensures
            !readable(content@) <==> (r matches Err(LoadError::Stopped)),
            match r {
                Ok((renderer, document)) => {
                    &&& can_load(content@, Ok(renderer.sizes@))
                    &&& pdf::document_data(&document) == content@
                    &&& renderer.sizes@ == sizes_of(pdf::document_sizes(&document))
                    &&& renderer@.queue.pending == Seq::<RenderKey>::empty()
                    &&& renderer@.queue.active is None
                    &&& renderer@.rendered == 0
                    &&& renderer@.wf()
                },
                Err(error) => readable(content@) ==> can_load(content@, Err(error)),
            },
    {
        if !is_readable(content.as_slice()) {
            return Err(LoadError::Stopped);
        }
        match load_document(content) {
            Ok((document, sizes)) => {
                Ok((Renderer { sizes, queue: RenderQueue::new(), rendered: 0 }, document))
            },
            Err(error) => Err(error),
        }
    }

    /// Asks for a page, before all others that wait. Tells whether the worker has to be woken.
    pub fn request(&mut self, key: RenderKey) -> (wake: bool)
        ensures
            final(self).sizes == old(self).sizes,
            final(self)@ == (RendererView {
                queue: old(self)@.queue.requested(key),
                rendered: old(self)@.rendered,
            }),
            wake == (old(self)@.queue.active != Some(key)),
            old(self)@.wf() ==> final(self)@.wf(),
    {
        self.queue.request(key)
    }

    /// Takes note of how the attempt to wake the worker ended: without a worker nothing waits.
    pub fn wake_attempted(&mut self, outcome: WakeOutcome)
        ensures
            final(self).sizes == old(self).sizes,
            final(self)@.rendered == old(self)@.rendered,
            final(self)@.queue == if outcome is Closed {
                (QueueView { pending: Seq::empty(), active: old(self)@.queue.active })
            } else {
                old(self)@.queue
            },
            old(self)@.wf() ==> final(self)@.wf(),
    {
        self.queue.wake_attempted(outcome)
    }

    /// Gives the worker the next page, if one waits. Every so many pages the resources that the
    /// earlier ones needed are released.
    pub fn next_job(&mut self) -> (job: Option<RenderJob>)
        ensures
            final(self).sizes == old(self).sizes,
            job == old(self)@.next_job(),
            final(self)@ == old(self)@.looked(),
            old(self)@.wf() ==> final(self)@.wf(),
            old(self)@.wf() && job is Some ==> final(self)@.ready(),
    {
        match self.queue.start_next() {
            None => None,
            Some(key) => {
                let fresh_cache = self.rendered == PAGES_PER_CACHE;
                if fresh_cache {
                    self.rendered = 0;
                }
                Some(RenderJob { key, fresh_cache })
            },
        }
    }

    /// Takes note that a page was rendered. Tells whether the resources of this and earlier pages
    /// are released, as they are after a failure.
    pub fn page_rendered(&mut self, failed: bool) -> (fresh_cache: bool)
        requires
            old(self)@.ready(),
        ensures
            final(self).sizes == old(self).sizes,
            final(self)@.queue == old(self)@.queue,
            final(self)@.rendered == old(self)@.rendered + 1,
            fresh_cache == failed,
            old(self)@.wf() ==> final(self)@.wf(),
    {
        self.rendered = self.rendered + 1;
        failed
    }

    /// Takes note of whether someone received the page. Tells whether the worker goes on; if it
    /// does not, the page counts as being rendered for good.
    pub fn page_delivered(&mut self, received: bool) -> (go_on: bool)
        ensures
            final(self).sizes == old(self).sizes,
            final(self)@ == if received {
                (RendererView {
                    queue: QueueView { pending: old(self)@.queue.pending, active: None },
                    rendered: old(self)@.rendered,
                })
            } else {
                old(self)@
            },
            go_on == received,
            old(self)@.wf() ==> final(self)@.wf(),
    {
        if received {
            self.queue.finish();
        }
        received
    }
}

proof fn lemma_without(keys: Seq<RenderKey>, key: RenderKey)
    ensures
        !without(keys, key).contains(key),
        forall|k: RenderKey| k != key && keys.contains(k) ==> without(keys, key).contains(k),
        forall|k: RenderKey| #[trigger] without(keys, key).contains(k) ==> keys.contains(k),
        keys.no_duplicates() ==> without(keys, key).no_duplicates(),
        without(keys, key).len() <= keys.len(),
    decreases keys.len(),
{
    reveal(Seq::filter);
    if keys.len() > 0 {
        let front = keys.drop_last();
        let last = keys.last();
        lemma_without(front, key);
        assert(keys =~= front.push(last));
        assert forall|k: RenderKey| keys.contains(k) implies front.contains(k) || k == last by {
            let i = choose|i: int| 0 <= i < keys.len() && keys[i] == k;
            if i < front.len() {
                assert(front[i] == k);
            }
        }
        assert forall|k: RenderKey| front.contains(k) implies keys.contains(k) by {
            let i = choose|i: int| 0 <= i < front.len() && front[i] == k;
            assert(keys[i] == k);
        }
        let kept = without(front, key);
        if last != key {
            assert(without(keys, key) == kept.push(last));
            assert(without(keys, key)[kept.len() as int] == last);
            assert forall|k: RenderKey| kept.contains(k) implies without(keys, key).contains(k) by {
                let i = choose|i: int| 0 <= i < kept.len() && kept[i] == k;
                assert(without(keys, key)[i] == k);
            }
            assert forall|k: RenderKey| #[trigger]
                without(keys, key).contains(k) implies keys.contains(k) by {
                let i = choose|i: int|
                    0 <= i < without(keys, key).len() && without(keys, key)[i] == k;
                if i < kept.len() {
                    assert(kept[i] == k);
                    assert(kept.contains(k));
                    assert(front.contains(k));
                } else {
                    assert(keys[keys.len() - 1] == k);
                }
            }
            if without(keys, key).contains(key) {
                let i = choose|i: int|
                    0 <= i < without(keys, key).len() && without(keys, key)[i] == key;
                assert(kept[i] == key);
                assert(kept.contains(key));
            }
            if keys.no_duplicates() {
                assert(front.no_duplicates());
                assert(!front.contains(last)) by {
                    if front.contains(last) {
                        let i = choose|i: int| 0 <= i < front.len() && front[i] == last;
                        assert(keys[i] == keys[keys.len() - 1]);
                    }
                }
                assert(!kept.contains(last));
                assert forall|i: int, j: int|
                    0 <= i < without(keys, key).len() && 0 <= j < without(keys, key).len() && i
                        != j implies without(keys, key)[i] != without(keys, key)[j] by {
                    if i < kept.len() && j < kept.len() {
                    } else if i < kept.len() {
                        assert(kept.contains(kept[i]));
                    } else if j < kept.len() {
                        assert(kept.contains(kept[j]));
                    }
                }
            }
        }
    }
}

/// A request keeps the queue well-formed.
pub proof fn requesting_keeps_the_queue_well_formed(queue: QueueView, key: RenderKey)
    requires
        queue.wf(),
    ensures
        queue.requested(key).wf(),
{
    if queue.active != Some(key) {
        lemma_without(queue.pending, key);
        let kept = without(queue.pending, key);
        let all = seq![key] + kept;
        assert forall|i: int, j: int|
            0 <= i < all.len() && 0 <= j < all.len() && i != j implies all[i] != all[j] by {
            if i == 0 {
                assert(kept.contains(kept[j - 1]));
            } else if j == 0 {
                assert(kept.contains(kept[i - 1]));
            }
        }
        let pending = queue.requested(key).pending;
        assert forall|k: RenderKey| pending.contains(k) implies k == key || kept.contains(k) by {
            let i = choose|i: int| 0 <= i < pending.len() && pending[i] == k;
            assert(all[i] == k);
            if i > 0 {
                assert(kept[i - 1] == k);
            }
        }
    }
}

/// Taking the next key keeps the queue well-formed.
pub proof fn starting_keeps_the_queue_well_formed(queue: QueueView)
    requires
        queue.wf(),
    ensures
        queue.started().wf(),
{
    if queue.pending.len() > 0 {
        let rest = queue.pending.drop_first();
        assert(!rest.contains(queue.pending.first())) by {
            if rest.contains(queue.pending.first()) {
                let i = choose|i: int| 0 <= i < rest.len() && rest[i] == queue.pending.first();
                assert(queue.pending[i + 1] == queue.pending[0]);
            }
        }
    }
}

/// The page that was asked for last is rendered next.
pub proof fn latest_request_is_served_first(queue: QueueView, key: RenderKey)
    requires
        queue.active != Some(key),
    ensures
        queue.requested(key).started().active == Some(key),
{
    assert(queue.requested(key).pending.first() == key);
}

/// Asking for a page a second time changes nothing.
pub proof fn repeated_request_changes_nothing(queue: QueueView, key: RenderKey)
    requires
        queue.wf(),
    ensures
        queue.requested(key).requested(key) == queue.requested(key),
{
    if queue.active != Some(key) {
        requesting_keeps_the_queue_well_formed(queue, key);
        let once = queue.requested(key);
        let rest = once.pending.drop_first();
        assert(once.pending =~= seq![key] + rest);
        assert(without(once.pending, key) == rest) by {
            lemma_filter_of_absent(rest, key);
            lemma_filter_front(rest, key);
        }
        assert(once.requested(key) =~= once);
    }
}

proof fn lemma_filter_of_absent(keys: Seq<RenderKey>, key: RenderKey)
    requires
        forall|i: int| 0 <= i < keys.len() ==> keys[i] != key,
    ensures
        without(keys, key) == keys,
    decreases keys.len(),
{
    reveal(Seq::filter);
    if keys.len() > 0 {
        lemma_filter_of_absent(keys.drop_last(), key);
        assert(keys.drop_last().push(keys.last()) =~= keys);
    }
}

proof fn lemma_filter_front(keys: Seq<RenderKey>, key: RenderKey)
    ensures
        without(seq![key] + keys, key) == without(keys, key),
    decreases keys.len(),
{
    reveal(Seq::filter);
    let all = seq![key] + keys;
    if keys.len() == 0 {
        assert(all.drop_last() =~= Seq::empty());
        assert(all.drop_last().filter(other_than(key)) =~= Seq::empty());
        assert(keys =~= Seq::empty());
    } else {
        lemma_filter_front(keys.drop_last(), key);
        assert(all.drop_last() =~= seq![key] + keys.drop_last());
    }
}

/// A page that is asked for goes before all others that wait, which keep their order. One that waited
/// before does so no longer, and beyond sixteen the last ones are forgotten. One that is being
/// rendered already is not asked for again.
pub proof fn requests_go_to_the_front(queue: QueueView, key: RenderKey)
    requires
        queue.wf(),
    ensures
        queue.active == Some(key) ==> queue.requested(key) == queue,
        queue.active != Some(key) ==> {
            let pending = queue.requested(key).pending;
            &&& queue.requested(key).active == queue.active
            &&& !queue.pending.contains(key) && queue.pending.len() < 16 ==> pending == seq![key]
                + queue.pending
            &&& !queue.pending.contains(key) && queue.pending.len() == 16 ==> pending == seq![key]
                + queue.pending.drop_last()
            &&& forall|i: int|
                0 <= i < queue.pending.len() && #[trigger] queue.pending[i] == key ==> pending
                    == seq![key] + queue.pending.remove(i)
        },
{
    if queue.active != Some(key) {
        let pending = queue.requested(key).pending;
        if !queue.pending.contains(key) {
            lemma_filter_of_absent(queue.pending, key);
            if queue.pending.len() == 16 {
                assert(pending =~= seq![key] + queue.pending.drop_last());
            }
        }
        assert forall|i: int|
            0 <= i < queue.pending.len() && #[trigger] queue.pending[i] == key implies pending
            == seq![key] + queue.pending.remove(i) by {
            lemma_without_one(queue.pending, key, i);
        }
    }
}

proof fn lemma_without_one(keys: Seq<RenderKey>, key: RenderKey, i: int)
    requires
        keys.no_duplicates(),
        0 <= i < keys.len(),
        keys[i] == key,
    ensures
        without(keys, key) == keys.remove(i),
    decreases keys.len(),
{
    reveal(Seq::filter);
    let front = keys.drop_last();
    if i == keys.len() - 1 {
        assert forall|j: int| 0 <= j < front.len() implies front[j] != key by {
            assert(front[j] == keys[j]);
        }
        lemma_filter_of_absent(front, key);
        assert(keys.remove(i) =~= front);
    } else {
        lemma_without_one(front, key, i);
        assert(keys.last() != key);
        assert(keys.remove(i) =~= front.remove(i).push(keys.last()));
    }
}

/// The pages that wait are rendered from the front, one at a time.
pub proof fn waiting_pages_are_rendered_in_order(queue: QueueView)
    ensures
        queue.pending.len() > 0 ==> queue.started().active == Some(queue.pending[0]) && seq![
            queue.pending[0],
        ] + queue.started().pending == queue.pending,
        queue.pending.len() == 0 ==> queue.started().active is None
            && queue.started().pending.len() == 0,
{
    if queue.pending.len() > 0 {
        assert(seq![queue.pending[0]] + queue.started().pending =~= queue.pending);
    }
}

/// The worker is given the page that waits in front, and the resources of earlier pages are released
/// before every page that comes after 32 others.
pub proof fn resources_are_released_in_time(renderer: RendererView)
    requires
        renderer.wf(),
    ensures
        renderer.next_job() is Some <==> renderer.queue.pending.len() > 0,
        renderer.next_job() matches Some(job) ==> {
            &&& job.key == renderer.queue.pending[0]
            &&& renderer.looked().queue.active == Some(job.key)
            &&& job.fresh_cache == (renderer.rendered == 32)
            &&& job.fresh_cache ==> renderer.looked().rendered == 0
            &&& !job.fresh_cache ==> renderer.looked().rendered == renderer.rendered
            &&& renderer.looked().rendered < 32
        },
        renderer.next_job() is None ==> renderer.looked().rendered == renderer.rendered,
        renderer.looked().queue == renderer.queue.started(),
{
}

/// A file is shown exactly where it was read, has pages, and each of them has a width and a height
/// that are finite and greater than zero. The sizes are those of the pages, in their order.
pub proof fn files_with_proper_pages_are_shown(dimensions: Seq<(u32, u32)>)
    ensures
        dimensions.len() == 0 ==> loaded(Ok(dimensions)) == Err::<Seq<PageSize>, LoadError>(
            LoadError::NoPages,
        ),
        (exists|i: int|
            0 <= i < dimensions.len() && !(0 < (#[trigger] dimensions[i]).0 < 0x7f80_0000 && 0
                < dimensions[i].1 < 0x7f80_0000)) ==> loaded(Ok(dimensions)) == Err::<
            Seq<PageSize>,
            LoadError,
        >(LoadError::InvalidPageSize),
        dimensions.len() > 0 && (forall|i: int|
            0 <= i < dimensions.len() ==> 0 < (#[trigger] dimensions[i]).0 < 0x7f80_0000 && 0
                < dimensions[i].1 < 0x7f80_0000) ==> {
            &&& loaded(Ok(dimensions)) matches Ok(sizes) && sizes.len() == dimensions.len()
                && forall|i: int|
                0 <= i < sizes.len() ==> (#[trigger] sizes[i]).width.bits == dimensions[i].0
                    && sizes[i].height.bits == dimensions[i].1
        },
        loaded(Err(LoadFailure::Decryption)) == Err::<Seq<PageSize>, LoadError>(
            LoadError::Encrypted,
        ),
        loaded(Err(LoadFailure::Invalid)) == Err::<Seq<PageSize>, LoadError>(LoadError::Invalid),
{
    let sizes = sizes_of(dimensions);
    assert forall|i: int| 0 <= i < dimensions.len() implies (#[trigger] sizes[i]).valid() == (0
        < dimensions[i].0 < 0x7f80_0000 && 0 < dimensions[i].1 < 0x7f80_0000) by {}
    if exists|i: int|
        0 <= i < dimensions.len() && !(0 < (#[trigger] dimensions[i]).0 < 0x7f80_0000 && 0
            < dimensions[i].1 < 0x7f80_0000) {
        let i = choose|i: int|
            0 <= i < dimensions.len() && !(0 < (#[trigger] dimensions[i]).0 < 0x7f80_0000 && 0
                < dimensions[i].1 < 0x7f80_0000);
        assert(!sizes[i].valid());
    }
}

/// A page has the size that was asked for, in pixels, as far as it lies between one pixel and 8192.
pub proof fn sizes_are_kept_within_their_limits(pixels: u32)
    ensures
        1 <= pixels <= 8192 ==> bounded_dimension(pixels) == pixels,
        pixels == 0 ==> bounded_dimension(pixels) == 1,
        pixels > 8192 ==> bounded_dimension(pixels) == 8192,
{
}

/// A page is answered with its pixels exactly where there are enough of them for its size, and else
/// with what went wrong.
pub proof fn pages_need_all_their_pixels(key: RenderKey, outcome: RenderOutcome)
    ensures
        outcome is NoSuchPage ==> render_error(key, outcome) == Some(RenderError::PageMissing),
        outcome is Aborted ==> render_error(key, outcome) == Some(RenderError::Failed),
        outcome matches RenderOutcome::Pixels(pixels) ==> {
            &&& pixels@.len() >= 4 * (key.width * key.height) ==> render_error(key, outcome) is None
            &&& pixels@.len() < 4 * (key.width * key.height) ==> render_error(key, outcome) == Some(
                RenderError::InvalidPixels,
            )
        },
{
    assert(4 * key.width * key.height == 4 * (key.width * key.height)) by (nonlinear_arith);
}

/// Whether the bits of a number are those of one that is finite and greater than zero.
pub open spec fn is_proper(bits: u32) -> bool {
    0 < bits < 0x7f80_0000
}

/// A file is shown with the sizes that were read from it, and is refused for what is wrong with it.
pub proof fn files_are_shown_as_they_were_read(
    content: Seq<u8>,
    outcome: Result<Seq<PageSize>, LoadError>,
)
    requires
        can_load(content, outcome),
    ensures
        match outcome {
            Ok(sizes) => sizes.len() > 0 && exists|dimensions: Seq<(u32, u32)>|
                {
                    &&& #[trigger] pdf::parse_results(content).contains(Ok(dimensions))
                    &&& dimensions.len() == sizes.len()
                    &&& forall|i: int|
                        0 <= i < sizes.len() ==> (#[trigger] sizes[i]).width.bits == dimensions[i].0
                            && sizes[i].height.bits == dimensions[i].1 && is_proper(
                            dimensions[i].0,
                        ) && is_proper(dimensions[i].1)
                },
            Err(LoadError::NoPages) => pdf::parse_results(content).contains(
                Ok(Seq::<(u32, u32)>::empty()),
            ),
            Err(LoadError::InvalidPageSize) => exists|dimensions: Seq<(u32, u32)>, i: int|
                {
                    &&& pdf::parse_results(content).contains(Ok(dimensions))
                    &&& 0 <= i < dimensions.len()
                    &&& !(is_proper((#[trigger] dimensions[i]).0) && is_proper(dimensions[i].1))
                },
            Err(LoadError::Encrypted) => pdf::parse_results(content).contains(
                Err(LoadFailure::Decryption),
            ),
            Err(LoadError::Invalid) => pdf::parse_results(content).contains(
                Err(LoadFailure::Invalid),
            ),
            Err(LoadError::Stopped) => false,
        },
{
    let parsed = choose|parsed: Result<Seq<(u32, u32)>, LoadFailure>| #[trigger]
        pdf::parse_results(content).contains(parsed) && loaded(parsed) == outcome;
    if let Ok(dimensions) = parsed {
        files_with_proper_pages_are_shown(dimensions);
        let sizes = sizes_of(dimensions);
        if dimensions.len() == 0 {
            assert(dimensions =~= Seq::empty());
        } else if exists|i: int| 0 <= i < sizes.len() && !(#[trigger] sizes[i]).valid() {
            let i = choose|i: int| 0 <= i < sizes.len() && !(#[trigger] sizes[i]).valid();
            assert(!(is_proper(dimensions[i].0) && is_proper(dimensions[i].1)));
        } else {
            assert(pdf::parse_results(content).contains(Ok(dimensions)));
            assert forall|i: int| 0 <= i < sizes.len() implies (#[trigger] sizes[i]).width.bits
                == dimensions[i].0 && sizes[i].height.bits == dimensions[i].1 && is_proper(
                dimensions[i].0,
            ) && is_proper(dimensions[i].1) by {
                assert(sizes[i].valid());
            }
        }
    }
}

} // verus!
