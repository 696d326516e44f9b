//! The view of a PDF document: where it is scrolled to, how it is zoomed, and what it shows.

use vstd::prelude::*;
use vstd::string::*;

use crate::cache;
use crate::document::{self, DocumentView, PdfDocument, ProjectPath, ProjectPathView};
use crate::document::{ReloadAction, ReloadTask};
use crate::number::{Double, Single, ONE, ZERO};
use crate::renderer::{PageSize, RenderKey};
use crate::text::{self, push_decimal};

verus! {

/// The bits of the smallest zoom, 0.1.
pub const MIN_ZOOM: u32 = 0x3dcc_cccd;

/// The bits of the largest zoom, 8.
pub const MAX_ZOOM: u32 = 0x4100_0000;

/// The bits of the width that a view has before it is measured, 800.
pub const INITIAL_WIDTH: u32 = 0x4448_0000;

/// A place in a document: a page, and the part of its height that is scrolled past.
#[derive(Clone, Copy, Debug, PartialEq, Eq, Structural)]
pub struct Position {
    pub page: usize,
    pub fraction: Single,
}

/// A number between zero and one.
pub open spec fn unit_clamped(x: Single) -> Single {
    x.clamped(Single { bits: ZERO }, Single { bits: ONE })
}

/// A zoom within its limits.
pub open spec fn zoom_clamped(x: Single) -> Single {
    x.clamped(Single { bits: MIN_ZOOM }, Single { bits: MAX_ZOOM })
}

impl Position {
    /// The nearest place in a document of so many pages.
    pub open spec fn within(self, count: nat) -> Position {
        Position {
            page: if count == 0 {
                0
            } else if self.page < count {
                self.page
            } else {
                (count - 1) as usize
            },
            fraction: unit_clamped(self.fraction),
        }
    }
}

/// The top of a page.
pub open spec fn top_of(page: usize) -> Position {
    Position { page, fraction: Single { bits: ZERO } }
}

/// Something about a view changed that is saved and shown in its tab.
#[derive(Clone, Copy, Debug, PartialEq, Eq, Structural)]
pub struct PdfViewEvent;

/// What a tab is told.
#[derive(Clone, Copy, Debug, PartialEq, Eq, Structural)]
pub enum ItemEvent {
    UpdateTab,
}

/// A command of the view.
#[derive(Clone, Copy, Debug, PartialEq, Eq, Structural)]
pub enum ViewCommand {
    ZoomIn,
    ZoomOut,
    FitWidth,
    ResetZoom,
    NextPage,
    PreviousPage,
    FirstPage,
    LastPage,
    Reload,
}

/// What a command leads to.
#[derive(Clone, Copy, Debug, PartialEq, Eq, Structural)]
pub enum Performed {
    /// The pages have to be measured again.
    Zoomed,
    /// The view scrolls to a place.
    ScrollTo(Position),
    /// The file of the document is read again.
    Reload(ReloadTask, ReloadAction),
}

/// A part of the tool bar.
#[derive(Debug)]
pub enum ToolbarPart {
    Button { id: &'static str, label: String, disabled: bool, command: ViewCommand },
    Label(String),
    Space,
}

/// What a part of the tool bar is.
#[verifier::ext_equal]
pub enum ToolbarPartView {
    Button { id: Seq<char>, label: Seq<char>, disabled: bool, command: ViewCommand },
    Label(Seq<char>),
    Space,
}

impl View for ToolbarPart {
    type V = ToolbarPartView;

    open spec fn view(&self) -> ToolbarPartView {
        match self {
            ToolbarPart::Button { id, label, disabled, command } => ToolbarPartView::Button {
                id: id@,
                label: label@,
                disabled: *disabled,
                command: *command,
            },
            ToolbarPart::Label(label) => ToolbarPartView::Label(label@),
            ToolbarPart::Space => ToolbarPartView::Space,
        }
    }
}

/// The views of the parts of a tool bar.
pub open spec fn part_views(parts: Seq<ToolbarPart>) -> Seq<ToolbarPartView> {
    Seq::new(parts.len(), |i: int| parts[i]@)
}

/// What stands in the place of a page.
#[derive(Debug)]
pub enum PageDisplay {
    Image(u64),
    Rendering,
    Error(String),
}

/// What the view has to do when its document changed.
#[derive(Clone, Copy, Debug, PartialEq, Eq, Structural)]
pub struct DocumentChange {
    /// The place to scroll to in a list of new pages.
    pub scroll_to: Option<Position>,
    /// Whether something changed that is saved and shown in the tab.
    pub event: Option<PdfViewEvent>,
}

/// A view as it was saved, with numbers of double precision.
#[derive(Clone, Copy, Debug, PartialEq, Eq, Structural)]
pub struct SavedState {
    pub page: i64,
    pub fraction: Double,
    pub zoom: Option<Double>,
}

/// A view that can be restored.
#[derive(Clone, Copy, Debug, PartialEq, Eq, Structural)]
pub struct SavedView {
    pub page: i64,
    pub fraction: Single,
    pub zoom: Option<Single>,
}

impl SavedView {
    /// The place that was saved.
    pub open spec fn position(self) -> Position {
        Position {
            page: if self.page < 0 {
                0
            } else {
                self.page as usize
            },
            fraction: self.fraction,
        }
    }
}

impl SavedState {
    /// Makes sense of what was saved: what is no finite number counts as zero, or as no zoom.
    /// `narrow` rounds a number to single precision.
    pub fn checked<F: Fn(Double) -> Single>(self, narrow: F) -> (r: SavedView)
        requires
            forall|x: Double| x.finite() ==> #[trigger] call_requires(narrow, (x,)),
        ensures
            r.page == self.page,
            self.fraction.finite() ==> call_ensures(narrow, (self.fraction,), r.fraction),
            !self.fraction.finite() ==> r.fraction == (Single { bits: ZERO }),
            r.zoom is Some <==> self.zoom is Some && self.zoom->0.finite(),
            r.zoom is Some ==> call_ensures(narrow, (self.zoom->0,), r.zoom->0),
    {
        let fraction = if self.fraction.is_finite() {
            narrow(self.fraction)
        } else {
            Single { bits: ZERO }
        };
        let zoom = match self.zoom {
            Some(zoom) => if zoom.is_finite() {
                Some(narrow(zoom))
            } else {
                None
            },
            None => None,
        };
        SavedView { page: self.page, fraction, zoom }
    }
}

/// The greater of a number and one that is not NaN.
pub open spec fn greater(x: Single, y: Single) -> Single {
    if x.less(y) {
        y
    } else {
        x
    }
}

/// The width of the widest page, or one point if all are narrower.
pub open spec fn widest_page(sizes: Seq<PageSize>) -> Single
    decreases sizes.len(),
{
    if sizes.len() == 0 {
        Single { bits: ONE }
    } else {
        greater(widest_page(sizes.drop_last()), sizes.last().width)
    }
}

/// What the label between the page buttons says.
pub open spec fn page_label(current: int, count: nat) -> Seq<char> {
    text::decimal(
        if count == 0 {
            0
        } else {
            (current + 1) as nat
        },
    ) + " / "@ + text::decimal(count)
}

/// The tool bar of a view at page `current` of so many.
pub open spec fn toolbar_parts(
    current: int,
    count: nat,
    loading: bool,
    zoom_label: Seq<char>,
) -> Seq<ToolbarPartView> {
    seq![
        ToolbarPartView::Button {
            id: "previous-page"@,
            label: "Previous"@,
            disabled: count == 0 || current == 0,
            command: ViewCommand::PreviousPage,
        },
        ToolbarPartView::Label(page_label(current, count)),
        ToolbarPartView::Button {
            id: "next-page"@,
            label: "Next"@,
            disabled: count == 0 || current + 1 >= count,
            command: ViewCommand::NextPage,
        },
        ToolbarPartView::Space,
        ToolbarPartView::Button {
            id: "zoom-out"@,
            label: "−"@,
            disabled: false,
            command: ViewCommand::ZoomOut,
        },
        ToolbarPartView::Button {
            id: "reset-zoom"@,
            label: zoom_label,
            disabled: false,
            command: ViewCommand::ResetZoom,
        },
        ToolbarPartView::Button {
            id: "zoom-in"@,
            label: "+"@,
            disabled: false,
            command: ViewCommand::ZoomIn,
        },
        ToolbarPartView::Button {
            id: "fit-width"@,
            label: "Fit width"@,
            disabled: false,
            command: ViewCommand::FitWidth,
        },
        ToolbarPartView::Button {
            id: "reload"@,
            label: "Reload"@,
            disabled: loading,
            command: ViewCommand::Reload,
        },
    ]
}

/// A view of a PDF document.
#[derive(Debug)]
pub struct PdfView {
    pub path: ProjectPath,
    pub zoom: Option<Single>,
    pub viewport_width: Single,
    pub generation: u64,
    pub sizes: Vec<PageSize>,
    pub current_page: usize,
    pub restored_position: Option<Position>,
}

/// What a view is.
#[verifier::ext_equal]
pub struct PdfViewState {
    pub path: ProjectPathView,
    pub zoom: Option<Single>,
    pub viewport_width: Single,
    pub generation: u64,
    pub sizes: Seq<PageSize>,
    pub current_page: usize,
    pub restored_position: Option<Position>,
}

impl View for PdfView {
    type V = PdfViewState;

    open spec fn view(&self) -> PdfViewState {
        PdfViewState {
            path: self.path@,
            zoom: self.zoom,
            viewport_width: self.viewport_width,
            generation: self.generation,
            sizes: self.sizes@,
            current_page: self.current_page,
            restored_position: self.restored_position,
        }
    }
}

impl PdfViewState {
    /// A fresh view of a document.
    pub open spec fn fresh(document: DocumentView) -> PdfViewState {
        PdfViewState {
            path: document.path,
            zoom: None,
            viewport_width: Single { bits: INITIAL_WIDTH },
            generation: document.generation,
            sizes: document.sizes,
            current_page: 0,
            restored_position: None,
        }
    }

    /// The view scrolled to a place.
    pub open spec fn at(self, position: Position) -> PdfViewState {
        PdfViewState { current_page: position.within(self.sizes.len()).page, ..self }
    }

    /// The place to keep when the pages are replaced: one that still waits for pages, or else the
    /// one that is shown.
    pub open spec fn kept_position(self, shown: Position) -> Position {
        match self.restored_position {
            Some(position) => position,
            None => shown,
        }
    }

    /// The view with the pages of its document, and no place that waits for them.
    pub open spec fn with_pages(self, document: DocumentView) -> PdfViewState {
        PdfViewState {
            path: document.path,
            generation: document.generation,
            sizes: document.sizes,
            restored_position: None,
            ..self
        }
    }

    /// The view after its document changed.
    pub open spec fn updated(self, document: DocumentView, shown: Position) -> PdfViewState {
        if document.generation != self.generation {
            self.with_pages(document).at(self.kept_position(shown))
        } else {
            PdfViewState { path: document.path, ..self }
        }
    }

    /// The view with another zoom, within the limits.
    pub open spec fn zoomed(self, zoom: Option<Single>) -> PdfViewState {
        PdfViewState {
            zoom: match zoom {
                Some(zoom) => Some(zoom_clamped(zoom)),
                None => None,
            },
            ..self
        }
    }

    /// The page that a command goes to, where it goes to one.
    pub open spec fn page_of_command(self, command: ViewCommand) -> Option<usize> {
        match command {
            ViewCommand::NextPage => Some(
                if self.current_page < usize::MAX {
                    (self.current_page + 1) as usize
                } else {
                    usize::MAX
                },
            ),
            ViewCommand::PreviousPage => Some(
                if self.current_page > 0 {
                    (self.current_page - 1) as usize
                } else {
                    0
                },
            ),
            ViewCommand::FirstPage => Some(0),
            ViewCommand::LastPage => Some(
                if self.sizes.len() > 0 {
                    (self.sizes.len() - 1) as usize
                } else {
                    0
                },
            ),
            _ => None,
        }
    }

    /// The view after a command.
    pub open spec fn performed(self, command: ViewCommand, zoomed: Single) -> PdfViewState {
        match command {
            ViewCommand::ZoomIn | ViewCommand::ZoomOut => self.zoomed(Some(zoomed)),
            ViewCommand::FitWidth => self.zoomed(None),
            ViewCommand::ResetZoom => self.zoomed(Some(Single { bits: ONE })),
            ViewCommand::Reload => self,
            _ => self.at(top_of(self.page_of_command(command)->0)),
        }
    }

    /// The view after it was restored from what was saved.
    pub open spec fn resumed(self, saved: SavedView) -> PdfViewState {
        let zoomed = PdfViewState {
            zoom: match saved.zoom {
                Some(zoom) => Some(zoom_clamped(zoom)),
                None => None,
            },
            ..self
        };
        if self.sizes.len() == 0 {
            PdfViewState { restored_position: Some(saved.position()), ..zoomed }
        } else {
            zoomed.at(saved.position())
        }
    }
}

/// A copy of the sizes of pages.
fn copy_sizes(sizes: &Vec<PageSize>) -> (r: Vec<PageSize>)
    ensures
        r@ == sizes@,
{
    let mut copy: Vec<PageSize> = Vec::new();
    let mut i: usize = 0;
    while i < sizes.len()
        invariant
            i <= sizes@.len(),
            copy@ == sizes@.take(i as int),
        decreases sizes@.len() - i,
    {
        copy.push(sizes[i]);
        i += 1;
        proof {
            assert(copy@ =~= sizes@.take(i as int));
        }
    }
    proof {
        assert(copy@ =~= sizes@);
    }
    copy
}

impl PdfView {
    /// A fresh view of a document.
    pub fn new(document: &PdfDocument) -> (view: PdfView)
        ensures
            view@ == PdfViewState::fresh(document@),
    {
        PdfView {
            path: document.path.clone(),
            zoom: None,
            viewport_width: Single { bits: INITIAL_WIDTH },
            generation: document.generation,
            sizes: copy_sizes(&document.sizes),
            current_page: 0,
            restored_position: None,
        }
    }

    /// Takes note of the first page that is visible.
    pub fn scrolled(&mut self, first_visible: usize) -> (event: PdfViewEvent)
        ensures
            final(self)@ == (PdfViewState { current_page: first_visible, ..old(self)@ }),
    {
        self.current_page = first_visible;
        PdfViewEvent
    }

    /// Takes over what changed in the document. `shown` is the place that is shown; it is kept, as
    /// far as the new pages have it.
    pub fn document_changed(&mut self, document: &PdfDocument, shown: Position) -> (r:
        DocumentChange)
        ensures
            final(self)@ == old(self)@.updated(document@, shown),
            r.scroll_to == if document.generation != old(self).generation {
                Some(old(self)@.kept_position(shown).within(document@.sizes.len()))
            } else {
                None
            },
            r.event is Some <==> document.generation != old(self).generation || document@.path
                != old(self)@.path,
    {
        let replaced = document.generation != self.generation;
        let moved = !document.path.is_same(&self.path);
        let mut scroll_to: Option<Position> = None;
        if replaced {
            let position = match self.restored_position {
                Some(position) => position,
                None => shown,
            };
            self.restored_position = None;
            self.generation = document.generation;
            self.sizes = copy_sizes(&document.sizes);
            scroll_to = Some(self.restore_position(position));
        }
        self.path = document.path.clone();
        proof {
            assert(self@ =~= old(self)@.updated(document@, shown));
        }
        let event = if replaced || moved {
            Some(PdfViewEvent)
        } else {
            None
        };
        DocumentChange { scroll_to, event }
    }

    /// The width of the widest page, or one point if all are narrower.
    pub fn widest(&self) -> (r: Single)
        ensures
            r == widest_page(self@.sizes),
    {
        let mut widest = Single { bits: ONE };
        let mut i: usize = 0;
        proof {
            assert(self.sizes@.take(0) =~= Seq::empty());
        }
        while i < self.sizes.len()
            invariant
                i <= self.sizes@.len(),
                widest == widest_page(self.sizes@.take(i as int)),
            decreases self.sizes@.len() - i,
        {
            proof {
                assert(self.sizes@.take(i + 1).drop_last() =~= self.sizes@.take(i as int));
                assert(self.sizes@.take(i + 1).last() == self.sizes@[i as int]);
            }
            if widest.is_less(self.sizes[i].width) {
                widest = self.sizes[i].width;
            }
            i += 1;
        }
        proof {
            assert(self.sizes@.take(i as int) =~= self.sizes@);
        }
        widest
    }

    /// The scale of the pages: the zoom, or where there is none, the one at which the widest page
    /// fills the view, `fitting`, within the limits.
    pub fn scale(&self, fitting: Single) -> (r: Single)
        ensures
            r == match self.zoom {
                Some(zoom) => zoom,
                None => zoom_clamped(fitting),
            },
    {
        match self.zoom {
            Some(zoom) => zoom,
            None => fitting.clamp_to(Single { bits: MIN_ZOOM }, Single { bits: MAX_ZOOM }),
        }
    }

    /// The place that is shown when the page `page` is at the top, and scrolled past by `fraction`
    /// of its height.
    pub fn position(page: usize, fraction: Single) -> (r: Position)
        ensures
            r == (Position { page, fraction: unit_clamped(fraction) }),
    {
        Position {
            page,
            fraction: fraction.clamp_to(Single { bits: ZERO }, Single { bits: ONE }),
        }
    }

    /// Goes to a place. Returns the nearest one that the document has, which is to be scrolled to.
    pub fn restore_position(&mut self, position: Position) -> (target: Position)
        ensures
            target == position.within(old(self)@.sizes.len()),
            final(self)@ == old(self)@.at(position),
    {
        let last: usize = if self.sizes.len() == 0 {
            0
        } else {
            self.sizes.len() - 1
        };
        let page: usize = if position.page < last {
            position.page
        } else {
            last
        };
        self.current_page = page;
        Position {
            page,
            fraction: position.fraction.clamp_to(Single { bits: ZERO }, Single { bits: ONE }),
        }
    }

    /// Changes the zoom, within its limits. Without a zoom the pages fit the width of the view.
    pub fn set_zoom(&mut self, zoom: Option<Single>) -> (event: PdfViewEvent)
        ensures
            final(self)@ == (PdfViewState {
                zoom: match zoom {
                    Some(zoom) => Some(zoom_clamped(zoom)),
                    None => None,
                },
                ..old(self)@
            }),
    {
        self.zoom = match zoom {
            Some(zoom) => Some(
                zoom.clamp_to(Single { bits: MIN_ZOOM }, Single { bits: MAX_ZOOM }),
            ),
            None => None,
        };
        PdfViewEvent
    }

    /// Fits the pages to the width of the view.
    pub fn fit_width(&mut self) -> (event: PdfViewEvent)
        ensures
            final(self)@ == (PdfViewState { zoom: None, ..old(self)@ }),
    {
        self.set_zoom(None)
    }

    /// Shows the pages at their size.
    pub fn reset_zoom(&mut self) -> (event: PdfViewEvent)
        ensures
            final(self)@ == (PdfViewState { zoom: Some(Single { bits: ONE }), ..old(self)@ }),
    {
        self.set_zoom(Some(Single { bits: ONE }))
    }

    /// Goes to the top of a page.
    pub fn go_to_page(&mut self, page: usize) -> (target: Position)
        ensures
            target == (Position { page, fraction: Single { bits: ZERO } }).within(
                old(self)@.sizes.len(),
            ),
            final(self)@ == old(self)@.at((Position { page, fraction: Single { bits: ZERO } })),
    {
        self.restore_position(Position { page, fraction: Single { bits: ZERO } })
    }

    /// Goes to the next page.
    pub fn next_page(&mut self) -> (target: Position)
        ensures
            target.page == final(self).current_page,
            target.fraction == (Single { bits: ZERO }),
            final(self)@ == (PdfViewState {
                current_page: if old(self).sizes@.len() == 0 {
                    0
                } else if old(self).current_page + 1 < old(self).sizes@.len() {
                    (old(self).current_page + 1) as usize
                } else {
                    (old(self).sizes@.len() - 1) as usize
                },
                ..old(self)@
            }),
    {
        let next: usize = if self.current_page < usize::MAX {
            self.current_page + 1
        } else {
            usize::MAX
        };
        proof {
            assert(self.sizes.len() <= usize::MAX);
        }
        self.go_to_page(next)
    }

    /// Goes to the previous page.
    pub fn previous_page(&mut self) -> (target: Position)
        ensures
            target.page == final(self).current_page,
            target.fraction == (Single { bits: ZERO }),
            final(self)@ == (PdfViewState {
                current_page: if old(self).sizes@.len() == 0 || old(self).current_page == 0 {
                    0
                } else if old(self).current_page <= old(self).sizes@.len() {
                    (old(self).current_page - 1) as usize
                } else {
                    (old(self).sizes@.len() - 1) as usize
                },
                ..old(self)@
            }),
    {
        let previous: usize = if self.current_page > 0 {
            self.current_page - 1
        } else {
            0
        };
        self.go_to_page(previous)
    }

    /// Goes to the first page.
    pub fn first_page(&mut self) -> (target: Position)
        ensures
            target == (Position { page: 0, fraction: Single { bits: ZERO } }),
            final(self)@ == (PdfViewState { current_page: 0, ..old(self)@ }),
    {
        self.go_to_page(0)
    }

    /// Goes to the last page.
    pub fn last_page(&mut self) -> (target: Position)
        ensures
            target.page == final(self).current_page,
            target.fraction == (Single { bits: ZERO }),
            final(self)@ == (PdfViewState {
                current_page: if old(self).sizes@.len() == 0 {
                    0
                } else {
                    (old(self).sizes@.len() - 1) as usize
                },
                ..old(self)@
            }),
    {
        let last: usize = if self.sizes.len() == 0 {
            0
        } else {
            self.sizes.len() - 1
        };
        self.go_to_page(last)
    }

    /// Reads the file of the document again.
    pub fn reload(document: &mut PdfDocument) -> (r: (ReloadTask, ReloadAction))
        ensures
            final(document)@ == (DocumentView { loading: true, ..old(document)@ }),
            final(document).cache == old(document).cache,
            r == (ReloadTask { failures: 0 }, ReloadAction::Load),
    {
        document.reload(false)
    }

    /// Does what a command asks for. `zoomed` is the scale that the pages get where the command
    /// changes it by a step.
    pub fn perform(&mut self, document: &mut PdfDocument, command: ViewCommand, zoomed: Single) -> (r:
        Performed)
        ensures
            final(self)@ == old(self)@.performed(command, zoomed),
            final(document)@ == if command is Reload {
                (DocumentView { loading: true, ..old(document)@ })
            } else {
                old(document)@
            },
            final(document).cache == old(document).cache,
            match command {
                ViewCommand::Reload => r == Performed::Reload(
                    ReloadTask { failures: 0 },
                    ReloadAction::Load,
                ),
                ViewCommand::ZoomIn
                | ViewCommand::ZoomOut
                | ViewCommand::FitWidth
                | ViewCommand::ResetZoom => r == Performed::Zoomed,
                _ => r == Performed::ScrollTo(
                    top_of(old(self)@.page_of_command(command)->0).within(old(self)@.sizes.len()),
                ),
            },
    {
        proof {
            assert(self.sizes.len() <= usize::MAX);
        }
        match command {
            ViewCommand::ZoomIn | ViewCommand::ZoomOut => {
                self.set_zoom(Some(zoomed));
                Performed::Zoomed
            },
            ViewCommand::FitWidth => {
                self.fit_width();
                Performed::Zoomed
            },
            ViewCommand::ResetZoom => {
                self.reset_zoom();
                Performed::Zoomed
            },
            ViewCommand::NextPage => Performed::ScrollTo(self.next_page()),
            ViewCommand::PreviousPage => Performed::ScrollTo(self.previous_page()),
            ViewCommand::FirstPage => Performed::ScrollTo(self.first_page()),
            ViewCommand::LastPage => Performed::ScrollTo(self.last_page()),
            ViewCommand::Reload => {
                let (task, action) = PdfView::reload(document);
                Performed::Reload(task, action)
            },
        }
    }

    /// Takes note of the width of the view. `differs` tells whether it differs from the width that
    /// is known by more than half a pixel. Tells whether the pages have to be measured again.
    pub fn viewport_measured(&mut self, width: Single, differs: bool) -> (remeasure: bool)
        ensures
            remeasure == ((Single { bits: ZERO }).less(width) && differs),
            final(self)@ == if remeasure {
                (PdfViewState { viewport_width: width, ..old(self)@ })
            } else {
                old(self)@
            },
    {
        if (Single { bits: ZERO }).is_less(width) && differs {
            self.viewport_width = width;
            true
        } else {
            false
        }
    }

    /// The size of a page, if the view has it.
    pub fn page_size(&self, page: usize) -> (r: Option<PageSize>)
        ensures
            r == if page < self@.sizes.len() {
                Some(self@.sizes[page as int])
            } else {
                None
            },
    {
        if page < self.sizes.len() {
            Some(self.sizes[page])
        } else {
            None
        }
    }

    /// What stands in the place of a page, and whether the page has to be rendered.
    pub fn render_page(document: &mut PdfDocument, key: RenderKey) -> (r: (PageDisplay, bool))
        requires
            old(document).cache.wf(),
        ensures
            final(document).cache.wf(),
            final(document)@ == (DocumentView {
                cache: cache::touched(old(document)@.cache, key),
                ..old(document)@
            }),
            r.1 == (!cache::has_key(old(document)@.cache, key) && old(document).has_renderer),
            ({
                let entries = old(document)@.cache;
                let entry = entries[cache::place_of(entries, key) as int];
                if cache::has_key(entries, key) {
                    match entry.result {
                        Ok(image) => r.0 == PageDisplay::Image(image),
                        Err(message) => r.0 is Error && r.0->Error_0@ == message,
                    }
                } else {
                    match cache::latest_image(entries, key.page) {
                        Some(image) => r.0 == PageDisplay::Image(image),
                        None => r.0 == PageDisplay::Rendering,
                    }
                }
            }),
    {
        let answer = document.page(key);
        let display = match answer.result {
            Ok(Some(image)) => PageDisplay::Image(image),
            Ok(None) => PageDisplay::Rendering,
            Err(message) => PageDisplay::Error(message),
        };
        (display, answer.request)
    }

    /// The tool bar. `zoom_label` is the scale in per cent.
    pub fn toolbar(&self, loading: bool, zoom_label: String) -> (parts: Vec<ToolbarPart>)
        requires
            self.current_page < usize::MAX,
        ensures
            part_views(parts@) == toolbar_parts(
                self.current_page as int,
                self@.sizes.len(),
                loading,
                zoom_label@,
            ),
    {
        let count: usize = self.sizes.len();
        let number: usize = if count == 0 {
            0
        } else {
            self.current_page + 1
        };
        let mut label = String::new();
        push_decimal(&mut label, number as u64);
        label.append(" / ");
        push_decimal(&mut label, count as u64);
        let mut parts: Vec<ToolbarPart> = Vec::new();
        parts.push(
            button(
                "previous-page",
                "Previous".to_owned(),
                count == 0 || self.current_page == 0,
                ViewCommand::PreviousPage,
            ),
        );
        parts.push(ToolbarPart::Label(label));
        parts.push(
            button(
                "next-page",
                "Next".to_owned(),
                count == 0 || self.current_page + 1 >= count,
                ViewCommand::NextPage,
            ),
        );
        parts.push(ToolbarPart::Space);
        parts.push(button("zoom-out", "−".to_owned(), false, ViewCommand::ZoomOut));
        parts.push(button("reset-zoom", zoom_label, false, ViewCommand::ResetZoom));
        parts.push(button("zoom-in", "+".to_owned(), false, ViewCommand::ZoomIn));
        parts.push(button("fit-width", "Fit width".to_owned(), false, ViewCommand::FitWidth));
        parts.push(button("reload", "Reload".to_owned(), loading, ViewCommand::Reload));
        proof {
            assert(label@ =~= page_label(self.current_page as int, count as nat));
            assert(part_views(parts@) =~= toolbar_parts(
                self.current_page as int,
                self@.sizes.len(),
                loading,
                zoom_label@,
            ));
        }
        parts
    }

    /// The lines between the tool bar and the pages: that the document is being read, and what is
    /// wrong with it.
    pub fn notices(document: &PdfDocument) -> (r: (Option<&'static str>, Option<String>))
        ensures
            r.0 is Some <==> document.loading,
            r.0 is Some ==> r.0->0@ == "Loading PDF…"@,
            document::message_of(r.1) == document@.error,
    {
        let loading = if document.loading {
            Some("Loading PDF…")
        } else {
            None
        };
        let error = match &document.error {
            Some(message) => Some(message.clone()),
            None => None,
        };
        (loading, error)
    }

    /// The title of the tab: the name of the file, if it has one.
    pub fn tab_content_text(file_name: Option<&str>) -> (r: String)
        ensures
            r@ == match file_name {
                Some(name) => name@,
                None => "PDF"@,
            },
    {
        match file_name {
            Some(name) => name.to_owned(),
            None => "PDF".to_owned(),
        }
    }

    /// What the tab is told when the view changed, in order: once, to show the view anew.
    pub fn to_item_events(event: PdfViewEvent) -> (r: Vec<ItemEvent>)
        ensures
            r@ == seq![ItemEvent::UpdateTab],
    {
        vec![ItemEvent::UpdateTab]
    }

    /// Whether the file of the document was deleted.
    pub fn has_deleted_file(document: &PdfDocument) -> (r: bool)
        ensures
            r == document.deleted,
    {
        document.deleted
    }

    /// A view of the same document, at the same place and with the same zoom. `shown` is the place
    /// that is shown.
    pub fn clone_on_split(&self, document: &PdfDocument, shown: Position) -> (r: (PdfView, Position))
        ensures
            r.0@ == (PdfViewState {
                zoom: self.zoom,
                viewport_width: self.viewport_width,
                ..PdfViewState::fresh(document@)
            }).at(shown),
            r.1 == shown.within(document@.sizes.len()),
    {
        let mut view = PdfView::new(document);
        view.zoom = self.zoom;
        view.viewport_width = self.viewport_width;
        let target = view.restore_position(shown);
        proof {
            assert(view@ =~= (PdfViewState {
                zoom: self.zoom,
                viewport_width: self.viewport_width,
                ..PdfViewState::fresh(document@)
            }).at(shown));
        }
        (view, target)
    }

    /// Restores what was saved. A place in a document that was not read yet waits for its pages;
    /// otherwise the place to scroll to is returned.
    pub fn resume(&mut self, saved: SavedView) -> (target: Option<Position>)
        ensures
            final(self)@ == old(self)@.resumed(saved),
            target == if old(self)@.sizes.len() == 0 {
                None
            } else {
                Some(saved.position().within(old(self)@.sizes.len()))
            },
    {
        self.zoom = match saved.zoom {
            Some(zoom) => Some(
                zoom.clamp_to(Single { bits: MIN_ZOOM }, Single { bits: MAX_ZOOM }),
            ),
            None => None,
        };
        let page: usize = if saved.page < 0 {
            0
        } else {
            saved.page as usize
        };
        let position = Position { page, fraction: saved.fraction };
        if self.sizes.len() == 0 {
            self.restored_position = Some(position);
            proof {
                assert(self@ =~= old(self)@.resumed(saved));
            }
            None
        } else {
            let target = self.restore_position(position);
            proof {
                assert(self@ =~= old(self)@.resumed(saved));
            }
            Some(target)
        }
    }

    /// What is saved of the view. `shown` is the place that is shown.
    pub fn saved(&self, shown: Position) -> (r: SavedView)
        ensures
            r == (SavedView {
                page: self@.kept_position(shown).page as i64,
                fraction: self@.kept_position(shown).fraction,
                zoom: self.zoom,
            }),
    {
        let position = match self.restored_position {
            Some(position) => position,
            None => shown,
        };
        SavedView { page: position.page as i64, fraction: position.fraction, zoom: self.zoom }
    }
}

/// A button of the tool bar.
fn button(id: &'static str, label: String, disabled: bool, command: ViewCommand) -> (r: ToolbarPart)
    ensures
        r@ == (ToolbarPartView::Button { id: id@, label: label@, disabled, command }),
{
    ToolbarPart::Button { id, label, disabled, command }
}

/// No command takes the zoom beyond its limits.
pub proof fn zoom_stays_within_its_limits(
    view: PdfViewState,
    command: ViewCommand,
    zoomed: Single,
)
    requires
        view.zoom is Some ==> zoom_clamped(view.zoom->0) == view.zoom->0,
    ensures
        view.performed(command, zoomed).zoom is Some ==> zoom_clamped(
            view.performed(command, zoomed).zoom->0,
        ) == view.performed(command, zoomed).zoom->0,
{
}

/// The current page is always one of the document, once a place was gone to.
pub proof fn restored_page_exists(view: PdfViewState, position: Position)
    requires
        view.sizes.len() > 0,
        view.sizes.len() <= usize::MAX,
    ensures
        view.at(position).current_page < view.sizes.len(),
{
}

/// The place is kept when the pages are replaced, where the new ones have it.
pub proof fn place_survives_a_reload(
    view: PdfViewState,
    document: DocumentView,
    shown: Position,
)
    requires
        document.generation != view.generation,
        view.restored_position is None,
        shown.page < document.sizes.len(),
        unit_clamped(shown.fraction) == shown.fraction,
    ensures
        view.kept_position(shown).within(document.sizes.len()) == shown,
        view.updated(document, shown).current_page == shown.page,
        view.updated(document, shown).zoom == view.zoom,
{
}

/// A view that was saved and is restored shows the same place with the same zoom, where the
/// document has the place.
pub proof fn saved_view_is_restored(
    view: PdfViewState,
    fresh: PdfViewState,
    shown: Position,
    saved: SavedView,
)
    requires
        saved.page == view.kept_position(shown).page,
        saved.fraction == view.kept_position(shown).fraction,
        saved.zoom == view.zoom,
        view.kept_position(shown).page < fresh.sizes.len(),
        unit_clamped(view.kept_position(shown).fraction) == view.kept_position(shown).fraction,
        view.zoom is Some ==> zoom_clamped(view.zoom->0) == view.zoom->0,
    ensures
        saved.position().within(fresh.sizes.len()) == view.kept_position(shown),
        fresh.resumed(saved).zoom == view.zoom,
{
}

/// Restoring before the document was read leads to the same place as restoring afterwards.
pub proof fn restoring_can_wait(
    view: PdfViewState,
    document: DocumentView,
    shown: Position,
    saved: SavedView,
)
    requires
        view.sizes.len() == 0,
        document.generation != view.generation,
        document.sizes.len() > 0,
    ensures
        view.resumed(saved).updated(document, shown) == view.with_pages(document).resumed(saved),
{
    assert(view.resumed(saved).updated(document, shown) =~= view.with_pages(document).resumed(
        saved,
    ));
}

/// No page is wider than the widest one, which is one of the pages, or one point wide where all pages
/// are narrower.
pub proof fn no_page_is_wider_than_the_widest(sizes: Seq<PageSize>)
    ensures
        forall|i: int|
            0 <= i < sizes.len() ==> !widest_page(sizes).less((#[trigger] sizes[i]).width),
        !widest_page(sizes).less(Single { bits: ONE }),
        !widest_page(sizes).nan(),
        widest_page(sizes) == (Single { bits: ONE }) || exists|i: int|
            0 <= i < sizes.len() && widest_page(sizes) == (#[trigger] sizes[i]).width,
    decreases sizes.len(),
{
    if sizes.len() > 0 {
        let front = sizes.drop_last();
        no_page_is_wider_than_the_widest(front);
        assert forall|i: int| 0 <= i < sizes.len() implies !widest_page(sizes).less(
            (#[trigger] sizes[i]).width,
        ) by {
            if i < front.len() {
                assert(sizes[i] == front[i]);
            }
        }
        if widest_page(sizes) == widest_page(front) {
            if widest_page(front) != (Single { bits: ONE }) {
                let i = choose|i: int|
                    0 <= i < front.len() && widest_page(front) == (#[trigger] front[i]).width;
                assert(sizes[i] == front[i]);
            }
        } else {
            assert(widest_page(sizes) == sizes[sizes.len() - 1].width);
        }
    }
}

/// A place in a document is kept where the document has it. A page behind the last one becomes the
/// last one, and a part of a page lies between nothing and all of it.
pub proof fn places_are_kept_within_the_document(position: Position, count: nat)
    requires
        count <= usize::MAX,
    ensures
        ({
            let (zero, one) = (Single { bits: ZERO }, Single { bits: ONE });
            let place = position.within(count);
            &&& position.page < count ==> place.page == position.page
            &&& position.page >= count && count > 0 ==> place.page + 1 == count
            &&& count == 0 ==> place.page == 0
            &&& !position.fraction.nan() ==> !place.fraction.less(zero) && !one.less(place.fraction)
            &&& !position.fraction.less(zero) && !one.less(position.fraction) ==> place.fraction
                == position.fraction
            &&& position.fraction.less(zero) ==> place.fraction == zero
            &&& one.less(position.fraction) ==> place.fraction == one
        }),
{
}

/// A zoom that was asked for is the one that the view has, as far as it lies within the limits, and
/// nothing else of the view changes with it.
pub proof fn zoom_is_the_one_that_was_asked_for(
    view: PdfViewState,
    command: ViewCommand,
    zoomed: Single,
)
    requires
        command is ZoomIn || command is ZoomOut || command is FitWidth || command is ResetZoom,
        !zoomed.nan(),
    ensures
        ({
            let (low, high) = (Single { bits: MIN_ZOOM }, Single { bits: MAX_ZOOM });
            let after = view.performed(command, zoomed);
            &&& command is FitWidth ==> after.zoom is None
            &&& command is ResetZoom ==> after.zoom == Some(Single { bits: ONE })
            &&& command is ZoomIn || command is ZoomOut ==> {
                &&& after.zoom is Some
                &&& !after.zoom->0.less(low)
                &&& !high.less(after.zoom->0)
                &&& !zoomed.less(low) && !high.less(zoomed) ==> after.zoom == Some(zoomed)
                &&& zoomed.less(low) ==> after.zoom == Some(low)
                &&& high.less(zoomed) ==> after.zoom == Some(high)
            }
            &&& after.current_page == view.current_page
            &&& after.sizes == view.sizes
            &&& after.path == view.path
            &&& after.viewport_width == view.viewport_width
            &&& after.generation == view.generation
            &&& after.restored_position == view.restored_position
        }),
{
}

/// Pages are turned one by one, from the first to the last and back. Turning changes nothing of the
/// view but its page.
pub proof fn pages_are_turned_one_by_one(view: PdfViewState, zoomed: Single)
    requires
        view.sizes.len() <= usize::MAX,
        view.current_page < view.sizes.len(),
    ensures
        ({
            let count = view.sizes.len();
            let next = view.performed(ViewCommand::NextPage, zoomed);
            let previous = view.performed(ViewCommand::PreviousPage, zoomed);
            let first = view.performed(ViewCommand::FirstPage, zoomed);
            let last = view.performed(ViewCommand::LastPage, zoomed);
            &&& view.current_page + 1 < count ==> next.current_page == view.current_page + 1
                && next.performed(ViewCommand::PreviousPage, zoomed) == view
            &&& view.current_page + 1 == count ==> next == view
            &&& view.current_page > 0 ==> previous.current_page == view.current_page - 1
                && previous.performed(ViewCommand::NextPage, zoomed) == view
            &&& view.current_page == 0 ==> previous == view
            &&& first.current_page == 0
            &&& last.current_page + 1 == count
            &&& next.zoom == view.zoom && previous.zoom == view.zoom && first.zoom == view.zoom
                && last.zoom == view.zoom
            &&& next.sizes == view.sizes && previous.sizes == view.sizes && first.sizes
                == view.sizes && last.sizes == view.sizes
            &&& view.performed(ViewCommand::Reload, zoomed) == view
        }),
{
    let next = view.performed(ViewCommand::NextPage, zoomed);
    let previous = view.performed(ViewCommand::PreviousPage, zoomed);
    if view.current_page + 1 < view.sizes.len() {
        assert(next.performed(ViewCommand::PreviousPage, zoomed) =~= view);
    } else {
        assert(next =~= view);
    }
    if view.current_page > 0 {
        assert(previous.performed(ViewCommand::NextPage, zoomed) =~= view);
    } else {
        assert(previous =~= view);
    }
}

/// A button of the tool bar that turns pages is disabled where it would turn to no other page, and
/// the label between them counts the pages from one.
pub proof fn disabled_buttons_would_turn_no_page(
    view: PdfViewState,
    loading: bool,
    zoom_label: Seq<char>,
    zoomed: Single,
    i: int,
)
    requires
        0 < view.sizes.len() <= usize::MAX,
        view.current_page < view.sizes.len(),
        0 <= i < toolbar_parts(
            view.current_page as int,
            view.sizes.len(),
            loading,
            zoom_label,
        ).len(),
    ensures
        ({
            let parts = toolbar_parts(
                view.current_page as int,
                view.sizes.len(),
                loading,
                zoom_label,
            );
            match parts[i] {
                ToolbarPartView::Button { disabled, command, .. } => match command {
                    ViewCommand::Reload => disabled == loading,
                    ViewCommand::NextPage | ViewCommand::PreviousPage => disabled
                        == (view.performed(command, zoomed) == view),
                    _ => !disabled,
                },
                ToolbarPartView::Label(label) => label == text::decimal(
                    view.current_page as nat + 1,
                ) + " / "@ + text::decimal(view.sizes.len()),
                ToolbarPartView::Space => true,
            }
        }),
{
    pages_are_turned_one_by_one(view, zoomed);
}

/// Every command but those for the first and the last page has a button of its own.
pub proof fn commands_have_their_buttons(
    current: int,
    count: nat,
    loading: bool,
    zoom_label: Seq<char>,
    command: ViewCommand,
)
    requires
        !(command is FirstPage || command is LastPage),
    ensures
        ({
            let parts = toolbar_parts(current, count, loading, zoom_label);
            exists|k: int|
                0 <= k < parts.len() && #[trigger] parts[k] is Button && parts[k]->command
                    == command && forall|i: int|
                    0 <= i < parts.len() && i != k && #[trigger] parts[i] is Button
                        ==> parts[i]->command != command
        }),
{
    let parts = toolbar_parts(current, count, loading, zoom_label);
    let k: int = match command {
        ViewCommand::PreviousPage => 0,
        ViewCommand::NextPage => 2,
        ViewCommand::ZoomOut => 4,
        ViewCommand::ResetZoom => 5,
        ViewCommand::ZoomIn => 6,
        ViewCommand::FitWidth => 7,
        _ => 8,
    };
    assert(parts[k] is Button && parts[k]->command == command);
}

/// A fresh view shows the start of its document, fitted to its width.
pub proof fn fresh_views_show_the_start(document: DocumentView)
    ensures
        PdfViewState::fresh(document).current_page == 0,
        PdfViewState::fresh(document).zoom is None,
        PdfViewState::fresh(document).restored_position is None,
        PdfViewState::fresh(document).path == document.path,
        PdfViewState::fresh(document).sizes == document.sizes,
        PdfViewState::fresh(document).generation == document.generation,
{
}

/// A view follows its document: afterwards it has the document's path and, where the pages were
/// replaced, the new pages, and no place waits for them any longer. Where they were not, the view
/// stays where it is.
pub proof fn views_follow_their_document(
    view: PdfViewState,
    document: DocumentView,
    shown: Position,
)
    requires
        document.sizes.len() <= usize::MAX,
    ensures
        ({
            let after = view.updated(document, shown);
            &&& after.path == document.path
            &&& after.zoom == view.zoom
            &&& after.viewport_width == view.viewport_width
            &&& after.generation == document.generation
            &&& document.generation == view.generation ==> {
                &&& after.sizes == view.sizes
                &&& after.current_page == view.current_page
                &&& after.restored_position == view.restored_position
            }
            &&& document.generation != view.generation ==> {
                let kept = if view.restored_position is Some {
                    view.restored_position->0
                } else {
                    shown
                };
                &&& after.sizes == document.sizes
                &&& after.restored_position is None
                &&& kept.page < document.sizes.len() ==> after.current_page == kept.page
                &&& kept.page >= document.sizes.len() > 0 ==> after.current_page + 1
                    == document.sizes.len()
                &&& document.sizes.len() == 0 ==> after.current_page == 0
            }
        }),
{
}

/// What was saved is restored: the zoom within its limits, and the page that was saved, as far as the
/// document has it. Without pages the place waits for them.
pub proof fn saved_places_are_restored(view: PdfViewState, saved: SavedView)
    requires
        saved.page <= usize::MAX,
        view.sizes.len() <= usize::MAX,
    ensures
        ({
            let (low, high) = (Single { bits: MIN_ZOOM }, Single { bits: MAX_ZOOM });
            let after = view.resumed(saved);
            let count = view.sizes.len();
            &&& saved.zoom is None ==> after.zoom is None
            &&& saved.zoom is Some ==> after.zoom is Some
            &&& saved.zoom is Some && !saved.zoom->0.less(low) && !high.less(saved.zoom->0)
                ==> after.zoom == saved.zoom
            &&& saved.zoom is Some && saved.zoom->0.less(low) ==> after.zoom == Some(low)
            &&& saved.zoom is Some && high.less(saved.zoom->0) ==> after.zoom == Some(high)
            &&& count > 0 ==> {
                &&& saved.page < 0 ==> after.current_page == 0
                &&& 0 <= saved.page < count ==> after.current_page == saved.page
                &&& saved.page >= count ==> after.current_page + 1 == count
                &&& after.restored_position == view.restored_position
            }
            &&& count == 0 ==> {
                &&& after.current_page == view.current_page
                &&& after.restored_position is Some
                &&& after.restored_position->0.fraction == saved.fraction
                &&& after.restored_position->0.page == if saved.page < 0 {
                    0
                } else {
                    saved.page as int
                }
            }
            &&& after.sizes == view.sizes
            &&& after.path == view.path
            &&& after.viewport_width == view.viewport_width
            &&& after.generation == view.generation
        }),
{
}

/// What is known of a view is all that it holds.
pub proof fn views_hide_nothing(view: PdfView)
    ensures
        view@.path.worktree_id == view.path.worktree_id,
        view@.path.path == view.path.path@,
        view@.zoom == view.zoom,
        view@.viewport_width == view.viewport_width,
        view@.generation == view.generation,
        view@.sizes == view.sizes@,
        view@.current_page == view.current_page,
        view@.restored_position == view.restored_position,
{
}

/// What is known of a part of the tool bar is all that it shows and does.
pub proof fn toolbar_parts_hide_nothing(part: ToolbarPart)
    ensures
        part matches ToolbarPart::Button { id, label, disabled, command } ==> part@
            == (ToolbarPartView::Button { id: id@, label: label@, disabled, command }),
        part matches ToolbarPart::Label(label) ==> part@ == ToolbarPartView::Label(label@),
        part is Space ==> part@ is Space,
{
}

/// What is known of a tool bar are its parts, in their order.
pub proof fn toolbars_hide_nothing(parts: Seq<ToolbarPart>, i: int)
    requires
        0 <= i < parts.len(),
    ensures
        part_views(parts).len() == parts.len(),
        part_views(parts)[i] == parts[i]@,
{
}

} // verus!
