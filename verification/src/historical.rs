//! Files of the past: when they can be edited, and how images are compared.

use vstd::prelude::*;
use vstd::string::*;

use crate::text::{self, push_decimal, same_text};

verus! {

/// How the lines of a text end.
#[derive(Clone, Copy, Debug, PartialEq, Eq, Structural)]
pub enum LineEnding {
    Unix,
    Windows,
}

/// The file behind a buffer.
#[derive(Clone, Copy, Debug, PartialEq, Eq, Structural)]
pub struct FileState {
    /// Whether the file is on this machine.
    pub is_local: bool,
    /// Whether the file is on disk.
    pub on_disk: bool,
    /// Whether the worktree knows the file, and knows it as no link to another one.
    pub is_plain_entry: bool,
}

/// A buffer of the editor.
#[derive(Debug)]
pub struct BufferState {
    pub is_writable: bool,
    pub is_dirty: bool,
    pub has_conflict: bool,
    pub file: Option<FileState>,
    pub line_ending: LineEnding,
    pub text: String,
}

/// Whether the working file may be edited in place of a file of the past: it is saved, is a plain
/// file of this machine, and holds the same text with the same line endings. `text` is the text of
/// the past with its line endings normalized.
pub open spec fn is_editable(buffer: BufferState, line_ending: LineEnding, text: Seq<char>) -> bool {
    &&& buffer.is_writable
    &&& !buffer.is_dirty
    &&& !buffer.has_conflict
    &&& buffer.file is Some
    &&& buffer.file->0.is_local
    &&& buffer.file->0.on_disk
    &&& buffer.file->0.is_plain_entry
    &&& buffer.line_ending == line_ending
    &&& buffer.text@ == text
}

/// Tells whether the working file may be edited in place of a file of the past.
pub fn can_edit_historical_buffer(
    buffer: &BufferState,
    line_ending: LineEnding,
    normalized: &str,
) -> (r: bool)
    ensures
        r == is_editable(*buffer, line_ending, normalized@),
{
    buffer.is_writable && !buffer.is_dirty && !buffer.has_conflict && match buffer.file {
        Some(file) => file.is_local && file.on_disk && file.is_plain_entry,
        None => false,
    } && buffer.line_ending == line_ending && same_text(buffer.text.as_str(), normalized)
}

/// A working file that is edited in place of a file of the past. The buffer, its comparison with
/// the file before the commit and its comparison with the file at the commit are known by numbers.
#[derive(Debug)]
pub struct HistoricalEditing {
    pub buffer: u64,
    pub diff: u64,
    pub edits_diff: u64,
    pub parent_text: Option<String>,
    pub commit_text: String,
}

/// What happens to a buffer.
#[derive(Clone, Copy, Debug, PartialEq, Eq, Structural)]
pub enum BufferEvent {
    Edited,
    Reloaded,
    Other,
}

/// A comparison that is made again, with the text that the buffer is compared with.
#[derive(Debug)]
pub struct BaseUpdate {
    pub diff: u64,
    pub base: Option<String>,
}

/// The text of a comparison.
pub open spec fn base_text(base: Option<String>) -> Option<Seq<char>> {
    match base {
        Some(text) => Some(text@),
        None => None,
    }
}

impl HistoricalEditing {
    /// The comparisons to make again after the buffer changed, in their order: with the file before
    /// the commit, then with the file at the commit.
    pub fn refresh(&self) -> (r: (BaseUpdate, BaseUpdate))
        ensures
            r.0.diff == self.diff,
            base_text(r.0.base) == base_text(self.parent_text),
            r.1.diff == self.edits_diff,
            base_text(r.1.base) == Some(self.commit_text@),
    {
        let parent = match &self.parent_text {
            Some(text) => Some(text.clone()),
            None => None,
        };
        (
            BaseUpdate { diff: self.diff, base: parent },
            BaseUpdate { diff: self.edits_diff, base: Some(self.commit_text.clone()) },
        )
    }

    /// Whether the comparisons have to be made again after something happened to the buffer.
    pub fn needs_refresh(event: BufferEvent) -> (r: bool)
        ensures
            r == (event is Edited || event is Reloaded),
    {
        match event {
            BufferEvent::Edited | BufferEvent::Reloaded => true,
            BufferEvent::Other => false,
        }
    }
}

/// Whether two ways of editing are the same in all their parts.
pub open spec fn same_editing(a: HistoricalEditing, b: HistoricalEditing) -> bool {
    &&& a.buffer == b.buffer
    &&& a.diff == b.diff
    &&& a.edits_diff == b.edits_diff
    &&& base_text(a.parent_text) == base_text(b.parent_text)
    &&& a.commit_text@ == b.commit_text@
}

impl Clone for HistoricalEditing {
    fn clone(&self) -> (r: HistoricalEditing)
        ensures
            same_editing(r, *self),
    {
        HistoricalEditing {
            buffer: self.buffer,
            diff: self.diff,
            edits_diff: self.edits_diff,
            parent_text: match &self.parent_text {
                Some(text) => Some(text.clone()),
                None => None,
            },
            commit_text: self.commit_text.clone(),
        }
    }
}

/// The offsets between which the gutter is marked for a change from `start` to `end`: up to the
/// last character that changed, or at the place of what was removed.
pub fn gutter_range(start: usize, end: usize) -> (r: (usize, usize))
    requires
        start <= end,
    ensures
        r.0 == start,
        r.1 == if start == end {
            end as int
        } else {
            end - 1
        },
        start <= r.1 <= end,
{
    if start == end {
        (start, end)
    } else {
        (start, end - 1)
    }
}

/// The size of an image, in pixels, and of its file, in bytes.
#[derive(Clone, Copy, Debug, PartialEq, Eq, Structural)]
pub struct ImageMetadata {
    pub width: u32,
    pub height: u32,
    pub file_size: u64,
}

/// An image that was decoded, by the number that it is known by.
#[derive(Clone, Copy, Debug, PartialEq, Eq, Structural)]
pub struct DecodedImage {
    pub image: u64,
    pub metadata: ImageMetadata,
}

/// An image of the past.
#[derive(Debug)]
pub enum HistoricalImage {
    Missing,
    Loaded { image: u64, metadata: ImageMetadata },
    Error(String),
}

/// What an image of the past is.
#[verifier::ext_equal]
pub enum HistoricalImageView {
    Missing,
    Loaded { image: u64, metadata: ImageMetadata },
    Error(Seq<char>),
}

impl View for HistoricalImage {
    type V = HistoricalImageView;

    open spec fn view(&self) -> HistoricalImageView {
        match self {
            HistoricalImage::Missing => HistoricalImageView::Missing,
            HistoricalImage::Loaded { image, metadata } => {
                HistoricalImageView::Loaded { image: *image, metadata: *metadata }
            },
            HistoricalImage::Error(message) => HistoricalImageView::Error(message@),
        }
    }
}

impl Clone for HistoricalImage {
    fn clone(&self) -> (r: HistoricalImage)
        ensures
            r@ == self@,
    {
        match self {
            HistoricalImage::Missing => HistoricalImage::Missing,
            HistoricalImage::Loaded { image, metadata } => {
                HistoricalImage::Loaded { image: *image, metadata: *metadata }
            },
            HistoricalImage::Error(message) => HistoricalImage::Error(message.clone()),
        }
    }
}

/// What becomes of an image whose bytes were decoded.
pub open spec fn decoded_image(decoded: Result<DecodedImage, String>) -> HistoricalImageView {
    match decoded {
        Ok(decoded) => HistoricalImageView::Loaded {
            image: decoded.image,
            metadata: decoded.metadata,
        },
        Err(message) => HistoricalImageView::Error("Cannot preview image: "@ + message@),
    }
}

impl HistoricalImage {
    /// An image whose bytes were decoded.
    pub fn from_decoded(decoded: Result<DecodedImage, String>) -> (r: HistoricalImage)
        ensures
            r@ == decoded_image(decoded),
    {
        match decoded {
            Ok(decoded) => HistoricalImage::Loaded {
                image: decoded.image,
                metadata: decoded.metadata,
            },
            Err(message) => {
                let mut text = "Cannot preview image: ".to_owned();
                text.append(message.as_str());
                HistoricalImage::Error(text)
            },
        }
    }

    /// The image of which the repository has these bytes, if it has any. `present` tells whether
    /// the file was there at all.
    pub fn load<F: FnOnce(Vec<u8>) -> Result<DecodedImage, String>>(
        bytes: Option<Vec<u8>>,
        present: bool,
        decode: F,
    ) -> (r: HistoricalImage)
        requires
            bytes is Some ==> call_requires(decode, (bytes->0,)),
        ensures
            match bytes {
                None => r@ == if present {
                    HistoricalImageView::Error("Image data is unavailable from this repository"@)
                } else {
                    HistoricalImageView::Missing
                },
                Some(bytes) => exists|decoded: Result<DecodedImage, String>|
                    call_ensures(decode, (bytes,), decoded) && r@ == #[trigger] decoded_image(
                        decoded,
                    ),
            },
    {
        match bytes {
            None => {
                if present {
                    HistoricalImage::Error(
                        "Image data is unavailable from this repository".to_owned(),
                    )
                } else {
                    HistoricalImage::Missing
                }
            },
            Some(bytes) => HistoricalImage::from_decoded(decode(bytes)),
        }
    }
}

/// An image before and after a commit.
#[derive(Debug)]
pub struct HistoricalImageDiff {
    pub before: HistoricalImage,
    pub after: HistoricalImage,
}

impl Clone for HistoricalImageDiff {
    fn clone(&self) -> (r: HistoricalImageDiff)
        ensures
            r.before@ == self.before@,
            r.after@ == self.after@,
    {
        HistoricalImageDiff { before: self.before.clone(), after: self.after.clone() }
    }
}

/// What is shown of an image.
#[derive(Debug)]
pub enum ImageBody {
    /// A line in a muted colour.
    Note(&'static str),
    /// A line in the colour of a warning.
    Warning(String),
    /// The image, in its own size or, without one, fitted to its place.
    Image { image: u64, size: Option<(u32, u32)> },
}

/// One of the two images that are compared.
#[derive(Debug)]
pub struct ImagePane {
    pub label: &'static str,
    pub dimensions: Option<String>,
    pub body: ImageBody,
}

/// What is said of the size of an image.
pub open spec fn dimensions_text(metadata: ImageMetadata) -> Seq<char> {
    text::decimal(metadata.width as nat) + " × "@ + text::decimal(metadata.height as nat) + " · "@
        + text::decimal(metadata.file_size as nat) + " bytes"@
}

/// Whether a pane shows an image as it has to be shown.
pub open spec fn shows_image(
    pane: ImagePane,
    image: HistoricalImageView,
    label: Seq<char>,
    actual_size: bool,
) -> bool {
    &&& pane.label@ == label
    &&& match image {
        HistoricalImageView::Missing => {
            &&& pane.dimensions is None
            &&& pane.body is Note
            &&& pane.body->Note_0@ == "Not present in this revision"@
        },
        HistoricalImageView::Error(message) => {
            &&& pane.dimensions is None
            &&& pane.body is Warning
            &&& pane.body->Warning_0@ == message
        },
        HistoricalImageView::Loaded { image, metadata } => {
            &&& pane.dimensions is Some
            &&& pane.dimensions->0@ == dimensions_text(metadata)
            &&& pane.body == (ImageBody::Image {
                image,
                size: if actual_size {
                    Some((metadata.width, metadata.height))
                } else {
                    None
                },
            })
        },
    }
}

impl HistoricalImage {
    /// What is shown of the image.
    pub fn render(&self, label: &'static str, actual_size: bool) -> (pane: ImagePane)
        ensures
            shows_image(pane, self@, label@, actual_size),
    {
        match self {
            HistoricalImage::Missing => ImagePane {
                label,
                dimensions: None,
                body: ImageBody::Note("Not present in this revision"),
            },
            HistoricalImage::Error(message) => ImagePane {
                label,
                dimensions: None,
                body: ImageBody::Warning(message.clone()),
            },
            HistoricalImage::Loaded { image, metadata } => {
                let mut dimensions = String::new();
                push_decimal(&mut dimensions, metadata.width as u64);
                dimensions.append(" × ");
                push_decimal(&mut dimensions, metadata.height as u64);
                dimensions.append(" · ");
                push_decimal(&mut dimensions, metadata.file_size);
                dimensions.append(" bytes");
                proof {
                    assert(dimensions@ =~= dimensions_text(*metadata));
                }
                let size = if actual_size {
                    Some((metadata.width, metadata.height))
                } else {
                    None
                };
                ImagePane {
                    label,
                    dimensions: Some(dimensions),
                    body: ImageBody::Image { image: *image, size },
                }
            },
        }
    }
}

/// A working file is edited in place of a file of the past only if it holds the same text with the
/// same line endings, is saved and not in conflict, can be written, and is a plain file on this
/// machine's disk. Nothing else is asked of it.
pub proof fn only_matching_saved_files_are_edited(
    buffer: BufferState,
    line_ending: LineEnding,
    text: Seq<char>,
)
    ensures
        is_editable(buffer, line_ending, text) ==> buffer.text@ == text && buffer.line_ending
            == line_ending && buffer.is_writable && !buffer.is_dirty && !buffer.has_conflict
            && buffer.file is Some && buffer.file->0.is_local && buffer.file->0.on_disk
            && buffer.file->0.is_plain_entry,
        buffer.text@ == text && buffer.line_ending == line_ending && buffer.is_writable
            && !buffer.is_dirty && !buffer.has_conflict && (buffer.file matches Some(file)
            && file.is_local && file.on_disk && file.is_plain_entry) ==> is_editable(
            buffer,
            line_ending,
            text,
        ),
{
}

/// The texts of a comparison are the same only where both are there and equal, or neither is there.
pub proof fn bases_are_told_apart(a: Option<String>, b: Option<String>)
    ensures
        base_text(a) == base_text(b) <==> (a is None && b is None) || (a is Some && b is Some
            && a->0@ == b->0@),
{
}

/// Editing that is taken over concerns the same buffer, the same comparisons and the same texts.
pub proof fn editing_is_taken_over_in_full(a: HistoricalEditing, b: HistoricalEditing)
    requires
        same_editing(a, b),
    ensures
        a.buffer == b.buffer,
        a.diff == b.diff,
        a.edits_diff == b.edits_diff,
        a.commit_text@ == b.commit_text@,
        a.parent_text is Some <==> b.parent_text is Some,
        a.parent_text is Some ==> a.parent_text->0@ == b.parent_text->0@,
{
}

/// An image that could be decoded is shown as it is, and of any other one the reason is told.
pub proof fn decoded_images_are_shown(decoded: Result<DecodedImage, String>)
    ensures
        decoded matches Ok(image) ==> (decoded_image(decoded) matches HistoricalImageView::Loaded {
            image: shown,
            metadata,
        } && shown == image.image && metadata == image.metadata),
        decoded matches Err(message) ==> (decoded_image(
            decoded,
        ) matches HistoricalImageView::Error(text) && text == "Cannot preview image: "@ + message@),
{
}

/// A pane shows an image in its own size or fitted, with its width, its height and the size of its
/// file, and tells where there is none or why it cannot be shown.
pub proof fn panes_show_their_image(
    pane: ImagePane,
    image: HistoricalImageView,
    label: Seq<char>,
    actual_size: bool,
)
    requires
        shows_image(pane, image, label, actual_size),
    ensures
        pane.label@ == label,
        pane.dimensions is Some <==> image is Loaded,
        image matches HistoricalImageView::Loaded { image: shown, metadata } ==> {
            &&& pane.body matches ImageBody::Image { image: number, size } && number == shown && (
            actual_size ==> size == Some((metadata.width, metadata.height))) && (!actual_size
                ==> size is None)
            &&& pane.dimensions->0@ == text::decimal(metadata.width as nat) + " × "@
                + text::decimal(metadata.height as nat) + " · "@ + text::decimal(
                metadata.file_size as nat,
            ) + " bytes"@
        },
        image is Missing ==> (pane.body matches ImageBody::Note(note) && note@
            == "Not present in this revision"@),
        image matches HistoricalImageView::Error(message) ==> (
        pane.body matches ImageBody::Warning(text) && text@ == message),
{
}

/// What is known of an image of the past is all that it holds.
pub proof fn historical_images_hide_nothing(image: HistoricalImage)
    ensures
        image is Missing <==> image@ is Missing,
        image matches HistoricalImage::Error(message) ==> image@ == HistoricalImageView::Error(
            message@,
        ),
        image matches HistoricalImage::Loaded { image: number, metadata } ==> image@
            == (HistoricalImageView::Loaded { image: number, metadata }),
{
}

} // verus!
