# viewer_core

The logic behind two views of a code editor, written in Rust and verified with Verus.

- The PDF viewer: opening a file, following it when it changes or moves, queueing pages for a
  background renderer, keeping rendered pages within a budget, extracting text and links, and the
  state of a view with its zoom and its place.
- The commit view: opening a commit in a pane, loading the files that it changed, letting the
  working file be edited in place of a file of the past where the two are the same, comparing
  images, and acting on stash entries.

## Layout

`src/` is the verified library.

| module | what it holds |
| --- | --- |
| `text`, `number` | operations on text, and numbers held as their bit patterns |
| `pdf`, `raster` | what is taken from the crates `hayro`, `kurbo` and `image` |
| `tokens`, `dictionaries`, `parameters` | which files the PDF reader can be given |
| `renderer`, `cache` | the render queue and its worker, and the pages that are kept |
| `interaction`, `links` | the text and the links of a page |
| `document`, `pdf_viewer` | a document and a view of it |
| `repository`, `historical` | commits, their files, and editing files of the past |
| `diff_loader`, `open_commit` | loading what a commit changed, and opening it in a pane |
| `commit_view`, `commit_toolbar`, `stash` | the view, its tool bar, and its stash entry |
| `sample` | small PDF files for tests |

The functions marked `external_body` are believed, not proved. They do no more than call
into another crate or into the standard library, and their comments say what is believed of the
calls.

`tests/` runs the library on concrete values. `app/` is the part that cannot be verified: the render
thread, floating-point geometry, and the traits through which the editor is reached.
