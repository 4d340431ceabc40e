# cce-preview

A document and image viewer: the pages of a PDF, or a single image, in one
vertically scrolled window.

- `src/` is the viewer's logic, verified with Verus: which files are browsed
  (`path`, `collection`), what a document is and how its pages are found
  (`document`, `pdfinfo`, `tool`, `text`), how a page becomes pixels (`render`,
  `raster`), which pages stay resident (`store`), what events do (`input`,
  `viewer`), and what is drawn (`frame`). The proof functions whose names begin
  with `law_` state what holds of the library as a whole.
- `tests/` runs it on concrete values.
- `app/` is the program around it: files, helper programs, threads, the window,
  and the floating-point geometry of zoom and scrolling.

The PDF pages come from poppler's `pdfinfo` and `pdftoppm`. Pictures are decoded,
shrunk and turned by the `image` crate; what is believed of it, and of the few
functions of the standard library that are called without proof, stands in the
contracts of the functions marked `external_body` and of `assume_specification`.

Floating-point numbers pass through the library as bit patterns. It moves them
and trades their places; whatever is calculated with them is calculated in `app/`,
and the library is told the outcome of each comparison.
