# bookforge

Turns a folder or ZIP archive of images (or a link downloaded with
`gallery-dl`) into a fixed-layout EPUB 3 book, one image per page.

* `src/` is the library, verified with Verus: natural file-name order and the
  page-ordering rules, numbered-sequence detection, output-path rules and
  settings, link titles, image validation (format, animated WebP, decoding,
  WebP to PNG), EXIF and archive-entry capture times, ZIP entry limits,
  the EPUB documents and archive entries, the preview lines, and the
  decisions around installing `gallery-dl`. Paths follow Unix rules. Calls into `image`, `kamadak-exif`,
  `chrono` and `time` stand behind small trusted wrappers whose contracts
  name or state what those crates return.
* `app/main.rs` is the command-line program around it: argument parsing,
  the settings file, reading and writing files, ZIP reading and writing,
  downloads, running processes, the terminal prompt, worker threads and
  terminal progress.
* `tests/` exercises the library on concrete values.
