# remajiro_tools

Developer tools for the Majiro Engine: an archive extractor (`mjo-arc`), a
script IR converter (`mjo-ir`) and an image converter (`rct2png`).

The decisions and data transformations of the tools live in `src/`, written
in Verus and proved against their contracts:

- `archive` — which archive entry names stay inside the output directory,
  which extracted files need rewriting, the total size of an archive.
- `catalog` — offset-keyed translation catalogs: parsing the catalog text,
  reading hexadecimal offset keys, and turning the document into messages
  keyed by offset.
- `encode` — PNG output: refusing to overwrite without `--force`, encoding
  RGBA pixels, and which runs write a PNG at all.
- `localize` — placing catalog messages after the `TEXT_RENDER`
  instructions at their offsets, and building the annotated script body.
- `image` — color-key filling and alpha-mask merging on RGBA pixel buffers.
- `names` — color-key source names, alpha-mask candidates, output names.
- `batch` — which directory entries a batch conversion takes up, and the
  tally that decides its result.

`app/` holds the command-line front ends: argument parsing, file I/O, the
floating-point gray level of alpha masks, and the calls into the engine's
`formats` and `vm` crates for archive, script and image decoding.
