# pdf_compress

The core of a scanned-PDF compressor, verified with Verus: every page
image of a PDF is decoded to gray or RGB pixels, re-encoded as CCITT
Group 4 (black and white) or JPEG, and the pages are written into a new
PDF file.

- `src/` is the verified library. Decoding (`runlength`, `predictor`,
  `samples`, `params`, `colorspace`, `filters`, `ccitt`, `decoders`,
  `decode`, `extract`), re-encoding (`convert`, `resample`, `thumbnail`),
  output (`pdf_writer`, `tiff`) and the session decisions (`session`)
  each state their behaviour in `requires`/`ensures` over the plain page
  model of `model` and `types`. Calls into `flate2`, `weezl`, `fax`,
  `image`, `hayro-jbig2` and `base64` sit behind small trusted functions
  whose contracts name or state what those crates return.
- `app/` is the command-line program around it: reading PDF files with
  `lopdf`, the floating-point geometry (resolutions, page sizes, image
  placement, dithering, CMYK conversion) and file output.
- `tests/` exercises the library on concrete inputs.
