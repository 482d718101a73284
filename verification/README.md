# fpx_convert

Converts a FlashPix (`.fpx`) image into a PNG (lossless, the default) or a
JPEG, keeping the camera model and capture date as EXIF metadata (a PNG
`eXIf` chunk, or a JPEG APP1 `Exif` segment).

The library under `src/` is written in Verus: each function carries a
`requires`/`ensures` contract over mathematical models of the bytes it
reads and writes, and Verus proves the code against it.

- `cfbf` — the Compound File Binary container (through the `cfb` crate):
  finding the FlashPix object, its streams and its `Resolution NNNN`
  storages. What the container holds is modelled as its walk (every entry,
  in preorder), what listing each storage gives, in order, and a map from
  stream paths to their bytes.
- `propset` — OLE property-set streams: the property table, and values of
  type VT_LPWSTR, VT_FILETIME and VT_BLOB.
- `subimage_header` — a resolution's tile table.
- `tile_decode` — decoding the tiles (through `jpeg-decoder`), splicing
  shared JPEG tables into tiles that lack them, and placing each tile's
  visible part into the image.
- `parse` — the whole decoding of a container, stage by stage: the best
  resolution by pixel area, its tiles, and the archival metadata. Only the
  pixel values the JPEG decoder computes are left open.
- `filetime`, `exif`, `exif_read` — the capture date as EXIF text (the
  calendar arithmetic proved against a direct definition of the Gregorian
  calendar), the TIFF payload holding it and the camera model, and the
  proof that a TIFF reader reads both back from that payload.
- `png_writer`, `jpeg_writer` — encoding (through `png` and
  `jpeg-encoder`).
- `le`, `text` — little-endian fields and decimal text.

`app/` is the command line around the library:

```
fpx-convert [--format png|jpeg] <input.fpx> <output>
fpx-convert [--format png|jpeg] --stdin --stdout
```

It exits with 0 on success, 1 on a conversion error (with a message on
stderr) and 2 on a usage error.
