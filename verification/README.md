# laya

The verified core of Laya, a server of the IIIF Image API 3.0.

`src/` is the library, checked by Verus:

- `image` — the region and size arithmetic of image requests.
- `http` — routing of request paths below the service prefix, the statuses
  and bodies that failures are answered with, response heads and the
  `info.json` document.
- `storage` — where image identifiers point (local paths or S3 objects), the
  metadata of stored objects, storage errors, and when cached credentials are
  reused.
- `text` — the character-level string operations the above rely on.
- `options` — the server's configuration.
- `tcd` — the tile coder of the JPEG 2000 codec: the layout of a tile into
  components, resolution levels, bands, precincts and code-blocks; the window
  of interest of a partial decode; the decisions of the component transform
  and the wavelet transform; the DC level shift; the fixed-quality layers of
  an encode; and the conversion of samples to and from byte buffers.

`app/` is the server around it: the command line, the HTTP server, storage
I/O and the floating-point work of the tile coder, among it the
rate-distortion allocation of quality layers. `tests/` exercises the
library.
