# Model Browser

A single-binary web app for browsing and previewing local `.3mf` / `.stl` model
libraries in a browser-based 3D viewer. The decisions it makes are verified with
Verus; the web server around them is ordinary Rust.

## Layout

- `src/` — the verified library:
  - `paths` — request-path validation: percent-decoding, refusal of absolute paths and
    `..` components (with the platform's path separator), per-endpoint extension
    allowlists, containment below the library root.
  - `frontend` — which embedded asset answers a request, its MIME type and whether the
    HTML security headers go with it.
  - `tree` — the filtered, pruned and sorted directory tree built from a listing.
  - `stl` — binary STL decoding and vertex welding.
  - `mesh` — indexed meshes and their little-endian wire format.
  - `threemf` — 3MF packages: tag attributes (`attrs`), colours (`colors`), model XML and
    build items (`model`), Bambu Studio colour metadata (`meta`), reading a package and
    resolving its build items into placed geometry (`package`), and writing a minimal
    package (`write`).
  - `xml`, `zipio`, `text`, `floatlit` — XML events, in-memory zip archives, text helpers
    and the decimal float literal grammar.
- `tests/` — tests of the library.
- `app/` — the server: command line, HTTP routes, file-system access, and the
  floating-point parts (colour conversion to linear light, affine transforms).

## Usage

```
model-browser --dir /path/to/models [--port 8080] [--no-open]
```

The frontend is embedded from `frontend/` at build time.
