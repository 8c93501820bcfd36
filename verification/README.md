# portfolio

A photography portfolio server whose logic is a verified library.

- `src/` — the library, verified with Verus:
  - `config` — site settings, copyright line and licensing statements;
  - `gallery` — photo discovery from scanned folders: variants, titles,
    slugs, URLs, photo order, the gallery list and its navigation order,
    the About page;
  - `exif` — which EXIF values a photo shows and how they are worded;
  - `image_params` — the width/quality presets of the image endpoint;
  - `image_cache` — cache file names, the cache sweep's decisions;
  - `imaging` — decoding, shrinking and WebP-encoding an image, and the
    steps of serving it through the on-disk cache;
  - `server` — time-limited in-memory caches, how a gallery is arranged and
    for how long, which file-system events invalidate what;
  - `mosaic` — orientation counts that steer the mosaic layout;
  - `display` — grid classes, cleaned-up labels and links for the pages;
  - `text`, `types` — string helpers and shared types.
- `app/` — the HTTP server around it: file-system access, the JSON API,
  the folder watcher and the floating-point mosaic geometry.
- `tests/` — tests of the library.
