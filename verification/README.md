# sapling

A small read-only media server. Its decisions live in a library verified with
Verus (`src/`); a thin program (`app/`) serves HTTP with axum, renders pages
with leptos, and does the filesystem and process work the library asks for.

## Library modules

- `path`: paths as a root flag and segments; normalization of request paths
  (a `..` piece is refused, so a resolved path never leaves the media root).
- `media`: resolving request paths, the listing of a directory (non-empty
  folders and served videos, sorted by lowercase name) and the search over the
  media tree.
- `links`: percent-encoded URL paths, breadcrumbs and result links.
- `order`: the order of strings and a stable sort by string keys.
- `text`: trimming, substring search, decimal numbers, character helpers.
- `thumbnail`: names and places of freedesktop thumbnails, URIs of a video,
  reading and writing thumbnail metadata.
- `thumbnail_job`: the steps of finding or making a video's thumbnail, as a
  state machine the program drives.
- `pages`: error answers and the texts and links of pages.

## Layout

- `src/`: the verified library.
- `tests/`: tests of the library.
- `app/`: the server.
