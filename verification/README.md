# mosken

A small storage engine: 4 KiB slotted pages, a page directory that tracks the
free space of every data page, and a table layer that places records on pages
by first fit and reads them back by tuple ID.

- `src/` is the verified library (Verus):
  - `bytes` — little-endian `u32` fields inside byte blocks;
  - `page` — the slotted page: add, read, delete, compact, layout check;
  - `pagedir` — the directory page: init, add, lookup, first-fit search,
    free-space update;
  - `table` — every decision of table inserts and reads;
  - `heapfile` — page counts and page offsets of a heap file;
  - `payment` — the demo's payment record and its byte encoding.
- `app/` is the program around it: the heap file on disk, the `Table` and
  `TableReader` that perform the file I/O the library's decisions call for,
  error messages, and the demo `main`.
- `tests/` runs the library on concrete values.
