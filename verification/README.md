# day_stamps

A catalog of special-day stamps for daily-receipt, the lookup that decides
which stamp fires on a date, schema validation of a stamp's lines, and the
ESC/POS byte stream a stamp renders to; with the `day-stamp` command line
around it.

- `src/` is the library, verified with Verus:
  - `catalog.rs`: the stamp model, where the catalog directory is, and the
    lookups over the catalog's files (`which`, `find_by_id`, `list_all`),
    with the laws of the date lookup;
  - `date.rs`: dates, `YYYY-MM-DD` parsing through `chrono`, and the two file
    names a date is looked up under;
  - `validate.rs`: at most 12 lines of at most 40 graphemes each;
  - `render.rs`: the ESC/POS stream, text or a 24x24 raster glyph;
  - `commands.rs`: the decisions of `add`, `render`, `seed` and `list`;
  - `text.rs`: decimal rendering and string comparison.
- `app/main.rs` is the `day-stamp` program: arguments, environment, clock,
  files and JSON; it hands the library plain values.
- `tests/` exercises the library on concrete values.
