# flequit_ui

The rules behind the user interface of the Flequit task manager, written in
Verus: every function of the library states what it does in `requires` /
`ensures`, and Verus proves it.

## Layout

- `src/search/` — the search box: normalisation, the query lexer and
  parser, name resolution, the editable query document, suggestions, the
  sidebar's view of a query, and query evaluation against tasks.
- `src/settings/` — the settings model, locales, fonts, time zone and
  section search, sort keys, date-time formats, and the edits the settings
  screen makes (saved filters and presets, due buttons, date-time formats).
- `src/adapters/` — values shown by the interface: colours, date pickers
  and typed dates, projects, tags, task rows and the repeat editor's draft.
- `src/viewmodels/` — state machines and rules of the main window: the
  runtime store that keeps optimistic task edits, task ordering, the
  quick-add destination, repeat rules and their occurrences, and smaller
  editors.
- `app/` — the parts that talk to the outside world: the clock, the
  machine's own time zone, the settings store and the environment's locale
  variables.
- `tests/` — tests of the library through its public interface.

The library reads the time zone setting, renders due dates and decides
where due horizons end in UTC and in the zones of the time zone database,
calling `chrono` and `chrono_tz` for the calendar work. Instants are counted
in nanoseconds since the Unix epoch, UTC. What depends on the machine's own
zone is computed in `app/` and handed to the library.
