# tinta-core

The core of Tinta, a meeting notes app for the Mac, as a library verified with Verus: the rules of
the meeting library, the Meet extension and desktop call state machines, the calendar reminders,
the MCP tools, the export formats, the Granola import, and the byte formats of the helpers.

## Layout

- `src/`: the verified library. Each public function states its result in its contract.
  - `text`: characters, lines, trimming, numbers, and the order of strings.
  - `calendar`, `reminders`: call links in events, the visible calendars, and the reminders.
  - `session`, `calls`: the recording, the Meet extension, desktop app calls, automatic stops, and
    engine restarts.
  - `db`, `search`: the rules of the library: tags, folders, retention, trash, merges, undo, and the
    search index.
  - `jobs`: the final pass and the summary, which run once at a time for each meeting, retention,
    and moving the library.
  - `speakers`: the order of the remote speaker labels of the final pass and their names.
  - `commands`: the settings that the window changes, the titles of new meetings, and the names of
    export files.
  - `tools`, `protocol`: the MCP tools and the requests of the app socket.
  - `export`, `date`: times, dates, Markdown, and subtitles.
  - `granola`: the Granola import.
  - `audio`: WAV files and native messaging frames.
  - `keys`, `paths`: the keys of the library and its paths.
- `tests/`: tests on concrete values.
- `app/`: the programs around the library: the SQLite library, the MCP server, the native messaging
  host, the app socket, and the parts that work on times in seconds.
