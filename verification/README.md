# yellowbox

Recovers Snapchat Memories from a data export: it reads `memories_history.json`, finds each
memory's media in the export archives (or downloads it), unpacks it, draws the overlay on
it, and writes the location and date into the finished file.

- `src/` is the verified library (Verus): the memory records and their states, date
  parsing and file naming, the parser of the export's memory list, the archive index, the
  decisions of every pipeline stage, the session and database rules.
- `app/` is the application layer: files, archives, HTTP, SQLite, ffmpeg and image work,
  driven by the library's decisions.
- `tests/` exercises the library on concrete inputs.
