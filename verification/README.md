# stalcraft_clan_tool

A terminal tool for keeping a Stalcraft clan's roster and its clan-war
attendance, with its logic verified by Verus.

- `src/` is the verified library: the binary roster header and clan-war
  record formats (encoders, decoders and their round trips), the roster
  synchronisation with the clan list from the API, nickname normalisation and
  matching of recognised nicknames against the roster, the clan-war schedule
  (day, stage, round), the draft built from a screenshot, the menu tree, the
  column layout of lists, and the cleaning of the parties table.
- `tests/` runs the library on concrete values.
- `app/` is the program around it: arguments, configuration, files with
  locks, the HTTP request, OCR of screenshots, spreadsheets, notifications and
  the terminal screens.
