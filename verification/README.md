# msxterm

A terminal for MSX computers reached over TCP: a line editor whose lines
are sent to the MSX, with local `#` commands (hexadecimal input, hex dumps,
lower-case sending, loading, listing, saving and renumbering BASIC
programs), and a local copy of the BASIC program that follows what is typed
and what the MSX lists back.

- `src/` is the library, verified with Verus:
  - `text` — trimming, splitting, searching, decimal and hexadecimal numerals;
  - `hex` — hex dumps and `#hex` input;
  - `order`, `program` — the program buffer (`Msxterm`) and its listings;
  - `lines` — numbered BASIC lines and `#list` ranges;
  - `lower` — lower-case sending outside string literals and `REM` lines;
  - `console` — which command a typed line is, and what it sends or keeps;
  - `receive` — what happens to each line received from the MSX.
- `app/` is the program: options, line editor, TCP connection, files, and
  the receiving thread.
- `tests/` runs the library on concrete values.
