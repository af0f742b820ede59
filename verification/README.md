# ass_editor

A reader for Advanced SubStation Alpha (`.ass`) subtitle scripts and the
state of a small editor window around it, verified with Verus.

- `src/` is the verified library:
  - `lexical.rs`: the integer syntax of `u8::from_str_radix` and the decimal
    literals `f32::from_str` accepts;
  - `text.rs`: strings and character sequences;
  - `colour.rs`: `&HAABBGGRR` colours;
  - `grammar.rs`: the shapes of entry, style and event lines, with where
    each field lies, and the proof that each match is the split of the line
    a leftmost-first matcher prefers, and that no split fits where nothing
    matches;
  - `subtitle.rs`: times, events, styles and the parsed file;
  - `parser.rs`: what each line means in its section, and reading whole
    scripts;
  - `laws.rs`: what holds of reading scripts as a whole;
  - `ui.rs`: what the editor does on each message, and which lines it lists.
- `app/` is the window (iced, rfd) and the reading of files from disk.
- `tests/` runs the library, and compares the line matchers and the number
  syntaxes with `regex` and `std`.
