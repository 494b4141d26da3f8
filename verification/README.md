# rusty_lines

A line editor for Rust, a readline alternative, written in Verus: emacs and vi
keymaps, a kill ring, undo, incremental and prefix history search, completion
with menu cycling, hints, abbreviations, bracketed paste, rebindable keys, and a
paint that is exact about display columns.

- `src/` is the editor, verified. It does no input or output: a session takes
  the bytes that the terminal sent and says what to do next, and the text to
  write is in the line's output.
- `app/` is the terminal: raw mode, reading and writing, the history file, the
  external editor, and a pseudo-terminal benchmark. Where there is no raw
  terminal (not Unix) a line is prompted for and read without editing.
- `tests/` runs the editor on concrete keys and checks what it paints and
  returns.

The state of a line is a mathematical value (`line::Line`), and each command's
contract says which value it turns it into. What holds across commands is stated
as public proof functions next to them: a kill and a yank give the text back, a
run of typed characters is undone as one, a saved history loads back, the
streaming decoder agrees with the key-spec parser, the painted cursor stays in
the painted region, the key listing shows what the keys run, a line leaves the
next one empty unless operate-and-get-next asked for an entry, and so on.

Trusted without proof are the Unicode properties and case mappings of `char`,
UTF-8 decoding, `String::push`, the system clock, and the display widths of the
`unicode-width` crate; `src/unicode.rs` and `src/text.rs` say what is assumed of
each.
