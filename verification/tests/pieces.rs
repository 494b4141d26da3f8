//! The decoder, the paint, the history file, and the small helpers, on
//! concrete values.

use rusty_lines::decoder::{Decoder, Input};
use rusty_lines::edit::{insert_char, transpose};
use rusty_lines::editor::{buffered_result, plain_result, Editor, ReadResult};
use rusty_lines::external::{editor_command, editor_invocation};
use rusty_lines::hints::HintCache;
use rusty_lines::hooks::{Hooks, NoHooks};
use rusty_lines::keys::{decode_key_bytes, Key};
use rusty_lines::keyspec::{key_spec, parse_key_spec};
use rusty_lines::line::LineState;
use rusty_lines::modes::{
    apply_raw_flags, clear_echo_flag, is_raw, term_cols, usable_size, RawMasks, Termios,
};
use rusty_lines::paint::render;
use rusty_lines::queries::QueryScanner;
use rusty_lines::search::{find_match, find_match_fwd};
use rusty_lines::text::{byte_of_index, index_of_byte};
use rusty_lines::width::{display_width, visualize_at};
use rusty_lines::words::{first_nonblank, invert_find, word_back};

fn chars(s: &str) -> Vec<char> {
    s.chars().collect()
}

fn decode(bytes: &[u8]) -> Vec<Input> {
    let mut d = Decoder::new();
    let mut out: Vec<Input> = bytes.iter().filter_map(|b| d.push(*b)).collect();
    out.extend(d.expire());
    out
}

fn keys(list: &[Key]) -> Vec<Input> {
    list.iter().map(|k| Input::Key(*k)).collect()
}

#[test]
fn plain_keys_decode() {
    assert_eq!(decode(b"a\r\n"), keys(&[Key::Char('a'), Key::Enter, Key::Enter]));
    assert_eq!(decode(b"\t\x7f\x08"), keys(&[Key::Tab, Key::Backspace, Key::Backspace]));
    assert_eq!(decode(b"\x01\x1a\x1f"), keys(&[Key::Ctrl('a'), Key::Ctrl('z'), Key::Ctrl('_')]));
    assert_eq!(
        decode(b"\x00\x1c\x1d\x1e"),
        keys(&[Key::Ctrl('@'), Key::Ctrl('\\'), Key::Ctrl(']'), Key::Ctrl('^')])
    );
}

#[test]
fn text_decodes_as_its_characters() {
    assert_eq!(
        decode("aé日😀".as_bytes()),
        keys(&[Key::Char('a'), Key::Char('é'), Key::Char('日'), Key::Char('😀')])
    );
    // A byte that leads nothing is one replacement character, at once.
    assert_eq!(decode(b"\xa9b"), keys(&[Key::Char('\u{fffd}'), Key::Char('b')]));
    assert_eq!(decode(b"\xffb"), keys(&[Key::Char('\u{fffd}'), Key::Char('b')]));
    // An unfinished sequence is given up.
    assert_eq!(decode(b"\xe6\x97"), keys(&[Key::Char('\u{fffd}')]));
}

#[test]
fn escape_sequences_decode() {
    assert_eq!(decode(b"\x1b"), keys(&[Key::Esc]));
    assert_eq!(decode(b"\x1b\x1b"), keys(&[Key::Esc]));
    assert_eq!(decode(b"\x1bf"), keys(&[Key::Alt('f')]));
    assert_eq!(decode("\x1bö".as_bytes()), keys(&[Key::Alt('ö')]));
    assert_eq!(decode(b"\x1b\x7f"), keys(&[Key::AltBackspace]));
    assert_eq!(decode(b"\x1b[A\x1bOB"), keys(&[Key::Up, Key::Down]));
    assert_eq!(decode(b"\x1b[Z\x1b[1;2Z"), keys(&[Key::ShiftTab, Key::ShiftTab]));
    assert_eq!(decode(b"\x1b["), keys(&[Key::Other]));
}

#[test]
fn unknown_sequences_are_consumed_whole() {
    assert_eq!(decode(b"\x1b[<65;5;10Mx"), keys(&[Key::Other, Key::Char('x')]));
    assert_eq!(decode(b"\x1b[?1;2cx"), keys(&[Key::Other, Key::Char('x')]));
    assert_eq!(decode(b"\x1b[99~x"), keys(&[Key::Other, Key::Char('x')]));
}

#[test]
fn a_paste_is_one_event() {
    assert_eq!(
        decode(b"\x1b[200~a\x03\x1b[A\x1b[201~b"),
        vec![Input::Paste(chars("a\x03\x1b[A")), Input::Key(Key::Char('b'))]
    );
    assert_eq!(decode(b"\x1b[200~\xff\x1b[201~"), vec![Input::Paste(chars("\u{fffd}"))]);
    assert_eq!(decode(b"\x1b[200~unfinished"), vec![Input::Paste(chars("unfinished"))]);
}

#[test]
fn quoted_bytes_are_literal() {
    let mut d = Decoder::new();
    assert_eq!(d.push_quoted(0x1b), Some(Input::Literal('\x1b')));
    assert_eq!(d.push_quoted(0xc3), None);
    assert_eq!(d.push_quoted(0xa9), Some(Input::Literal('é')));
    assert_eq!(d.push_quoted(0xff), Some(Input::Literal('\u{fffd}')));
}

#[test]
fn streaming_agrees_with_the_binding_parser() {
    for spec in ["\\C-f", "\\M-f", "\\e[A", "\\e[1;5C", "\\eOH", "\\M-\\C-?", "ü", "\\M-ö", "\\C-\\\\"]
    {
        let key = parse_key_spec(spec).expect("a key");
        assert_eq!(parse_key_spec(&key_spec(&key)), Some(key), "{spec}");
    }
    for bytes in [&b"\x1b[3~"[..], b"\x06", b"\x1b\x7f", "é".as_bytes(), b"\x1bx"] {
        let key = decode_key_bytes(bytes).expect("a key");
        assert_eq!(decode(bytes), keys(&[key]));
    }
}

#[test]
fn widths() {
    assert_eq!(display_width("e\u{301}"), 1); // a combining mark has none
    assert_eq!(display_width("\x1b]8;;http://x\x1b\\link\x1b]8;;\x07"), 4);
    assert_eq!(display_width("\x1b[1;31mred"), 3);
    assert_eq!(display_width("a\x07b"), 2);
}

#[test]
fn tabs_run_to_the_next_stop() {
    let shown = |s: &str, col: usize| -> String { visualize_at(&chars(s), col).iter().collect() };
    assert_eq!(shown("a\tb", 0), "a       b");
    assert_eq!(shown("a\tb", 6), "a b");
    assert_eq!(shown("\t", 7), " ");
    assert_eq!(shown("日\tb", 0), "日      b");
    assert_eq!(shown("\x01\t", 0), "^A      ");
}

fn painted(st: &mut LineState, hooks: &dyn Hooks) -> String {
    render(st, &[], hooks, &mut HintCache::new());
    st.take_output()
}

#[test]
fn a_paint_places_the_cursor() {
    let mut st = LineState::with_text("hello", 2);
    st.prompt = chars("> ");
    assert_eq!(painted(&mut st, &NoHooks), "\r> hello\x1b[J\r\x1b[5G");
    assert_eq!((st.painted_rows, st.painted_cursor_row), (1, 0));
    // On the boundary the wrap is forced, and the cursor is on the next row.
    let mut st = LineState::with_text("abcdefgh", 8);
    st.cols = 10;
    st.prompt = chars("> ");
    assert_eq!(painted(&mut st, &NoHooks), "\r> abcdefgh\r\n\x1b[J\r\x1b[1G");
    assert_eq!((st.painted_rows, st.painted_cursor_row), (2, 1));
    // The next paint starts from the first row; the cursor goes back up.
    st.cursor = 0;
    assert_eq!(
        painted(&mut st, &NoHooks),
        "\r\x1b[1A> abcdefgh\r\n\x1b[J\x1b[1A\r\x1b[3G"
    );
    assert_eq!((st.painted_rows, st.painted_cursor_row), (2, 0));
}

struct Colours;

impl Hooks for Colours {
    fn hint(&self, _line: &str, _history: &[String]) -> Option<String> {
        Some("lo\x07".to_string())
    }

    fn highlight(&self, line: &str) -> String {
        format!("\x1b[1;32m{line}\x1b[0m\x1b]0;title\x07")
    }
}

#[test]
fn highlighting_passes_markup_and_nothing_else() {
    let mut st = LineState::with_text("hel", 3);
    assert_eq!(
        painted(&mut st, &Colours),
        "\r\x1b[1;32mhel\x1b[0m^[]0;title^G\x1b[2mlo^G\x1b[0m\x1b[J\r\x1b[4G"
    );
    // No hint in the middle, and no markup around a literal ESC.
    let mut st = LineState::with_text("a\x1bb", 1);
    assert_eq!(painted(&mut st, &Colours), "\ra^[b\x1b[J\r\x1b[2G");
}

#[test]
fn the_right_prompt_needs_a_gap() {
    let mut st = LineState::with_text("abc", 3);
    st.cols = 10;
    st.rprompt = chars("R");
    assert_eq!(painted(&mut st, &NoHooks), "\rabc\x1b[J\x1b[10GR\r\x1b[4G");
    let mut st = LineState::with_text("abcdefgh", 8);
    st.cols = 10;
    st.rprompt = chars("R");
    assert_eq!(painted(&mut st, &NoHooks), "\rabcdefgh\x1b[J\r\x1b[9G");
}

#[test]
fn word_motion_takes_any_whitespace() {
    assert_eq!(word_back(&chars("a\u{3000}bc"), 4), 2);
    assert_eq!(first_nonblank(&chars(" \tx")), 2);
    assert_eq!(invert_find('f'), 'F');
    assert_eq!(invert_find('T'), 't');
}

#[test]
fn transposing_keeps_the_characters() {
    let mut st = LineState::with_text("ab", 1);
    transpose(&mut st);
    assert_eq!((st.text(), st.cursor), ("ba".to_string(), 2));
    let mut st = LineState::with_text("ab", 0);
    transpose(&mut st);
    assert_eq!((st.text(), st.cursor), ("ab".to_string(), 0));
    insert_char(&mut st, 'é');
    assert_eq!((st.text(), st.cursor), ("éab".to_string(), 1));
}

#[test]
fn byte_offsets_and_indices() {
    let s = chars("aé日b");
    assert_eq!(byte_of_index(&s, 3), 6);
    assert_eq!(index_of_byte(&s, 6), 3);
    assert_eq!(index_of_byte(&s, 4), 2); // inside: back to the start
    assert_eq!(index_of_byte(&s, 99), 4);
}

#[test]
fn history_matches() {
    let history: Vec<String> = ["one", "Two", "twofold"].iter().map(|s| s.to_string()).collect();
    assert_eq!(find_match(&history, &chars("two"), 3, false), Some(2));
    assert_eq!(find_match(&history, &chars("two"), 2, false), None);
    assert_eq!(find_match(&history, &chars("two"), 2, true), Some(1));
    assert_eq!(find_match(&history, &[], 3, false), None);
    assert_eq!(find_match_fwd(&history, &chars("o"), 0, false), Some(0));
    assert_eq!(find_match_fwd(&history, &chars("o"), 1, false), Some(1));
    assert_eq!(find_match_fwd(&history, &chars("z"), 0, false), None);
}

fn loaded(text: &str) -> Editor {
    let mut ed = Editor::new();
    ed.log.load_text(text);
    ed
}

#[test]
fn history_file_oddities() {
    // A header of another format is skipped, on the first line only.
    assert_eq!(loaded("#V2\na\n#V2\n").history(), ["a", "#V2"]);
    // Short comments are entries, epoch-scale ones stamp the next entry.
    let ed = loaded("#42\n#1700000000\nls\n");
    assert_eq!(ed.history(), ["#42", "ls"]);
    assert_eq!(ed.history_timestamps(), [None, Some(1700000000)]);
    // A stamp pairs with the next line, whatever it looks like.
    let ed = loaded("#1700000000\n#1700000001\n");
    assert_eq!(ed.history(), ["#1700000001"]);
    assert_eq!(ed.history_timestamps(), [Some(1700000000)]);
    // A dangling stamp is an entry.
    assert_eq!(loaded("a\n#1700000000\n").history(), ["a", "#1700000000"]);
    // Blank lines are nothing, and CRLF endings lose their CR.
    assert_eq!(loaded("a\r\n\nb").history(), ["a", "b"]);
}

#[test]
fn saved_history_loads_back() {
    let mut ed = Editor::new();
    ed.add_entry("ls -l", Some(1700000000));
    ed.add_entry("#42", None);
    ed.add_entry("écho", Some(1700000009));
    let text = ed.log.save_text(true);
    assert_eq!(text, "#1700000000\nls -l\n#42\n#1700000009\nécho\n");
    let again = loaded(&text);
    assert_eq!(again.history(), ed.history());
    assert_eq!(again.history_timestamps(), ed.history_timestamps());
    assert_eq!(ed.log.save_text(false), "ls -l\n#42\nécho\n");
}

#[test]
fn ignored_and_capped_entries() {
    let mut ed = Editor::new();
    ed.set_history_ignore_space(true);
    ed.add_history_entry(" secret");
    ed.add_history_entry("x");
    assert_eq!(ed.history(), ["x"]);
    ed.set_max_history_len(0);
    ed.add_history_entry("y");
    assert!(ed.history().is_empty());
    assert!(ed.is_sound());
    ed.log.persisted = 5;
    assert!(!ed.is_sound());
}

#[test]
fn a_new_entry_is_stamped_with_the_time() {
    let seconds = || std::time::UNIX_EPOCH.elapsed().unwrap().as_secs() as i64;
    let mut ed = Editor::new();
    let before = seconds();
    ed.add_history_entry("x");
    let after = seconds();
    let stamp = ed.history_timestamps()[0].unwrap();
    assert!(before <= stamp && stamp <= after);
}

#[test]
fn every_entry_is_on_one_line() {
    let mut ed = Editor::new();
    ed.add_history_entry("a\nb");
    ed.replace_history(vec!["c\nd".to_string(), "e".to_string()]);
    ed.log.load_text("f\n");
    assert_eq!(ed.history(), ["c; d", "e", "f"]);
    assert!(ed.is_sound());
    ed.log.entries[1] = "e\n".to_string();
    assert!(!ed.is_sound());
}

#[test]
fn a_saved_history_is_loaded_by_a_new_editor() {
    let mut ed = Editor::new();
    ed.add_entry("make\ntest", Some(1_700_000_000));
    ed.add_entry("ls", None);
    ed.add_entry("make; test", Some(1_700_000_001));
    for stamped in [true, false] {
        let text = ed.log.save_text(stamped);
        let mut new = Editor::new();
        new.log.load_text(&text);
        assert_eq!(new.history(), ["make; test", "ls", "make; test"]);
        let stamps = if stamped {
            [Some(1_700_000_000), None, Some(1_700_000_001)]
        } else {
            [None, None, None]
        };
        assert_eq!(new.history_timestamps(), stamps);
        assert_eq!(new.log.append_text(stamped), "");
    }
}

#[test]
fn unicode_whitespace_ends_words() {
    let v = chars("ab\u{3000}cd\u{a0}ef\u{85}gh\u{200b}ij");
    assert_eq!(word_back(&v, v.len()), 9); // U+200B is not whitespace
    assert_eq!(word_back(&v, 8), 6);
    assert_eq!(word_back(&v, 5), 3);
    assert_eq!(word_back(&v, 3), 0);
}

#[test]
fn buffered_reads() {
    assert_eq!(buffered_result(""), ReadResult::Eof);
    assert_eq!(buffered_result("\n"), ReadResult::Line(String::new()));
    assert_eq!(buffered_result("a b\r\n"), ReadResult::Line("a b".to_string()));
    assert_eq!(buffered_result("a\rb"), ReadResult::Line("a\rb".to_string()));
}

#[test]
fn plain_reads() {
    assert_eq!(plain_result(b"", true), ReadResult::Eof);
    assert_eq!(plain_result(b"", false), ReadResult::Line(String::new()));
    assert_eq!(plain_result(b"a\r", false), ReadResult::Line("a".to_string()));
    assert_eq!(plain_result(b"a", true), ReadResult::Line("a".to_string()));
    assert_eq!(plain_result(b"\xff", false), ReadResult::Line("\u{fffd}".to_string()));
}

#[test]
fn queries_are_counted_across_chunks() {
    let mut q = QueryScanner::new();
    assert_eq!(q.scan(b"x\x1b[6n\x1b[6n\x1b["), 2);
    assert_eq!(q.scan(b"6"), 0);
    assert_eq!(q.scan(b"n"), 1);
    assert_eq!(q.scan(b"n\x1b[5n"), 0);
}

#[test]
fn external_editor_command() {
    let s = |t: &str| Some(t.to_string());
    assert_eq!(editor_command(s("ed"), s("v"), s("e")), "ed");
    assert_eq!(editor_command(None, s(""), s("e")), "e");
    assert_eq!(editor_command(None, None, s("")), "vi");
    assert_eq!(editor_command(None, s("code -w"), None), "code -w");
    assert_eq!(editor_invocation("vi", "/tmp/it's here"), "vi '/tmp/it'\\''s here'");
}

#[test]
fn raw_mode_recipe() {
    let masks = RawMasks { input: 0b0110, local: 0b1011, echo: 0b1000 };
    let mut t = Termios { input: 0b1111, local: 0b1111, min: 0, time: 9 };
    assert!(!is_raw(&t, &masks));
    apply_raw_flags(&mut t, &masks);
    assert_eq!(t, Termios { input: 0b1001, local: 0b0100, min: 1, time: 0 });
    assert!(is_raw(&t, &masks));
    let mut t = Termios { input: 1, local: 0b1111, min: 0, time: 9 };
    clear_echo_flag(&mut t, &masks);
    assert_eq!(t, Termios { input: 1, local: 0b0111, min: 0, time: 9 });
    assert_eq!(usable_size(80, 0), None);
    assert_eq!(term_cols(usable_size(132, 43)), 132);
    assert_eq!(term_cols(None), 80);
}
