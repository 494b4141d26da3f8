//! Whole reads: bytes in, the bytes painted and the lines returned out, as a
//! terminal in raw mode would see them.

use rusty_lines::actions::{BellStyle, EditorAction};
use rusty_lines::editor::{Editor, ReadResult};
use rusty_lines::hooks::{Candidate, Hooks, NoHooks};
use rusty_lines::session::{
    begin, edited, host_done, host_request, react, Order, Session, Stimulus,
};

fn cand(s: &str) -> Candidate {
    Candidate { display: s.to_string(), replacement: s.to_string() }
}

const WORDS: &[&str] = &["alpha", "alphabet", "alphanumeric", "beta", "gamma"];

/// Completion from a fixed word list, hints from history, an uppercasing host
/// command, and an external editor.
struct DemoHooks;

impl Hooks for DemoHooks {
    fn complete(&self, line: &str, pos: usize) -> (usize, Vec<Candidate>) {
        let start = line[..pos].rfind(' ').map_or(0, |i| i + 1);
        let prefix = &line[start..pos];
        if prefix.is_empty() {
            return (0, Vec::new());
        }
        (start, WORDS.iter().filter(|w| w.starts_with(prefix)).map(|w| cand(w)).collect())
    }

    fn hint(&self, line: &str, history: &[String]) -> Option<String> {
        if line.is_empty() {
            return None;
        }
        history
            .iter()
            .rev()
            .find(|h| h.starts_with(line) && h.len() > line.len())
            .map(|h| h[line.len()..].to_string())
    }

    fn host_binding(&self, tag: &str, line: &mut String, cursor: &mut usize) {
        if tag == "upcase" {
            *line = line.to_uppercase();
            *cursor = line.len();
        }
    }
}

struct ViHooks;

impl Hooks for ViHooks {
    fn vi_mode(&self) -> bool {
        true
    }
}

struct QueryItemsHooks;

impl Hooks for QueryItemsHooks {
    fn complete(&self, _line: &str, _pos: usize) -> (usize, Vec<Candidate>) {
        (0, vec![cand("alpha"), cand("beta"), cand("gamma")])
    }
}

struct ColumnsHooks;

impl Hooks for ColumnsHooks {
    fn complete(&self, _line: &str, _pos: usize) -> (usize, Vec<Candidate>) {
        let words = [
            "a-marker-item-00",
            "b-marker-item-01",
            "c-marker-item-02",
            "d-marker-item-03",
            "e-marker-item-04",
            "f-marker-item-05",
            "g-marker-item-06",
            "h-marker-item-07",
        ];
        (0, words.iter().map(|w| cand(w)).collect())
    }
}

/// A terminal and the program on it: it reads lines, echoes each, and adds it
/// to the history.
struct Terminal<'a> {
    ed: Editor,
    hooks: &'a dyn Hooks,
    prompt: &'a str,
    rprompt: &'a str,
    seed: Option<(&'a str, &'a str)>,
    cols: usize,
    remembers: bool,
    session: Option<Session>,
    out: String,
    results: Vec<ReadResult>,
}

impl<'a> Terminal<'a> {
    fn new(ed: Editor, prompt: &'a str, hooks: &'a dyn Hooks) -> Terminal<'a> {
        Terminal {
            ed,
            hooks,
            prompt,
            rprompt: "",
            seed: None,
            cols: 80,
            remembers: true,
            session: None,
            out: String::new(),
            results: Vec::new(),
        }
    }

    /// The output side of the line discipline: a newline returns the carriage.
    fn write(&mut self, text: &str) {
        self.out.push_str(&text.replace('\n', "\r\n"));
    }

    fn start(&mut self) {
        let mut s = begin(
            &mut self.ed,
            self.prompt,
            self.rprompt,
            self.cols,
            self.seed,
            self.hooks,
        );
        let text = s.st.take_output();
        self.write(&text);
        self.session = Some(s);
    }

    fn happen(&mut self, stimulus: Stimulus, more: bool) {
        let mut s = self.session.take().expect("a read in progress");
        let mut order = react(&mut self.ed, &mut s, stimulus, more, self.hooks);
        loop {
            let text = s.st.take_output();
            self.write(&text);
            match order {
                Order::Wait(_) => {
                    self.session = Some(s);
                    return;
                }
                Order::Host(i) => {
                    let (tag, mut line, mut cursor) =
                        host_request(&self.ed, &s, i).expect("a host binding");
                    self.hooks.host_binding(&tag, &mut line, &mut cursor);
                    order = host_done(&self.ed, &mut s, &line, cursor, self.hooks);
                }
                Order::External => {
                    order = edited(&self.ed, &mut s, Some("EDITED-VIA-EXTERNAL\n"), self.hooks);
                }
                Order::Return(result) => {
                    self.finish(result);
                    return;
                }
            }
        }
    }

    fn finish(&mut self, result: ReadResult) {
        match &result {
            ReadResult::Line(line) => {
                if self.remembers && !line.trim().is_empty() {
                    self.ed.add_history_entry(line);
                }
                let text = format!("{line}\n");
                self.write(&text);
            }
            ReadResult::Interrupted => self.write("^C\n"),
            ReadResult::TimedOut => self.write("timed out waiting for input\n"),
            ReadResult::Eof => {}
        }
        let over = result == ReadResult::Eof || result == ReadResult::TimedOut;
        self.results.push(result);
        if !over {
            self.start();
        }
    }

    /// Bytes that arrive in one read, and the quiet after them.
    fn send(&mut self, chunk: &[u8]) {
        for (i, b) in chunk.iter().enumerate() {
            self.happen(Stimulus::Byte(*b), i + 1 < chunk.len());
        }
        self.quiet();
    }

    fn quiet(&mut self) {
        if self.session.is_some() {
            self.happen(Stimulus::Silence, false);
        }
    }

    fn shown(&self) -> String {
        strip_ansi(&self.out)
    }

    fn at_prompt(&self) -> bool {
        let last_line = self.prompt.rsplit('\n').next().unwrap_or("");
        self.shown().trim_end_matches('\r').ends_with(last_line)
    }
}

/// Feed each chunk, checking for an empty prompt before each that starts a new
/// line, then Ctrl-D; everything written, escape sequences dropped.
fn run_chunks(mut t: Terminal, chunks: &[&[u8]]) -> String {
    t.start();
    let mut at_line_start = true;
    for chunk in chunks {
        if at_line_start {
            assert!(t.at_prompt(), "no empty prompt; output so far:\n{}", t.shown());
        }
        t.send(chunk);
        at_line_start = matches!(chunk.last(), Some(b'\r' | b'\x03'));
    }
    assert!(t.at_prompt(), "no empty prompt; output so far:\n{}", t.shown());
    t.send(b"\x04");
    assert_eq!(t.results.last(), Some(&ReadResult::Eof));
    t.shown()
}

fn run_session(chunks: &[&[u8]]) -> String {
    run_chunks(Terminal::new(Editor::new(), "demo> ", &NoHooks), chunks)
}

fn hooked() -> Terminal<'static> {
    let mut ed = Editor::new();
    ed.bind("\\C-o", EditorAction::UnixLineDiscard).unwrap();
    ed.bind_host("\\C-g", "upcase".to_string()).unwrap();
    Terminal::new(ed, "hooked> ", &DemoHooks)
}

fn run_hooked(chunks: &[&[u8]]) -> String {
    run_chunks(hooked(), chunks)
}

fn run_vi(chunks: &[&[u8]]) -> String {
    let mut ed = Editor::new();
    ed.set_show_mode_in_prompt(true);
    run_chunks(Terminal::new(ed, "vi demo\nvi> ", &ViHooks), chunks)
}

/// Drop ESC-introduced sequences (CSI, OSC, two-byte) so assertions see only
/// printable text and line structure.
fn strip_ansi(s: &str) -> String {
    let mut out = String::new();
    let mut it = s.chars().peekable();
    while let Some(c) = it.next() {
        if c != '\x1b' {
            out.push(c);
            continue;
        }
        match it.next() {
            Some('[') => {
                for c in it.by_ref() {
                    if ('@'..='~').contains(&c) {
                        break;
                    }
                }
            }
            Some(']') => {
                while let Some(c) = it.next() {
                    if c == '\x07' {
                        break;
                    }
                    if c == '\x1b' && it.peek() == Some(&'\\') {
                        it.next();
                        break;
                    }
                }
            }
            _ => {}
        }
    }
    out
}

/// An executed line is echoed at column 0, right after the editor's own final
/// newline: a signature repaints never produce.
fn echo(line: &str) -> String {
    format!("\r\n{line}\r\n")
}

#[test]
fn pty_types_a_line_and_gets_it_echoed() {
    let out = run_session(&[b"hello\r"]);
    assert!(out.contains("demo> "), "prompt missing:\n{out}");
    assert!(out.contains(&echo("hello")), "echo missing:\n{out}");
}

#[test]
fn emacs_editing_home_and_delete() {
    // "xhello", C-a to column 0, C-d deletes the stray 'x'.
    let out = run_session(&[b"xhello", b"\x01", b"\x04", b"\r"]);
    assert!(out.contains(&echo("hello")), "edited line wrong:\n{out}");
}

#[test]
fn kill_word_then_yank() {
    // C-w kills "bar" into the kill ring, C-y yanks it back.
    let out = run_session(&[b"foo bar", b"\x17", b"\x19", b"\r"]);
    assert!(out.contains(&echo("foo bar")), "yank result wrong:\n{out}");
}

#[test]
fn up_arrow_recalls_history() {
    let out = run_session(&[b"one\r", b"two\r", b"\x1b[A\x1b[A", b"\r"]);
    let hits = out.matches(&echo("one")).count();
    assert!(hits >= 2, "expected 'one' echoed twice (typed + recalled):\n{out}");
}

#[test]
fn ctrl_o_operate_and_get_next_replays_history() {
    // Recall "one" with two Ups, then C-o: it executes "one" and pre-loads
    // "two" on the next prompt, so a bare Enter replays it.
    let out = run_session(&[b"one\r", b"two\r", b"\x1b[A\x1b[A", b"\x0f", b"\r"]);
    assert!(
        out.matches(&echo("one")).count() >= 2,
        "C-o did not execute the recalled line:\n{out}"
    );
    assert!(
        out.matches(&echo("two")).count() >= 2,
        "next history entry not pre-loaded after C-o:\n{out}"
    );
}

#[test]
fn pty_ctrl_c_interrupts_the_line() {
    let out = run_session(&[b"doomed", b"\x03"]);
    assert!(out.contains("^C"), "^C marker missing:\n{out}");
    assert!(!out.contains(&echo("doomed")), "interrupted line was executed:\n{out}");
}

#[test]
fn ctrl_l_clears_screen_and_keeps_the_line() {
    // C-l mid-line: the screen clears but the buffer and cursor survive.
    let out = run_session(&[b"abc", b"\x0c", b"def", b"\r"]);
    assert!(out.contains(&echo("abcdef")), "line lost across C-l:\n{out}");
}

#[test]
fn bracketed_paste_inserts_literally() {
    // A pasted tab must insert, not trigger completion.
    let out = run_session(&[b"\x1b[200~a\tb\x1b[201~", b"\r"]);
    assert!(out.contains(&echo("a\tb")), "paste not literal:\n{out}");
}

#[test]
fn tab_menu_cycles_candidates() {
    // "al", Tab inserts the common prefix "alpha"; Tab again lists and arms
    // the menu; further Tabs cycle: alpha (candidate 0), then alphabet.
    let out = run_hooked(&[b"al", b"\t", b"\t", b"\t", b"\t", b"\r"]);
    assert!(out.contains("alphanumeric"), "candidate list missing:\n{out}");
    assert!(out.contains(&echo("alphabet")), "menu cycle wrong:\n{out}");
}

#[test]
fn right_arrow_accepts_full_hint() {
    let out = run_hooked(&[b"alpha beta\r", b"alp", b"\x1b[C", b"\r"]);
    let hits = out.matches(&echo("alpha beta")).count();
    assert!(hits >= 2, "hint not accepted (typed + hinted):\n{out}");
}

#[test]
fn alt_f_accepts_one_word_of_hint() {
    let out = run_hooked(&[b"alpha beta\r", b"al", b"\x1bf", b"\r"]);
    assert!(out.contains(&echo("alpha")), "partial hint accept wrong:\n{out}");
}

#[test]
fn pty_rebound_key_runs_the_new_action() {
    // C-o is rebound to unix-line-discard: "abc" C-o "def" leaves only "def".
    let out = run_hooked(&[b"abc", b"\x0f", b"def", b"\r"]);
    assert!(out.contains(&echo("def")), "rebinding ignored:\n{out}");
    assert!(!out.contains(&echo("abcdef")), "rebound key did nothing:\n{out}");
}

#[test]
fn host_binding_rewrites_the_line() {
    // C-g is bound to a host command that uppercases the line.
    let out = run_hooked(&[b"abc", b"\x07", b"\r"]);
    assert!(out.contains(&echo("ABC")), "host binding missing:\n{out}");
}

#[test]
fn burst_ending_in_host_binding_paints_correctly() {
    // "abc" + C-g delivered in one write: the self-inserts coalesce their
    // repaints, and the host command must still see a fresh paint.
    let out = run_hooked(&[b"abc\x07", b"\r"]);
    assert!(out.contains(&echo("ABC")), "burst-then-host-binding corrupted:\n{out}");
}

#[test]
fn burst_ending_in_tab_completion_paints_correctly() {
    let out = run_hooked(&[b"al\t", b"\r"]);
    assert!(out.contains(&echo("alpha")), "burst-then-completion corrupted:\n{out}");
}

#[test]
fn long_burst_into_enter_paints_correctly() {
    // A long run of coalesced self-inserts immediately followed by Enter in
    // the same write: the whole deferred run is painted before the line ends.
    let line = "x".repeat(300);
    let chunk = format!("{line}\r");
    let out = run_session(&[chunk.as_bytes()]);
    assert!(out.contains(&echo(&line)), "long coalesced burst lost or corrupted text");
}

#[test]
fn very_large_flood_completes_and_is_not_lost() {
    // A flood well past the coalescing cap: periodic forced paints must not
    // corrupt the final state.
    let line = "z".repeat(3000);
    let chunk = format!("{line}\r");
    let out = run_session(&[chunk.as_bytes()]);
    assert!(out.contains(&echo(&line)), "flood past the coalescing cap lost or corrupted text");
}

#[test]
fn burst_into_search_paints_correctly() {
    // Two junk characters, then in the same write C-r and a matching query.
    let out = run_session(&[b"one\r", b"xy\x12on\r"]);
    let hits = out.matches(&echo("one")).count();
    assert!(hits >= 2, "expected 'one' echoed twice (typed + found via search):\n{out}");
}

#[test]
fn character_search_moves_to_the_typed_char() {
    // C-a to column 0, C-] then 'l' jumps onto the first 'l', C-d deletes it.
    let out = run_session(&[b"hello", b"\x01", b"\x1dl", b"\x04", b"\r"]);
    assert!(out.contains(&echo("helo")), "character-search wrong:\n{out}");
}

#[test]
fn possible_completions_lists_without_editing() {
    // M-? prints the candidate list but leaves the buffer untouched.
    let out = run_hooked(&[b"al", b"\x1b?", b"\r"]);
    assert!(out.contains("alphanumeric"), "candidate list missing:\n{out}");
    assert!(out.contains(&echo("al")), "buffer was modified by M-?:\n{out}");
}

#[test]
fn wide_char_editing_keeps_cursor_math() {
    // Double-width text through the whole pipeline: C-a then C-d deletes the
    // first wide character.
    let out = run_session(&["日本ab".as_bytes(), b"\x01", b"\x04", b"\r"]);
    assert!(out.contains(&echo("本ab")), "wide-char edit wrong:\n{out}");
    // And word ops over multibyte text: C-w kills the accented word.
    let out = run_session(&["héllo wörld".as_bytes(), b"\x17", b"\r"]);
    assert!(out.contains(&echo("héllo ")), "multibyte word kill wrong:\n{out}");
}

#[test]
fn history_edits_survive_navigation() {
    let out = run_session(&[
        b"one\r",
        b"two\r",
        b"\x1b[A\x1b[A", // Up Up: "one"
        b"X",            // edit it: "oneX"
        b"\x1b[B\x1b[A", // Down to "two", back Up
        b"\r",
    ]);
    assert!(out.contains(&echo("oneX")), "history edit lost on navigation:\n{out}");
}

#[test]
fn vi_normal_mode_edits_and_shows_the_mode() {
    // "xhello", Esc into normal mode, `0` to column 0, `x` deletes the stray
    // character, Enter accepts from normal mode.
    let out = run_vi(&[b"xhello", b"\x1b", b"0x", b"\r"]);
    assert!(out.contains(&echo("hello")), "vi edit wrong:\n{out}");
    assert!(out.contains("(cmd)"), "mode indicator missing after Esc:\n{out}");
    assert!(out.contains("(ins)"), "insert-mode indicator missing:\n{out}");
}

#[test]
fn vi_daw_deletes_a_word_object() {
    // Esc leaves the cursor on the last char of "three"; `bb` walks back to
    // "two"; `daw` deletes it and its trailing space.
    let out = run_vi(&[b"one two three", b"\x1b", b"bb", b"daw", b"\r"]);
    assert!(out.contains(&echo("one three")), "daw wrong:\n{out}");
}

#[test]
fn vi_count_replace() {
    // `3rx` replaces three characters with xxx.
    let out = run_vi(&[b"abc", b"\x1b", b"0", b"3rx", b"\r"]);
    assert!(out.contains(&echo("xxx")), "3rx wrong:\n{out}");
}

#[test]
fn multiline_prompt_prefix_paints_once_per_region() {
    let out = run_vi(&[b"abcde", b"\r"]);
    assert!(out.contains(&echo("abcde")), "line lost:\n{out}");
    let prefixes = out.matches("vi demo").count();
    assert!(prefixes <= 3, "prompt prefix repainted per keystroke ({prefixes} times):\n{out}");
}

#[test]
fn read_line_with_initial_seeds_buffer_and_cursor() {
    let mut t = Terminal::new(Editor::new(), "init> ", &NoHooks);
    t.seed = Some(("hello ", "world"));
    t.start();
    assert!(t.shown().contains("hello world"), "seeded line never painted:\n{}", t.shown());
    t.send(b"X\r");
    let out = t.shown();
    assert!(out.contains(&echo("hello Xworld")), "cursor not at the seam:\n{out}");
}

#[test]
fn rprompt_paints_and_hides_when_the_line_grows_into_it() {
    let mut t = Terminal::new(Editor::new(), "rp> ", &NoHooks);
    t.rprompt = "RIGHT";
    t.start();
    assert!(t.shown().contains("RIGHT"), "rprompt never painted:\n{}", t.shown());
    let long = "a".repeat(72);
    t.send(long.as_bytes());
    t.send(b"\r");
    let out = t.shown();
    assert!(out.contains(&echo(&long)), "line mangled:\n{out}");
    let full_rows: Vec<&str> = out.split('\r').filter(|seg| seg.contains(&long)).collect();
    assert!(!full_rows.is_empty(), "no full-length repaint captured:\n{out}");
    for row in full_rows {
        assert!(!row.contains("RIGHT"), "rprompt not hidden on a full row: {row:?}");
    }
}

#[test]
fn read_line_timeout_expires_at_the_prompt() {
    let mut t = Terminal::new(Editor::new(), "timeout> ", &NoHooks);
    t.start();
    assert!(t.at_prompt());
    t.happen(Stimulus::Late, false);
    let out = t.shown();
    assert_eq!(t.results.last(), Some(&ReadResult::TimedOut));
    assert!(out.contains("timed out waiting for input"), "timeout message missing:\n{out}");
}

#[test]
fn resize_while_idle_repaints_and_keeps_the_line() {
    let mut t = Terminal::new(Editor::new(), "demo> ", &NoHooks);
    t.start();
    t.send(b"abc");
    t.happen(Stimulus::Columns(40), false);
    t.send(b"def\r");
    let out = t.shown();
    assert!(out.contains(&echo("abcdef")), "line lost across resize:\n{out}");
}

#[test]
fn quoted_insert_and_edit_in_editor_pty_smoke() {
    // C-v C-a inserts the literal ^A byte instead of running
    // beginning-of-line, and the paint shows it ^X-style.
    let out = run_session(&[b"x\x16\x01y", b"\r"]);
    assert!(
        out.contains("x^Ay"),
        "quoted-insert did not render the literal control byte ^X-style:\n{out}"
    );
}

#[test]
fn edit_in_editor_rewrites_the_line_via_external_editor() {
    let out = run_hooked(&[b"orig", b"\x18\x05"]);
    assert!(
        out.contains(&echo("EDITED-VIA-EXTERNAL")),
        "external editor's rewrite was not accepted as the line:\n{out}"
    );
}

#[test]
fn read_line_with_initial_timeout_preserves_seeded_and_edited_buffer() {
    let mut t = Terminal::new(Editor::new(), "initial_timeout> ", &NoHooks);
    t.seed = Some(("hello ", "world"));
    t.start();
    assert!(t.shown().contains("hello world"), "seeded line never painted:\n{}", t.shown());
    t.send(b"X");
    assert!(t.shown().contains("hello Xworld"), "edit never painted:\n{}", t.shown());
    t.happen(Stimulus::Late, false);
    let out = t.shown();
    assert!(
        out.contains("hello Xworld"),
        "seeded+edited buffer not preserved on screen at the deadline:\n{out}"
    );
    assert!(out.contains("timed out waiting for input"), "TimedOut message missing:\n{out}");
}

#[test]
fn history_past_end_rings_the_default_audible_bell() {
    let mut t = Terminal::new(Editor::new(), "demo> ", &NoHooks);
    t.start();
    t.send(b"\x1b[A");
    assert!(
        t.shown().contains('\x07'),
        "no audible BEL byte on history past-end:\n{}",
        t.shown()
    );
    t.send(b"\x04");
    assert_eq!(t.results.last(), Some(&ReadResult::Eof));
}

#[test]
fn bell_style_visible_flashes_reverse_video() {
    let mut ed = Editor::new();
    ed.set_bell_style(BellStyle::Visible);
    let mut t = Terminal::new(ed, "bell> ", &NoHooks);
    t.start();
    t.send(b"\x1b[A");
    let raw = &t.out;
    assert!(raw.contains("\x1b[?5h"), "reverse-video set sequence missing:\n{raw}");
    assert!(raw.contains("\x1b[?5l"), "reverse-video unset sequence missing:\n{raw}");
    t.send(b"\x04");
    assert_eq!(t.results.last(), Some(&ReadResult::Eof));
}

fn query_items() -> Terminal<'static> {
    let mut ed = Editor::new();
    ed.set_completion_query_items(2);
    let mut t = Terminal::new(ed, "qi> ", &QueryItemsHooks);
    t.remembers = false;
    t
}

#[test]
fn completion_query_items_prompts_above_threshold_and_y_shows_the_list() {
    let out = run_chunks(query_items(), &[b"\t", b"y", b"\r"]);
    assert!(
        out.contains("Display all 3 possibilities? (y or n)"),
        "completion-query-items prompt missing:\n{out}"
    );
    assert!(
        out.contains("alpha") && out.contains("beta") && out.contains("gamma"),
        "candidate list missing after answering y:\n{out}"
    );
}

#[test]
fn completion_query_items_declining_hides_the_list() {
    let out = run_chunks(query_items(), &[b"\t", b"n", b"\r"]);
    assert!(
        out.contains("Display all 3 possibilities? (y or n)"),
        "completion-query-items prompt missing:\n{out}"
    );
    assert!(!out.contains("alpha"), "candidate list printed despite declining:\n{out}");
}

#[test]
fn candidate_columns_print_column_major_not_row_major() {
    // 8 same-width candidates wrap into 4 columns x 2 rows at 80 columns.
    // Column-major order is 0,2,4,6,1,3,5,7, so "g" (index 6) must appear
    // before "b" (index 1) in the printed text.
    let mut t = Terminal::new(Editor::new(), "cols> ", &ColumnsHooks);
    t.remembers = false;
    let out = run_chunks(t, &[b"\t", b"\r"]);
    let pos_b = out.find("b-marker-item-01").expect("candidate b missing from the list");
    let pos_g = out.find("g-marker-item-06").expect("candidate g missing from the list");
    assert!(pos_g < pos_b, "candidates were not laid out column-major:\n{out}");
}

#[test]
fn bracketed_paste_multiline_end_to_end() {
    let mut t = Terminal::new(Editor::new(), "demo> ", &NoHooks);
    t.start();
    t.send(b"\x1b[200~line1\nline2\x1b[201~");
    let live = t.shown();
    assert!(live.contains('⏎'), "pasted newline not shown as ⏎ in the live display:\n{live}");
    assert!(
        !live.contains(&echo("line1")),
        "paste executed line-by-line instead of inserting as one literal unit:\n{live}"
    );

    t.send(b"\r");
    let after_accept = t.shown();
    let idx1 = after_accept.find("line1").expect("line1 missing after accept");
    let idx2 = after_accept.find("line2").expect("line2 missing after accept");
    assert!(idx2 > idx1, "pasted lines out of order:\n{after_accept}");
    assert!(
        !after_accept[idx1..idx2].contains("demo> "),
        "a prompt reappeared between the two pasted lines:\n{after_accept}"
    );

    // Recall it: the in-memory history entry is joined with "; ".
    t.send(b"\x1b[A\r");
    t.send(b"\x04");
    let out = t.shown();
    assert!(
        out.contains(&echo("line1; line2")),
        "recalled multi-line entry not joined with \"; \":\n{out}"
    );
}

#[test]
fn self_heals_raw_mode_after_external_cooked_mode() {
    let mut t = Terminal::new(Editor::new(), "demo> ", &NoHooks);
    t.start();
    t.send(b"abc");
    t.happen(Stimulus::Healed, false);
    t.send(b"def\r");
    let out = t.shown();
    assert!(
        out.contains(&echo("abcdef")),
        "line lost or corrupted after external cooked-mode reassertion:\n{out}"
    );
}

fn read_line_after_typing(text: &str) -> ReadResult {
    let mut t = Terminal::new(Editor::new(), "prompt> ", &NoHooks);
    t.remembers = false;
    t.start();
    t.send(text.as_bytes());
    t.results.remove(0)
}

#[test]
fn windows_raw_mode_types_a_line_and_gets_it_echoed() {
    assert_eq!(read_line_after_typing("hello\r"), ReadResult::Line("hello".to_string()));
}

#[test]
fn backspace_edits_the_line() {
    // "helloo" then Backspace (0x08) removes the extra 'o'.
    assert_eq!(read_line_after_typing("helloo\x08\r"), ReadResult::Line("hello".to_string()));
}

#[test]
fn windows_raw_mode_ctrl_c_interrupts_the_line() {
    assert_eq!(read_line_after_typing("partial line\x03"), ReadResult::Interrupted);
}

#[test]
fn ctrl_d_on_empty_line_is_eof() {
    assert_eq!(read_line_after_typing("\x04"), ReadResult::Eof);
}

#[test]
fn history_recall_via_ctrl_p() {
    let mut t = Terminal::new(Editor::new(), "prompt> ", &NoHooks);
    t.remembers = false;
    t.start();
    // First line, to seed history.
    t.send(b"first\r");
    assert_eq!(t.results[0], ReadResult::Line("first".to_string()));
    t.ed.add_history_entry("first");

    // Second read: Ctrl-P (0x10) recalls the previous entry, then Enter
    // accepts it as-is.
    t.send(b"\x10\r");
    assert_eq!(t.results[1], ReadResult::Line("first".to_string()));
}
