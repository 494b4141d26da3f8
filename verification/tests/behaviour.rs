//! Keys in, lines out: what the keymaps, the searches, completion and the
//! history do, on concrete input.

use rusty_lines::actions::{BellStyle, EditorAction};
use rusty_lines::editor::{Editor, ReadResult};
use rusty_lines::hooks::{Candidate, Hooks, NoHooks};
use rusty_lines::session::{begin, react, Order, Session, Stimulus};

fn cand(s: &str) -> Candidate {
    Candidate { display: s.to_string(), replacement: s.to_string() }
}

struct Vi;

impl Hooks for Vi {
    fn vi_mode(&self) -> bool {
        true
    }
}

/// A read in progress on an 80-column terminal.
struct Keyboard<'a> {
    ed: &'a mut Editor,
    s: Session,
    hooks: &'a dyn Hooks,
    out: String,
    result: Option<ReadResult>,
}

impl<'a> Keyboard<'a> {
    fn new(ed: &'a mut Editor, hooks: &'a dyn Hooks) -> Keyboard<'a> {
        let s = begin(ed, "> ", "", 80, None, hooks);
        let mut k = Keyboard { ed, s, hooks, out: String::new(), result: None };
        k.out = k.s.st.take_output();
        k
    }

    fn send(&mut self, bytes: &str) -> &mut Self {
        for b in bytes.as_bytes() {
            self.happen(Stimulus::Byte(*b));
        }
        if self.result.is_none() {
            self.happen(Stimulus::Silence);
        }
        self
    }

    fn happen(&mut self, stimulus: Stimulus) {
        let order = react(self.ed, &mut self.s, stimulus, false, self.hooks);
        self.out.push_str(&self.s.st.take_output());
        if let Order::Return(r) = order {
            self.result = Some(r);
        }
    }

    fn text(&self) -> String {
        self.s.st.text()
    }

    fn at(&self) -> usize {
        self.s.st.cursor
    }

    fn rang(&mut self) -> bool {
        let rang = self.out.contains('\x07');
        self.out.clear();
        rang
    }
}

/// The text and the cursor after some keys in the emacs keymap.
fn emacs(keys: &[&str]) -> (String, usize) {
    let mut ed = Editor::new();
    let mut k = Keyboard::new(&mut ed, &NoHooks);
    for x in keys {
        k.send(x);
    }
    (k.text(), k.at())
}

/// The text and the cursor after some keys in the vi keymap.
fn vi(keys: &[&str]) -> (String, usize) {
    let mut ed = Editor::new();
    let mut k = Keyboard::new(&mut ed, &Vi);
    for x in keys {
        k.send(x);
    }
    (k.text(), k.at())
}

fn is(s: &str, at: usize) -> (String, usize) {
    (s.to_string(), at)
}

#[test]
fn emacs_motions_and_kills() {
    assert_eq!(emacs(&["hello world", "\x01"]), is("hello world", 0));
    assert_eq!(emacs(&["hello world", "\x1bb"]), is("hello world", 6));
    assert_eq!(emacs(&["hello world", "\x01", "\x1bf"]), is("hello world", 5));
    assert_eq!(emacs(&["hello world", "\x01", "\x0b"]), is("", 0));
    assert_eq!(emacs(&["hello world", "\x02\x02", "\x0b"]), is("hello wor", 9));
    assert_eq!(emacs(&["hello world", "\x1bb", "\x15"]), is("world", 0));
    assert_eq!(emacs(&["a-b c-d", "\x17"]), is("a-b ", 4));
    assert_eq!(emacs(&["a-b c-d", "\x1b\x7f"]), is("a-b c-", 6));
    assert_eq!(emacs(&["a-b c-d", "\x01", "\x1bd"]), is("-b c-d", 0));
    assert_eq!(emacs(&["abc", "\x14"]), is("acb", 3));
    assert_eq!(emacs(&["a  \t b", "\x02", "\x1b\\"]), is("ab", 1));
    assert_eq!(emacs(&["a", "\x16\t", "b"]), is("a\tb", 3));
}

#[test]
fn case_commands_follow_unicode() {
    assert_eq!(emacs(&["straße x", "\x01", "\x1bu"]), is("STRASSE x", 7));
    assert_eq!(emacs(&["ÉCOLE", "\x01", "\x1bl"]), is("école", 5));
    assert_eq!(emacs(&["--école", "\x01", "\x1bc"]), is("--École", 7));
}

#[test]
fn forward_kills_append_and_one_yank_restores_them() {
    assert_eq!(
        emacs(&["one two three", "\x01", "\x1bd", "\x1bd", "\x19"]),
        is("one two three", 7)
    );
    // A motion in between starts a new entry.
    assert_eq!(
        emacs(&["one two", "\x01", "\x1bd", "\x06", "\x1bd", "\x01", "\x19"]),
        is("two ", 3)
    );
}

#[test]
fn popping_goes_round_the_ring() {
    let kills = ["aa", "\x15", "bb", "\x15", "cc", "\x15"];
    let mut keys = kills.to_vec();
    keys.push("x\x19");
    assert_eq!(emacs(&keys), is("xcc", 3));
    keys.push("\x1by");
    assert_eq!(emacs(&keys), is("xbb", 3));
    keys.push("\x1by");
    assert_eq!(emacs(&keys), is("xaa", 3));
    keys.push("\x1by");
    assert_eq!(emacs(&keys), is("xcc", 3));
}

#[test]
fn ring_depth_is_configurable() {
    let mut ed = Editor::new();
    ed.set_max_kill_ring_len(2);
    let mut k = Keyboard::new(&mut ed, &NoHooks);
    for x in ["aa", "\x15", "bb", "\x15", "cc", "\x15", "\x19", "\x1by", "\x1by"] {
        k.send(x);
    }
    assert_eq!(k.text(), "cc");
}

#[test]
fn undo_groups_twenty_characters() {
    let text = "abcdefghijklmnopqrstuvwxy";
    assert_eq!(emacs(&[text, "\x1f"]), is("abcdefghijklmnopqrst", 20));
    assert_eq!(emacs(&[text, "\x1f\x1f"]), is("", 0));
    assert_eq!(emacs(&[text, "\x1f\x1f\x1f"]), is("", 0));
    // Deletes are grouped by themselves.
    assert_eq!(emacs(&["abc", "\x7f\x7f", "\x1f"]), is("abc", 3));
    assert_eq!(emacs(&["abc", "\x7f\x7f", "\x1f\x1f"]), is("", 0));
    // C-x C-u undoes too, and M-r reverts everything at once.
    assert_eq!(emacs(&["ab", "\x15", "cd", "\x18\x15"]), is("", 0));
    assert_eq!(emacs(&["ab", "\x15", "cd", "\x1br"]), is("", 0));
}

#[test]
fn undo_depth_is_configurable() {
    let mut ed = Editor::new();
    ed.set_max_undo_len(1);
    let mut k = Keyboard::new(&mut ed, &NoHooks);
    k.send("ab").send("\x15").send("cd").send("\x1f\x1f\x1f");
    assert_eq!(k.text(), "");
    drop(k);
    let mut k = Keyboard::new(&mut ed, &NoHooks);
    k.send("ab").send("\x01").send("\x14").send("\x05").send("\x14").send("\x1f\x1f\x1f");
    assert_eq!(k.text(), "ab");
}

#[test]
fn a_paste_is_undone_at_once_and_normalized() {
    assert_eq!(emacs(&["x", "\x1b[200~a\r\nb\rc\x1b[201~"]), is("xa\nb\nc", 6));
    assert_eq!(emacs(&["x", "\x1b[200~a\r\nb\rc\x1b[201~", "\x1f"]), is("x", 1));
}

#[test]
fn vi_motions() {
    let s = "foo bar(baz) qux";
    assert_eq!(vi(&[s, "\x1b"]), is(s, 15));
    assert_eq!(vi(&[s, "\x1b", "0"]), is(s, 0));
    assert_eq!(vi(&[s, "\x1b", "0w"]), is(s, 4));
    assert_eq!(vi(&[s, "\x1b", "02w"]), is(s, 7));
    assert_eq!(vi(&[s, "\x1b", "0e"]), is(s, 2));
    assert_eq!(vi(&[s, "\x1b", "b"]), is(s, 13));
    assert_eq!(vi(&[s, "\x1b", "0fz"]), is(s, 10));
    assert_eq!(vi(&[s, "\x1b", "0fa;"]), is(s, 9));
    assert_eq!(vi(&[s, "\x1b", "0fa;,"]), is(s, 5));
    assert_eq!(vi(&[s, "\x1b", "0t("]), is(s, 6));
    assert_eq!(vi(&[s, "\x1b", "Fb"]), is(s, 8));
    assert_eq!(vi(&[s, "\x1b", "0f(%"]), is(s, 11));
    assert_eq!(vi(&[s, "\x1b", "0f)%"]), is(s, 7));
    assert_eq!(vi(&["  x", "\x1b", "^"]), is("  x", 2));
    assert_eq!(vi(&[s, "\x1b", "03l"]), is(s, 3));
    assert_eq!(vi(&[s, "\x1b", "3h"]), is(s, 12));
}

#[test]
fn vi_operators() {
    assert_eq!(vi(&["foo bar", "\x1b", "0dw"]), is("bar", 0));
    assert_eq!(vi(&["foo bar", "\x1b", "0d$"]), is("", 0));
    assert_eq!(vi(&["foo bar baz", "\x1b", "0d2w"]), is("baz", 0));
    assert_eq!(vi(&["foo bar", "\x1b", "0cwxy"]), is("xy bar", 2));
    assert_eq!(vi(&["foo bar", "\x1b", "dd"]), is("", 0));
    assert_eq!(vi(&["foo bar", "\x1b", "ccnew"]), is("new", 3));
    assert_eq!(vi(&["foo(bar)x", "\x1b", "0f(d%"]), is("foox", 3));
    assert_eq!(vi(&["foo bar", "\x1b", "0D"]), is("", 0));
    assert_eq!(vi(&["foo bar", "\x1b", "0wCx"]), is("foo x", 5));
    assert_eq!(vi(&["foo bar", "\x1b", "0dfo"]), is("o bar", 0));
    assert_eq!(vi(&["foo bar", "\x1b", "db"]), is("foo r", 4));
    assert_eq!(vi(&["foo bar", "\x1b", "0yw$p"]), is("foo barfoo ", 10));
    assert_eq!(vi(&["ab", "\x1b", "yy0P"]), is("abab", 1));
    assert_eq!(vi(&["ab", "\x1b", "0x3p"]), is("baaa", 3));
    assert_eq!(vi(&["foo bar", "\x1b", "0dwP"]), is("foo bar", 3));
}

#[test]
fn vi_small_commands() {
    assert_eq!(vi(&["abc", "\x1b", "0x"]), is("bc", 0));
    assert_eq!(vi(&["abc", "\x1b", "02x"]), is("c", 0));
    assert_eq!(vi(&["abc", "\x1b", "X"]), is("ac", 1));
    assert_eq!(vi(&["abc", "\x1b", "0~~"]), is("ABc", 2));
    assert_eq!(vi(&["éa", "\x1b", "02~"]), is("ÉA", 2));
    assert_eq!(vi(&["abc", "\x1b", "0rx"]), is("xbc", 0));
    assert_eq!(vi(&["abc", "\x1b", "04rx"]), is("abc", 0));
    assert_eq!(vi(&["abc", "\x1b", "0sxy"]), is("xybc", 2));
    assert_eq!(vi(&["abc", "\x1b", "Sxy"]), is("xy", 2));
    assert_eq!(vi(&["abc", "\x1b", "Ix"]), is("xabc", 1));
    assert_eq!(vi(&["abc", "\x1b", "0Ax"]), is("abcx", 4));
    assert_eq!(vi(&["abc", "\x1b", "0ax"]), is("axbc", 2));
    assert_eq!(vi(&["abc", "\x1b", "0ix"]), is("xabc", 1));
    assert_eq!(vi(&["abc", "\x1b", "0xu"]), is("abc", 0));
    // The Delete key kills like `x`.
    assert_eq!(vi(&["abc", "\x1b", "0", "\x1b[3~", "p"]), is("bac", 1));
}

#[test]
fn vi_text_objects() {
    assert_eq!(vi(&["one two three", "\x1b", "bbdiw"]), is("one  three", 4));
    assert_eq!(vi(&["one two three", "\x1b", "bbdaw"]), is("one three", 4));
    assert_eq!(vi(&["one two three", "\x1b", "bbciwX"]), is("one X three", 5));
    assert_eq!(vi(&["one two", "\x1b", "yiw0P"]), is("twoone two", 2));
}

#[test]
fn vi_history_by_number() {
    let mut ed = Editor::new();
    for e in ["one", "two", "three"] {
        ed.add_history_entry(e);
    }
    let mut k = Keyboard::new(&mut ed, &Vi);
    k.send("\x1b").send("k");
    assert_eq!(k.text(), "three");
    k.send("2G");
    assert_eq!(k.text(), "two");
    k.send("G");
    assert_eq!(k.text(), "three");
    k.send("j");
    assert_eq!(k.text(), "");
}

#[test]
fn vi_failed_find_rings() {
    let mut ed = Editor::new();
    let mut k = Keyboard::new(&mut ed, &Vi);
    k.send("abc").send("\x1b");
    assert!(!k.rang());
    k.send("0fz");
    assert!(k.rang());
    assert_eq!(k.at(), 0);
    k.send("5rx");
    assert!(k.rang());
}

fn remembering(entries: &[&str]) -> Editor {
    let mut ed = Editor::new();
    for e in entries {
        ed.add_history_entry(e);
    }
    ed
}

#[test]
fn recall_keeps_the_draft_and_rings_at_the_ends() {
    let mut ed = remembering(&["one", "two"]);
    let mut k = Keyboard::new(&mut ed, &NoHooks);
    k.send("draft").send("\x1b[A").send("\x1b[A");
    assert_eq!(k.text(), "one");
    assert!(!k.rang());
    k.send("\x1b[A");
    assert!(k.rang());
    assert_eq!(k.text(), "one");
    k.send("\x1b[B").send("\x1b[B");
    assert_eq!(k.text(), "draft");
    assert!(!k.rang());
    k.send("\x1b[B");
    assert!(k.rang());
    k.send("\x1b<");
    assert_eq!(k.text(), "one");
    k.send("\x1b>");
    assert_eq!(k.text(), "draft");
}

#[test]
fn incremental_search_narrows_and_lands_on_the_match() {
    let mut ed = remembering(&["git push", "echo git", "cargo build"]);
    let mut k = Keyboard::new(&mut ed, &NoHooks);
    k.send("\x12").send("git");
    assert!(k.out.contains("(reverse-i-search)`git': echo git"));
    k.send("\x12");
    assert!(k.out.contains("(reverse-i-search)`git': git push"));
    k.send("\x13");
    assert!(k.out.contains("(i-search)`git': echo git"));
    k.send("\x1b[C"); // any other key leaves the search
    assert_eq!((k.text(), k.at()), is("echo git", 5));
    k.send("\x1b[A");
    assert_eq!(k.text(), "git push");
}

#[test]
fn failed_search_keeps_the_match_and_rings() {
    let mut ed = remembering(&["alpha"]);
    let mut k = Keyboard::new(&mut ed, &NoHooks);
    k.send("draft").send("\x12").send("al");
    assert!(!k.rang());
    k.send("z");
    assert!(k.out.contains("(failed reverse-i-search)`alz': alpha"));
    assert!(k.rang());
    k.send("\x07");
    assert!(k.rang());
    assert_eq!(k.text(), "draft");
    k.send("\x12").send("al\x03");
    assert_eq!(k.result, Some(ReadResult::Interrupted));
}

#[test]
fn search_can_ignore_case_and_takes_pastes() {
    let mut ed = remembering(&["Alpha Beta"]);
    ed.set_search_ignore_case(true);
    let mut k = Keyboard::new(&mut ed, &NoHooks);
    k.send("\x12").send("\x1b[200~ha\nbe\x1b[201~").send("\r");
    assert_eq!(k.result, Some(ReadResult::Line("Alpha Beta".to_string())));
}

#[test]
fn case_is_ignored_in_the_lowercase_forms() {
    // The lowercase form of U+0130 is two characters.
    let mut ed = remembering(&["go \u{130}stanbul", "i\u{307}zmir"]);
    ed.set_search_ignore_case(true);
    let mut k = Keyboard::new(&mut ed, &NoHooks);
    k.send("\x12i\u{307}s").send("\x1b[C");
    assert_eq!((k.text(), k.at()), is("go \u{130}stanbul", 3));
    drop(k);
    let mut k = Keyboard::new(&mut ed, &NoHooks);
    k.send("\u{130}Z").send("\x1b[5~");
    assert_eq!(k.text(), "i\u{307}zmir");
    drop(k);
    ed.set_search_ignore_case(false);
    let mut k = Keyboard::new(&mut ed, &NoHooks);
    k.send("\u{130}z").send("\x1b[5~");
    assert_eq!(k.text(), "\u{130}z");
}

#[test]
fn prefix_search_anchors_again_after_another_key() {
    let mut ed = remembering(&["git status", "ls", "git push"]);
    let mut k = Keyboard::new(&mut ed, &NoHooks);
    k.send("gi").send("\x1b[5~");
    assert_eq!(k.text(), "git push");
    k.send("\x1b[5~");
    assert_eq!(k.text(), "git status");
    k.send("\x1b[6~").send("\x1b[6~");
    assert_eq!(k.text(), "gi");
    // Another key re-anchors: now the whole text before the cursor counts.
    k.send("\x15").send("l").send("\x1b[5~");
    assert_eq!(k.text(), "ls");
    k.send("\x1b[5~");
    assert!(k.rang());
    assert_eq!(k.text(), "ls");
}

struct Words;

impl Hooks for Words {
    fn complete(&self, line: &str, pos: usize) -> (usize, Vec<Candidate>) {
        let start = line[..pos].rfind(' ').map_or(0, |i| i + 1);
        let all = ["beta", "alphabet", "alpha", "alphanumeric"];
        (start, all.iter().filter(|w| w.starts_with(&line[start..pos])).map(|w| cand(w)).collect())
    }

    fn expand_abbreviation(&self, line: &str, cursor: usize) -> Option<(usize, String)> {
        if line[..cursor].ends_with("gs") {
            Some((cursor - 2, "git status".to_string()))
        } else {
            None
        }
    }
}

#[test]
fn completion_inserts_lists_and_cycles() {
    let mut ed = Editor::new();
    let mut k = Keyboard::new(&mut ed, &Words);
    k.send("be\t");
    assert_eq!(k.text(), "beta "); // unique: followed by a space
    k.send("al\t");
    assert_eq!(k.text(), "beta alpha");
    k.send("\t");
    assert!(k.out.contains("alpha         alphabet      alphanumeric\n"));
    k.send("\t");
    assert_eq!(k.text(), "beta alphabet"); // the first candidate given
    k.send("\x1b[Z").send("\x1b[Z");
    assert_eq!(k.text(), "beta alpha");
    k.send(" zz");
    assert!(!k.rang());
    k.send("\t");
    assert!(k.rang());
}

#[test]
fn completion_variables() {
    let mut ed = Editor::new();
    ed.set_completion_append_character(None);
    ed.set_show_all_if_ambiguous(true);
    let mut k = Keyboard::new(&mut ed, &Words);
    k.send("be\t");
    assert_eq!(k.text(), "beta");
    k.send(" al\t");
    assert_eq!(k.text(), "beta alpha");
    assert!(k.out.contains("alphanumeric"));
    drop(k);
    ed.set_menu_complete(true);
    let mut k = Keyboard::new(&mut ed, &Words);
    k.send("al\t");
    assert_eq!(k.text(), "alphabet");
    k.send("\t");
    assert_eq!(k.text(), "alpha");
    drop(k);
    let mut k = Keyboard::new(&mut ed, &Words);
    k.send("al\x1b[Z");
    assert_eq!(k.text(), "alphanumeric"); // a cold backward step: the last
    drop(k);
    let mut k = Keyboard::new(&mut ed, &Words);
    k.send("al\x1b*");
    assert_eq!(k.text(), "alphabet alpha alphanumeric");
}

struct Shouting;

impl Hooks for Shouting {
    fn complete(&self, _line: &str, _pos: usize) -> (usize, Vec<Candidate>) {
        (0, vec![cand("Makefile"), cand("makeup")])
    }
}

#[test]
fn completion_can_ignore_case() {
    let mut ed = Editor::new();
    ed.set_completion_ignore_case(true);
    let mut k = Keyboard::new(&mut ed, &Shouting);
    k.send("m\t");
    assert_eq!(k.text(), "Make");
}

struct Letters;

impl Hooks for Letters {
    fn complete(&self, _line: &str, _pos: usize) -> (usize, Vec<Candidate>) {
        (0, vec![cand("ab"), cand("abc")])
    }
}

#[test]
fn completion_progress_is_counted_in_bytes() {
    let mut ed = Editor::new();
    let mut k = Keyboard::new(&mut ed, &Letters);
    k.send("\u{e9}\t"); // two bytes, as many as the common prefix: listed
    assert_eq!(k.text(), "\u{e9}");
    assert!(k.out.contains("ab   abc\n"));
    drop(k);
    let mut k = Keyboard::new(&mut ed, &Letters);
    k.send("x\t");
    assert_eq!(k.text(), "ab");
    assert!(!k.out.contains("abc"));
}

#[test]
fn abbreviations_expand_on_space() {
    let mut ed = Editor::new();
    let mut k = Keyboard::new(&mut ed, &Words);
    k.send("gs ");
    assert_eq!((k.text(), k.at()), is("git status ", 11));
    k.send("x ");
    assert_eq!(k.text(), "git status x ");
}

struct Wild;

impl Hooks for Wild {
    fn complete(&self, _line: &str, _pos: usize) -> (usize, Vec<Candidate>) {
        (99, vec![cand("xyz")])
    }

    fn expand_abbreviation(&self, _line: &str, _cursor: usize) -> Option<(usize, String)> {
        Some((1, "!".to_string()))
    }
}

#[test]
fn offsets_from_hooks_are_clamped() {
    // Past the cursor: nothing is replaced.
    let mut ed = Editor::new();
    let mut k = Keyboard::new(&mut ed, &Wild);
    k.send("ab\t");
    assert_eq!(k.text(), "abxyz ");
    drop(k);
    // Inside a UTF-8 sequence: back to its start.
    let mut k = Keyboard::new(&mut ed, &Wild);
    k.send("é ");
    assert_eq!(k.text(), "! ");
}

#[test]
fn unbound_and_rebound_keys() {
    let mut ed = Editor::new();
    ed.unbind("\\C-a").unwrap();
    ed.bind("\\C-e", EditorAction::BeginningOfLine).unwrap();
    ed.bind("x", EditorAction::BackwardDeleteChar).unwrap();
    let mut k = Keyboard::new(&mut ed, &NoHooks);
    k.send("abc").send("\x01");
    assert_eq!(k.at(), 3);
    k.send("\x05");
    assert_eq!(k.at(), 0);
    k.send("\x1b[F").send("x");
    assert_eq!(k.text(), "ab");
    drop(k);
    // Binding again brings the key back.
    ed.bind("\\C-a", EditorAction::BeginningOfLine).unwrap();
    let mut k = Keyboard::new(&mut ed, &NoHooks);
    k.send("abc").send("\x01");
    assert_eq!(k.at(), 0);
}

#[test]
fn the_last_of_many_bindings_counts() {
    let mut ed = Editor::new();
    ed.bind("\\C-t", EditorAction::KillLine).unwrap();
    ed.bind_host("\\C-y", "menu".to_string()).unwrap();
    ed.unbind("\\C-t").unwrap();
    assert!(ed.bind("nonsense", EditorAction::Undo).is_err());
    ed.bind("\\C-t", EditorAction::Undo).unwrap();
    ed.bind("\\M-z", EditorAction::Yank).unwrap();
    ed.unbind("\\C-k").unwrap();
    let rows = ed.bindings();
    let of = |spec: &str| rows.iter().filter(|r| r.0 == spec).map(|r| r.1).collect::<Vec<_>>();
    assert_eq!(of("\\C-t"), [EditorAction::Undo]);
    assert_eq!(of("\\M-z"), [EditorAction::Yank]);
    assert_eq!(of("\\C-y"), []);
    assert_eq!(of("\\C-k"), []);
    assert_eq!(of("\\C-a"), [EditorAction::BeginningOfLine]);
    for (i, row) in rows.iter().enumerate() {
        assert!(!row.0.is_empty());
        assert!(rows[..i].iter().all(|r| r.0 != row.0), "{} twice", row.0);
    }
}

#[test]
fn host_bindings_are_listed_by_themselves() {
    let mut ed = Editor::new();
    ed.bind_host("\\C-g", "fzf".to_string()).unwrap();
    ed.bind("\\C-o", EditorAction::KillLine).unwrap();
    assert_eq!(ed.host_bindings(), vec![("\\C-g".to_string(), "fzf".to_string())]);
    assert!(ed.is_sound());
}

#[test]
fn action_names_map_both_ways() {
    assert_eq!(EditorAction::KillLine.name(), "kill-line");
    assert_eq!(
        EditorAction::from_name("menu-complete-backward"),
        Some(EditorAction::MenuCompleteBackward)
    );
    assert_eq!(EditorAction::from_name("no-such-command"), None);
}

#[test]
fn operate_and_get_next_finds_the_entry_again() {
    let mut ed = remembering(&["a", "b", "c"]);
    ed.set_history_dedup(true);
    let mut k = Keyboard::new(&mut ed, &NoHooks);
    k.send("\x1b[A\x1b[A\x1b[A").send("\x0f");
    assert_eq!(k.result, Some(ReadResult::Line("a".to_string())));
    drop(k);
    ed.add_history_entry("a"); // erases the first "a": everything moves up
    assert_eq!(ed.history(), ["b", "c", "a"]);
    let k = Keyboard::new(&mut ed, &NoHooks);
    assert_eq!(k.text(), "b");
    drop(k);
    // Once only.
    let k = Keyboard::new(&mut ed, &NoHooks);
    assert_eq!(k.text(), "");
}

struct Traps {
    fired: std::cell::Cell<usize>,
}

impl Hooks for Traps {
    fn on_interrupted_read(&self) {
        self.fired.set(self.fired.get() + 1);
    }
}

#[test]
fn an_idle_tick_gives_the_host_a_beat() {
    let traps = Traps { fired: std::cell::Cell::new(0) };
    let mut ed = Editor::new();
    ed.set_bell_style(BellStyle::Visible);
    let mut k = Keyboard::new(&mut ed, &traps);
    k.happen(Stimulus::Byte(b'a'));
    assert_eq!(traps.fired.get(), 0);
    k.happen(Stimulus::Silence);
    assert_eq!(traps.fired.get(), 1);
    k.happen(Stimulus::Silence);
    assert_eq!(traps.fired.get(), 2);
    // Neither the silence after a lone ESC nor the end of a flash is idle.
    k.happen(Stimulus::Byte(0x1b));
    k.happen(Stimulus::Silence);
    assert_eq!(traps.fired.get(), 2);
    for b in b"\x1b[B" {
        k.happen(Stimulus::Byte(*b)); // past the end: the bell flashes
    }
    k.happen(Stimulus::Silence);
    assert_eq!(traps.fired.get(), 2);
    k.happen(Stimulus::Silence);
    assert_eq!(traps.fired.get(), 3);
}

#[test]
fn downs_undo_as_many_ups() {
    let mut ed = remembering(&["a", "b", "c"]);
    let mut k = Keyboard::new(&mut ed, &NoHooks);
    k.send("draft").send("\x1b[A\x1b[A\x1b[A");
    assert_eq!(k.text(), "a");
    k.send("\x1b[B\x1b[B\x1b[B");
    assert_eq!(k.text(), "draft");
    // From an edited entry as well.
    k.send("\x1b[A").send("!").send("\x1b[A\x1b[A").send("\x1b[B\x1b[B");
    assert_eq!(k.text(), "c!");
}

#[test]
fn a_line_after_an_ordinary_enter_begins_empty() {
    let mut ed = remembering(&["a", "b", "c"]);
    let mut k = Keyboard::new(&mut ed, &NoHooks);
    k.send("\x1b[A\x1b[A").send("\r");
    assert_eq!(k.result, Some(ReadResult::Line("b".to_string())));
    drop(k);
    assert!(ed.operate_next.is_none());
    let k = Keyboard::new(&mut ed, &NoHooks);
    assert_eq!(k.text(), "");
}

#[test]
fn only_operate_and_get_next_asks_for_an_entry() {
    let mut ed = remembering(&["a", "b", "c"]);
    let mut k = Keyboard::new(&mut ed, &NoHooks);
    k.send("\x1b[A\x1b[A");
    for keys in ["x", "\x17", "\x19", "\x1f", "\x12a", "\x07", "\t", "\x0c"] {
        k.send(keys);
        assert!(k.ed.operate_next.is_none(), "after {keys:?}");
    }
    k.send("\x0f");
    assert_eq!(k.ed.operate_next, Some((2, "c".to_string())));
    drop(k);
    // The pre-loaded line interrupted, the next one is empty.
    let mut k = Keyboard::new(&mut ed, &NoHooks);
    assert_eq!(k.text(), "c");
    k.send("\x03");
    assert_eq!(k.result, Some(ReadResult::Interrupted));
    drop(k);
    let mut k = Keyboard::new(&mut ed, &NoHooks);
    assert_eq!(k.text(), "");
    // Nothing comes after the newest entry.
    k.send("\x1b[A").send("\x0f");
    assert_eq!(k.result, Some(ReadResult::Line("c".to_string())));
    assert!(k.ed.operate_next.is_none());
}

#[test]
fn end_of_input_and_end_of_file() {
    let mut ed = Editor::new();
    let mut k = Keyboard::new(&mut ed, &NoHooks);
    k.send("\x04");
    assert_eq!(k.result, Some(ReadResult::Eof));
    drop(k);
    // With text, C-d deletes, and only the end of the input is end of file.
    let mut k = Keyboard::new(&mut ed, &NoHooks);
    k.send("ab").send("\x01\x04");
    assert_eq!(k.text(), "b");
    k.happen(Stimulus::Closed);
    assert_eq!(k.result, Some(ReadResult::Eof));
}

#[test]
fn bells() {
    let mut ed = Editor::new();
    ed.set_bell_style(BellStyle::Silent);
    let mut k = Keyboard::new(&mut ed, &NoHooks);
    k.out.clear();
    k.send("\x1b[A");
    assert!(!k.out.contains('\x07'));
    assert!(!k.out.contains("\x1b[?5h"));
}

struct Counting {
    asked: std::cell::Cell<usize>,
}

impl Hooks for Counting {
    fn hint(&self, line: &str, _history: &[String]) -> Option<String> {
        self.asked.set(self.asked.get() + 1);
        if line.is_empty() || line.ends_with('!') {
            None
        } else {
            Some("!".to_string())
        }
    }
}

#[test]
fn the_hint_is_asked_for_once_per_text() {
    let hooks = Counting { asked: std::cell::Cell::new(0) };
    let mut ed = Editor::new();
    let mut k = Keyboard::new(&mut ed, &hooks);
    assert_eq!(hooks.asked.get(), 1);
    k.send("a");
    assert_eq!(hooks.asked.get(), 2);
    // The accepted hint is the one that was painted; the new text is asked for.
    k.send("\x1b[C");
    assert_eq!(k.text(), "a!");
    assert_eq!(hooks.asked.get(), 3);
    // A key that changes nothing asks nothing.
    k.send("\x05");
    assert_eq!(hooks.asked.get(), 3);
}

#[test]
fn the_mode_is_shown_in_the_prompt() {
    let mut ed = Editor::new();
    ed.set_show_mode_in_prompt(true);
    let k = Keyboard::new(&mut ed, &NoHooks);
    assert!(k.out.contains("\r@> "));
    drop(k);
    let mut k = Keyboard::new(&mut ed, &Vi);
    assert!(k.out.contains("\r(ins)> "));
    k.send("\x1b");
    assert!(k.out.contains("\r(cmd)> "));
}
