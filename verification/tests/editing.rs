//! The editing commands, the word motions, keys and bindings, and the history,
//! one call at a time.

use rusty_lines::act::run_action;
use rusty_lines::actions::{default_bindings, EditorAction};
use rusty_lines::complete::{common_prefix, longest_common_prefix, menu_next};
use rusty_lines::edit::{
    case_word, insert_last_arg, kill_span, transpose_words, undo_cmd, yank, yank_pop, CaseOp,
};
use rusty_lines::editor::{Editor, ErrorKind};
use rusty_lines::hooks::{Candidate, Hooks, NoHooks};
use rusty_lines::keys::{csi_key, Key};
use rusty_lines::keyspec::{key_spec, parse_key_spec};
use rusty_lines::line::{Action, LineState, MenuState};
use rusty_lines::modes::{
    ConsoleModes, ENABLE_ECHO_INPUT, ENABLE_LINE_INPUT, ENABLE_VIRTUAL_TERMINAL_INPUT,
    ENABLE_VIRTUAL_TERMINAL_PROCESSING,
};
use rusty_lines::recall::{history_prefix_next, history_prefix_prev};
use rusty_lines::ring::KillRing;
use rusty_lines::step::Binding;
use rusty_lines::width::{display_width, visualize};
use rusty_lines::words::{
    vi_find_target, vi_word_back, vi_word_end, vi_word_fwd, word_back, word_back_alnum,
    word_forward_alnum,
};

fn state(buf: &str, cursor: usize) -> LineState {
    LineState::with_text(buf, cursor)
}

fn chars(s: &str) -> Vec<char> {
    s.chars().collect()
}

fn ring_of(entries: &[&str]) -> KillRing {
    let mut ring = KillRing::new();
    for e in entries {
        ring.push(chars(e));
    }
    ring
}

fn ring_texts(ring: &KillRing) -> Vec<String> {
    ring.entries.iter().map(|e| e.iter().collect()).collect()
}

fn cand(s: &str) -> Candidate {
    Candidate { display: s.to_string(), replacement: s.to_string() }
}

#[test]
fn width_skips_ansi_and_counts_wide_chars() {
    assert_eq!(display_width("plain"), 5);
    assert_eq!(display_width("\x1b[32mgreen\x1b[0m"), 5);
    assert_eq!(display_width("日本"), 4); // two double-width chars
    assert_eq!(display_width(""), 0);
}

#[test]
fn common_prefix_plain() {
    assert_eq!(longest_common_prefix(&["echo", "ech", "echelon"]), "ech");
    assert_eq!(longest_common_prefix(&["abc"]), "abc");
    assert_eq!(longest_common_prefix(&["x", "y"]), "");
    assert_eq!(longest_common_prefix(&[]), "");
}

#[test]
fn word_motion() {
    assert_eq!(word_back(&chars("echo hello"), 10), 5);
    assert_eq!(word_back(&chars("echo hello"), 5), 0);
    assert_eq!(word_back(&chars("word"), 4), 0);
}

#[test]
fn word_motion_alnum() {
    // M-b/M-f stop at non-alphanumerics, unlike C-w's whitespace rule.
    assert_eq!(word_back_alnum(&chars("a-b/c.txt"), 9), 6); // back over "txt"
    assert_eq!(word_back_alnum(&chars("echo hello"), 10), 5);
    assert_eq!(word_back_alnum(&chars("  "), 2), 0); // no word: to line start
    assert_eq!(word_forward_alnum(&chars("a-b/c.txt"), 0), 1); // just "a"
    assert_eq!(word_forward_alnum(&chars("--foo bar"), 0), 5); // skips the dashes
}

#[test]
fn vi_small_words() {
    //               0123456789
    let s = chars("ab cd-ef gh");
    assert_eq!(vi_word_fwd(&s, 0), 3); // ab to cd
    assert_eq!(vi_word_fwd(&s, 3), 5); // cd to the "-" (its own word)
    assert_eq!(vi_word_fwd(&s, 5), 6); // "-" to ef
    assert_eq!(vi_word_back(&s, 6), 5); // ef to "-"
    assert_eq!(vi_word_back(&s, 3), 0);
    assert_eq!(vi_word_end(&s, 0), 1); // on the "b" of "ab"
    assert_eq!(vi_word_end(&s, 1), 4); // b to d of "cd"
}

#[test]
fn vi_find_targets() {
    //               0123456
    let s = chars("echo ab");
    assert_eq!(vi_find_target(&s, 0, 'f', 'o'), Some((3, true)));
    assert_eq!(vi_find_target(&s, 0, 't', 'o'), Some((2, true)));
    assert_eq!(vi_find_target(&s, 6, 'F', 'e'), Some((0, false)));
    assert_eq!(vi_find_target(&s, 6, 'T', 'e'), Some((1, false)));
    assert_eq!(vi_find_target(&s, 0, 'f', 'z'), None);
}

#[test]
fn visualize_control_chars() {
    assert_eq!(visualize("plain"), "plain");
    assert_eq!(visualize("a\x1bb"), "a^[b");
    assert_eq!(visualize("a\tb"), "a    b");
    assert_eq!(visualize("a\nb"), "a⏎b");
    assert_eq!(visualize("\u{7f}"), "^?");
}

#[test]
fn csi_sequences() {
    assert_eq!(csi_key("", b'A'), Key::Up);
    assert_eq!(csi_key("", b'D'), Key::Left);
    assert_eq!(csi_key("3", b'~'), Key::Delete);
    assert_eq!(csi_key("1", b'~'), Key::Home);
    assert_eq!(csi_key("1;5", b'C'), Key::WordRight);
    assert_eq!(csi_key("1;3", b'D'), Key::WordLeft);
    assert_eq!(csi_key("5", b'~'), Key::PageUp);
    assert_eq!(csi_key("6", b'~'), Key::PageDown);
    assert_eq!(csi_key("99", b'~'), Key::Other);
}

#[test]
fn history_dedups_consecutive_only() {
    let mut ed = Editor::new();
    ed.add_history_entry("a");
    ed.add_history_entry("a");
    ed.add_history_entry("b");
    ed.add_history_entry("a");
    assert_eq!(ed.history(), &["a", "b", "a"]);
}

#[test]
fn history_joins_multiline_entries() {
    let mut ed = Editor::new();
    ed.add_history_entry("echo a\necho b");
    assert_eq!(ed.history(), &["echo a; echo b"]);
}

#[test]
fn kill_ring_appends_consecutive_kills() {
    let mut ring = KillRing::new();
    let mut st = state("one two three", 13);
    // C-w twice: "three" then "two " prepends onto the same entry.
    let (start, cur) = (word_back(&st.buffer, st.cursor), st.cursor);
    kill_span(&mut st, &mut ring, start, cur, false);
    st.prev_action = st.this_action;
    let (start, cur) = (word_back(&st.buffer, st.cursor), st.cursor);
    kill_span(&mut st, &mut ring, start, cur, false);
    assert_eq!(st.text(), "one ");
    assert_eq!(ring_texts(&ring), vec!["two three".to_string()]);
    // A yank restores both words at once.
    st.prev_action = Action::Other;
    yank(&mut st, &ring);
    assert_eq!(st.text(), "one two three");
}

#[test]
fn yank_pop_rotates_ring() {
    let ring = ring_of(&["old", "new"]);
    let mut st = state("", 0);
    yank(&mut st, &ring);
    assert_eq!(st.text(), "new");
    st.prev_action = st.this_action;
    yank_pop(&mut st, &ring);
    assert_eq!(st.text(), "old");
    st.prev_action = st.this_action;
    yank_pop(&mut st, &ring);
    assert_eq!(st.text(), "new");
}

#[test]
fn transpose_words_swaps_around_cursor() {
    let mut st = state("echo one two", 12);
    transpose_words(&mut st);
    assert_eq!(st.text(), "echo two one");
    assert_eq!(st.cursor, 12);
    // A single word: no-op.
    let mut st = state("word", 4);
    transpose_words(&mut st);
    assert_eq!(st.text(), "word");
}

#[test]
fn case_ops() {
    let mut st = state("echo word here", 5);
    case_word(&mut st, CaseOp::Upper);
    assert_eq!(st.text(), "echo WORD here");
    assert_eq!(st.cursor, 9);
    let mut st = state("echo WORD", 5);
    case_word(&mut st, CaseOp::Lower);
    assert_eq!(st.text(), "echo word");
    let mut st = state("echo wOrD", 5);
    case_word(&mut st, CaseOp::Capital);
    assert_eq!(st.text(), "echo Word");
}

#[test]
fn last_arg_inserts_and_cycles() {
    let history = vec!["echo first one".to_string(), "echo second two".to_string()];
    let mut st = state("echo ", 5);
    insert_last_arg(&mut st, &history);
    assert_eq!(st.text(), "echo two");
    st.prev_action = st.this_action;
    insert_last_arg(&mut st, &history);
    assert_eq!(st.text(), "echo one");
}

#[test]
fn undo_restores_snapshots() {
    let mut st = state("hello", 5);
    st.undo.push((chars("hell"), 4));
    st.undo.push((chars("hello"), 5));
    undo_cmd(&mut st);
    assert_eq!(st.text(), "hello");
    undo_cmd(&mut st);
    assert_eq!(st.text(), "hell");
    assert_eq!(st.cursor, 4);
    undo_cmd(&mut st); // empty stack: no-op
    assert_eq!(st.text(), "hell");
}

#[test]
fn prefix_search_matches_start_only() {
    let history = vec!["git status".to_string(), "echo git".to_string(), "git push".to_string()];
    let mut st = state("git", 3);
    history_prefix_prev(&mut st, &history);
    assert_eq!(st.text(), "git push");
    history_prefix_prev(&mut st, &history);
    assert_eq!(st.text(), "git status"); // skipped "echo git"
    history_prefix_next(&mut st, &history);
    assert_eq!(st.text(), "git push");
    history_prefix_next(&mut st, &history);
    assert_eq!(st.text(), "git"); // back to the draft
}

#[test]
fn history_cap_drops_oldest() {
    let mut ed = Editor::new();
    ed.set_max_history_len(2);
    ed.add_history_entry("a");
    ed.add_history_entry("b");
    ed.add_history_entry("c");
    assert_eq!(ed.history(), ["b", "c"]);
    ed.set_max_history_len(1); // shrinking trims immediately
    assert_eq!(ed.history(), ["c"]);
}

#[test]
fn append_history_writes_only_new_entries() {
    let mut ed = Editor::new();
    ed.add_history_entry("one");
    let mut file = ed.log.save_text(false);
    ed.add_history_entry("two");
    file.push_str(&ed.log.append_text(false));
    file.push_str(&ed.log.append_text(false)); // nothing new: no-op
    assert_eq!(file, "one\ntwo\n");

    // A second session appends without clobbering the first's entries.
    let mut ed2 = Editor::new();
    ed2.log.load_text(&file);
    ed2.add_history_entry("three");
    file.push_str(&ed2.log.append_text(false));
    assert_eq!(file, "one\ntwo\nthree\n");
}

#[test]
fn key_specs_parse_readline_spellings() {
    assert_eq!(parse_key_spec("\\C-f"), Some(Key::Ctrl('f')));
    assert_eq!(parse_key_spec("\\C-F"), Some(Key::Ctrl('f')));
    assert_eq!(parse_key_spec("\\C-?"), Some(Key::Backspace));
    assert_eq!(parse_key_spec("\\C-_"), Some(Key::Ctrl('_')));
    assert_eq!(parse_key_spec("\\M-f"), Some(Key::Alt('f')));
    assert_eq!(parse_key_spec("\\ex"), Some(Key::Alt('x')));
    assert_eq!(parse_key_spec("\\M-\\C-?"), Some(Key::AltBackspace));
    assert_eq!(parse_key_spec("\\e[A"), Some(Key::Up));
    assert_eq!(parse_key_spec("\\e[1;5C"), Some(Key::WordRight));
    assert_eq!(parse_key_spec("\\e[3~"), Some(Key::Delete));
    assert_eq!(parse_key_spec("\\eOH"), Some(Key::Home));
    assert_eq!(parse_key_spec("\\e"), Some(Key::Esc));
    assert_eq!(parse_key_spec("\\C-m"), Some(Key::Enter));
    assert_eq!(parse_key_spec("\\t"), Some(Key::Tab));
    assert_eq!(parse_key_spec("\\x09"), Some(Key::Tab));
    assert_eq!(parse_key_spec("\\011"), Some(Key::Tab));
    assert_eq!(parse_key_spec("a"), Some(Key::Char('a')));
    assert_eq!(parse_key_spec("ü"), Some(Key::Char('ü')));
    // Unparseable: empty, chords, unknown sequences, junk escapes.
    assert_eq!(parse_key_spec(""), None);
    assert_eq!(parse_key_spec("\\C-x\\C-e"), None);
    assert_eq!(parse_key_spec("ab"), None);
    assert_eq!(parse_key_spec("\\e[99~"), None);
    assert_eq!(parse_key_spec("\\Z"), None);
}

#[test]
fn key_specs_round_trip_through_bindings_listing() {
    for (key, _) in default_bindings().iter() {
        assert_eq!(
            parse_key_spec(&key_spec(key)).as_ref(),
            Some(key),
            "spec {:?} for {key:?} does not round-trip",
            key_spec(key)
        );
    }
}

fn lookup(ed: &Editor, spec: &str) -> Option<EditorAction> {
    ed.bindings().iter().find(|(k, _)| k == spec).map(|(_, a)| *a)
}

#[test]
fn bind_overrides_default_and_unbind_masks_it() {
    let mut ed = Editor::new();
    assert_eq!(lookup(&ed, "\\C-f"), Some(EditorAction::ForwardChar));

    ed.bind("\\C-f", EditorAction::KillLine).unwrap();
    assert_eq!(lookup(&ed, "\\C-f"), Some(EditorAction::KillLine));
    // The default row is replaced, not duplicated.
    assert_eq!(ed.bindings().iter().filter(|(k, _)| k == "\\C-f").count(), 1);

    ed.unbind("\\C-f").unwrap();
    assert_eq!(lookup(&ed, "\\C-f"), None);

    // Host bindings are stored but not listed as actions.
    ed.bind_host("\\C-g", "fzf".to_string()).unwrap();
    assert_eq!(lookup(&ed, "\\C-g"), None);
    assert!(ed
        .bindings
        .iter()
        .any(|(k, b)| *k == Key::Ctrl('g') && *b == Binding::Host("fzf".to_string())));

    // A bad spec is an InvalidInput error.
    let err = ed.bind("\\C-x\\C-e", EditorAction::Undo).unwrap_err();
    assert_eq!(err.kind(), ErrorKind::InvalidInput);
}

#[test]
fn lib_rebound_key_runs_the_new_action() {
    // C-f rebound to kill-line: dispatch consults the custom table.
    let mut ed = Editor::new();
    ed.bind("\\C-f", EditorAction::KillLine).unwrap();
    let (key, binding) = &ed.bindings[0];
    assert_eq!(*key, Key::Ctrl('f'));
    let Binding::Action(action) = binding else {
        panic!("expected an action binding");
    };
    let mut st = state("hello", 2);
    let mut ring = KillRing::new();
    run_action(&mut st, *action, key, &[], &mut ring, &NoHooks);
    assert_eq!(st.text(), "he");
    assert_eq!(ring_texts(&ring), ["llo"]);
}

struct TwoCandidates;

impl Hooks for TwoCandidates {
    fn complete(&self, line: &str, pos: usize) -> (usize, Vec<Candidate>) {
        let _ = (line, pos);
        (4, vec![cand("alpha"), cand("alphabet")])
    }
}

#[test]
fn menu_complete_inserts_first_candidate_immediately() {
    let mut st = state("say al", 6);
    st.cfg.menu_complete = true;
    let mut ring = KillRing::new();
    run_action(&mut st, EditorAction::Complete, &Key::Tab, &[], &mut ring, &TwoCandidates);
    assert_eq!(st.text(), "say alpha");
    run_action(&mut st, EditorAction::Complete, &Key::Tab, &[], &mut ring, &TwoCandidates);
    assert_eq!(st.text(), "say alphabet");
    run_action(&mut st, EditorAction::Complete, &Key::Tab, &[], &mut ring, &TwoCandidates);
    assert_eq!(st.text(), "say alpha"); // wraps
}

#[test]
fn case_insensitive_common_prefix() {
    assert_eq!(common_prefix(&["Echo", "echelon"], true), "Ech");
    assert_eq!(common_prefix(&["Echo", "echelon"], false), "");
    assert_eq!(common_prefix(&["abc", "ABC"], true), "abc");
    assert_eq!(common_prefix(&["x", "y"], true), "");
    assert_eq!(common_prefix(&[], true), "");
}

#[test]
fn history_timestamps_round_trip_both_formats() {
    // Adding stamps entries; plain save leaves the file un-timestamped.
    let mut ed = Editor::new();
    ed.add_history_entry("one");
    assert!(ed.history_timestamps()[0].is_some());
    let text = ed.log.save_text(ed.write_timestamps);
    assert!(!text.starts_with('#'));

    // Timestamped save writes bash's `#<epoch>` comment lines...
    ed.set_history_timestamps(true);
    let mut text = ed.log.save_text(ed.write_timestamps);
    assert!(text.starts_with('#'), "no timestamp line:\n{text}");
    assert!(text.ends_with("one\n"));

    // ...which load back as timestamps, not entries, and append keeps
    // stamping.
    let mut ed2 = Editor::new();
    ed2.set_history_timestamps(true);
    ed2.log.load_text(&text);
    assert_eq!(ed2.history(), ["one"]);
    assert_eq!(ed2.history_timestamps(), ed.history_timestamps());
    ed2.add_history_entry("two");
    text.push_str(&ed2.log.append_text(ed2.write_timestamps));
    assert_eq!(text.lines().count(), 4, "expected 2 stamped entries:\n{text}");

    // A plain (never-stamped) file loads with `None` timestamps.
    let mut ed3 = Editor::new();
    ed3.log.load_text("alpha\nbeta\n");
    assert_eq!(ed3.history(), ["alpha", "beta"]);
    assert_eq!(ed3.history_timestamps(), [None, None]);
}

#[test]
fn replace_history_swaps_entries_and_keeps_appends_incremental() {
    let mut ed = Editor::new();
    ed.add_history_entry("a");
    ed.add_history_entry("b");
    ed.replace_history(vec!["b".to_string()]); // history -d dropped "a"
    assert_eq!(ed.history(), ["b"]);
    assert_eq!(ed.history_timestamps(), [None]);
    // Replaced entries count as persisted: only later additions append.
    ed.add_history_entry("c");
    assert_eq!(ed.log.append_text(false), "c\n");
}

#[test]
fn history_dedup_erases_earlier_duplicates() {
    let mut ed = Editor::new();
    ed.set_history_dedup(true);
    ed.add_history_entry("a");
    ed.add_history_entry("b");
    ed.add_history_entry("a");
    assert_eq!(ed.history(), ["b", "a"]);
    // Off by default: only consecutive repeats are skipped.
    let mut ed = Editor::new();
    ed.add_history_entry("a");
    ed.add_history_entry("b");
    ed.add_history_entry("a");
    assert_eq!(ed.history(), ["a", "b", "a"]);
}

#[test]
fn revert_line_undoes_everything_at_once() {
    let mut st = state("hello", 5);
    st.undo = vec![(chars("hello"), 5), (chars("hellox"), 6)];
    st.buffer = chars("helloxyz");
    st.cursor = 8;
    let mut ring = KillRing::new();
    run_action(&mut st, EditorAction::RevertLine, &Key::Alt('r'), &[], &mut ring, &NoHooks);
    assert_eq!(st.text(), "hello");
    assert_eq!(st.cursor, 5);
    assert!(st.undo.is_empty());
}

#[test]
fn menu_cycling_walks_candidates_and_wraps() {
    let mut st = state("say al", 6);
    st.menu = Some(MenuState {
        start: 4,
        inserted: 2,
        index: None,
        candidates: vec![cand("alpha"), cand("alphabet")],
    });
    menu_next(&mut st);
    assert_eq!(st.text(), "say alpha");
    assert_eq!(st.cursor, 9);
    menu_next(&mut st);
    assert_eq!(st.text(), "say alphabet");
    menu_next(&mut st); // wraps back around
    assert_eq!(st.text(), "say alpha");
}

struct OneHint;

impl Hooks for OneHint {
    fn hint(&self, line: &str, _history: &[String]) -> Option<String> {
        if line == "he" {
            Some("llo world".to_string())
        } else {
            None
        }
    }
}

#[test]
fn alt_f_accepts_one_hint_word() {
    let mut ring = KillRing::new();

    // At end of line: accept exactly one word of the hint.
    let mut st = state("he", 2);
    run_action(&mut st, EditorAction::ForwardWord, &Key::Alt('f'), &[], &mut ring, &OneHint);
    assert_eq!(st.text(), "hello");
    assert_eq!(st.cursor, 5);

    // Mid-line: plain word motion, no hint involvement.
    let mut st = state("he", 0);
    run_action(&mut st, EditorAction::ForwardWord, &Key::Alt('f'), &[], &mut ring, &OneHint);
    assert_eq!(st.text(), "he");
    assert_eq!(st.cursor, 2);
}

#[test]
fn apply_raw_flags_produces_a_state_is_raw_accepts() {
    let mut t = ConsoleModes { input_mode: 0, output_mode: 0 };
    t.apply_raw_flags();
    assert!(t.is_raw());
}

#[test]
fn is_raw_rejects_line_buffered_input() {
    let t = ConsoleModes {
        input_mode: ENABLE_LINE_INPUT | ENABLE_VIRTUAL_TERMINAL_INPUT,
        output_mode: ENABLE_VIRTUAL_TERMINAL_PROCESSING,
    };
    assert!(!t.is_raw(), "ENABLE_LINE_INPUT still set must not read as raw");
}

#[test]
fn is_raw_rejects_missing_vt_processing() {
    let t = ConsoleModes { input_mode: ENABLE_VIRTUAL_TERMINAL_INPUT, output_mode: 0 };
    assert!(!t.is_raw(), "no ENABLE_VIRTUAL_TERMINAL_PROCESSING must not read as raw");
}

#[test]
fn clear_echo_flag_only_clears_echo() {
    let mut t = ConsoleModes { input_mode: ENABLE_ECHO_INPUT | ENABLE_LINE_INPUT, output_mode: 0 };
    t.clear_echo_flag();
    assert_eq!(t.input_mode, ENABLE_LINE_INPUT, "line input must survive; only echo clears");
}
