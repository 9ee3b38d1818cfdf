use sirula::entry::{AppEntry, NEUTRAL_SCORE};
use sirula::history::{History, HistoryEntry};
use sirula::launcher::{command_line, is_cmd, Action, Event, Launcher};
use std::cmp::Ordering;

fn entry(id: &str, name: &str) -> AppEntry {
    AppEntry::new(id.to_string(), name.to_string(), None, Vec::new(), format!("run-{}", id))
}

fn launcher(entries: Vec<AppEntry>, history: History) -> Launcher {
    Launcher::new(entries, history, ">".to_string())
}

fn record(id: &str, count: u64, last_used: u64) -> HistoryEntry {
    HistoryEntry { id: id.to_string(), count, last_used }
}

#[test]
fn empty_query_shows_every_entry() {
    let mut e = entry("a", "Firefox");
    e.update_match("xyz");
    assert!(e.hidden());
    e.update_match("");
    assert!(!e.hidden());
    assert_eq!(e.score, NEUTRAL_SCORE);
}

#[test]
fn unmatched_query_hides_entry() {
    let mut e = AppEntry::new(
        "a".to_string(),
        "Firefox".to_string(),
        Some("Web browser".to_string()),
        vec!["internet".to_string()],
        "firefox".to_string(),
    );
    e.update_match("xyz");
    assert!(e.hidden());
    assert_eq!(e.score, NEUTRAL_SCORE);
}

#[test]
fn description_and_keywords_are_searched() {
    let mut e = AppEntry::new(
        "a".to_string(),
        "Firefox".to_string(),
        Some("Web browser".to_string()),
        vec!["internet".to_string()],
        "firefox".to_string(),
    );
    e.update_match("browser");
    assert!(!e.hidden());
    e.update_match("internet");
    assert!(!e.hidden());
    assert!(e.score > 0);
}

#[test]
fn matching_ignores_case() {
    let mut e = entry("a", "Firefox");
    e.update_match("FIRE");
    assert!(!e.hidden());
    assert!(e.score > 0);
}

#[test]
fn apply_match_sets_state() {
    let mut e = entry("a", "Firefox");
    e.apply_match(Some(42));
    assert!(!e.hidden());
    assert_eq!(e.score, 42);
    e.apply_match(None);
    assert!(e.hidden());
    assert_eq!(e.score, NEUTRAL_SCORE);
}

#[test]
fn command_mode_needs_exact_prefix() {
    assert!(is_cmd("> ls -la", ">"));
    assert!(is_cmd(">", ">"));
    assert!(!is_cmd("ls", ">"));
    assert!(!is_cmd(" > ls", ">"));
    assert!(is_cmd("!!run", "!!"));
    assert!(!is_cmd("!run", "!!"));
}

#[test]
fn command_mode_hides_every_entry() {
    let mut l = launcher(vec![entry("a", "Firefox"), entry("b", "Files")], History::new());
    l.text_changed("fi");
    assert!(l.entries().iter().all(|e| !e.hidden()));
    l.text_changed(">fi");
    assert!(l.entries().iter().all(|e| e.hidden() && e.score == NEUTRAL_SCORE));
}

#[test]
fn command_line_is_extracted_and_trimmed() {
    assert_eq!(command_line("> ls -la", ">"), Some("ls -la".to_string()));
    assert_eq!(command_line(">   echo hi  ", ">"), Some("echo hi".to_string()));
    assert_eq!(command_line("ls", ">"), None);
}

#[test]
fn activation_in_command_mode_runs_command() {
    let mut l = launcher(vec![entry("a", "Firefox")], History::new());
    l.text_changed("> ls -la");
    match l.activate(7) {
        Action::RunCommand(c) => assert_eq!(c, "ls -la"),
        _ => panic!("expected a command"),
    }
    assert_eq!(l.history().stat("a"), None);
}

#[test]
fn comparator_orders_hidden_last_and_score_first() {
    let mut a = entry("a", "Alpha");
    let mut b = entry("b", "Beta");
    a.apply_match(None);
    b.apply_match(Some(10));
    assert_eq!(a.cmp(&b), Ordering::Greater);
    assert_eq!(b.cmp(&a), Ordering::Less);
    a.apply_match(Some(20));
    assert_eq!(a.cmp(&b), Ordering::Less);
}

#[test]
fn comparator_is_strict_on_distinct_ids() {
    let es = vec![entry("a", "Files"), entry("b", "files"), entry("c", "Files"), entry("d", "Zeta")];
    for x in &es {
        assert_eq!(x.cmp(x), Ordering::Equal);
        for y in &es {
            if x.id != y.id {
                assert_ne!(x.cmp(y), Ordering::Equal);
                assert_eq!(x.cmp(y), y.cmp(x).reverse());
            }
            for z in &es {
                if x.cmp(y) == Ordering::Less && y.cmp(z) == Ordering::Less {
                    assert_eq!(x.cmp(z), Ordering::Less);
                }
            }
        }
    }
}

#[test]
fn name_order_ignores_case() {
    let a = entry("x", "apple");
    let b = entry("y", "Banana");
    assert_eq!(a.cmp(&b), Ordering::Less);
}

#[test]
fn history_weight_breaks_ties() {
    let a = entry("a", "Zed");
    let b = entry("b", "Alpha");
    let h = History::load(vec![record("a", 3, 1)], false, &Vec::new());
    let l = launcher(vec![a, b], h);
    assert_eq!(l.entries()[0].count, 3);
    assert_eq!(l.entries()[1].count, 0);
    assert_eq!(l.entries()[0].cmp(&l.entries()[1]), Ordering::Less);
}

#[test]
fn save_then_load_round_trips() {
    let mut h = History::new();
    h.record_use("a", 5);
    h.record_use("b", 6);
    h.record_use("a", 9);
    let saved = h.to_records();
    let back = History::load(saved, false, &Vec::new());
    assert_eq!(back.stat("a"), Some((2, 9)));
    assert_eq!(back.stat("b"), Some((1, 6)));
    let again = back.to_records();
    assert_eq!(again.len(), 2);
}

#[test]
fn load_keeps_first_record_of_an_id() {
    let h = History::load(vec![record("a", 4, 2), record("a", 9, 9)], false, &Vec::new());
    assert_eq!(h.stat("a"), Some((4, 2)));
    assert_eq!(h.to_records().len(), 1);
}

#[test]
fn pruning_load_is_idempotent() {
    let ids = vec!["a".to_string(), "c".to_string()];
    let first = History::load(
        vec![record("a", 1, 1), record("b", 2, 2), record("c", 3, 3)],
        true,
        &ids,
    );
    assert_eq!(first.stat("b"), None);
    let second = History::load(first.to_records(), true, &ids);
    assert_eq!(second.stat("a"), Some((1, 1)));
    assert_eq!(second.stat("c"), Some((3, 3)));
    assert_eq!(second.to_records().len(), 2);
}

#[test]
fn load_without_prune_keeps_orphans() {
    let h = History::load(vec![record("gone", 1, 1)], false, &vec!["a".to_string()]);
    assert_eq!(h.stat("gone"), Some((1, 1)));
}

#[test]
fn record_use_is_monotone() {
    let mut h = History::new();
    h.record_use("a", 10);
    assert_eq!(h.stat("a"), Some((1, 10)));
    h.record_use("a", 4);
    assert_eq!(h.stat("a"), Some((2, 4)));
    h.record_use("a", 12);
    assert_eq!(h.stat("a"), Some((3, 12)));
}

#[test]
fn record_use_saturates() {
    let mut h = History::load(vec![record("a", u64::MAX, 1)], false, &Vec::new());
    h.record_use("a", 2);
    assert_eq!(h.stat("a"), Some((u64::MAX, 2)));
}

#[test]
fn firefox_and_files_scenario() {
    let mut l = launcher(vec![entry("a", "Firefox"), entry("b", "Files")], History::new());
    l.text_changed("fi");
    assert!(!l.entries()[0].hidden());
    assert!(!l.entries()[1].hidden());
    // The matcher gives both names the same score for "fi", so the
    // case-folded name decides the tie and "Files" comes before "Firefox".
    assert_eq!(l.entries()[0].score, l.entries()[1].score);
    assert_eq!(l.top_visible(), Some(1));
    assert_eq!(l.entries()[1].cmp(&l.entries()[0]), Ordering::Less);
    l.text_changed("xyz");
    assert!(l.entries()[0].hidden());
    assert!(l.entries()[1].hidden());
    assert_eq!(l.top_visible(), None);
}

#[test]
fn frequent_entry_wins_score_tie() {
    let h = History::load(vec![record("a", 5, 1), record("b", 0, 1)], false, &Vec::new());
    let mut l = launcher(vec![entry("b", "Foo"), entry("a", "Foo")], h);
    l.text_changed("f");
    assert_eq!(l.entries()[0].score, l.entries()[1].score);
    assert_eq!(l.top_visible(), Some(1));
    match l.activate(3) {
        Action::Launch(i) => assert_eq!(l.entries()[i].id, "a"),
        _ => panic!("expected a launch"),
    }
    assert_eq!(l.history().stat("a"), Some((6, 3)));
}

#[test]
fn duplicate_entries_first_wins() {
    let l = launcher(
        vec![entry("a", "Firefox"), entry("a", "Other"), entry("b", "Files")],
        History::new(),
    );
    assert_eq!(l.entries().len(), 2);
    assert_eq!(l.entries()[0].name, "Firefox");
    assert_eq!(l.entries()[1].id, "b");
}

#[test]
fn hidden_entry_activation_is_rejected() {
    let mut l = launcher(vec![entry("a", "Firefox")], History::new());
    l.text_changed("xyz");
    assert!(!l.activate_entry(0, 1));
    assert!(!l.activate_entry(5, 1));
    assert_eq!(l.history().stat("a"), None);
    assert!(matches!(l.activate(1), Action::Nothing));
}

#[test]
fn events_are_dispatched() {
    let mut l = launcher(vec![entry("a", "Firefox"), entry("b", "Files")], History::new());
    assert!(matches!(l.handle(Event::TextChanged("fire".to_string())), Action::Nothing));
    assert_eq!(l.text(), "fire");
    assert!(matches!(l.handle(Event::Activated(4)), Action::Launch(0)));
    assert_eq!(l.history().stat("a"), Some((1, 4)));
    assert_eq!(l.entries()[0].count, 1);
    assert!(matches!(l.handle(Event::RowActivated(1, 5)), Action::Nothing));
    l.text_changed("");
    assert!(matches!(l.handle(Event::RowActivated(1, 6)), Action::Launch(1)));
    assert_eq!(l.history().stat("b"), Some((1, 6)));
}

#[test]
fn matching_folds_non_ascii_case() {
    let mut e = entry("a", "\u{c9}diteur");
    e.update_match("\u{e9}d");
    assert!(!e.hidden());
    let mut f = entry("b", "\u{e9}diteur");
    f.update_match("\u{c9}D");
    assert!(!f.hidden());
}

#[test]
fn command_line_trims_unicode_white_space() {
    assert_eq!(command_line(">\u{a0}ls\u{3000}\t", ">"), Some("ls".to_string()));
    assert_eq!(command_line(">", ">"), Some(String::new()));
}

#[test]
fn launch_hints_are_kept() {
    let mut e = entry("a", "Top");
    e.set_launch_hints(true, Some("/tmp".to_string()), Some("utilities-terminal".to_string()));
    assert!(e.terminal);
    assert_eq!(e.working_dir, Some("/tmp".to_string()));
    e.update_match("x");
    assert!(e.hidden());
    assert!(e.terminal);
}

#[test]
fn last_use_follows_the_ordinal() {
    let mut h = History::load(vec![record("a", 2, 50)], false, &Vec::new());
    h.record_use("a", 20);
    assert_eq!(h.stat("a"), Some((3, 20)));
}
