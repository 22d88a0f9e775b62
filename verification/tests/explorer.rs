use onesaves::explorer::{fit, Action, App, Entry, IconFrame, Listing, Mode, Pending};

fn frame(hold_ms: Option<u64>) -> IconFrame {
    IconFrame { png: vec![0x89, b'P', b'N', b'G'], hold_ms }
}

fn entry(index: usize, title: &str, blocks: u64, icon: Vec<IconFrame>) -> Entry {
    Entry { index, title: title.to_owned(), detail: None, blocks, icon }
}

fn listing(name: &str, dirty: bool, entries: Vec<Entry>) -> Listing {
    Listing { name: name.to_owned(), dirty, entries }
}

fn one_card() -> App {
    let card = listing(
        "Mcd001.ps2",
        false,
        vec![
            entry(0, "ＴＥＫＫＥＮ", 3, vec![frame(None)]),
            entry(1, "Gran Turismo", 5, vec![frame(Some(100)), frame(Some(300))]),
            entry(2, "Crash", 1, vec![frame(None), frame(None), frame(None)]),
        ],
    );
    App::new(vec![card], 1000)
}

fn reporting(app: &App) -> Option<String> {
    match &app.mode {
        Mode::Reporting(said) => Some(said.clone()),
        _ => None,
    }
}

#[test]
fn a_new_explorer_selects_the_first_save_of_each_card_that_has_one() {
    let cards = vec![listing("a.mcd", false, vec![entry(0, "A", 1, vec![])]), listing("b.mcd", false, vec![])];
    let app = App::new(cards, 7);
    assert_eq!(app.selection, vec![Some(0), None]);
    assert_eq!(app.focus, 0);
    assert_eq!(app.selected(), Some(0));
    assert!(matches!(app.mode, Mode::Browsing));
    assert!(!app.done);
    assert_eq!((app.frame, app.shown_at), (0, 7));
}

#[test]
fn stepping_is_held_to_the_saves_that_are_there() {
    let mut app = one_card();
    app.step(-1, 1001);
    assert_eq!(app.selected(), Some(0));
    app.step(1, 1002);
    assert_eq!(app.selected(), Some(1));
    app.step(isize::MAX, 1003);
    assert_eq!(app.selected(), Some(2));
    app.step(isize::MIN, 1004);
    assert_eq!(app.selected(), Some(0));
    assert_eq!((app.frame, app.shown_at), (0, 1004));
}

#[test]
fn stepping_on_an_empty_card_selects_nothing_and_keeps_the_clock() {
    let mut app = App::new(vec![listing("empty.mcd", false, vec![])], 5);
    app.frame = 3;
    app.step(1, 50);
    assert_eq!(app.selected(), None);
    assert_eq!((app.frame, app.shown_at), (3, 5));
}

#[test]
fn switching_moves_to_the_other_card_and_back_and_keeps_each_place() {
    let cards = vec![
        listing("a.mcd", false, vec![entry(0, "A", 1, vec![]), entry(1, "B", 1, vec![])]),
        listing("b.mcd", false, vec![entry(0, "C", 1, vec![])]),
    ];
    let mut app = App::new(cards, 0);
    app.step(1, 1);
    app.switch(2);
    assert_eq!(app.focus, 1);
    assert_eq!(app.selected(), Some(0));
    assert_eq!(app.shown_at, 2);
    app.switch(3);
    assert_eq!(app.focus, 0);
    assert_eq!(app.selected(), Some(1));

    let mut alone = one_card();
    alone.switch(4);
    assert_eq!((alone.focus, alone.shown_at), (0, 1000));
}

#[test]
fn an_animated_icon_advances_and_a_still_one_does_not() {
    let mut app = one_card();
    assert_eq!(app.next_frame_in(1100), None, "a still icon asks for no wakeup");
    app.tick(5000);
    assert_eq!(app.frame, 0);

    app.step(1, 2000);
    assert_eq!(app.next_frame_in(2040), Some(60), "within the frame's own hold");
    app.tick(2099);
    assert_eq!(app.frame, 0, "the frame holds for its time");
    app.tick(2100);
    assert_eq!((app.frame, app.shown_at), (1, 2100));
    assert_eq!(app.next_frame_in(2100), Some(300));
    app.tick(2400);
    assert_eq!(app.frame, 0, "and wraps round to the first");
    assert_eq!(app.next_frame_in(9999), Some(0), "an overdue frame is due now");
}

#[test]
fn a_frame_without_timing_holds_for_the_default() {
    let mut app = one_card();
    app.step(2, 0);
    assert_eq!(app.next_frame_in(0), Some(250));
    app.tick(249);
    assert_eq!(app.frame, 0);
    app.tick(250);
    app.tick(500);
    app.tick(750);
    assert_eq!(app.frame, 0, "three frames, round once");
}

#[test]
fn deleting_asks_first_and_names_what_it_would_delete() {
    let mut app = one_card();
    app.ask_delete();
    match &app.mode {
        Mode::Confirming(question, Pending::Delete) => {
            assert_eq!(question, "Delete \"ＴＥＫＫＥＮ\"? It occupies 3 blocks.");
        }
        _ => panic!("it should have asked"),
    }
    assert_eq!(app.cards[0].entries.len(), 3, "asking is not doing");
}

#[test]
fn a_title_is_quoted_as_the_debug_format_writes_it() {
    let card = listing("x.mcd", false, vec![entry(0, "say \"hi\"\\", 12, vec![])]);
    let mut app = App::new(vec![card], 0);
    app.ask_delete();
    match &app.mode {
        Mode::Confirming(question, _) => {
            assert_eq!(question, "Delete \"say \\\"hi\\\"\\\\\"? It occupies 12 blocks.");
        }
        _ => panic!("it should have asked"),
    }
}

#[test]
fn deleting_with_nothing_selected_asks_nothing() {
    let mut app = App::new(vec![listing("empty.mcd", false, vec![])], 0);
    app.ask_delete();
    assert!(matches!(app.mode, Mode::Browsing));
    assert!(app.confirm(Pending::Delete).is_none());
}

#[test]
fn the_write_question_names_the_file_and_an_unedited_card_has_nothing_to_write() {
    let mut app = one_card();
    app.ask_save();
    assert_eq!(reporting(&app).as_deref(), Some("nothing to write"));

    let mut edited = App::new(vec![listing("Mcd001.ps2", true, vec![])], 0);
    edited.ask_save();
    match &edited.mode {
        Mode::Confirming(question, Pending::Save) => assert_eq!(question, "Write Mcd001.ps2?"),
        _ => panic!("it should have asked"),
    }
}

#[test]
fn copying_with_one_card_open_says_what_is_missing_here() {
    let mut app = one_card();
    assert!(app.copy().is_none());
    assert_eq!(reporting(&app).as_deref(), Some("open a second card to copy onto"));
}

#[test]
fn a_copy_goes_from_the_focused_card_to_the_other() {
    let cards = vec![
        listing("a.mcd", false, vec![entry(0, "A", 1, vec![])]),
        listing("b.mcd", false, vec![entry(0, "B", 1, vec![]), entry(1, "C", 2, vec![])]),
    ];
    let mut app = App::new(cards, 0);
    app.switch(0);
    app.step(1, 0);
    match app.copy() {
        Some(Action::Copy { from, to, index }) => assert_eq!((from, to, index), (1, 0, 1)),
        other => panic!("expected a copy, got {other:?}"),
    }
    assert!(matches!(app.mode, Mode::Browsing), "nothing is said until it is done");

    let landed = listing("a.mcd", true, vec![entry(0, "A", 1, vec![]), entry(1, "C", 2, vec![])]);
    app.copied(Ok(landed));
    assert_eq!(reporting(&app).as_deref(), Some("copied"));
    assert_eq!(app.cards[0].entries.len(), 2);
    assert!(app.cards[0].dirty);

    app.copied(Err("needs 9 blocks and 2 are free".to_owned()));
    assert_eq!(reporting(&app).as_deref(), Some("needs 9 blocks and 2 are free"));
    assert_eq!(app.cards[0].entries.len(), 2);
}

#[test]
fn a_confirmed_question_asks_for_the_work_it_named() {
    let mut app = one_card();
    app.step(1, 0);
    assert!(matches!(app.confirm(Pending::Delete), Some(Action::Remove { card: 0, index: 1 })));
    assert!(matches!(app.confirm(Pending::Save), Some(Action::Write { card: 0 })));
}

#[test]
fn deleting_the_last_save_in_the_list_selects_the_one_before_it() {
    let mut app = one_card();
    app.step(2, 0);
    let left = listing(
        "Mcd001.ps2",
        true,
        vec![entry(0, "ＴＥＫＫＥＮ", 3, vec![]), entry(1, "Gran Turismo", 5, vec![])],
    );
    app.removed(Ok(left), 40);
    assert_eq!(app.selected(), Some(1));
    assert_eq!(app.shown_at, 40);
    assert_eq!(reporting(&app).as_deref(), Some("deleted; not written yet"));

    app.removed(Ok(listing("Mcd001.ps2", true, vec![])), 50);
    assert_eq!(app.selected(), None);
    assert_eq!(app.shown_at, 40);

    app.removed(Err("no such save".to_owned()), 60);
    assert_eq!(reporting(&app).as_deref(), Some("no such save"));
}

#[test]
fn a_written_card_is_no_longer_edited() {
    let mut app = App::new(vec![listing("Mcd001.ps2", true, vec![])], 0);
    app.written(Ok(listing("Mcd001.ps2", false, vec![])));
    assert_eq!(reporting(&app).as_deref(), Some("written"));
    assert!(!app.cards[0].dirty);
    app.written(Err("the rebuilt card holds 1 of 2 saves".to_owned()));
    assert_eq!(reporting(&app).as_deref(), Some("the rebuilt card holds 1 of 2 saves"));
}

#[test]
fn a_title_that_fits_is_padded_to_the_column() {
    assert_eq!(fit("Crash", 8), "Crash   ");
    assert_eq!(fit("Crash", 5), "Crash");
    assert_eq!(fit("", 3), "   ");
}

#[test]
fn a_title_too_long_is_cut_and_reads_as_cut() {
    assert_eq!(fit("Gran Turismo", 8), "Gran Tu\u{2026}");
    assert_eq!(fit("Gran Turismo", 1), "\u{2026}");
    assert_eq!(fit("Gran Turismo", 0), "\u{2026}");
}

#[test]
fn a_full_width_title_is_cut_in_cells_rather_than_characters() {
    assert_eq!(fit("ＴＥＫＫＥＮ", 12), "ＴＥＫＫＥＮ");
    assert_eq!(fit("ＴＥＫＫＥＮ", 5), "ＴＥ\u{2026}");
    assert_eq!(fit("ＴＥＫＫＥＮ", 6), "ＴＥ\u{2026} ");
}
