//! The card explorer's rules: what is selected, what a key asks, and what comes of an answer.
//!
//! Everything that changes a card, reads the clock or draws happens outside. What is here is what
//! those things decide: a key changes the explorer's state and, where a card has to change, hands
//! back an [`Action`] for the caller to carry out and answer with what came of it. Time comes in
//! as a reading of a monotonic clock in milliseconds, so an animated icon can be reasoned about
//! without one.

use vstd::prelude::*;
use vstd::string::*;
use crate::text::{decimal_text, push_char, push_decimal, push_str};

verus! {

/// How long an icon frame shows where the format keeps no timing of its own, in milliseconds.
///
/// A PlayStation leaves the rate to the console rather than writing one per frame, so a reader
/// has to pick something; this is about what the hardware runs at.
pub const DEFAULT_HOLD_MS: u64 = 250;

/// An action held back until it is confirmed.
#[derive(Clone, Copy, Debug)]
pub enum Pending {
    /// Delete the selected save from the focused card.
    Delete,
    /// Write the focused card back over the file it came from.
    Save,
}

/// What the explorer is waiting for.
#[derive(Debug)]
pub enum Mode {
    /// Browsing.
    Browsing,
    /// Asking before something irreversible, with the question to show.
    Confirming(String, Pending),
    /// Saying what just happened, until the next keypress.
    Reporting(String),
}

/// One frame of a save's icon.
#[derive(Debug, Clone)]
pub struct IconFrame {
    /// The frame, as a PNG.
    pub png: Vec<u8>,
    /// How long it shows before the next, where the format says.
    pub hold_ms: Option<u64>,
}

/// One save on a card, as a list needs it.
#[derive(Debug, Clone)]
pub struct Entry {
    /// Where it sits among the card's parts, which is what every operation names it by.
    pub index: usize,
    /// What the console calls it.
    pub title: String,
    /// What the console says about it beneath the title, where there is one.
    pub detail: Option<String>,
    /// How many of the card's blocks it occupies.
    pub blocks: u64,
    /// The save's icon, in display order. A still icon is one frame.
    pub icon: Vec<IconFrame>,
}

/// What the explorer knows of one open card.
#[derive(Debug, Clone)]
pub struct Listing {
    /// The file it came from, as a person reads it.
    pub name: String,
    /// Whether it has been edited since it was opened or last written.
    pub dirty: bool,
    /// The saves on it, in the order the directory lists them.
    pub entries: Vec<Entry>,
}

/// Work on a card that the caller carries out, answering with what came of it.
#[derive(Clone, Copy, Debug)]
pub enum Action {
    /// Copy save `index` of card `from` onto card `to`; answered with [`App::copied`].
    Copy { from: usize, to: usize, index: usize },
    /// Remove save `index` from card `card`; answered with [`App::removed`].
    Remove { card: usize, index: usize },
    /// Write card `card` back over its file; answered with [`App::written`].
    Write { card: usize },
}

/// The name for what `<str as Debug>::fmt` writes of a text: the text in double quotes, with
/// quotes, backslashes and characters that do not print escaped.
pub uninterp spec fn debug_escaped(text: Seq<char>) -> Seq<char>;

/// `format!("{:?}", text)`, from std's `Debug` for `str`. Its result is named, not stated.
#[verifier::external_body]
fn quoted(text: &str) -> (r: String)
    ensures
        r@ == debug_escaped(text@),
{
    format!("{:?}", text)
}

/// Where a selection lands after moving by `delta`, held at both ends of what an index can be.
pub open spec fn moved(at: int, delta: int) -> int {
    if at + delta < 0 {
        0
    } else if at + delta > usize::MAX {
        usize::MAX as int
    } else {
        at + delta
    }
}

/// How long a frame holds, in milliseconds.
pub open spec fn hold_of(frame: IconFrame) -> int {
    match frame.hold_ms {
        Some(ms) => ms as int,
        None => DEFAULT_HOLD_MS as int,
    }
}

/// What is asked before a save is deleted.
pub open spec fn delete_question(entry: Entry) -> Seq<char> {
    "Delete "@ + debug_escaped(entry.title@) + "? It occupies "@ + decimal_text(entry.blocks as nat)
        + " blocks."@
}

/// What is asked before a card is written back over its file.
pub open spec fn write_question(listing: Listing) -> Seq<char> {
    "Write "@ + listing.name@ + "?"@
}

/// Whether a mode reports exactly this text.
pub open spec fn reports(mode: Mode, text: Seq<char>) -> bool {
    mode matches Mode::Reporting(said) && said@ == text
}

/// Whether a mode asks exactly this question, to be followed by this action.
pub open spec fn asks(mode: Mode, question: Seq<char>, pending: Pending) -> bool {
    mode matches Mode::Confirming(asked, held) && asked@ == question && held == pending
}

/// The whole of the explorer's state.
pub struct App {
    /// The open cards, at least one, so a save has somewhere to go where there are two.
    pub cards: Vec<Listing>,
    /// Which card the keys act on.
    pub focus: usize,
    /// Which save is selected, one per card so switching does not lose the place.
    pub selection: Vec<Option<usize>>,
    /// What is being waited for.
    pub mode: Mode,
    /// Whether to leave.
    pub done: bool,
    /// Which frame of the selected save's icon is showing.
    pub frame: usize,
    /// When it started showing, on the caller's clock in milliseconds.
    pub shown_at: u64,
}

impl App {
    /// Whether the state is one the explorer can be in: a card to act on, and a selection for
    /// each card.
    pub open spec fn wf(&self) -> bool {
        &&& self.cards.len() >= 1
        &&& self.selection.len() == self.cards.len()
        &&& self.focus < self.cards.len()
    }

    /// The saves on the focused card.
    pub open spec fn entries(&self) -> Seq<Entry> {
        self.cards@[self.focus as int].entries@
    }

    /// Which save is selected on the focused card.
    pub open spec fn selected_spec(&self) -> Option<usize> {
        self.selection@[self.focus as int]
    }

    /// The selected save, where the selection names one that is there.
    pub open spec fn shown(&self) -> Option<Entry> {
        match self.selected_spec() {
            Some(i) => if i < self.entries().len() {
                Some(self.entries()[i as int])
            } else {
                None
            },
            None => None,
        }
    }

    /// The frames of the selected save's icon, where it has more than one to move between.
    pub open spec fn animating(&self) -> Option<Seq<IconFrame>> {
        match self.shown() {
            Some(entry) => if entry.icon.len() >= 2 {
                Some(entry.icon@)
            } else {
                None
            },
            None => None,
        }
    }

    /// How long the showing frame has been up at `now`.
    pub open spec fn elapsed(&self, now: u64) -> int {
        if now >= self.shown_at {
            now - self.shown_at
        } else {
            0
        }
    }

    /// How long the showing frame of these frames holds.
    pub open spec fn holding(&self, frames: Seq<IconFrame>) -> int {
        hold_of(frames[self.frame as int % frames.len() as int])
    }

    /// Where the selection of the focused card lands when a list of `count` saves is stepped
    /// through by `delta`, or `None` where there is nothing to select.
    pub open spec fn stepped(&self, count: int, delta: int) -> Option<usize> {
        if count == 0 {
            None
        } else {
            let at = match self.selected_spec() {
                Some(i) => i as int,
                None => 0,
            };
            let to = moved(at, delta);
            Some((if to < count - 1 { to } else { count - 1 }) as usize)
        }
    }

    /// Opens the explorer over the given cards, each with its first save selected where it has
    /// one, and the first card focused.
    pub fn new(cards: Vec<Listing>, now: u64) -> (app: App)
        requires
            cards.len() >= 1,
        ensures
            app.wf(),
            app.cards@ == cards@,
            app.focus == 0,
            app.mode is Browsing,
            !app.done,
            app.frame == 0,
            app.shown_at == now,
            forall|i: int|
                0 <= i < cards.len() ==> #[trigger] app.selection@[i] == (if cards@[i].entries.len()
                    == 0 {
                    None::<usize>
                } else {
                    Some(0usize)
                }),
    {
        let mut selection: Vec<Option<usize>> = Vec::new();
        let mut i: usize = 0;
        while i < cards.len()
            invariant
                i <= cards.len(),
                selection.len() == i,
                forall|j: int|
                    0 <= j < i ==> #[trigger] selection@[j] == (if cards@[j].entries.len() == 0 {
                        None::<usize>
                    } else {
                        Some(0usize)
                    }),
            decreases cards.len() - i,
        {
            if cards[i].entries.len() == 0 {
                selection.push(None);
            } else {
                selection.push(Some(0));
            }
            i = i + 1;
        }
        App { cards, focus: 0, selection, mode: Mode::Browsing, done: false, frame: 0, shown_at: now }
    }

    /// Which save is selected on the focused card.
    pub fn selected(&self) -> (r: Option<usize>)
        requires
            self.wf(),
        ensures
            r == self.selected_spec(),
    {
        self.selection[self.focus]
    }

    /// Starts the selected save's icon again from its first frame.
    fn rewind(&mut self, now: u64)
        ensures
            final(self).frame == 0,
            final(self).shown_at == now,
            final(self).cards == old(self).cards,
            final(self).focus == old(self).focus,
            final(self).selection == old(self).selection,
            final(self).mode == old(self).mode,
            final(self).done == old(self).done,
    {
        self.frame = 0;
        self.shown_at = now;
    }

    /// Moves the selection by `delta`, held to what is there, and starts the newly selected
    /// save's icon from its first frame. On a card with no saves nothing is selected.
    pub fn step(&mut self, delta: isize, now: u64)
        requires
            old(self).wf(),
        ensures
            final(self).wf(),
            final(self).cards == old(self).cards,
            final(self).focus == old(self).focus,
            final(self).mode == old(self).mode,
            final(self).done == old(self).done,
            final(self).selection@ == old(self).selection@.update(
                old(self).focus as int,
                old(self).stepped(old(self).entries().len() as int, delta as int),
            ),
            old(self).entries().len() == 0 ==> final(self).frame == old(self).frame
                && final(self).shown_at == old(self).shown_at,
            old(self).entries().len() > 0 ==> final(self).frame == 0 && final(self).shown_at == now,
    {
        let count = self.cards[self.focus].entries.len();
        if count == 0 {
            let focus = self.focus;
            self.selection.set(focus, None);
            return;
        }
        let at: usize = match self.selection[self.focus] {
            Some(i) => i,
            None => 0,
        };
        let to: usize = if delta >= 0 {
            at.saturating_add(delta as usize)
        } else {
            let back: usize = ((-(delta + 1)) as usize) + 1;
            at.saturating_sub(back)
        };
        let landed: usize = if to < count - 1 {
            to
        } else {
            count - 1
        };
        let focus = self.focus;
        self.selection.set(focus, Some(landed));
        self.rewind(now);
    }

    /// Moves the focus to the next card, where there is another, and starts its selected save's
    /// icon from its first frame.
    pub fn switch(&mut self, now: u64)
        requires
            old(self).wf(),
        ensures
            final(self).wf(),
            final(self).cards == old(self).cards,
            final(self).selection == old(self).selection,
            final(self).mode == old(self).mode,
            final(self).done == old(self).done,
            old(self).cards.len() > 1 ==> final(self).focus == (old(self).focus + 1) % (old(
                self,
            ).cards.len() as int) && final(self).frame == 0 && final(self).shown_at == now,
            old(self).cards.len() <= 1 ==> final(self).focus == old(self).focus && final(self).frame
                == old(self).frame && final(self).shown_at == old(self).shown_at,
    {
        if self.cards.len() > 1 {
            self.focus = (self.focus + 1) % self.cards.len();
            self.rewind(now);
        }
    }

    /// The frames of the selected save's icon, where the selection names a save that is there.
    fn showing(&self) -> (r: Option<&Vec<IconFrame>>)
        requires
            self.wf(),
        ensures
            r.is_some() == self.shown().is_some(),
            r.is_some() ==> r.unwrap()@ == self.shown().unwrap().icon@,
    {
        let index = match self.selection[self.focus] {
            Some(i) => i,
            None => return None,
        };
        let entries = &self.cards[self.focus].entries;
        if index < entries.len() {
            Some(&entries[index].icon)
        } else {
            None
        }
    }

    /// How long the showing frame has left at `now`, in milliseconds, or `None` where nothing
    /// is animating: with one frame a key is the only thing that can change the screen.
    pub fn next_frame_in(&self, now: u64) -> (r: Option<u64>)
        requires
            self.wf(),
        ensures
            r == (match self.animating() {
                Some(frames) => {
                    let left = self.holding(frames) - self.elapsed(now);
                    Some((if left > 0 { left } else { 0 }) as u64)
                },
                None => None::<u64>,
            }),
    {
        let frames = match self.showing() {
            Some(frames) => frames,
            None => return None,
        };
        let count = frames.len();
        if count < 2 {
            return None;
        }
        let hold: u64 = match frames[self.frame % count].hold_ms {
            Some(ms) => ms,
            None => DEFAULT_HOLD_MS,
        };
        let elapsed: u64 = if now >= self.shown_at {
            now - self.shown_at
        } else {
            0
        };
        Some(hold.saturating_sub(elapsed))
    }

    /// Advances the icon where the showing frame has had its time by `now`, wrapping round to
    /// the first after the last.
    pub fn tick(&mut self, now: u64)
        requires
            old(self).wf(),
        ensures
            final(self).wf(),
            final(self).cards == old(self).cards,
            final(self).focus == old(self).focus,
            final(self).selection == old(self).selection,
            final(self).mode == old(self).mode,
            final(self).done == old(self).done,
            match old(self).animating() {
                Some(frames) => if old(self).elapsed(now) >= old(self).holding(frames) {
                    final(self).frame as int == (old(self).frame + 1) % (frames.len() as int)
                        && final(self).shown_at == now
                } else {
                    final(self).frame == old(self).frame && final(self).shown_at == old(
                        self,
                    ).shown_at
                },
                None => final(self).frame == old(self).frame && final(self).shown_at == old(
                    self,
                ).shown_at,
            },
    {
        let (count, hold) = match self.showing() {
            Some(frames) => {
                let count = frames.len();
                if count < 2 {
                    return;
                }
                let hold: u64 = match frames[self.frame % count].hold_ms {
                    Some(ms) => ms,
                    None => DEFAULT_HOLD_MS,
                };
                (count, hold)
            },
            None => return,
        };
        let elapsed: u64 = if now >= self.shown_at {
            now - self.shown_at
        } else {
            0
        };
        if elapsed >= hold {
            let next = (self.frame % count + 1) % count;
            proof {
                vstd::arithmetic::div_mod::lemma_add_mod_noop(self.frame as int, 1, count as int);
                vstd::arithmetic::div_mod::lemma_small_mod(1, count as nat);
            }
            self.frame = next;
            self.shown_at = now;
        }
    }

    /// Asks before deleting the selected save, naming it as the console does and saying what it
    /// occupies. With nothing selected nothing is asked.
    pub fn ask_delete(&mut self)
        requires
            old(self).wf(),
        ensures
            final(self).wf(),
            final(self).cards == old(self).cards,
            final(self).focus == old(self).focus,
            final(self).selection == old(self).selection,
            final(self).done == old(self).done,
            final(self).frame == old(self).frame,
            final(self).shown_at == old(self).shown_at,
            match old(self).shown() {
                Some(entry) => asks(final(self).mode, delete_question(entry), Pending::Delete),
                None => final(self).mode == old(self).mode,
            },
    {
        let index = match self.selection[self.focus] {
            Some(i) => i,
            None => return,
        };
        if index >= self.cards[self.focus].entries.len() {
            return;
        }
        let entry = &self.cards[self.focus].entries[index];
        let mut question = "Delete ".to_owned();
        let title = quoted(entry.title.as_str());
        push_str(&mut question, title.as_str());
        push_str(&mut question, "? It occupies ");
        push_decimal(&mut question, entry.blocks);
        push_str(&mut question, " blocks.");
        self.mode = Mode::Confirming(question, Pending::Delete);
    }

    /// Asks before writing the focused card back, since writing is what makes an edit real; a
    /// card with no edits has nothing to write, and says so.
    pub fn ask_save(&mut self)
        requires
            old(self).wf(),
        ensures
            final(self).wf(),
            final(self).cards == old(self).cards,
            final(self).focus == old(self).focus,
            final(self).selection == old(self).selection,
            final(self).done == old(self).done,
            final(self).frame == old(self).frame,
            final(self).shown_at == old(self).shown_at,
            !old(self).cards@[old(self).focus as int].dirty ==> reports(
                final(self).mode,
                "nothing to write"@,
            ),
            old(self).cards@[old(self).focus as int].dirty ==> asks(
                final(self).mode,
                write_question(old(self).cards@[old(self).focus as int]),
                Pending::Save,
            ),
    {
        if !self.cards[self.focus].dirty {
            self.mode = Mode::Reporting("nothing to write".to_owned());
            return;
        }
        let mut question = "Write ".to_owned();
        push_str(&mut question, self.cards[self.focus].name.as_str());
        push_str(&mut question, "?");
        self.mode = Mode::Confirming(question, Pending::Save);
    }

    /// Asks for the selected save to be copied onto the other card. With one card open it says
    /// what is missing; with nothing selected nothing happens.
    pub fn copy(&mut self) -> (action: Option<Action>)
        requires
            old(self).wf(),
        ensures
            final(self).wf(),
            final(self).cards == old(self).cards,
            final(self).focus == old(self).focus,
            final(self).selection == old(self).selection,
            final(self).done == old(self).done,
            final(self).frame == old(self).frame,
            final(self).shown_at == old(self).shown_at,
            old(self).cards.len() < 2 ==> action is None && reports(
                final(self).mode,
                "open a second card to copy onto"@,
            ),
            old(self).cards.len() >= 2 ==> final(self).mode == old(self).mode && action == (match old(
                self,
            ).selected_spec() {
                Some(i) => Some(
                    Action::Copy {
                        from: old(self).focus,
                        to: ((old(self).focus + 1) % (old(self).cards.len() as int)) as usize,
                        index: i,
                    },
                ),
                None => None::<Action>,
            }),
    {
        if self.cards.len() < 2 {
            self.mode = Mode::Reporting("open a second card to copy onto".to_owned());
            return None;
        }
        let index = match self.selection[self.focus] {
            Some(i) => i,
            None => return None,
        };
        Some(Action::Copy { from: self.focus, to: (self.focus + 1) % self.cards.len(), index })
    }

    /// Takes in what came of a copy: the card it landed on as it now is, or why it was refused.
    pub fn copied(&mut self, outcome: Result<Listing, String>)
        requires
            old(self).wf(),
        ensures
            final(self).wf(),
            final(self).focus == old(self).focus,
            final(self).selection == old(self).selection,
            final(self).done == old(self).done,
            final(self).frame == old(self).frame,
            final(self).shown_at == old(self).shown_at,
            match outcome {
                Ok(target) => final(self).cards@ == old(self).cards@.update(
                    (old(self).focus + 1) % (old(self).cards.len() as int),
                    target,
                ) && reports(final(self).mode, "copied"@),
                Err(why) => final(self).cards == old(self).cards && reports(final(self).mode, why@),
            },
    {
        match outcome {
            Ok(target) => {
                let to = (self.focus + 1) % self.cards.len();
                self.cards.set(to, target);
                self.mode = Mode::Reporting("copied".to_owned());
            },
            Err(why) => {
                self.mode = Mode::Reporting(why);
            },
        }
    }

    /// Carries out what was confirmed, as far as a decision goes: the work it asks of the caller,
    /// or `None` where a delete was confirmed with nothing selected.
    pub fn confirm(&self, pending: Pending) -> (action: Option<Action>)
        requires
            self.wf(),
        ensures
            action == (match pending {
                Pending::Delete => match self.selected_spec() {
                    Some(i) => Some(Action::Remove { card: self.focus, index: i }),
                    None => None::<Action>,
                },
                Pending::Save => Some(Action::Write { card: self.focus }),
            }),
    {
        match pending {
            Pending::Delete => match self.selection[self.focus] {
                Some(i) => Some(Action::Remove { card: self.focus, index: i }),
                None => None,
            },
            Pending::Save => Some(Action::Write { card: self.focus }),
        }
    }

    /// Takes in what came of a delete: the focused card as it now is, with the selection held
    /// to what is left on it, or why it was refused.
    pub fn removed(&mut self, outcome: Result<Listing, String>, now: u64)
        requires
            old(self).wf(),
        ensures
            final(self).wf(),
            final(self).focus == old(self).focus,
            final(self).done == old(self).done,
            match outcome {
                Ok(card) => {
                    &&& final(self).cards@ == old(self).cards@.update(old(self).focus as int, card)
                    &&& final(self).selection@ == old(self).selection@.update(
                        old(self).focus as int,
                        old(self).stepped(card.entries.len() as int, 0),
                    )
                    &&& card.entries.len() == 0 ==> final(self).frame == old(self).frame
                        && final(self).shown_at == old(self).shown_at
                    &&& card.entries.len() > 0 ==> final(self).frame == 0 && final(self).shown_at
                        == now
                    &&& reports(final(self).mode, "deleted; not written yet"@)
                },
                Err(why) => {
                    &&& final(self).cards == old(self).cards
                    &&& final(self).selection == old(self).selection
                    &&& final(self).frame == old(self).frame
                    &&& final(self).shown_at == old(self).shown_at
                    &&& reports(final(self).mode, why@)
                },
            },
    {
        match outcome {
            Ok(card) => {
                let focus = self.focus;
                self.cards.set(focus, card);
                self.step(0, now);
                self.mode = Mode::Reporting("deleted; not written yet".to_owned());
            },
            Err(why) => {
                self.mode = Mode::Reporting(why);
            },
        }
    }

    /// Takes in what came of a write: the focused card as it now is, or why it was refused.
    pub fn written(&mut self, outcome: Result<Listing, String>)
        requires
            old(self).wf(),
        ensures
            final(self).wf(),
            final(self).focus == old(self).focus,
            final(self).selection == old(self).selection,
            final(self).done == old(self).done,
            final(self).frame == old(self).frame,
            final(self).shown_at == old(self).shown_at,
            match outcome {
                Ok(card) => final(self).cards@ == old(self).cards@.update(
                    old(self).focus as int,
                    card,
                ) && reports(final(self).mode, "written"@),
                Err(why) => final(self).cards == old(self).cards && reports(final(self).mode, why@),
            },
    {
        match outcome {
            Ok(card) => {
                let focus = self.focus;
                self.cards.set(focus, card);
                self.mode = Mode::Reporting("written".to_owned());
            },
            Err(why) => {
                self.mode = Mode::Reporting(why);
            },
        }
    }
}

/// The name for what `UnicodeWidthChar::width` gives for a character: the terminal cells it
/// takes, or `None` for a control character.
pub uninterp spec fn char_cells(c: char) -> Option<usize>;

/// The name for what `UnicodeWidthStr::width` gives for a text: the terminal cells it takes,
/// which is not always the sum over its characters (an emoji sequence, `"\r\n"`).
pub uninterp spec fn text_cells(text: Seq<char>) -> usize;

/// `UnicodeWidthChar::width` from unicode-width. Its result is named; what its source settles
/// without the tables is stated: control characters below U+0020 and from U+007F to U+009F have
/// no width, printable ASCII takes one cell, and everything from U+00A0 on has a width.
#[verifier::external_body]
fn char_width(c: char) -> (r: Option<usize>)
    ensures
        r == char_cells(c),
        (c as u32) < 0x20 ==> r is None,
        0x20 <= (c as u32) < 0x7F ==> r == Some(1usize),
        0x7F <= (c as u32) < 0xA0 ==> r is None,
        (c as u32) >= 0xA0 ==> r is Some,
{
    unicode_width::UnicodeWidthChar::width(c)
}

/// `UnicodeWidthStr::width` from unicode-width. Its result is named, not stated.
#[verifier::external_body]
fn text_width(text: &str) -> (r: usize)
    ensures
        r == text_cells(text@),
{
    unicode_width::UnicodeWidthStr::width(text)
}

/// The cells a character is counted as taking where a title is cut: a control character none.
pub open spec fn cell_of(c: char) -> nat {
    match char_cells(c) {
        Some(w) => w as nat,
        None => 0,
    }
}

/// The cells the characters of a text take, one at a time.
pub open spec fn cells(s: Seq<char>) -> nat
    decreases s.len(),
{
    if s.len() == 0 {
        0
    } else {
        cells(s.drop_last()) + cell_of(s.last())
    }
}

/// How many characters of a text fit in `limit` cells: the longest beginning of it that does.
pub open spec fn kept_len(text: Seq<char>, limit: nat) -> nat
    decreases text.len(),
{
    if text.len() == 0 || cells(text) <= limit {
        text.len()
    } else {
        kept_len(text.drop_last(), limit)
    }
}

/// `n` spaces.
pub open spec fn padding(n: nat) -> Seq<char> {
    Seq::new(n, |i: int| ' ')
}

/// A title fitted to `columns` cells: whole and padded out where it fits, and otherwise cut
/// to what fits in one cell less, marked with an ellipsis, and padded out.
pub open spec fn fitted(text: Seq<char>, columns: nat) -> Seq<char> {
    if text_cells(text) <= columns {
        text + padding((columns - text_cells(text)) as nat)
    } else {
        let limit: nat = if columns >= 1 { (columns - 1) as nat } else { 0 };
        let kept = text.take(kept_len(text, limit) as int);
        let used = cells(kept) + 1;
        kept.push('\u{2026}') + padding(if columns >= used { (columns - used) as nat } else { 0 })
    }
}

/// A text's cells grow with how much of it is counted.
proof fn lemma_cells_grow(s: Seq<char>, a: int, b: int)
    requires
        0 <= a <= b <= s.len(),
    ensures
        cells(s.take(a)) <= cells(s.take(b)),
    decreases b - a,
{
    if a < b {
        lemma_cells_grow(s, a, b - 1);
        assert(s.take(b).drop_last() =~= s.take(b - 1));
    }
}

/// Where the characters stop fitting is how many are kept.
proof fn lemma_kept_where_they_stop(text: Seq<char>, limit: nat, i: int)
    requires
        0 <= i <= text.len(),
        cells(text.take(i)) <= limit,
        i == text.len() || cells(text.take(i + 1)) > limit,
    ensures
        kept_len(text, limit) == i,
    decreases text.len(),
{
    if i == text.len() {
        assert(text.take(i) =~= text);
    } else {
        lemma_cells_grow(text, i + 1, text.len() as int);
        assert(text.take(text.len() as int) =~= text);
        let shorter = text.drop_last();
        assert(shorter.take(i) =~= text.take(i));
        if i + 1 < text.len() {
            assert(shorter.take(i + 1) =~= text.take(i + 1));
        }
        lemma_kept_where_they_stop(shorter, limit, i);
    }
}

/// Appends `n` spaces.
fn push_spaces(out: &mut String, n: usize)
    ensures
        final(out)@ == old(out)@ + padding(n as nat),
{
    let mut i: usize = 0;
    while i < n
        invariant
            i <= n,
            out@ == old(out)@ + padding(i as nat),
        decreases n - i,
    {
        push_char(out, ' ');
        i = i + 1;
        assert(out@ =~= old(out)@ + padding(i as nat));
    }
}

/// Fits a title to a column count, padding it out to exactly that, counted in the cells a
/// terminal gives each character rather than in characters: a full-width character takes two.
/// A title too long is cut, with one cell held back for an ellipsis so it reads as cut.
pub fn fit(text: &str, columns: usize) -> (r: String)
    ensures
        r@ == fitted(text@, columns as nat),
{
    let mut out = String::new();
    let whole = text_width(text);
    if whole <= columns {
        push_str(&mut out, text);
        push_spaces(&mut out, columns - whole);
        return out;
    }
    let limit: usize = if columns >= 1 { columns - 1 } else { 0 };
    let n = text.unicode_len();
    let mut used: usize = 0;
    let mut i: usize = 0;
    while i < n
        invariant
            n == text@.len(),
            i <= n,
            used <= limit,
            used == cells(text@.take(i as int)),
            out@ == text@.take(i as int),
        ensures
            i <= n,
            used <= limit,
            used == cells(text@.take(i as int)),
            out@ == text@.take(i as int),
            i == n || cells(text@.take(i + 1)) > limit,
        decreases n - i,
    {
        let c = text.get_char(i);
        let width: usize = match char_width(c) {
            Some(w) => w,
            None => 0,
        };
        proof {
            assert(text@.take(i + 1).drop_last() =~= text@.take(i as int));
        }
        if width > limit - used {
            break;
        }
        push_char(&mut out, c);
        used = used + width;
        i = i + 1;
        assert(out@ =~= text@.take(i as int));
    }
    proof {
        lemma_kept_where_they_stop(text@, limit as nat, i as int);
    }
    push_char(&mut out, '\u{2026}');
    used = used + 1;
    let rest: usize = if columns >= used { columns - used } else { 0 };
    push_spaces(&mut out, rest);
    out
}

} // verus!
