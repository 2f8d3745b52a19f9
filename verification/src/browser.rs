//! The browser's side: its keys and clicks as the reader's own, and the single writer
//! that keeps the cache in the browser's storage.
use vstd::prelude::*;

use crate::input::{KeyCode, KeyEvent, KeyModifiers, MouseButton, MouseEvent, MouseEventKind};
use crate::memstore::pairs_view;
use crate::persist::{opt_write, QueuedWrite, SpecOp, SpecQueue, WriteQueue};
use crate::text::{lines_of, owned, same, strings_view, text_lines, trim, trimmed};
use crate::url::{cut_at, split_once};

verus! {

// --- Keys and clicks --------------------------------------------------------------

/// A key as the browser names it.
#[derive(Clone, Copy, PartialEq, Eq, Structural, Debug)]
pub enum BrowserKey {
    Char(char),
    F(u8),
    Backspace,
    Enter,
    Left,
    Right,
    Up,
    Down,
    Tab,
    Delete,
    Home,
    End,
    PageUp,
    PageDown,
    Esc,
    Unidentified,
}

/// The reader's key for one of the browser's; `None` for those it does not use.
pub open spec fn key_of(key: BrowserKey) -> Option<KeyCode> {
    match key {
        BrowserKey::Char(c) => Some(KeyCode::Char(c)),
        BrowserKey::Enter => Some(KeyCode::Enter),
        BrowserKey::Esc => Some(KeyCode::Esc),
        BrowserKey::Backspace => Some(KeyCode::Backspace),
        BrowserKey::Tab => Some(KeyCode::Tab),
        BrowserKey::Up => Some(KeyCode::Up),
        BrowserKey::Down => Some(KeyCode::Down),
        BrowserKey::Left => Some(KeyCode::Left),
        BrowserKey::Right => Some(KeyCode::Right),
        BrowserKey::PageUp => Some(KeyCode::PageUp),
        BrowserKey::PageDown => Some(KeyCode::PageDown),
        _ => None,
    }
}

/// Modifiers are those that are held.
pub open spec fn holds(m: KeyModifiers, ctrl: bool, shift: bool, alt: bool) -> bool {
    m.control() == ctrl && m.shift() == shift && m.alt() == alt
}

/// A key press of the browser as one of the reader's; `None` for keys that it does not
/// use.
pub fn adapt_key(key: BrowserKey, ctrl: bool, shift: bool, alt: bool) -> (r: Option<KeyEvent>)
    ensures
        match r {
            Some(e) => key_of(key) == Some(e.code) && holds(e.modifiers, ctrl, shift, alt),
            None => key_of(key) is None,
        },
{
    let code = match key {
        BrowserKey::Char(c) => KeyCode::Char(c),
        BrowserKey::Enter => KeyCode::Enter,
        BrowserKey::Esc => KeyCode::Esc,
        BrowserKey::Backspace => KeyCode::Backspace,
        BrowserKey::Tab => KeyCode::Tab,
        BrowserKey::Up => KeyCode::Up,
        BrowserKey::Down => KeyCode::Down,
        BrowserKey::Left => KeyCode::Left,
        BrowserKey::Right => KeyCode::Right,
        BrowserKey::PageUp => KeyCode::PageUp,
        BrowserKey::PageDown => KeyCode::PageDown,
        _ => return None,
    };
    Some(KeyEvent::new(code, KeyModifiers::of(shift, ctrl, alt)))
}

/// A press of the mouse as one of the reader's: only the left button counts, and only over
/// a cell.
pub fn adapt_mouse(
    pressed: bool,
    left: bool,
    cell: Option<(u16, u16)>,
    ctrl: bool,
    shift: bool,
    alt: bool,
) -> (r: Option<MouseEvent>)
    ensures
        match r {
            Some(e) => pressed && left && cell == Some((e.column, e.row)) && e.kind
                == MouseEventKind::Down(MouseButton::Left) && holds(
                e.modifiers,
                ctrl,
                shift,
                alt,
            ),
            None => !pressed || !left || cell is None,
        },
{
    if !pressed || !left {
        return None;
    }
    match cell {
        Some((column, row)) => Some(
            MouseEvent {
                kind: MouseEventKind::Down(MouseButton::Left),
                column,
                row,
                modifiers: KeyModifiers::of(shift, ctrl, alt),
            },
        ),
        None => None,
    }
}

/// The keys that the reader moves with, by the browser's names.
pub open spec fn is_navigation(key: Seq<char>) -> bool {
    ||| key == "Tab"@
    ||| key == "ArrowUp"@
    ||| key == "ArrowDown"@
    ||| key == "ArrowLeft"@
    ||| key == "ArrowRight"@
    ||| key == "PageUp"@
    ||| key == "PageDown"@
    ||| key == "Home"@
    ||| key == "End"@
    ||| key == " "@
}

/// Whether a key is kept from the browser: those that the reader moves with, and Ctrl-P,
/// which opens the palette.
pub fn guards_key(key: &str, ctrl: bool) -> (r: bool)
    ensures
        r == (is_navigation(key@) || (ctrl && (key@ == "p"@ || key@ == "P"@))),
{
    let nav: bool = same(key, "Tab") || same(key, "ArrowUp") || same(key, "ArrowDown") || same(
        key,
        "ArrowLeft",
    ) || same(key, "ArrowRight") || same(key, "PageUp") || same(key, "PageDown") || same(
        key,
        "Home",
    ) || same(key, "End") || same(key, " ");
    nav || (ctrl && (same(key, "p") || same(key, "P")))
}

// --- Responses --------------------------------------------------------------------

/// The largest response that signing in keeps, in bytes.
pub const MAX_OAUTH_RESPONSE_BYTES: usize = 4_194_304;

/// A header from its line: a name, a colon and a value, without the space around them.
pub open spec fn header_of(line: Seq<char>) -> Option<(Seq<char>, Seq<char>)> {
    match cut_at(line, ':') {
        Some((name, value)) => Some((trimmed(name), trimmed(value))),
        None => None,
    }
}

/// The headers of lines; a line without a colon is none.
pub open spec fn headers_of(lines: Seq<Seq<char>>) -> Seq<(Seq<char>, Seq<char>)>
    decreases lines.len(),
{
    if lines.len() == 0 {
        Seq::empty()
    } else {
        match header_of(lines.last()) {
            Some(h) => headers_of(lines.drop_last()).push(h),
            None => headers_of(lines.drop_last()),
        }
    }
}

/// The headers of a response as the browser hands them out: one line each.
pub fn response_headers(raw: &str) -> (r: Vec<(String, String)>)
    ensures
        pairs_view(r@) == headers_of(text_lines(raw@)),
{
    let lines = lines_of(raw);
    let ghost all = text_lines(raw@);
    let mut out: Vec<(String, String)> = Vec::new();
    let mut i: usize = 0;
    assert(all.take(0) =~= Seq::empty());
    assert(pairs_view(out@) =~= Seq::empty());
    assert(strings_view(lines@).len() == lines@.len());
    while i < lines.len()
        invariant
            i <= lines@.len(),
            all == strings_view(lines@),
            all.len() == lines@.len(),
            pairs_view(out@) == headers_of(all.take(i as int)),
        decreases lines@.len() - i,
    {
        let ghost before = pairs_view(out@);
        assert(all.take(i + 1).drop_last() =~= all.take(i as int));
        assert(all.take(i + 1).last() == lines@[i as int]@);
        if let Some((name, value)) = split_once(lines[i].as_str(), ':') {
            let pair = (trim(name.as_str()), trim(value.as_str()));
            out.push(pair);
            assert(pairs_view(out@) =~= before.push((pair.0@, pair.1@)));
        }
        i = i + 1;
    }
    assert(all.take(all.len() as int) =~= all);
    out
}

// --- The single writer ------------------------------------------------------------

/// What is said when a write failed twice.
pub open spec fn write_notice() -> Seq<char> {
    "offline storage write failed; recent changes may not survive reload"@
}

/// The writer: at most one write is under way.
pub struct Writer {
    queue: WriteQueue,
    current: Option<QueuedWrite>,
    failed_once: bool,
    notice: Option<String>,
}

/// [`Writer`] over sequences.
pub struct SpecWriter {
    pub queue: SpecQueue,
    /// The write that is under way.
    pub current: Option<SpecOp>,
    /// It has failed once.
    pub failed_once: bool,
    /// What the reader has to be told.
    pub notice: Option<Seq<char>>,
}

impl View for Writer {
    type V = SpecWriter;

    closed spec fn view(&self) -> SpecWriter {
        SpecWriter {
            queue: self.queue@,
            current: opt_write(self.current),
            failed_once: self.failed_once,
            notice: crate::model::opt_view(self.notice),
        }
    }
}

impl SpecWriter {
    /// The next write is under way; none where nothing is pending.
    pub open spec fn next(self) -> SpecWriter {
        SpecWriter {
            queue: self.queue.popped(),
            current: self.queue.next(),
            failed_once: false,
            ..self
        }
    }

    /// A write is begun where none is under way.
    pub open spec fn started(self) -> SpecWriter {
        if self.current is Some {
            self
        } else {
            self.next()
        }
    }

    /// The write under way came to an end. One that failed is tried once more; then the
    /// reader is told, and the next one is taken.
    pub open spec fn ended(self, ok: bool) -> SpecWriter {
        match self.current {
            None => self,
            Some(w) => if ok {
                SpecWriter { queue: self.queue.succeeded(w), ..self }.next()
            } else if !self.failed_once {
                SpecWriter { failed_once: true, ..self }
            } else {
                SpecWriter { notice: Some(write_notice()), ..self }.next()
            },
        }
    }
}

impl Writer {
    /// A writer over a queue, with nothing under way.
    pub fn new(queue: WriteQueue) -> (r: Self)
        ensures
            r@ == (SpecWriter {
                queue: queue@,
                current: None,
                failed_once: false,
                notice: None,
            }),
    {
        Writer { queue, current: None, failed_once: false, notice: None }
    }

    /// Take one change in.
    pub fn push(&mut self, op: crate::persist::PersistOp)
        ensures
            final(self)@ == (SpecWriter { queue: old(self)@.queue.pushed(op@), ..old(self)@ }),
    {
        self.queue.push(op);
    }

    fn take_next(&mut self)
        ensures
            final(self)@ == old(self)@.next(),
    {
        self.current = self.queue.pop_next();
        self.failed_once = false;
    }

    /// Begin a write where none is under way and one is pending. Returns whether one was
    /// begun.
    pub fn start(&mut self) -> (r: bool)
        ensures
            final(self)@ == old(self)@.started(),
            r == (old(self)@.current is None && old(self)@.queue.next() is Some),
    {
        if self.current.is_some() {
            return false;
        }
        self.take_next();
        self.current.is_some()
    }

    /// The write that is under way.
    pub fn current(&self) -> (r: Option<&QueuedWrite>)
        ensures
            match r {
                Some(w) => self@.current == Some(w@),
                None => self@.current is None,
            },
    {
        match &self.current {
            Some(w) => Some(w),
            None => None,
        }
    }

    /// Note how the write under way ended, and go on.
    pub fn finish(&mut self, ok: bool)
        ensures
            final(self)@ == old(self)@.ended(ok),
    {
        let mut current: Option<QueuedWrite> = None;
        core::mem::swap(&mut current, &mut self.current);
        match current {
            None => {},
            Some(w) => {
                if ok {
                    self.queue.mark_succeeded(&w);
                    self.take_next();
                } else if !self.failed_once {
                    self.failed_once = true;
                    self.current = Some(w);
                } else {
                    self.notice = Some(
                        owned(
                            "offline storage write failed; recent changes may not survive reload",
                        ),
                    );
                    self.take_next();
                }
            },
        }
    }

    /// Hand out what the reader has to be told.
    pub fn take_notice(&mut self) -> (r: Option<String>)
        ensures
            crate::model::opt_view(r) == old(self)@.notice,
            final(self)@ == (SpecWriter { notice: None, ..old(self)@ }),
    {
        self.notice.take()
    }
}

/// Every write is tried twice before it is given up, and only one that succeeded counts as
/// kept.
pub proof fn law_writes_are_tried_twice(w: SpecWriter, op: SpecOp)
    requires
        w.current == Some(op),
        !w.failed_once,
    ensures
        w.ended(false).current == Some(op),
        w.ended(false).queue == w.queue,
        w.ended(false).notice == w.notice,
        w.ended(false).ended(true) == w.ended(true),
        w.ended(false).ended(false).notice == Some(write_notice()),
        w.ended(false).ended(false).current == w.queue.next(),
        w.ended(false).ended(false).queue == w.queue.popped(),
{
}

} // verus!
