//! The keyboard line editor: the line being typed, the queue of finished
//! lines waiting for the shell, the history, and the modifier keys.
use vstd::prelude::*;
use crate::text::{chars_of, str_eq_chars, string_from_chars};

verus! {

/// The longest line the editor keeps.
pub const MAX_LINE_LEN: usize = 128;

/// The most finished lines that wait for the shell.
pub const MAX_QUEUE_DEPTH: usize = 8;

/// The most lines the history keeps.
pub const MAX_HISTORY: usize = 16;

/// Which modifier keys are held (or locked).
#[derive(Debug, Clone, Copy)]
pub struct KeyboardModifiers {
    pub shift: bool,
    pub ctrl: bool,
    pub alt: bool,
    pub caps_lock: bool,
}

impl Default for KeyboardModifiers {
    fn default() -> (m: Self)
        ensures
            !m.shift && !m.ctrl && !m.alt && !m.caps_lock,
    {
        KeyboardModifiers { shift: false, ctrl: false, alt: false, caps_lock: false }
    }
}

/// Keys that edit the line rather than type into it.
#[derive(Debug, Clone, Copy, PartialEq, Eq, Structural)]
pub enum SpecialKey {
    UpArrow,
    DownArrow,
    LeftArrow,
    RightArrow,
    Home,
    End,
    Escape,
    FunctionKey(u8),
}

/// The line editor's state.
pub struct InputBuffer {
    line: std::collections::VecDeque<char>,
    ready_lines: std::collections::VecDeque<String>,
    history: std::collections::VecDeque<String>,
    modifiers: KeyboardModifiers,
}

/// The characters of each string.
pub open spec fn strings_view(s: Seq<String>) -> Seq<Seq<char>> {
    s.map_values(|x: String| x@)
}

/// `q` with `x` appended, dropping the oldest entry first when `q` already
/// holds `cap` entries.
pub open spec fn bounded_push(q: Seq<Seq<char>>, x: Seq<char>, cap: nat) -> Seq<Seq<char>> {
    if q.len() >= cap {
        q.drop_first().push(x)
    } else {
        q.push(x)
    }
}

impl InputBuffer {
    /// The line being typed.
    pub closed spec fn line(&self) -> Seq<char> {
        self.line@
    }

    /// The finished lines, oldest first.
    pub closed spec fn ready(&self) -> Seq<Seq<char>> {
        strings_view(self.ready_lines@)
    }

    /// The non-empty finished lines, oldest first.
    pub closed spec fn history(&self) -> Seq<Seq<char>> {
        strings_view(self.history@)
    }

    /// The modifier keys' state.
    pub closed spec fn mods(&self) -> KeyboardModifiers {
        self.modifiers
    }

    /// The bounds the editor keeps: lines (typed or in the history) of at
    /// most `MAX_LINE_LEN` characters, at most `MAX_QUEUE_DEPTH` waiting
    /// lines, at most `MAX_HISTORY` history entries.
    pub open spec fn wf(&self) -> bool {
        &&& self.line().len() <= MAX_LINE_LEN
        &&& self.ready().len() <= MAX_QUEUE_DEPTH
        &&& self.history().len() <= MAX_HISTORY
        &&& forall|i: int|
            0 <= i < self.history().len() ==> (#[trigger] self.history()[i]).len() <= MAX_LINE_LEN
    }

    /// An empty editor with no modifier held.
    pub fn new() -> (b: Self)
        ensures
            b.wf(),
            b.line() == Seq::<char>::empty(),
            b.ready() == Seq::<Seq<char>>::empty(),
            b.history() == Seq::<Seq<char>>::empty(),
            !b.mods().shift && !b.mods().ctrl && !b.mods().alt && !b.mods().caps_lock,
    {
        let b = InputBuffer {
            line: std::collections::VecDeque::new(),
            ready_lines: std::collections::VecDeque::new(),
            history: std::collections::VecDeque::new(),
            modifiers: KeyboardModifiers::default(),
        };
        assert(b.ready() =~= Seq::<Seq<char>>::empty());
        assert(b.history() =~= Seq::<Seq<char>>::empty());
        b
    }

    /// Types `ch` at the end of the line, unless the line is full.
    pub fn push_char(&mut self, ch: char)
        requires
            old(self).wf(),
        ensures
            final(self).wf(),
            final(self).line() == (if old(self).line().len() < MAX_LINE_LEN {
                old(self).line().push(ch)
            } else {
                old(self).line()
            }),
            final(self).ready() == old(self).ready(),
            final(self).history() == old(self).history(),
            final(self).mods() == old(self).mods(),
    {
        if self.line.len() < MAX_LINE_LEN {
            self.line.push_back(ch);
        }
    }

    /// Erases the last character of the line; tells whether there was one.
    pub fn backspace(&mut self) -> (erased: bool)
        requires
            old(self).wf(),
        ensures
            final(self).wf(),
            erased == (old(self).line().len() > 0),
            final(self).line() == (if erased {
                old(self).line().drop_last()
            } else {
                old(self).line()
            }),
            final(self).ready() == old(self).ready(),
            final(self).history() == old(self).history(),
            final(self).mods() == old(self).mods(),
    {
        self.line.pop_back().is_some()
    }

    /// Up arrow: replaces the line with the latest history entry (if any).
    /// Escape: clears the line. Other keys change nothing.
    pub fn handle_special_key(&mut self, key: SpecialKey)
        requires
            old(self).wf(),
        ensures
            final(self).wf(),
            final(self).line() == (match key {
                SpecialKey::UpArrow => if old(self).history().len() > 0 {
                    old(self).history().last()
                } else {
                    old(self).line()
                },
                SpecialKey::Escape => Seq::empty(),
                _ => old(self).line(),
            }),
            final(self).ready() == old(self).ready(),
            final(self).history() == old(self).history(),
            final(self).mods() == old(self).mods(),
    {
        match key {
            SpecialKey::UpArrow => {
                let n = self.history.len();
                if n > 0 {
                    let prev = chars_of(self.history[n - 1].as_str());
                    self.line.clear();
                    let mut i: usize = 0;
                    while i < prev.len()
                        invariant
                            i <= prev@.len(),
                            self.line@ == prev@.take(i as int),
                            self.ready() == old(self).ready(),
                            self.history() == old(self).history(),
                            self.mods() == old(self).mods(),
                        decreases prev@.len() - i,
                    {
                        self.line.push_back(prev[i]);
                        assert(prev@.take(i as int + 1) =~= prev@.take(i as int).push(prev@[i as int]));
                        i += 1;
                    }
                    assert(prev@.take(prev@.len() as int) =~= prev@);
                    assert(self.history()[self.history().len() - 1] == prev@);
                }
            },
            SpecialKey::Escape => {
                self.line.clear();
            },
            _ => {},
        }
    }

    /// Sets the modifier named `mod_type` (`shift`, `ctrl`, `alt` or `caps`)
    /// to `state`; other names change nothing.
    pub fn set_modifier(&mut self, mod_type: &str, state: bool)
        requires
            old(self).wf(),
        ensures
            final(self).wf(),
            final(self).line() == old(self).line(),
            final(self).ready() == old(self).ready(),
            final(self).history() == old(self).history(),
            final(self).mods() == (if mod_type@ == "shift"@ {
                KeyboardModifiers { shift: state, ..old(self).mods() }
            } else if mod_type@ == "ctrl"@ {
                KeyboardModifiers { ctrl: state, ..old(self).mods() }
            } else if mod_type@ == "alt"@ {
                KeyboardModifiers { alt: state, ..old(self).mods() }
            } else if mod_type@ == "caps"@ {
                KeyboardModifiers { caps_lock: state, ..old(self).mods() }
            } else {
                old(self).mods()
            }),
    {
        let m = chars_of(mod_type);
        if str_eq_chars("shift", m.as_slice()) {
            self.modifiers.shift = state;
        } else if str_eq_chars("ctrl", m.as_slice()) {
            self.modifiers.ctrl = state;
        } else if str_eq_chars("alt", m.as_slice()) {
            self.modifiers.alt = state;
        } else if str_eq_chars("caps", m.as_slice()) {
            self.modifiers.caps_lock = state;
        }
    }

    /// Ends the line: it joins the queue for the shell (dropping the oldest
    /// waiting line when `MAX_QUEUE_DEPTH` wait already) and, when not
    /// empty, the history (dropping the oldest entry when `MAX_HISTORY` are
    /// kept already); the line is then empty.
    pub fn commit_line(&mut self)
        requires
            old(self).wf(),
        ensures
            final(self).wf(),
            final(self).line() == Seq::<char>::empty(),
            final(self).ready() == bounded_push(
                old(self).ready(),
                old(self).line(),
                MAX_QUEUE_DEPTH as nat,
            ),
            final(self).history() == (if old(self).line().len() > 0 {
                bounded_push(old(self).history(), old(self).line(), MAX_HISTORY as nat)
            } else {
                old(self).history()
            }),
            final(self).mods() == old(self).mods(),
    {
        let mut cs: Vec<char> = Vec::new();
        let mut i: usize = 0;
        while i < self.line.len()
            invariant
                i <= self.line@.len(),
                cs@ == self.line@.take(i as int),
                *self == *old(self),
            decreases self.line@.len() - i,
        {
            cs.push(self.line[i]);
            assert(self.line@.take(i as int + 1) =~= self.line@.take(i as int).push(self.line@[i as int]));
            i += 1;
        }
        assert(self.line@.take(self.line@.len() as int) =~= self.line@);
        self.line.clear();
        let line = string_from_chars(cs.as_slice());
        if cs.len() > 0 {
            let ghost h0 = self.history();
            if self.history.len() >= MAX_HISTORY {
                self.history.pop_front();
                assert(self.history() =~= h0.drop_first());
            }
            let ghost h1 = self.history();
            self.history.push_back(line.clone());
            assert(self.history() =~= h1.push(line@));
            assert forall|k: int| 0 <= k < self.history().len() implies (
            #[trigger] self.history()[k]).len() <= MAX_LINE_LEN by {
                if k < self.history().len() - 1 {
                    if h0.len() >= MAX_HISTORY {
                        assert(self.history()[k] == h0[k + 1]);
                    } else {
                        assert(self.history()[k] == h0[k]);
                    }
                }
            }
        }
        let ghost r0 = self.ready();
        if self.ready_lines.len() >= MAX_QUEUE_DEPTH {
            self.ready_lines.pop_front();
            assert(self.ready() =~= r0.drop_first());
        }
        let ghost r1 = self.ready();
        self.ready_lines.push_back(line);
        assert(self.ready() =~= r1.push(cs@));
    }

    /// Takes the oldest finished line off the queue.
    pub fn pop_line(&mut self) -> (r: Option<String>)
        requires
            old(self).wf(),
        ensures
            final(self).wf(),
            old(self).ready().len() == 0 ==> r is None && final(self).ready() == old(self).ready(),
            old(self).ready().len() > 0 ==> (r matches Some(s) && s@ == old(self).ready()[0]
                && final(self).ready() == old(self).ready().drop_first()),
            final(self).line() == old(self).line(),
            final(self).history() == old(self).history(),
            final(self).mods() == old(self).mods(),
    {
        let ghost r0 = self.ready();
        let r = self.ready_lines.pop_front();
        assert(self.ready() =~= (if r0.len() > 0 { r0.drop_first() } else { r0 }));
        r
    }

    /// The line typed so far.
    pub fn current_line(&self) -> (r: String)
        ensures
            r@ == self.line(),
    {
        let mut cs: Vec<char> = Vec::new();
        let mut i: usize = 0;
        while i < self.line.len()
            invariant
                i <= self.line@.len(),
                cs@ == self.line@.take(i as int),
            decreases self.line@.len() - i,
        {
            cs.push(self.line[i]);
            assert(self.line@.take(i as int + 1) =~= self.line@.take(i as int).push(self.line@[i as int]));
            i += 1;
        }
        assert(self.line@.take(self.line@.len() as int) =~= self.line@);
        string_from_chars(cs.as_slice())
    }

    /// The modifier keys' state.
    pub fn modifiers(&self) -> (m: KeyboardModifiers)
        ensures
            m == self.mods(),
    {
        self.modifiers
    }
}


/// Backspace undoes typing: a character typed into a line that is not full
/// is exactly what the next backspace erases.
pub proof fn lemma_backspace_undoes_push(line: Seq<char>, ch: char)
    requires
        line.len() < MAX_LINE_LEN,
    ensures
        line.push(ch).len() > 0,
        line.push(ch).drop_last() == line,
{
    assert(line.push(ch).drop_last() =~= line);
}

/// Lines reach the shell in the order they were ended: committing `line`
/// while fewer than `MAX_QUEUE_DEPTH` lines wait puts it behind them, so
/// the waiting lines come out first and `line` after them.
pub proof fn lemma_commit_is_fifo(ready: Seq<Seq<char>>, line: Seq<char>)
    requires
        ready.len() < MAX_QUEUE_DEPTH,
    ensures
        bounded_push(ready, line, MAX_QUEUE_DEPTH as nat).len() == ready.len() + 1,
        bounded_push(ready, line, MAX_QUEUE_DEPTH as nat).take(ready.len() as int) == ready,
        bounded_push(ready, line, MAX_QUEUE_DEPTH as nat).last() == line,
{
    assert(ready.push(line).take(ready.len() as int) =~= ready);
}

/// The queue for the shell never holds more than `MAX_QUEUE_DEPTH` lines;
/// when full, committing drops the oldest line.
pub proof fn lemma_queue_bounded(ready: Seq<Seq<char>>, line: Seq<char>)
    requires
        ready.len() <= MAX_QUEUE_DEPTH,
    ensures
        bounded_push(ready, line, MAX_QUEUE_DEPTH as nat).len() <= MAX_QUEUE_DEPTH,
        ready.len() == MAX_QUEUE_DEPTH ==> bounded_push(ready, line, MAX_QUEUE_DEPTH as nat)
            == ready.drop_first().push(line),
{
}

/// The up arrow recalls the last line ended: after a non-empty line is
/// committed, the latest history entry is that line.
pub proof fn lemma_up_arrow_recalls(history: Seq<Seq<char>>, line: Seq<char>)
    ensures
        bounded_push(history, line, MAX_HISTORY as nat).last() == line,
        bounded_push(history, line, MAX_HISTORY as nat).len() > 0,
{
}

} // verus!
