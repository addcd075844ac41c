use crate::text::string_of;
use vstd::prelude::*;

verus! {

/// A key press, as far as the prompt tells keys apart.
#[derive(Copy, Clone, Debug, PartialEq, Eq, Structural)]
pub enum Key {
    Char(char),
    Left,
    Right,
    Up,
    Down,
    Home,
    End,
    PageUp,
    PageDown,
    Enter,
    Esc,
    Backspace,
    Delete,
    Other,
}

/// A mouse event, as far as the prompt tells them apart.
#[derive(Copy, Clone, Debug, PartialEq, Eq, Structural)]
pub enum MouseInput {
    /// The left button went down on this screen row.
    LeftDown(u16),
    ScrollDown,
    ScrollUp,
    ScrollLeft,
    ScrollRight,
    Other,
}

#[derive(Copy, Clone, Debug, PartialEq, Eq, Structural)]
pub enum Dir {
    Forward,
    Reverse,
}

impl Dir {
    pub fn invert(self) -> (r: Dir)
        ensures
            r != self,
    {
        match self {
            Dir::Forward => Dir::Reverse,
            Dir::Reverse => Dir::Forward,
        }
    }
}

#[derive(Copy, Clone, Debug, PartialEq, Eq, Structural)]
pub enum Mode {
    Normal,
    Search(Dir),
    Follow,
}

pub enum Cmd {
    RowUp,
    RowDown,
    RowPgUp,
    RowPgDown,
    RowTop,
    RowBottom,
    RowGoTo(usize),
    ColRight,
    ColLeft,
    Exit,
    Search(String, Dir),
    SearchNext,
    SearchPrev,
    ToggleHighlight(u16),
    Redraw,
}

pub enum CmdView {
    RowUp,
    RowDown,
    RowPgUp,
    RowPgDown,
    RowTop,
    RowBottom,
    RowGoTo(usize),
    ColRight,
    ColLeft,
    Exit,
    Search(Seq<char>, Dir),
    SearchNext,
    SearchPrev,
    ToggleHighlight(u16),
    Redraw,
}

impl View for Cmd {
    type V = CmdView;

    open spec fn view(&self) -> CmdView {
        match self {
            Cmd::RowUp => CmdView::RowUp,
            Cmd::RowDown => CmdView::RowDown,
            Cmd::RowPgUp => CmdView::RowPgUp,
            Cmd::RowPgDown => CmdView::RowPgDown,
            Cmd::RowTop => CmdView::RowTop,
            Cmd::RowBottom => CmdView::RowBottom,
            Cmd::RowGoTo(n) => CmdView::RowGoTo(*n),
            Cmd::ColRight => CmdView::ColRight,
            Cmd::ColLeft => CmdView::ColLeft,
            Cmd::Exit => CmdView::Exit,
            Cmd::Search(s, d) => CmdView::Search(s@, *d),
            Cmd::SearchNext => CmdView::SearchNext,
            Cmd::SearchPrev => CmdView::SearchPrev,
            Cmd::ToggleHighlight(r) => CmdView::ToggleHighlight(*r),
            Cmd::Redraw => CmdView::Redraw,
        }
    }
}

pub open spec fn opt_cmd_view(c: Option<Cmd>) -> Option<CmdView> {
    match c {
        Some(c) => Some(c@),
        None => None,
    }
}

pub open spec fn is_digit(c: char) -> bool {
    '0' <= c && c <= '9'
}

pub open spec fn all_digits(s: Seq<char>) -> bool {
    forall|i: int| 0 <= i < s.len() ==> is_digit(s[i])
}

/// The number that a string of decimal digits spells.
pub open spec fn decimal_value(s: Seq<char>) -> int
    decreases s.len(),
{
    if s.len() == 0 {
        0
    } else {
        10 * decimal_value(s.drop_last()) + (s.last() as int - '0' as int)
    }
}

/// The row count typed before `g`, if it is a number that fits.
pub open spec fn typed_count(s: Seq<char>) -> Option<usize> {
    if s.len() > 0 && all_digits(s) && decimal_value(s) <= usize::MAX {
        Some(decimal_value(s) as usize)
    } else {
        None
    }
}

pub struct PromptView {
    pub mode: Mode,
    pub input: Seq<char>,
}

/// The prompt after `key`, and the command that `key` gives, if any.
pub open spec fn key_step(p: PromptView, key: Key) -> (PromptView, Option<CmdView>) {
    let same = p;
    let cleared = PromptView { mode: p.mode, input: Seq::empty() };
    match p.mode {
        Mode::Normal => match key {
            Key::Right | Key::Char('l') => (same, Some(CmdView::ColRight)),
            Key::Left | Key::Char('h') => (same, Some(CmdView::ColLeft)),
            Key::Down | Key::Char('j') => (same, Some(CmdView::RowDown)),
            Key::Up | Key::Char('k') => (same, Some(CmdView::RowUp)),
            Key::End | Key::Char('G') => (same, Some(CmdView::RowBottom)),
            Key::Char('F') | Key::Char('f') => (PromptView { mode: Mode::Follow, input: p.input }, None),
            Key::Home => (same, Some(CmdView::RowTop)),
            Key::PageUp => (same, Some(CmdView::RowPgUp)),
            Key::PageDown => (same, Some(CmdView::RowPgDown)),
            Key::Esc | Key::Char('q') => (same, Some(CmdView::Exit)),
            Key::Char('/') => (PromptView { mode: Mode::Search(Dir::Forward), input: Seq::empty() }, None),
            Key::Char('?') => (PromptView { mode: Mode::Search(Dir::Reverse), input: Seq::empty() }, None),
            Key::Char('n') => (same, Some(CmdView::SearchNext)),
            Key::Char('N') => (same, Some(CmdView::SearchPrev)),
            Key::Char('g') => match typed_count(p.input) {
                Some(x) => (cleared, Some(CmdView::RowGoTo(if x == 0 { 0 } else { (x - 1) as usize }))),
                None => (same, None),
            },
            Key::Char(c) => if is_digit(c) {
                (PromptView { mode: p.mode, input: p.input.push(c) }, None)
            } else {
                (same, None)
            },
            Key::Backspace => (PromptView {
                mode: p.mode,
                input: if p.input.len() > 0 { p.input.drop_last() } else { p.input },
            }, None),
            _ => (same, None),
        },
        Mode::Search(dir) => match key {
            Key::Char(c) => (PromptView { mode: p.mode, input: p.input.push(c) }, None),
            Key::Backspace => if p.input.len() > 0 {
                (PromptView { mode: p.mode, input: p.input.drop_last() }, None)
            } else {
                (PromptView { mode: Mode::Normal, input: p.input }, None)
            },
            Key::Enter => (
                PromptView { mode: Mode::Normal, input: Seq::empty() },
                Some(CmdView::Search(p.input, dir)),
            ),
            Key::Esc => (PromptView { mode: Mode::Normal, input: Seq::empty() }, None),
            _ => (same, None),
        },
        Mode::Follow => match key {
            Key::Right | Key::Char('l') => (same, Some(CmdView::ColRight)),
            Key::Left | Key::Char('h') => (same, Some(CmdView::ColLeft)),
            Key::Char('q') => (same, Some(CmdView::Exit)),
            _ => (PromptView { mode: Mode::Normal, input: p.input }, None),
        },
    }
}

fn parse_count(s: &Vec<char>) -> (r: Option<usize>)
    ensures
        r == typed_count(s@),
{
    if s.len() == 0 {
        return None;
    }
    let mut v: usize = 0;
    let mut i: usize = 0;
    while i < s.len()
        invariant
            i <= s@.len(),
            all_digits(s@.take(i as int)),
            v == decimal_value(s@.take(i as int)),
        decreases s@.len() - i,
    {
        let c = s[i];
        proof {
            assert(s@.take(i + 1).drop_last() =~= s@.take(i as int));
        }
        if !('0' <= c && c <= '9') {
            assert(!all_digits(s@));
            return None;
        }
        let d = (c as u32 - '0' as u32) as usize;
        match v.checked_mul(10) {
            Some(t) => match t.checked_add(d) {
                Some(n) => v = n,
                None => {
                    proof { if all_digits(s@) { lemma_value_grows(s@, i as int + 1); } }
                    return None;
                }
            },
            None => {
                proof { if all_digits(s@) { lemma_value_grows(s@, i as int + 1); } }
                return None;
            }
        }
        i = i + 1;
    }
    assert(s@.take(s@.len() as int) =~= s@);
    Some(v)
}

proof fn lemma_value_grows(s: Seq<char>, k: int)
    requires
        0 <= k <= s.len(),
        all_digits(s),
    ensures
        decimal_value(s.take(k)) <= decimal_value(s),
        decimal_value(s.take(k)) >= 0,
    decreases s.len(),
{
    if k == s.len() {
        assert(s.take(k) =~= s);
        lemma_value_nonneg(s);
    } else {
        let d = s.drop_last();
        assert(s.take(k) =~= d.take(k));
        lemma_value_grows(d, k);
        lemma_value_nonneg(d);
    }
}

proof fn lemma_value_nonneg(s: Seq<char>)
    requires
        all_digits(s),
    ensures
        decimal_value(s) >= 0,
    decreases s.len(),
{
    if s.len() > 0 {
        lemma_value_nonneg(s.drop_last());
    }
}

/// The input line at the bottom of the screen.
pub struct Prompt {
    mode: Mode,
    input: Vec<char>,
}

impl View for Prompt {
    type V = PromptView;

    closed spec fn view(&self) -> PromptView {
        PromptView { mode: self.mode, input: self.input@ }
    }
}

impl Prompt {
    /// Outside a search, only a typed row count can be pending.
    pub closed spec fn well_formed(&self) -> bool {
        !(self.mode is Search) ==> all_digits(self.input@)
    }

    pub fn new() -> (r: Prompt)
        ensures
            r.well_formed(),
            r@ == (PromptView { mode: Mode::Normal, input: Seq::empty() }),
    {
        Prompt { mode: Mode::Normal, input: Vec::new() }
    }

    /// The text of the prompt: a sign for the mode, then what was typed.
    pub fn draw(&self) -> (r: String)
        ensures
            r@ == seq![
                match self@.mode {
                    Mode::Normal => ':',
                    Mode::Search(Dir::Forward) => '/',
                    Mode::Search(Dir::Reverse) => '?',
                    Mode::Follow => '>',
                },
            ] + self@.input,
    {
        let ps1 = match self.mode {
            Mode::Normal => ':',
            Mode::Search(Dir::Forward) => '/',
            Mode::Search(Dir::Reverse) => '?',
            Mode::Follow => '>',
        };
        let mut text: Vec<char> = Vec::new();
        text.push(ps1);
        let mut i: usize = 0;
        while i < self.input.len()
            invariant
                i <= self.input@.len(),
                text@ == seq![ps1] + self.input@.take(i as int),
            decreases self.input@.len() - i,
        {
            text.push(self.input[i]);
            assert(self.input@.take(i + 1) =~= self.input@.take(i as int).push(self.input@[i as int]));
            assert(text@ =~= seq![ps1] + self.input@.take(i + 1));
            i = i + 1;
        }
        assert(self.input@.take(self.input@.len() as int) =~= self.input@);
        string_of(&text)
    }

    pub fn is_following(&self) -> (r: bool)
        ensures
            r == (self@.mode is Follow),
    {
        match self.mode {
            Mode::Follow => true,
            _ => false,
        }
    }

    /// Updates the prompt for a key press, and gives the command it stands for.
    pub fn handle_key(&mut self, key: Key) -> (r: Option<Cmd>)
        requires
            old(self).well_formed(),
        ensures
            final(self).well_formed(),
            (final(self)@, opt_cmd_view(r)) == key_step(old(self)@, key),
    {
        match self.mode {
            Mode::Normal => match key {
                Key::Right | Key::Char('l') => Some(Cmd::ColRight),
                Key::Left | Key::Char('h') => Some(Cmd::ColLeft),
                Key::Down | Key::Char('j') => Some(Cmd::RowDown),
                Key::Up | Key::Char('k') => Some(Cmd::RowUp),
                Key::End | Key::Char('G') => Some(Cmd::RowBottom),
                Key::Char('F') | Key::Char('f') => {
                    self.mode = Mode::Follow;
                    None
                },
                Key::Home => Some(Cmd::RowTop),
                Key::PageUp => Some(Cmd::RowPgUp),
                Key::PageDown => Some(Cmd::RowPgDown),
                Key::Esc | Key::Char('q') => Some(Cmd::Exit),
                Key::Char('/') => {
                    self.input = Vec::new();
                    self.mode = Mode::Search(Dir::Forward);
                    None
                },
                Key::Char('?') => {
                    self.input = Vec::new();
                    self.mode = Mode::Search(Dir::Reverse);
                    None
                },
                Key::Char('n') => Some(Cmd::SearchNext),
                Key::Char('N') => Some(Cmd::SearchPrev),
                Key::Char('g') => {
                    match parse_count(&self.input) {
                        Some(x) => {
                            self.input = Vec::new();
                            Some(Cmd::RowGoTo(x.saturating_sub(1)))
                        },
                        None => None,
                    }
                },
                Key::Char(c) => {
                    if '0' <= c && c <= '9' {
                        self.input.push(c);
                    }
                    None
                },
                Key::Backspace => {
                    self.input.pop();
                    None
                },
                _ => None,
            },
            Mode::Search(dir) => match key {
                Key::Char(c) => {
                    self.input.push(c);
                    None
                },
                Key::Backspace => {
                    let x = self.input.pop();
                    if x.is_none() {
                        self.mode = Mode::Normal;
                    }
                    None
                },
                Key::Enter => {
                    let needle = string_of(&self.input);
                    self.input = Vec::new();
                    self.mode = Mode::Normal;
                    Some(Cmd::Search(needle, dir))
                },
                Key::Esc => {
                    self.input = Vec::new();
                    self.mode = Mode::Normal;
                    None
                },
                _ => None,
            },
            Mode::Follow => match key {
                Key::Right | Key::Char('l') => Some(Cmd::ColRight),
                Key::Left | Key::Char('h') => Some(Cmd::ColLeft),
                Key::Char('q') => Some(Cmd::Exit),
                _ => {
                    self.mode = Mode::Normal;
                    None
                },
            },
        }
    }

    /// The command that a mouse event stands for.
    pub fn handle_mouse(&mut self, ev: MouseInput) -> (r: Option<Cmd>)
        ensures
            *final(self) == *old(self),
            opt_cmd_view(r) == match ev {
                MouseInput::LeftDown(row) => Some(CmdView::ToggleHighlight(row)),
                MouseInput::ScrollDown => Some(CmdView::RowPgDown),
                MouseInput::ScrollUp => Some(CmdView::RowPgUp),
                MouseInput::ScrollLeft => Some(CmdView::ColLeft),
                MouseInput::ScrollRight => Some(CmdView::ColRight),
                MouseInput::Other => None,
            },
    {
        match ev {
            MouseInput::LeftDown(row) => Some(Cmd::ToggleHighlight(row)),
            MouseInput::ScrollDown => Some(Cmd::RowPgDown),
            MouseInput::ScrollUp => Some(Cmd::RowPgUp),
            MouseInput::ScrollLeft => Some(Cmd::ColLeft),
            MouseInput::ScrollRight => Some(Cmd::ColRight),
            MouseInput::Other => None,
        }
    }
}

/// The first search match past `current_row` going forward, or the last one
/// before it going backward.
pub fn next_match(matches: &[usize], current_row: usize, dir: Dir) -> (r: Option<usize>)
    ensures
        dir is Forward ==> match r {
            Some(x) => exists|i: int|
                0 <= i < matches@.len() && matches@[i] == x && x > current_row && forall|j: int|
                    0 <= j < i ==> matches@[j] <= current_row,
            None => forall|j: int| 0 <= j < matches@.len() ==> matches@[j] <= current_row,
        },
        dir is Reverse ==> match r {
            Some(x) => exists|i: int|
                0 <= i < matches@.len() && matches@[i] == x && x < current_row && forall|j: int|
                    i < j < matches@.len() ==> matches@[j] >= current_row,
            None => forall|j: int| 0 <= j < matches@.len() ==> matches@[j] >= current_row,
        },
{
    match dir {
        Dir::Forward => {
            let mut i: usize = 0;
            while i < matches.len()
                invariant
                    i <= matches@.len(),
                    forall|j: int| 0 <= j < i ==> matches@[j] <= current_row,
                    dir is Forward,
                decreases matches@.len() - i,
            {
                if matches[i] > current_row {
                    return Some(matches[i]);
                }
                i = i + 1;
            }
            None
        },
        Dir::Reverse => {
            let mut i: usize = matches.len();
            while i > 0
                invariant
                    i <= matches@.len(),
                    forall|j: int| i <= j < matches@.len() ==> matches@[j] >= current_row,
                    dir is Reverse,
                decreases i,
            {
                if matches[i - 1] < current_row {
                    return Some(matches[i - 1]);
                }
                i = i - 1;
            }
            None
        },
    }
}

impl Default for Prompt {
    fn default() -> (r: Prompt)
        ensures
            r.well_formed(),
            r@ == (PromptView { mode: Mode::Normal, input: Seq::empty() }),
    {
        Prompt::new()
    }
}

} // verus!
