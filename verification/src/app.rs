//! The user interface's states (tabs, modes and panels) and what each key
//! does in each mode.
use vstd::prelude::*;

use crate::text::{chars_of, string_of, string_of_all};

verus! {

#[derive(Debug, Clone, Copy, PartialEq, Eq, Structural)]
pub enum Tab {
    Log,
    Branches,
    Stash,
}

impl Tab {
    pub open spec fn spec_next(self) -> Tab {
        match self {
            Tab::Log => Tab::Branches,
            Tab::Branches => Tab::Stash,
            Tab::Stash => Tab::Log,
        }
    }

    pub open spec fn spec_prev(self) -> Tab {
        match self {
            Tab::Log => Tab::Stash,
            Tab::Branches => Tab::Log,
            Tab::Stash => Tab::Branches,
        }
    }

    /// The tab to the right, the last wrapping to the first.
    pub fn next(self) -> (t: Self)
        ensures
            t == self.spec_next(),
    {
        match self {
            Tab::Log => Tab::Branches,
            Tab::Branches => Tab::Stash,
            Tab::Stash => Tab::Log,
        }
    }

    /// The tab to the left, the first wrapping to the last.
    pub fn prev(self) -> (t: Self)
        ensures
            t == self.spec_prev(),
    {
        match self {
            Tab::Log => Tab::Stash,
            Tab::Branches => Tab::Log,
            Tab::Stash => Tab::Branches,
        }
    }

    pub open spec fn spec_title(self) -> Seq<char> {
        match self {
            Tab::Log => "Log"@,
            Tab::Branches => "Branches"@,
            Tab::Stash => "Stash"@,
        }
    }

    pub fn title(self) -> (s: &'static str)
        ensures
            s@ == self.spec_title(),
    {
        match self {
            Tab::Log => "Log",
            Tab::Branches => "Branches",
            Tab::Stash => "Stash",
        }
    }
}

/// Moving right then left, or left then right, comes back to the same tab;
/// three moves in one direction go all the way round.
pub proof fn lemma_tab_cycle(t: Tab)
    ensures
        t.spec_next().spec_prev() == t,
        t.spec_prev().spec_next() == t,
        t.spec_next().spec_next().spec_next() == t,
        t.spec_prev().spec_prev().spec_prev() == t,
{
}

#[derive(Debug, Clone, PartialEq)]
pub enum Mode {
    Normal,
    Commit { message: String },
    Conflict { file: String },
    Search { query: String },
    Help,
    CommitDetail,
    UncommittedDetail,
}

#[derive(Debug, Clone, Copy, PartialEq, Eq, Structural)]
pub enum Panel {
    Left,
    Right,
}

/// A key press, as the interface tells keys apart.
#[derive(Debug, Clone, Copy, PartialEq, Eq, Structural)]
pub enum Key {
    Char(char),
    Tab,
    BackTab,
    Enter,
    Esc,
    Backspace,
    Up,
    Down,
    Other,
}

/// What a key press asks the interface to do.
#[derive(Debug, Clone, Copy, PartialEq, Eq, Structural)]
pub enum Action {
    Nothing,
    Quit,
    NextTab,
    PrevTab,
    Focus(Panel),
    NextHunk,
    PrevHunk,
    ScrollDown(u16),
    ScrollUp(u16),
    ScrollLeft(u16),
    ScrollRight(u16),
    SelectNext,
    SelectPrev,
    StartCommit,
    Push,
    Pull,
    CreateBranch,
    DeleteBranch,
    StartSearch,
    Refresh,
    ShowHelp,
    OpenUncommitted,
    OpenCommit,
    LoadDiff,
    /// Leave the current mode.
    Leave,
    /// Stage or unstage the selected file, whichever panel is focused.
    Stage,
    /// Commit the message typed.
    Submit,
    /// Refuse to commit an empty message.
    RejectEmpty,
    DeleteChar,
    TypeChar(char),
    UseOurs,
    UseTheirs,
    NextConflict,
    PrevConflict,
    WriteResolution,
}

/// The keys of the diff panel: `n`/`N` move between hunks, `J`/`K` scroll a
/// row, `H`/`L` scroll four columns.
pub open spec fn diff_key(c: char) -> Option<Action> {
    if c == 'n' {
        Some(Action::NextHunk)
    } else if c == 'N' {
        Some(Action::PrevHunk)
    } else if c == 'J' {
        Some(Action::ScrollDown(1))
    } else if c == 'K' {
        Some(Action::ScrollUp(1))
    } else if c == 'H' {
        Some(Action::ScrollLeft(4))
    } else if c == 'L' {
        Some(Action::ScrollRight(4))
    } else {
        None
    }
}

fn diff_key_exec(c: char) -> (r: Option<Action>)
    ensures
        r == diff_key(c),
{
    match c {
        'n' => Some(Action::NextHunk),
        'N' => Some(Action::PrevHunk),
        'J' => Some(Action::ScrollDown(1)),
        'K' => Some(Action::ScrollUp(1)),
        'H' => Some(Action::ScrollLeft(4)),
        'L' => Some(Action::ScrollRight(4)),
        _ => None,
    }
}

/// The keys of the normal mode. The diff keys act only with the right panel
/// focused; Enter on the log tab opens the working-tree entry (row 0) or a
/// commit, elsewhere it loads the selected file's diff; `d` deletes a branch
/// only on the branches tab.
pub open spec fn normal_key(tab: Tab, panel: Panel, log_selected: Option<usize>, key: Key) -> Action {
    match key {
        Key::Char(c) => if c == 'q' {
            Action::Quit
        } else if panel == Panel::Right && diff_key(c) is Some {
            diff_key(c)->0
        } else if c == 'l' {
            Action::Focus(Panel::Right)
        } else if c == 'h' {
            Action::Focus(Panel::Left)
        } else if c == 'j' {
            Action::SelectNext
        } else if c == 'k' {
            Action::SelectPrev
        } else if c == 'c' {
            Action::StartCommit
        } else if c == 'p' {
            Action::Push
        } else if c == 'P' {
            Action::Pull
        } else if c == 'b' {
            Action::CreateBranch
        } else if c == 'd' && tab == Tab::Branches {
            Action::DeleteBranch
        } else if c == '/' {
            Action::StartSearch
        } else if c == 'r' {
            Action::Refresh
        } else if c == '?' {
            Action::ShowHelp
        } else {
            Action::Nothing
        },
        Key::Tab => Action::NextTab,
        Key::BackTab => Action::PrevTab,
        Key::Down => Action::SelectNext,
        Key::Up => Action::SelectPrev,
        Key::Enter => if tab == Tab::Log {
            match log_selected {
                Some(i) => if i == 0 { Action::OpenUncommitted } else { Action::OpenCommit },
                None => Action::Nothing,
            }
        } else {
            Action::LoadDiff
        },
        _ => Action::Nothing,
    }
}

pub fn normal_action(tab: Tab, panel: Panel, log_selected: Option<usize>, key: Key) -> (a: Action)
    ensures
        a == normal_key(tab, panel, log_selected, key),
{
    match key {
        Key::Char(c) => {
            if c == 'q' {
                return Action::Quit;
            }
            if panel == Panel::Right {
                if let Some(a) = diff_key_exec(c) {
                    return a;
                }
            }
            match c {
                'l' => Action::Focus(Panel::Right),
                'h' => Action::Focus(Panel::Left),
                'j' => Action::SelectNext,
                'k' => Action::SelectPrev,
                'c' => Action::StartCommit,
                'p' => Action::Push,
                'P' => Action::Pull,
                'b' => Action::CreateBranch,
                'd' => if tab == Tab::Branches { Action::DeleteBranch } else { Action::Nothing },
                '/' => Action::StartSearch,
                'r' => Action::Refresh,
                '?' => Action::ShowHelp,
                _ => Action::Nothing,
            }
        },
        Key::Tab => Action::NextTab,
        Key::BackTab => Action::PrevTab,
        Key::Down => Action::SelectNext,
        Key::Up => Action::SelectPrev,
        Key::Enter => {
            if tab == Tab::Log {
                match log_selected {
                    Some(i) => if i == 0 { Action::OpenUncommitted } else { Action::OpenCommit },
                    None => Action::Nothing,
                }
            } else {
                Action::LoadDiff
            }
        },
        _ => Action::Nothing,
    }
}

/// The keys while a commit message is typed: Esc leaves, Enter commits (or
/// is refused when the message is empty), Backspace deletes the last
/// character and any other character is typed.
pub open spec fn commit_key(message_empty: bool, key: Key) -> Action {
    match key {
        Key::Esc => Action::Leave,
        Key::Enter => if message_empty { Action::RejectEmpty } else { Action::Submit },
        Key::Backspace => Action::DeleteChar,
        Key::Char(c) => Action::TypeChar(c),
        _ => Action::Nothing,
    }
}

pub fn commit_action(message_empty: bool, key: Key) -> (a: Action)
    ensures
        a == commit_key(message_empty, key),
{
    match key {
        Key::Esc => Action::Leave,
        Key::Enter => if message_empty { Action::RejectEmpty } else { Action::Submit },
        Key::Backspace => Action::DeleteChar,
        Key::Char(c) => Action::TypeChar(c),
        _ => Action::Nothing,
    }
}

/// The keys of the help screen: Esc, `q` and `?` close it.
pub open spec fn help_key(key: Key) -> Action {
    match key {
        Key::Esc => Action::Leave,
        Key::Char(c) => if c == 'q' || c == '?' { Action::Leave } else { Action::Nothing },
        _ => Action::Nothing,
    }
}

pub fn help_action(key: Key) -> (a: Action)
    ensures
        a == help_key(key),
{
    match key {
        Key::Esc => Action::Leave,
        Key::Char('q') | Key::Char('?') => Action::Leave,
        _ => Action::Nothing,
    }
}

/// The keys while a search is typed: Esc leaves, Backspace deletes the last
/// character, any other character is typed.
pub open spec fn search_key(key: Key) -> Action {
    match key {
        Key::Esc => Action::Leave,
        Key::Backspace => Action::DeleteChar,
        Key::Char(c) => Action::TypeChar(c),
        _ => Action::Nothing,
    }
}

pub fn search_action(key: Key) -> (a: Action)
    ensures
        a == search_key(key),
{
    match key {
        Key::Esc => Action::Leave,
        Key::Backspace => Action::DeleteChar,
        Key::Char(c) => Action::TypeChar(c),
        _ => Action::Nothing,
    }
}

/// The keys of the conflict editor: `o` and `t` pick a side, `n` and `N`
/// move between conflicts, `w` writes the result, Esc and `q` leave.
pub open spec fn conflict_key(key: Key) -> Action {
    match key {
        Key::Esc => Action::Leave,
        Key::Char(c) => if c == 'o' {
            Action::UseOurs
        } else if c == 't' {
            Action::UseTheirs
        } else if c == 'n' {
            Action::NextConflict
        } else if c == 'N' {
            Action::PrevConflict
        } else if c == 'w' {
            Action::WriteResolution
        } else if c == 'q' {
            Action::Leave
        } else {
            Action::Nothing
        },
        _ => Action::Nothing,
    }
}

pub fn conflict_action(key: Key) -> (a: Action)
    ensures
        a == conflict_key(key),
{
    match key {
        Key::Esc => Action::Leave,
        Key::Char('o') => Action::UseOurs,
        Key::Char('t') => Action::UseTheirs,
        Key::Char('n') => Action::NextConflict,
        Key::Char('N') => Action::PrevConflict,
        Key::Char('w') => Action::WriteResolution,
        Key::Char('q') => Action::Leave,
        _ => Action::Nothing,
    }
}

/// The keys of a commit's detail: `j`/`k` (and the arrows) move through the
/// files with the left panel focused and scroll the diff with the right one;
/// the diff keys act whichever panel is focused.
pub open spec fn commit_detail_key(panel: Panel, key: Key) -> Action {
    match key {
        Key::Esc => Action::Leave,
        Key::Char(c) => if c == 'q' {
            Action::Quit
        } else if c == 'h' {
            Action::Focus(Panel::Left)
        } else if c == 'l' {
            Action::Focus(Panel::Right)
        } else if c == 'j' {
            if panel == Panel::Left { Action::SelectNext } else { Action::ScrollDown(1) }
        } else if c == 'k' {
            if panel == Panel::Left { Action::SelectPrev } else { Action::ScrollUp(1) }
        } else if diff_key(c) is Some {
            diff_key(c)->0
        } else {
            Action::Nothing
        },
        Key::Down => if panel == Panel::Left { Action::SelectNext } else { Action::ScrollDown(1) },
        Key::Up => if panel == Panel::Left { Action::SelectPrev } else { Action::ScrollUp(1) },
        _ => Action::Nothing,
    }
}

pub fn commit_detail_action(panel: Panel, key: Key) -> (a: Action)
    ensures
        a == commit_detail_key(panel, key),
{
    let left = panel == Panel::Left;
    match key {
        Key::Esc => Action::Leave,
        Key::Char(c) => match c {
            'q' => Action::Quit,
            'h' => Action::Focus(Panel::Left),
            'l' => Action::Focus(Panel::Right),
            'j' => if left { Action::SelectNext } else { Action::ScrollDown(1) },
            'k' => if left { Action::SelectPrev } else { Action::ScrollUp(1) },
            _ => match diff_key_exec(c) {
                Some(a) => a,
                None => Action::Nothing,
            },
        },
        Key::Down => if left { Action::SelectNext } else { Action::ScrollDown(1) },
        Key::Up => if left { Action::SelectPrev } else { Action::ScrollUp(1) },
        _ => Action::Nothing,
    }
}

/// The keys of the working tree's detail: as a commit's detail, and also
/// `s` stages or unstages, `c` starts a commit and `?` shows the help.
pub open spec fn uncommitted_detail_key(panel: Panel, key: Key) -> Action {
    match key {
        Key::Char(c) => if c == 's' {
            Action::Stage
        } else if c == 'c' {
            Action::StartCommit
        } else if c == '?' {
            Action::ShowHelp
        } else {
            commit_detail_key(panel, key)
        },
        _ => commit_detail_key(panel, key),
    }
}

pub fn uncommitted_detail_action(panel: Panel, key: Key) -> (a: Action)
    ensures
        a == uncommitted_detail_key(panel, key),
{
    match key {
        Key::Char('s') => Action::Stage,
        Key::Char('c') => Action::StartCommit,
        Key::Char('?') => Action::ShowHelp,
        _ => commit_detail_action(panel, key),
    }
}

/// The selection after moving down a list of `len` items: the next item,
/// staying on the last; the first when nothing was selected; unchanged in
/// an empty list.
pub open spec fn selection_down(selected: Option<usize>, len: usize) -> Option<usize> {
    if len == 0 {
        selected
    } else {
        match selected {
            Some(i) => Some(if i + 1 < len { (i + 1) as usize } else { (len - 1) as usize }),
            None => Some(0),
        }
    }
}

/// The selection after moving up: the previous item, staying on the first;
/// nothing when nothing was selected.
pub open spec fn selection_up(selected: Option<usize>) -> Option<usize> {
    match selected {
        Some(i) => Some(if i == 0 { 0 } else { (i - 1) as usize }),
        None => None,
    }
}

pub fn select_down(selected: Option<usize>, len: usize) -> (r: Option<usize>)
    ensures
        r == selection_down(selected, len),
{
    if len == 0 {
        return selected;
    }
    match selected {
        Some(i) => Some(if i < len - 1 { i + 1 } else { len - 1 }),
        None => Some(0),
    }
}

pub fn select_up(selected: Option<usize>) -> (r: Option<usize>)
    ensures
        r == selection_up(selected),
{
    match selected {
        Some(i) => Some(if i == 0 { 0 } else { i - 1 }),
        None => None,
    }
}

/// Moving up after moving down comes back, unless the move down stayed on
/// the last item; the selection always stays inside a non-empty list.
pub proof fn lemma_selection_moves(selected: Option<usize>, len: usize)
    ensures
        (selected matches Some(i) && i + 1 < len) ==> selection_up(selection_down(selected, len)) == selected,
        len > 0 ==> (selection_down(selected, len) matches Some(j) && j < len),
        (selected matches Some(i) && i < len) ==> (selection_up(selected) matches Some(j) && j < len),
{
}

/// The number of rows of the current tab's list: the log shows the working
/// tree's entry above the commits; the stash tab has none.
pub open spec fn list_length(tab: Tab, branches: usize, commits: usize) -> int {
    match tab {
        Tab::Branches => branches as int,
        Tab::Log => 1 + commits,
        Tab::Stash => 0,
    }
}

pub fn list_len(tab: Tab, branches: usize, commits: usize) -> (n: usize)
    requires
        commits < usize::MAX,
    ensures
        n == list_length(tab, branches, commits),
{
    match tab {
        Tab::Branches => branches,
        Tab::Log => 1 + commits,
        Tab::Stash => 0,
    }
}

/// The text after a key edits it: Backspace deletes the last character (if
/// any), a character key appends the character, other keys leave it.
pub open spec fn edited(text: Seq<char>, key: Key) -> Seq<char> {
    match key {
        Key::Backspace => if text.len() == 0 { text } else { text.drop_last() },
        Key::Char(c) => text.push(c),
        _ => text,
    }
}

pub fn edit_text(text: &str, key: Key) -> (r: String)
    ensures
        r@ == edited(text@, key),
{
    let mut v = chars_of(text);
    match key {
        Key::Backspace => {
            if v.len() == 0 {
                string_of_all(&v)
            } else {
                let s = string_of(&v, 0, v.len() - 1);
                assert(v@.subrange(0, v@.len() - 1) =~= v@.drop_last());
                s
            }
        },
        Key::Char(c) => {
            v.push(c);
            string_of_all(&v)
        },
        _ => string_of_all(&v),
    }
}

/// The commit under a row of the log list, whose row 0 is the working
/// tree: row `i` shows commit `i - 1`.
pub open spec fn commit_row(selected: Option<usize>, commits: usize) -> Option<usize> {
    match selected {
        Some(i) => if 0 < i && i - 1 < commits { Some((i - 1) as usize) } else { None },
        None => None,
    }
}

pub fn commit_at_row(selected: Option<usize>, commits: usize) -> (r: Option<usize>)
    ensures
        r == commit_row(selected, commits),
{
    match selected {
        Some(i) => if i > 0 && i - 1 < commits { Some(i - 1) } else { None },
        None => None,
    }
}

/// `a` and `b` undo each other: moving the selection down and up, or
/// scrolling by the same amount one way and the other.
pub open spec fn opposite_moves(a: Action, b: Action) -> bool {
    ||| a == Action::SelectNext && b == Action::SelectPrev
    ||| a == Action::ScrollDown(1) && b == Action::ScrollUp(1)
    ||| (exists|n: u16| a == Action::ScrollDown(n) && b == Action::ScrollUp(n))
    ||| (exists|n: u16| a == Action::ScrollRight(n) && b == Action::ScrollLeft(n))
}

/// In every mode, on either panel, `k` and Up undo what `j` and Down do:
/// `j` and Down move the file selection down (left panel) or scroll the diff
/// down a row (right panel), `k` and Up the other way; the letter and the
/// arrow keys do the same. `J`/`K` and `L`/`H` scroll one way and back
/// wherever they act.
pub proof fn lemma_up_undoes_down(p: Panel, tab: Tab, sel: Option<usize>)
    ensures
        commit_detail_key(p, Key::Char('j')) == commit_detail_key(p, Key::Down),
        commit_detail_key(p, Key::Char('k')) == commit_detail_key(p, Key::Up),
        opposite_moves(commit_detail_key(p, Key::Down), commit_detail_key(p, Key::Up)),
        p == Panel::Left ==> commit_detail_key(p, Key::Down) == Action::SelectNext,
        p == Panel::Right ==> commit_detail_key(p, Key::Down) == Action::ScrollDown(1),
        uncommitted_detail_key(p, Key::Char('j')) == uncommitted_detail_key(p, Key::Down),
        uncommitted_detail_key(p, Key::Char('k')) == uncommitted_detail_key(p, Key::Up),
        opposite_moves(uncommitted_detail_key(p, Key::Down), uncommitted_detail_key(p, Key::Up)),
        p == Panel::Right ==> uncommitted_detail_key(p, Key::Down) == Action::ScrollDown(1),
        opposite_moves(commit_detail_key(p, Key::Char('J')), commit_detail_key(p, Key::Char('K'))),
        opposite_moves(commit_detail_key(p, Key::Char('L')), commit_detail_key(p, Key::Char('H'))),
        normal_key(tab, p, sel, Key::Char('j')) == normal_key(tab, p, sel, Key::Down),
        normal_key(tab, p, sel, Key::Char('k')) == normal_key(tab, p, sel, Key::Up),
        opposite_moves(normal_key(tab, p, sel, Key::Down), normal_key(tab, p, sel, Key::Up)),
        p == Panel::Right ==> opposite_moves(normal_key(tab, p, sel, Key::Char('J')), normal_key(tab, p, sel, Key::Char('K'))),
        p == Panel::Right ==> opposite_moves(normal_key(tab, p, sel, Key::Char('L')), normal_key(tab, p, sel, Key::Char('H'))),
{
    assert(diff_key('J') == Some(Action::ScrollDown(1)));
    assert(diff_key('K') == Some(Action::ScrollUp(1)));
    assert(diff_key('L') == Some(Action::ScrollRight(4)));
    assert(diff_key('H') == Some(Action::ScrollLeft(4)));
    assert(diff_key('j') is None);
    assert(diff_key('k') is None);
    assert(opposite_moves(Action::ScrollRight(4), Action::ScrollLeft(4))) by {
        assert(Action::ScrollRight(4u16) == Action::ScrollRight(4) && Action::ScrollLeft(4u16) == Action::ScrollLeft(4));
    }
}

} // verus!
