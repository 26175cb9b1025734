//! The decisions of the two selection screens: the search list filtered as
//! the user types, and the multi-select episode list. Drawing and reading
//! keys happen around them.
use vstd::prelude::*;
use crate::api::{shows_view, ShowInfo, ShowResult};
use crate::text::{contains, contains_exec, chars_of};
use crate::titles::{strings_view, to_lowercase, unicode_lowercase};
use crate::minter::trunc_div;

verus! {

/// A key press, as far as the screens tell keys apart.
#[derive(Clone, Copy, PartialEq, Eq, Structural, Debug)]
pub enum Key {
    Esc,
    Enter,
    Up,
    Down,
    Backspace,
    Char(char),
    Other,
}

/// The cursor moved by `delta` over a list of `len` items, wrapping around;
/// no cursor on an empty list.
pub open spec fn move_sel_spec(selected: Option<usize>, len: usize, delta: i32) -> Option<usize> {
    if len == 0 {
        None
    } else {
        let cur: int = match selected {
            Some(s) => s as int,
            None => 0,
        };
        Some(((cur + delta) % (len as int)) as usize)
    }
}

/// The cursor position a selection stands for (the first item when none).
pub open spec fn cursor_of(selected: Option<usize>) -> int {
    match selected {
        Some(s) => s as int,
        None => 0,
    }
}

/// Moves the cursor by `delta`, wrapping around the list.
pub fn move_sel(selected: Option<usize>, len: usize, delta: i32) -> (r: Option<usize>)
    requires
        len <= i32::MAX,
        cursor_of(selected) <= i32::MAX,
        i32::MIN <= cursor_of(selected) + delta <= i32::MAX,
    ensures
        r == move_sel_spec(selected, len, delta),
{
    if len == 0 {
        return None;
    }
    let cur: i64 = match selected {
        Some(s) => s as i64,
        None => 0,
    };
    let sum: i64 = cur + delta as i64;
    let n: i64 = len as i64;
    let next: i64 = if sum >= 0 {
        sum % n
    } else {
        let r = (-sum) % n;
        proof {
            let ns: int = -(sum as int);
            let q: int = ns / (n as int);
            assert(r as int == ns % (n as int));
            assert(ns == q * (n as int) + (r as int)) by (nonlinear_arith)
                requires
                    q == ns / (n as int),
                    r as int == ns % (n as int),
                    n > 0,
            ;
            if r == 0 {
                assert(sum as int == (-q) * (n as int) + 0) by (nonlinear_arith)
                    requires
                        ns == q * (n as int) + (r as int),
                        r == 0,
                        ns == -(sum as int),
                ;
                vstd::arithmetic::div_mod::lemma_fundamental_div_mod_converse(
                    sum as int,
                    n as int,
                    -q,
                    0,
                );
            } else {
                assert(sum as int == (-q - 1) * (n as int) + (n - r)) by (nonlinear_arith)
                    requires
                        ns == q * (n as int) + (r as int),
                        ns == -(sum as int),
                ;
                vstd::arithmetic::div_mod::lemma_fundamental_div_mod_converse(
                    sum as int,
                    n as int,
                    -q - 1,
                    n - r,
                );
            }
        }
        if r == 0 {
            0
        } else {
            n - r
        }
    };
    assert(next as int == (cursor_of(selected) + delta) % (len as int));
    Some(next as usize)
}

// ---------------------------------------------------------------------------
// Search screen
// ---------------------------------------------------------------------------

/// A show is listed when the filter is empty or its lowercased name contains
/// the lowercased filter.
pub open spec fn show_listed(name: Seq<char>, input: Seq<char>) -> bool {
    input.len() == 0 || contains(unicode_lowercase(name), unicode_lowercase(input))
}

/// The positions of the listed shows among the first `n`, in order.
pub open spec fn listed(shows: Seq<ShowInfo>, input: Seq<char>, n: int) -> Seq<usize>
    decreases n,
{
    if n <= 0 {
        Seq::empty()
    } else if show_listed(shows[n - 1].name, input) {
        listed(shows, input, n - 1).push((n - 1) as usize)
    } else {
        listed(shows, input, n - 1)
    }
}

/// What the search screen does after a key.
pub enum SearchOutcome {
    Continue,
    Cancel,
    /// The position of the chosen show.
    Chosen(usize),
}

/// The search screen: the filter typed so far and the highlighted row.
pub struct SearchScreen {
    pub input: Vec<char>,
    pub selected: Option<usize>,
}

impl SearchScreen {
    /// An empty filter with the first row highlighted.
    pub fn new() -> (r: SearchScreen)
        ensures
            r.input@.len() == 0,
            r.selected == Some(0usize),
    {
        SearchScreen { input: Vec::new(), selected: Some(0) }
    }

    /// The filter as text.
    pub fn input_text(&self) -> (r: String)
        ensures
            r@ == self.input@,
    {
        crate::text::string_of(&self.input)
    }

    /// The positions of the shows the filter lets through, in order.
    pub fn visible(&self, shows: &[ShowResult]) -> (r: Vec<usize>)
        ensures
            r@ == listed(shows_view(shows@), self.input@, shows@.len() as int),
    {
        let ghost sv = shows_view(shows@);
        let text = crate::text::string_of(&self.input);
        let needle = chars_of(to_lowercase(text.as_str()).as_str());
        let mut out: Vec<usize> = Vec::new();
        let mut i: usize = 0;
        while i < shows.len()
            invariant
                i <= shows@.len(),
                sv == shows_view(shows@),
                text@ == self.input@,
                needle@ == unicode_lowercase(self.input@),
                out@ == listed(sv, self.input@, i as int),
            decreases shows.len() - i,
        {
            assert(sv[i as int] == shows@[i as int]@);
            let keep = if self.input.len() == 0 {
                true
            } else {
                let hay = chars_of(to_lowercase(shows[i].name.as_str()).as_str());
                contains_exec(&hay, &needle)
            };
            if keep {
                out.push(i);
            }
            i = i + 1;
        }
        out
    }

    /// Keeps the highlighted row within a list of `len` rows: past the end
    /// it moves to the last row, or to none when the list is empty.
    pub fn clamp(&mut self, len: usize)
        ensures
            final(self).input@ == old(self).input@,
            final(self).selected == (match old(self).selected {
                Some(s) => if s >= len {
                    if len == 0 {
                        None
                    } else {
                        Some((len - 1) as usize)
                    }
                } else {
                    Some(s)
                },
                None => None,
            }),
    {
        if let Some(s) = self.selected {
            if s >= len {
                self.selected = if len == 0 {
                    None
                } else {
                    Some(len - 1)
                };
            }
        }
    }

    /// Handles a key over the visible rows: Esc cancels, Enter chooses the
    /// highlighted show, arrows move, typing and Backspace edit the filter and
    /// go back to the first row.
    pub fn on_key(&mut self, key: Key, visible: &Vec<usize>) -> (r: SearchOutcome)
        requires
            visible@.len() <= i32::MAX,
            cursor_of(old(self).selected) < i32::MAX,
        ensures
            match key {
                Key::Esc => r is Cancel && *final(self) == *old(self),
                Key::Enter => (match old(self).selected {
                    Some(s) => if s < visible@.len() {
                        r == SearchOutcome::Chosen(visible@[s as int])
                    } else {
                        r is Continue
                    },
                    None => r is Continue,
                }) && *final(self) == *old(self),
                Key::Down => r is Continue && final(self).input == old(self).input
                    && final(self).selected == move_sel_spec(
                    old(self).selected,
                    visible@.len() as usize,
                    1,
                ),
                Key::Up => r is Continue && final(self).input == old(self).input
                    && final(self).selected == move_sel_spec(
                    old(self).selected,
                    visible@.len() as usize,
                    -1i32,
                ),
                Key::Backspace => r is Continue && final(self).input@ == (if old(self).input@.len()
                    > 0 {
                    old(self).input@.drop_last()
                } else {
                    old(self).input@
                }) && final(self).selected == Some(0usize),
                Key::Char(c) => r is Continue && final(self).input@ == old(self).input@.push(c)
                    && final(self).selected == Some(0usize),
                Key::Other => r is Continue && *final(self) == *old(self),
            },
    {
        match key {
            Key::Esc => SearchOutcome::Cancel,
            Key::Enter => {
                if let Some(sel) = self.selected {
                    if sel < visible.len() {
                        return SearchOutcome::Chosen(visible[sel]);
                    }
                }
                SearchOutcome::Continue
            },
            Key::Down => {
                self.selected = move_sel(self.selected, visible.len(), 1);
                SearchOutcome::Continue
            },
            Key::Up => {
                self.selected = move_sel(self.selected, visible.len(), -1);
                SearchOutcome::Continue
            },
            Key::Backspace => {
                self.input.pop();
                self.selected = Some(0);
                SearchOutcome::Continue
            },
            Key::Char(c) => {
                self.input.push(c);
                self.selected = Some(0);
                SearchOutcome::Continue
            },
            Key::Other => SearchOutcome::Continue,
        }
    }
}

// ---------------------------------------------------------------------------
// Episode screen
// ---------------------------------------------------------------------------

/// What the episode screen does after a key.
pub enum EpisodeOutcome {
    Continue,
    /// Quit without downloading anything.
    Cancel,
    /// The marked episodes, in list order.
    Confirm(Vec<String>),
}

/// The episode screen: which rows are marked and the highlighted row.
pub struct EpisodeScreen {
    pub marked: Vec<bool>,
    pub cursor: Option<usize>,
}

/// How many of the first `n` rows are marked.
pub open spec fn count_marked(marked: Seq<bool>, n: int) -> nat
    decreases n,
{
    if n <= 0 {
        0
    } else if marked[n - 1] {
        count_marked(marked, n - 1) + 1
    } else {
        count_marked(marked, n - 1)
    }
}

/// The episodes whose rows are marked, among the first `n`, in order.
pub open spec fn marked_episodes(eps: Seq<Seq<char>>, marked: Seq<bool>, n: int) -> Seq<Seq<char>>
    decreases n,
{
    if n <= 0 {
        Seq::empty()
    } else if marked[n - 1] {
        marked_episodes(eps, marked, n - 1).push(eps[n - 1])
    } else {
        marked_episodes(eps, marked, n - 1)
    }
}

impl EpisodeScreen {
    /// One mark per row, and the cursor on a row of a non-empty list.
    pub open spec fn wf(&self, len: nat) -> bool {
        &&& self.marked@.len() == len
        &&& len <= i32::MAX
        &&& match self.cursor {
            Some(c) => c < len,
            None => len == 0,
        }
    }

    /// Nothing marked, the cursor on the first row.
    pub fn new(len: usize) -> (r: EpisodeScreen)
        requires
            0 < len <= i32::MAX,
        ensures
            r.wf(len as nat),
            r.cursor == Some(0usize),
            forall|i: int| 0 <= i < len ==> !r.marked@[i],
    {
        let mut marked: Vec<bool> = Vec::new();
        let mut i: usize = 0;
        while i < len
            invariant
                i <= len,
                marked@.len() == i,
                forall|j: int| 0 <= j < i ==> !marked@[j],
            decreases len - i,
        {
            marked.push(false);
            i = i + 1;
        }
        EpisodeScreen { marked, cursor: Some(0) }
    }

    /// How many rows are marked.
    pub fn marked_count(&self) -> (n: usize)
        ensures
            n == count_marked(self.marked@, self.marked@.len() as int),
    {
        let mut n: usize = 0;
        let mut i: usize = 0;
        while i < self.marked.len()
            invariant
                i <= self.marked@.len(),
                n == count_marked(self.marked@, i as int),
                n <= i,
            decreases self.marked.len() - i,
        {
            if self.marked[i] {
                n = n + 1;
            }
            i = i + 1;
        }
        n
    }

    /// The marked episodes, in list order.
    pub fn confirmed(&self, episodes: &[String]) -> (r: Vec<String>)
        requires
            self.marked@.len() == episodes@.len(),
        ensures
            strings_view(r@) == marked_episodes(
                strings_view(episodes@),
                self.marked@,
                episodes@.len() as int,
            ),
    {
        let n = episodes.len();
        let mut chosen: Vec<String> = Vec::new();
        let mut i: usize = 0;
        while i < n
            invariant
                i <= n,
                n == episodes@.len(),
                self.marked@.len() == n,
                strings_view(chosen@) == marked_episodes(
                    strings_view(episodes@),
                    self.marked@,
                    i as int,
                ),
            decreases n - i,
        {
            if self.marked[i] {
                let ghost before = strings_view(chosen@);
                chosen.push(episodes[i].clone());
                assert(strings_view(chosen@) =~= before.push(episodes@[i as int]@));
            }
            i = i + 1;
        }
        chosen
    }

    /// Flips the mark of the highlighted row.
    pub fn toggle(&mut self)
        requires
            old(self).cursor matches Some(i) ==> i < old(self).marked@.len(),
        ensures
            final(self).cursor == old(self).cursor,
            final(self).marked@ == (match old(self).cursor {
                Some(i) => old(self).marked@.update(i as int, !old(self).marked@[i as int]),
                None => old(self).marked@,
            }),
    {
        if let Some(i) = self.cursor {
            let v = !self.marked[i];
            self.marked.set(i, v);
        }
    }

    /// Marks every row, or clears them all when all are marked.
    pub fn toggle_all(&mut self)
        ensures
            final(self).cursor == old(self).cursor,
            final(self).marked@ == Seq::new(
                old(self).marked@.len(),
                |i: int| !(forall|j: int| 0 <= j < old(self).marked@.len() ==> old(self).marked@[j]),
            ),
    {
        let n = self.marked.len();
        let mut all = true;
        let mut i: usize = 0;
        while i < n
            invariant
                i <= n,
                n == self.marked@.len(),
                self.cursor == old(self).cursor,
                self.marked@ == old(self).marked@,
                all == (forall|j: int| 0 <= j < i ==> self.marked@[j]),
            decreases n - i,
        {
            if !self.marked[i] {
                all = false;
            }
            i = i + 1;
        }
        let ghost orig = self.marked@;
        let mut k: usize = 0;
        while k < n
            invariant
                k <= n,
                n == self.marked@.len(),
                self.cursor == old(self).cursor,
                n == orig.len(),
                all == (forall|j: int| 0 <= j < n ==> orig[j]),
                forall|j: int| 0 <= j < k ==> self.marked@[j] == !all,
            decreases n - k,
        {
            self.marked.set(k, !all);
            k = k + 1;
        }
        assert(self.marked@ =~= Seq::new(n as nat, |i: int| !all));
    }

    /// Handles a key: Esc or `q` quits, Enter confirms the marked episodes,
    /// Space toggles the highlighted row, `a` marks all rows unless all are
    /// marked (then clears them), arrows or `j`/`k` move.
    pub fn on_key(&mut self, key: Key, episodes: &[String]) -> (r: EpisodeOutcome)
        requires
            old(self).wf(episodes@.len()),
        ensures
            final(self).wf(episodes@.len()),
            match key {
                Key::Esc | Key::Char('q') => r is Cancel && *final(self) == *old(self),
                Key::Enter => (r matches EpisodeOutcome::Confirm(v) && strings_view(v@)
                    == marked_episodes(
                    strings_view(episodes@),
                    old(self).marked@,
                    episodes@.len() as int,
                )) && *final(self) == *old(self),
                Key::Char(' ') => r is Continue && final(self).cursor == old(self).cursor
                    && final(self).marked@ == (match old(self).cursor {
                    Some(i) => old(self).marked@.update(i as int, !old(self).marked@[i as int]),
                    None => old(self).marked@,
                }),
                Key::Char('a') => r is Continue && final(self).cursor == old(self).cursor
                    && final(self).marked@ == Seq::new(
                    episodes@.len(),
                    |i: int| !(forall|j: int| 0 <= j < episodes@.len() ==> old(self).marked@[j]),
                ),
                Key::Down | Key::Char('j') => r is Continue && final(self).marked
                    == old(self).marked && final(self).cursor == move_sel_spec(
                    old(self).cursor,
                    episodes@.len() as usize,
                    1,
                ),
                Key::Up | Key::Char('k') => r is Continue && final(self).marked
                    == old(self).marked && final(self).cursor == move_sel_spec(
                    old(self).cursor,
                    episodes@.len() as usize,
                    -1i32,
                ),
                _ => r is Continue && *final(self) == *old(self),
            },
    {
        let n = episodes.len();
        match key {
            Key::Esc => EpisodeOutcome::Cancel,
            Key::Enter => EpisodeOutcome::Confirm(self.confirmed(episodes)),
            Key::Char('q') => EpisodeOutcome::Cancel,
            Key::Char(' ') => {
                self.toggle();
                EpisodeOutcome::Continue
            },
            Key::Char('a') => {
                self.toggle_all();
                EpisodeOutcome::Continue
            },
            Key::Down | Key::Char('j') => {
                self.cursor = move_sel(self.cursor, n, 1);
                EpisodeOutcome::Continue
            },
            Key::Up | Key::Char('k') => {
                self.cursor = move_sel(self.cursor, n, -1);
                EpisodeOutcome::Continue
            },
            _ => EpisodeOutcome::Continue,
        }
    }
}

} // verus!
