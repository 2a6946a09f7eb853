//! The daemon's terminal panel: which registered program is selected, what a
//! key asks the daemon for, and how many runs each program has. The caller
//! reads keys, sends the requests and draws the screen.
use crate::text::strings_view;
use vstd::prelude::*;

verus! {

/// The keys the panel knows.
#[derive(Clone, Copy, Debug, PartialEq, Eq, Structural)]
pub enum DaemonKey {
    Quit,
    Down,
    Up,
    Enter,
    Stop,
    Refresh,
    Other,
}

/// What a key asks for.
#[derive(Clone, Debug)]
pub enum DaemonAction {
    Quit,
    Run(String),
    Stop(String),
    Refresh,
    Nothing,
}

/// The selection in the list of registered programs.
pub struct DaemonPanel {
    pub selected: usize,
}

/// The selection after `Down` in a list of `len` programs.
pub open spec fn selected_after_down(selected: usize, len: nat) -> usize {
    if len == 0 {
        selected
    } else if selected + 1 <= len - 1 {
        (selected + 1) as usize
    } else {
        (len - 1) as usize
    }
}

/// The selection after the list was fetched again with `len` programs.
pub open spec fn selected_after_refresh(selected: usize, len: usize) -> usize {
    if selected >= len && len > 0 {
        (len - 1) as usize
    } else {
        selected
    }
}

impl DaemonPanel {
    /// The first program selected.
    pub fn new() -> (p: DaemonPanel)
        ensures
            p.selected == 0,
    {
        DaemonPanel { selected: 0 }
    }

    /// Keeps the selection inside a list of `len` programs, if there is one.
    pub fn after_refresh(&mut self, len: usize)
        ensures
            final(self).selected == selected_after_refresh(old(self).selected, len),
    {
        if self.selected >= len && len > 0 {
            self.selected = len - 1;
        }
    }

    /// Moves the selection or names the request that `key` asks for, over
    /// the programs `names`, in the order shown.
    pub fn on_key(&mut self, key: DaemonKey, names: &Vec<String>) -> (a: DaemonAction)
        ensures
            final(self).selected == match key {
                DaemonKey::Down => selected_after_down(old(self).selected, names@.len()),
                DaemonKey::Up => if old(self).selected == 0 {
                    0
                } else {
                    (old(self).selected - 1) as usize
                },
                _ => old(self).selected,
            },
            match key {
                DaemonKey::Quit => a is Quit,
                DaemonKey::Refresh => a is Refresh,
                DaemonKey::Enter => if old(self).selected < names@.len() {
                    a matches DaemonAction::Run(n) && n@ == names@[old(self).selected as int]@
                } else {
                    a is Nothing
                },
                DaemonKey::Stop => if old(self).selected < names@.len() {
                    a matches DaemonAction::Stop(n) && n@ == names@[old(self).selected as int]@
                } else {
                    a is Nothing
                },
                _ => a is Nothing,
            },
    {
        match key {
            DaemonKey::Quit => DaemonAction::Quit,
            DaemonKey::Down => {
                let len = names.len();
                if len > 0 {
                    if self.selected < len - 1 {
                        self.selected = self.selected + 1;
                    } else {
                        self.selected = len - 1;
                    }
                }
                DaemonAction::Nothing
            },
            DaemonKey::Up => {
                if self.selected > 0 {
                    self.selected = self.selected - 1;
                }
                DaemonAction::Nothing
            },
            DaemonKey::Enter => {
                if self.selected < names.len() {
                    DaemonAction::Run(names[self.selected].clone())
                } else {
                    DaemonAction::Nothing
                }
            },
            DaemonKey::Stop => {
                if self.selected < names.len() {
                    DaemonAction::Stop(names[self.selected].clone())
                } else {
                    DaemonAction::Nothing
                }
            },
            DaemonKey::Refresh => DaemonAction::Refresh,
            DaemonKey::Other => DaemonAction::Nothing,
        }
    }
}

/// How many times `x` occurs in `s`.
pub open spec fn occurrences(s: Seq<Seq<char>>, x: Seq<char>) -> nat
    decreases s.len(),
{
    if s.len() == 0 {
        0
    } else {
        occurrences(s.drop_last(), x) + if s.last() == x {
            1nat
        } else {
            0nat
        }
    }
}

proof fn lemma_occurrences_bounded(s: Seq<Seq<char>>, x: Seq<char>)
    ensures
        occurrences(s, x) <= s.len(),
    decreases s.len(),
{
    if s.len() > 0 {
        lemma_occurrences_bounded(s.drop_last(), x);
    }
}

/// How many runs each program has: for each of `programs`, the number of
/// entries of `running` (the names of the runs) equal to it.
pub fn run_counts(programs: &Vec<String>, running: &Vec<String>) -> (counts: Vec<usize>)
    ensures
        counts@.len() == programs@.len(),
        forall|i: int| 0 <= i < programs@.len() ==> #[trigger] counts@[i] == occurrences(strings_view(running@), programs@[i]@),
{
    let ghost rs = strings_view(running@);
    let mut counts: Vec<usize> = Vec::new();
    let mut i: usize = 0;
    while i < programs.len()
        invariant
            i <= programs@.len(),
            rs == strings_view(running@),
            counts@.len() == i,
            forall|q: int| 0 <= q < i ==> #[trigger] counts@[q] == occurrences(rs, programs@[q]@),
        decreases programs@.len() - i,
    {
        let ghost x = programs@[i as int]@;
        let mut c: usize = 0;
        let mut k: usize = 0;
        while k < running.len()
            invariant
                i < programs@.len(),
                k <= running@.len(),
                rs == strings_view(running@),
                x == programs@[i as int]@,
                c == occurrences(rs.subrange(0, k as int), x),
            decreases running@.len() - k,
        {
            proof {
                assert(rs.subrange(0, k + 1).drop_last() =~= rs.subrange(0, k as int));
                lemma_occurrences_bounded(rs.subrange(0, k as int), x);
            }
            if crate::json::str_eq(running[k].as_str(), programs[i].as_str()) {
                c = c + 1;
            }
            k = k + 1;
        }
        proof {
            assert(rs.subrange(0, running@.len() as int) =~= rs);
        }
        counts.push(c);
        i = i + 1;
    }
    counts
}

} // verus!
