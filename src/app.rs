use crate::callback::Callback;
use crate::cli::{CaseSensitivity, CliArgs};
use crate::item::{clone_positions, output_of, ranks_above, Item, ItemData, ItemView};
use crate::matcher::{fuzzy_indices, fuzzy_match_of};
use vstd::prelude::*;

verus! {

/// The runtime state of the menu: the corpus, the query, the visible subset,
/// the selection and the keyboard cursor.
pub struct IcedMenu {
    pub cli_args: CliArgs,
    pub items: Vec<Item>,
    pub visible_items: Vec<usize>,
    pub selected_items: Vec<usize>,
    pub query: String,
    pub cursor_position: usize,
    pub callback: Option<Callback>,
}

/// Whether `v` holds `x`.
pub fn contains_index(v: &Vec<usize>, x: usize) -> (r: bool)
    ensures
        r == v@.contains(x),
{
    let mut i: usize = 0;
    while i < v.len()
        invariant
            i <= v.len(),
            forall|k: int| 0 <= k < i ==> v@[k] != x,
        decreases v.len() - i,
    {
        if v[i] == x {
            assert(v@[i as int] == x);
            return true;
        }
        i = i + 1;
    }
    false
}

/// Entry `i` may be shown for `query`: it is not selected and either the
/// query is empty or it matched.
pub open spec fn candidate(items: Seq<Item>, selected: Seq<usize>, query: Seq<char>, i: int) -> bool {
    &&& 0 <= i < items.len()
    &&& !selected.contains(i as usize)
    &&& (query.len() == 0 || items[i].score is Some)
}

/// Entry `i` ranks strictly above entry `j`.
pub open spec fn above_in(items: Seq<Item>, i: int, j: int) -> bool {
    ranks_above(items[i].score, i, items[j].score, j)
}

/// `top` lists the best-ranked candidates, best first, as many as `cap`
/// allows: each is a candidate, each ranks above the next and above every
/// candidate left out, and none is left out while there is room.
pub open spec fn top_ranked(items: Seq<Item>, selected: Seq<usize>, query: Seq<char>, top: Seq<usize>, cap: nat) -> bool {
    &&& top.len() <= cap
    &&& forall|k: int| 0 <= k < top.len() ==> candidate(items, selected, query, #[trigger] top[k] as int)
    &&& forall|k1: int, k2: int| 0 <= k1 < k2 < top.len() ==> above_in(items, top[k1] as int, top[k2] as int)
    &&& forall|c: int, k: int|
        #![trigger top[k], candidate(items, selected, query, c)]
        0 <= k < top.len() && candidate(items, selected, query, c) && !top.contains(c as usize) ==> above_in(
            items,
            top[k] as int,
            c,
        )
    &&& top.len() < cap ==> forall|c: int| #[trigger] candidate(items, selected, query, c) ==> top.contains(c as usize)
}

/// The score an entry gets for `query`: none for an empty query or a selected
/// entry, else the fuzzy match's score, if it matches.
pub open spec fn score_for(case: CaseSensitivity, query: Seq<char>, key: Seq<char>, selected: bool) -> Option<i64> {
    if query.len() == 0 || selected {
        None
    } else {
        match fuzzy_match_of(case, key, query) {
            Some((s, _)) => Some(s),
            None => None,
        }
    }
}

/// The matched positions an entry gets for `query`, under the same rule as
/// its score.
pub open spec fn positions_for(case: CaseSensitivity, query: Seq<char>, key: Seq<char>, selected: bool) -> Option<Seq<usize>> {
    if query.len() == 0 || selected {
        None
    } else {
        match fuzzy_match_of(case, key, query) {
            Some((_, p)) => Some(p),
            None => None,
        }
    }
}

/// The entries with the same contents but a new score and new match
/// positions.
pub open spec fn rescored(old_items: Seq<Item>, new_items: Seq<Item>, case: CaseSensitivity, query: Seq<char>) -> bool {
    &&& new_items.len() == old_items.len()
    &&& forall|i: int|
        0 <= i < old_items.len() ==> #[trigger] new_items[i]@ == (ItemView {
            score: score_for(case, query, old_items[i].data.key@, old_items[i].selected),
            match_indices: positions_for(case, query, old_items[i].data.key@, old_items[i].selected),
            ..old_items[i]@
        })
}

/// `new` is `old` after `change` is applied to entry `index`: the entry's
/// flag and the selection change as the change says, and nothing else does.
pub open spec fn selection_changed(old: IcedMenu, new: IcedMenu, index: usize, change: SelectionChange) -> bool {
    &&& new.visible_items == old.visible_items
    &&& new.cursor_position == old.cursor_position
    &&& new.cli_args == old.cli_args
    &&& new.query == old.query
    &&& new.callback == old.callback
    &&& new.items@.len() == old.items@.len()
    &&& forall|j: int|
                0 <= j < old.items@.len() && j != index ==> #[trigger] new.items@[j] == old.items@[j]
    &&& new.items@[index as int]@ == (ItemView {
                selected: new.items@[index as int].selected,
                ..old.items@[index as int]@
            })
    &&& ({
                let was = old.items@[index as int].selected;
                let effective = if change == SelectionChange::Toggle {
                    if was { SelectionChange::Deselect } else { SelectionChange::Select }
                } else {
                    change
                };
                if effective == SelectionChange::Select {
                    if !was && old.selected_items@.len() < old.cli_args.max {
                        &&& new.selected_items@ == old.selected_items@.push(index)
                        &&& new.items@[index as int].selected
                    } else {
                        new.items == old.items && new.selected_items == old.selected_items
                    }
                } else {
                    if was {
                        &&& new.selected_items@.len() + 1 == old.selected_items@.len()
                        &&& forall|x: usize| #[trigger] new.selected_items@.contains(x) <==> (old.selected_items@.contains(x) && x != index)
                        &&& !new.items@[index as int].selected
                    } else {
                        new.items == old.items && new.selected_items == old.selected_items
                    }
                }
            })
}

/// `new` is `old` after the callback answered with `new_items`: entries whose
/// key is selected are dropped from the answer; as many of the rest as there
/// is room for beside the selection come first, fresh and renumbered; the
/// selected entries follow, still selected and renumbered; everything is
/// visible; the cursor goes back to the top when the count changed.
pub open spec fn refreshed(old: IcedMenu, new: IcedMenu, new_items: Seq<Item>) -> bool {
    let nsel = old.selected_items@.len();
    let fresh = take_up_to(fresh_entries(new_items, old.selected_keys()), old.candidate_cap());
    &&& new.cli_args == old.cli_args
    &&& new.query == old.query
    &&& new.callback == old.callback
    &&& new.items@.len() == fresh.len() + nsel
    &&& forall|j: int| 0 <= j < fresh.len() ==> #[trigger] new.items@[j] == Item::spec_new(j as usize, fresh[j])
    &&& forall|k: int|
        #![trigger old.selected_items@[k]]
        0 <= k < nsel ==> new.items@[fresh.len() + k]@ == (ItemView {
            index: (fresh.len() + k) as usize,
            ..old.items@[old.selected_items@[k] as int]@
        })
    &&& new.selected_items@ == Seq::new(nsel, |k: int| (fresh.len() + k) as usize)
    &&& new.visible_items@ == Seq::new(new.items@.len(), |i: int| i as usize)
    &&& new.cursor_position == (if new.visible_items@.len() == old.visible_items@.len() {
        old.cursor_position
    } else {
        0
    })
}

/// Nothing about the menu's state changed.
pub open spec fn unchanged(old: IcedMenu, new: IcedMenu) -> bool {
    &&& new.items == old.items
    &&& new.visible_items == old.visible_items
    &&& new.selected_items == old.selected_items
    &&& new.query == old.query
    &&& new.cursor_position == old.cursor_position
}

/// Where the cursor goes from `pos` in a visible list of `len` entries.
pub open spec fn cursor_after(pos: int, len: int, direction: CursorMoveDirection) -> int {
    match direction {
        CursorMoveDirection::Up => if pos == 0 { len - 1 } else { pos - 1 },
        CursorMoveDirection::Down => if pos == len - 1 { 0 } else { pos + 1 },
        CursorMoveDirection::Reset => 0,
    }
}

/// Lines joined by newlines, with none after the last.
pub open spec fn join_lines(lines: Seq<Seq<char>>) -> Seq<char>
    decreases lines.len(),
{
    if lines.len() == 0 {
        Seq::empty()
    } else if lines.len() == 1 {
        lines[0]
    } else {
        join_lines(lines.drop_last()) + seq!['\n'] + lines.last()
    }
}

/// The outputs of the selected entries, in corpus order.
pub open spec fn selected_outputs(items: Seq<Item>) -> Seq<Seq<char>>
    decreases items.len(),
{
    if items.len() == 0 {
        Seq::empty()
    } else if items.last().selected {
        selected_outputs(items.drop_last()).push(output_of(items.last()@))
    } else {
        selected_outputs(items.drop_last())
    }
}

impl IcedMenu {
    /// Entries sit at their own index; the selection is a duplicate-free list of
    /// flagged entries within its bound; visible entries and the cursor point
    /// into range.
    pub open spec fn wf(&self) -> bool {
        &&& forall|i: int| 0 <= i < self.items@.len() ==> (#[trigger] self.items@[i]).index == i
        &&& self.selected_items@.len() <= self.cli_args.max
        &&& forall|k: int|
            0 <= k < self.selected_items@.len() ==> #[trigger] self.selected_items@[k] < self.items@.len()
        &&& forall|k1: int, k2: int|
            0 <= k1 < k2 < self.selected_items@.len() ==> self.selected_items@[k1] != self.selected_items@[k2]
        &&& forall|i: int|
            0 <= i < self.items@.len() ==> ((#[trigger] self.items@[i]).selected <==> self.selected_items@.contains(i as usize))
        &&& forall|k: int|
            0 <= k < self.visible_items@.len() ==> #[trigger] self.visible_items@[k] < self.items@.len()
        &&& self.cursor_position == 0 || self.cursor_position < self.visible_items@.len()
    }

    /// `top` lists the best-ranked candidates, best first, as many as `cap`
    /// allows.
    pub open spec fn is_top_ranked(&self, top: Seq<usize>, cap: nat) -> bool {
        top_ranked(self.items@, self.selected_items@, self.query@, top, cap)
    }

    /// How many non-selected entries may be shown beside the selected ones.
    pub open spec fn candidate_cap(&self) -> nat {
        if self.selected_items@.len() <= self.cli_args.max_visible {
            (self.cli_args.max_visible - self.selected_items@.len()) as nat
        } else {
            0
        }
    }

    fn is_candidate_exec(&self, i: usize) -> (r: bool)
        requires
            i < self.items@.len(),
        ensures
            r == candidate(self.items@, self.selected_items@, self.query@, i as int),
    {
        !contains_index(&self.selected_items, i) && (self.query.as_str().is_empty() || self.items[i].score.is_some())
    }

    /// The best-ranked candidate that `top` does not hold yet, if any.
    fn best_remaining(&self, top: &Vec<usize>) -> (r: Option<usize>)
        requires
            self.wf(),
        ensures
            match r {
                Some(b) => {
                    &&& candidate(self.items@, self.selected_items@, self.query@, b as int)
                    &&& !top@.contains(b)
                    &&& forall|c: int|
                        #![trigger candidate(self.items@, self.selected_items@, self.query@, c)]
                        candidate(self.items@, self.selected_items@, self.query@, c) && !top@.contains(c as usize) && c != b ==> above_in(self.items@, b as int, c)
                },
                None => forall|c: int| #[trigger] candidate(self.items@, self.selected_items@, self.query@, c) ==> top@.contains(c as usize),
            },
    {
        let n = self.items.len();
        let mut best: Option<usize> = None;
        let mut i: usize = 0;
        while i < n
            invariant
                self.wf(),
                n == self.items@.len(),
                i <= n,
                match best {
                    Some(b) => {
                        &&& b < i
                        &&& candidate(self.items@, self.selected_items@, self.query@, b as int)
                        &&& !top@.contains(b)
                        &&& forall|c: int|
                            #![trigger candidate(self.items@, self.selected_items@, self.query@, c)]
                            0 <= c < i && candidate(self.items@, self.selected_items@, self.query@, c) && !top@.contains(c as usize) && c != b ==> above_in(self.items@, 
                                b as int,
                                c,
                            )
                    },
                    None => forall|c: int|
                        #![trigger candidate(self.items@, self.selected_items@, self.query@, c)]
                        0 <= c < i && candidate(self.items@, self.selected_items@, self.query@, c) ==> top@.contains(c as usize),
                },
            decreases n - i,
        {
            if self.is_candidate_exec(i) && !contains_index(top, i) {
                match best {
                    None => {
                        best = Some(i);
                    },
                    Some(b) => {
                        if self.items[i].ranks_before(&self.items[b]) {
                            best = Some(i);
                        } else {
                            proof {
                                crate::item::lemma_ranks_above_total(
                                    self.items@[i as int].score,
                                    i as int,
                                    self.items@[b as int].score,
                                    b as int,
                                );
                            }
                        }
                    },
                }
            }
            i = i + 1;
        }
        best
    }

    /// Shows the best-ranked candidates, as many as there is room for beside
    /// the selected entries, followed by the selected entries in selection order.
    pub fn select_visible(&mut self)
        requires
            old(self).wf(),
        ensures
            final(self).wf(),
            final(self).items == old(self).items,
            final(self).selected_items == old(self).selected_items,
            final(self).cli_args == old(self).cli_args,
            final(self).query == old(self).query,
            final(self).callback == old(self).callback,
            final(self).visible_items@.len() >= old(self).selected_items@.len(),
            ({
                let v = final(self).visible_items@;
                let k = v.len() - old(self).selected_items@.len();
                &&& v.subrange(k, v.len() as int) == old(self).selected_items@
                &&& old(self).is_top_ranked(v.subrange(0, k), old(self).candidate_cap())
            }),
            final(self).cursor_position == (if final(self).visible_items@.len() == old(self).visible_items@.len() {
                old(self).cursor_position
            } else {
                0
            }),
    {
        let nsel = self.selected_items.len();
        let cap: usize = if nsel <= self.cli_args.max_visible {
            self.cli_args.max_visible - nsel
        } else {
            0
        };
        let mut top: Vec<usize> = Vec::new();
        while top.len() < cap
            invariant
                self == old(self),
                self.wf(),
                cap == self.candidate_cap(),
                top@.len() <= cap,
                forall|k: int| 0 <= k < top@.len() ==> candidate(self.items@, self.selected_items@, self.query@, #[trigger] top@[k] as int),
                forall|k1: int, k2: int| 0 <= k1 < k2 < top@.len() ==> above_in(self.items@, top@[k1] as int, top@[k2] as int),
                forall|c: int, k: int|
                    #![trigger top@[k], candidate(self.items@, self.selected_items@, self.query@, c)]
                    0 <= k < top@.len() && candidate(self.items@, self.selected_items@, self.query@, c) && !top@.contains(c as usize) ==> above_in(self.items@, 
                        top@[k] as int,
                        c,
                    ),
            ensures
                self == old(self),
                self.wf(),
                self.is_top_ranked(top@, cap as nat),
            decreases cap - top@.len(),
        {
            match self.best_remaining(&top) {
                None => {
                    assert(self.is_top_ranked(top@, cap as nat));
                    break;
                },
                Some(b) => {
                    let ghost old_top = top@;
                    top.push(b);
                    assert forall|c: int, k: int|
                        #![trigger top@[k], candidate(self.items@, self.selected_items@, self.query@, c)]
                        0 <= k < top@.len() && candidate(self.items@, self.selected_items@, self.query@, c) && !top@.contains(c as usize) implies above_in(self.items@, 
                            top@[k] as int,
                            c,
                        ) by {
                        assert(!old_top.contains(c as usize)) by {
                            if old_top.contains(c as usize) {
                                let w = choose|w: int| 0 <= w < old_top.len() && old_top[w] == c as usize;
                                assert(top@[w] == c as usize);
                            }
                        }
                        if k < old_top.len() {
                            assert(top@[k] == old_top[k]);
                        } else {
                            assert(c != b as int) by {
                                assert(top@[old_top.len() as int] == b);
                            }
                        }
                    }
                    assert forall|k1: int, k2: int| 0 <= k1 < k2 < top@.len() implies above_in(self.items@, 
                        top@[k1] as int,
                        top@[k2] as int,
                    ) by {
                        if k2 < old_top.len() {
                            assert(top@[k1] == old_top[k1]);
                            assert(top@[k2] == old_top[k2]);
                        } else {
                            assert(top@[k1] == old_top[k1]);
                            assert(top@[k2] == b);
                            assert(candidate(self.items@, self.selected_items@, self.query@, old_top[k1] as int));
                        }
                    }
                    assert forall|k: int| 0 <= k < top@.len() implies candidate(self.items@, self.selected_items@, self.query@, #[trigger] top@[k] as int) by {
                        if k < old_top.len() {
                            assert(top@[k] == old_top[k]);
                        }
                    }
                },
            }
        }
        assert(self.is_top_ranked(top@, cap as nat));
        let ghost top_view = top@;
        let mut visible = top;
        let mut j: usize = 0;
        while j < nsel
            invariant
                self == old(self),
                self.wf(),
                nsel == self.selected_items@.len(),
                j <= nsel,
                visible@ == top_view + self.selected_items@.subrange(0, j as int),
            decreases nsel - j,
        {
            visible.push(self.selected_items[j]);
            assert(self.selected_items@.subrange(0, j as int + 1) == self.selected_items@.subrange(0, j as int).push(
                self.selected_items@[j as int],
            ));
            j = j + 1;
        }
        assert(self.selected_items@.subrange(0, nsel as int) == self.selected_items@);
        assert(visible@.subrange(0, top_view.len() as int) == top_view);
        assert(visible@.subrange(top_view.len() as int, visible@.len() as int) == self.selected_items@);
        let prev = self.visible_items.len();
        self.visible_items = visible;
        if self.visible_items.len() != prev {
            self.cursor_position = 0;
        }
        assert forall|k: int| 0 <= k < self.visible_items@.len() implies #[trigger] self.visible_items@[k] < self.items@.len() by {
            if k < top_view.len() {
                assert(self.visible_items@[k] == top_view[k]);
                assert(candidate(old(self).items@, old(self).selected_items@, old(self).query@, top_view[k] as int));
            } else {
                assert(self.visible_items@[k] == self.selected_items@[k - top_view.len()]);
            }
        }
    }

    /// Rescores the corpus against the query and recomputes the visible list:
    /// the best-ranked candidates first, then the selected entries.
    pub fn update_items(&mut self)
        requires
            old(self).wf(),
        ensures
            final(self).wf(),
            rescored(old(self).items@, final(self).items@, old(self).cli_args.case, old(self).query@),
            final(self).selected_items == old(self).selected_items,
            final(self).cli_args == old(self).cli_args,
            final(self).query == old(self).query,
            final(self).callback == old(self).callback,
            final(self).visible_items@.len() >= old(self).selected_items@.len(),
            ({
                let v = final(self).visible_items@;
                let k = v.len() - old(self).selected_items@.len();
                &&& v.subrange(k, v.len() as int) == old(self).selected_items@
                &&& final(self).is_top_ranked(v.subrange(0, k), old(self).candidate_cap())
            }),
            old(self).selected_items@.len() <= old(self).cli_args.max_visible ==> final(self).visible_items@.len()
                <= old(self).cli_args.max_visible,
            final(self).cursor_position == (if final(self).visible_items@.len() == old(self).visible_items@.len() {
                old(self).cursor_position
            } else {
                0
            }),
    {
        self.score_items();
        self.select_visible();
    }

    /// Moves the cursor, wrapping around the ends of the visible list.
    pub fn move_cursor(&mut self, direction: CursorMoveDirection)
        requires
            old(self).wf(),
            direction == CursorMoveDirection::Reset || old(self).visible_items@.len() > 0,
        ensures
            final(self).wf(),
            final(self).cursor_position as int == cursor_after(
                old(self).cursor_position as int,
                old(self).visible_items@.len() as int,
                direction,
            ),
            final(self).items == old(self).items,
            final(self).visible_items == old(self).visible_items,
            final(self).selected_items == old(self).selected_items,
            final(self).cli_args == old(self).cli_args,
            final(self).query == old(self).query,
            final(self).callback == old(self).callback,
    {
        let num_items = self.visible_items.len();
        self.cursor_position = match direction {
            CursorMoveDirection::Up => {
                if self.cursor_position == 0 {
                    num_items - 1
                } else {
                    self.cursor_position - 1
                }
            },
            CursorMoveDirection::Down => {
                if self.cursor_position == num_items - 1 {
                    0
                } else {
                    self.cursor_position + 1
                }
            },
            CursorMoveDirection::Reset => 0,
        };
    }

    /// The corpus index of the entry under the cursor.
    pub fn index_under_cursor(&self) -> (r: usize)
        requires
            self.wf(),
            self.visible_items@.len() > 0,
        ensures
            r == self.visible_items@[self.cursor_position as int],
            r < self.items@.len(),
    {
        self.visible_items[self.cursor_position]
    }

    /// Selects, deselects or toggles entry `index`. Selecting does nothing once
    /// the selection is full or when the entry is already selected; deselecting
    /// an entry that is not selected does nothing.
    pub fn update_selection(&mut self, index: usize, change: SelectionChange)
        requires
            old(self).wf(),
            index < old(self).items@.len(),
        ensures
            final(self).wf(),
            selection_changed(*old(self), *final(self), index, change),
    {
        let was = self.items[index].selected;
        let effective = match change {
            SelectionChange::Toggle => SelectionChange::toggle_change(was),
            _ => change,
        };
        match effective {
            SelectionChange::Deselect => {
                if was {
                    let ghost old_sel = self.selected_items@;
                    let mut pos: usize = 0;
                    while pos < self.selected_items.len() && self.selected_items[pos] != index
                        invariant
                            self == old(self),
                            pos <= self.selected_items@.len(),
                            forall|q: int| 0 <= q < pos ==> self.selected_items@[q] != index,
                        decreases self.selected_items@.len() - pos,
                    {
                        pos = pos + 1;
                    }
                    assert(pos < self.selected_items@.len()) by {
                        assert(self.selected_items@.contains(index));
                        if pos == self.selected_items@.len() {
                            let q = choose|q: int| 0 <= q < self.selected_items@.len() && self.selected_items@[q] == index;
                        }
                    }
                    self.selected_items.swap_remove(pos);
                    self.items[index].selected = false;
                    proof {
                        let new_sel = self.selected_items@;
                        let last = old_sel.len() - 1;
                        assert forall|x: usize| #[trigger] new_sel.contains(x) <==> (old_sel.contains(x) && x != index) by {
                            if new_sel.contains(x) {
                                let q = choose|q: int| 0 <= q < new_sel.len() && new_sel[q] == x;
                                if q == pos as int {
                                    assert(old_sel[last] == x);
                                    assert(old_sel[pos as int] == index);
                                } else {
                                    assert(old_sel[q] == x);
                                    assert(old_sel[pos as int] == index);
                                }
                            }
                            if old_sel.contains(x) && x != index {
                                let q = choose|q: int| 0 <= q < old_sel.len() && old_sel[q] == x;
                                assert(q != pos as int);
                                if q == last {
                                    assert(new_sel[pos as int] == x);
                                } else {
                                    assert(new_sel[q] == x);
                                }
                            }
                        }
                        assert forall|i: int| 0 <= i < self.items@.len() implies ((#[trigger] self.items@[i]).selected
                            <==> self.selected_items@.contains(i as usize)) by {
                            if i != index as int {
                                assert(self.items@[i] == old(self).items@[i]);
                            }
                        }
                        assert forall|k1: int, k2: int|
                            0 <= k1 < k2 < new_sel.len() implies new_sel[k1] != new_sel[k2] by {
                            if pos as int != last {
                                if k1 == pos as int {
                                    assert(new_sel[k1] == old_sel[last]);
                                    assert(new_sel[k2] == old_sel[k2]);
                                } else if k2 == pos as int {
                                    assert(new_sel[k2] == old_sel[last]);
                                    assert(new_sel[k1] == old_sel[k1]);
                                } else {
                                    assert(new_sel[k1] == old_sel[k1]);
                                    assert(new_sel[k2] == old_sel[k2]);
                                }
                            } else {
                                assert(new_sel[k1] == old_sel[k1]);
                                assert(new_sel[k2] == old_sel[k2]);
                            }
                        }
                        assert forall|k: int| 0 <= k < new_sel.len() implies #[trigger] new_sel[k] < self.items@.len() by {
                            if k == pos as int {
                                assert(new_sel[k] == old_sel[last]);
                            } else {
                                assert(new_sel[k] == old_sel[k]);
                            }
                        }
                    }
                }
            },
            _ => {
                if !was && self.selected_items.len() < self.cli_args.max {
                    self.selected_items.push(index);
                    self.items[index].selected = true;
                    assert forall|i: int| 0 <= i < self.items@.len() implies ((#[trigger] self.items@[i]).selected
                        <==> self.selected_items@.contains(i as usize)) by {
                        if i != index as int {
                            assert(self.items@[i] == old(self).items@[i]);
                            assert(old(self).items@[i].selected <==> old(self).selected_items@.contains(i as usize));
                            if old(self).selected_items@.contains(i as usize) {
                                let q = choose|q: int| 0 <= q < old(self).selected_items@.len() && old(self).selected_items@[q] == i as usize;
                                assert(self.selected_items@[q] == i as usize);
                            }
                            if self.selected_items@.contains(i as usize) {
                                let q = choose|q: int| 0 <= q < self.selected_items@.len() && self.selected_items@[q] == i as usize;
                                assert(q < old(self).selected_items@.len());
                                assert(old(self).selected_items@[q] == i as usize);
                            }
                        } else {
                            assert(self.selected_items@[old(self).selected_items@.len() as int] == index);
                        }
                    }
                    assert forall|k1: int, k2: int|
                        0 <= k1 < k2 < self.selected_items@.len() implies self.selected_items@[k1] != self.selected_items@[k2] by {
                        if k2 == old(self).selected_items@.len() {
                            assert(old(self).selected_items@.contains(self.selected_items@[k1]));
                        }
                    }
                }
            },
        }
    }

    /// The text printed on submit: the output of every selected entry, in
    /// corpus order, one per line.
    pub fn submit(&self) -> (r: String)
        ensures
            r@ == join_lines(selected_outputs(self.items@)),
    {
        let mut out = String::new();
        let mut first = true;
        let mut i: usize = 0;
        while i < self.items.len()
            invariant
                i <= self.items@.len(),
                out@ == join_lines(selected_outputs(self.items@.subrange(0, i as int))),
                first == (selected_outputs(self.items@.subrange(0, i as int)).len() == 0),
            decreases self.items@.len() - i,
        {
            let ghost pre = self.items@.subrange(0, i as int);
            assert(self.items@.subrange(0, i as int + 1).drop_last() == pre);
            let ghost prev = selected_outputs(pre);
            let item = &self.items[i];
            if item.selected {
                let text: &str = match &item.data.value {
                    Some(v) => v.as_str(),
                    None => item.data.key.as_str(),
                };
                assert(text@ == output_of(item@));
                let ghost next = prev.push(text@);
                assert(selected_outputs(self.items@.subrange(0, i as int + 1)) == next);
                assert(next.drop_last() == prev);
                if !first {
                    proof {
                        reveal_strlit("\n");
                    }
                    out.append("\n");
                    assert(out@ == join_lines(prev) + seq!['\n']);
                } else {
                    assert(prev.len() == 0);
                }
                out.append(text);
                first = false;
            } else {
                assert(selected_outputs(self.items@.subrange(0, i as int + 1)) == prev);
            }
            i = i + 1;
        }
        assert(self.items@.subrange(0, self.items@.len() as int) == self.items@);
        out
    }

    /// A menu over `items` (renumbered by position, none selected) with the
    /// query from `cli_args`. With a callback the items are taken as its first
    /// answer; otherwise they are scored against the query.
    pub fn new(cli_args: CliArgs, items: Vec<Item>, callback: Option<Callback>) -> (r: IcedMenu)
        ensures
            r.wf(),
            r.cli_args == cli_args,
            r.query@ == cli_args.query@,
            r.callback == callback,
            r.selected_items@.len() == 0,
            callback is None ==> r.items@.len() == items@.len() && forall|i: int|
                0 <= i < items@.len() ==> #[trigger] r.items@[i]@ == (ItemView {
                    index: i as usize,
                    selected: false,
                    score: score_for(cli_args.case, cli_args.query@, items@[i].data.key@, false),
                    match_indices: positions_for(cli_args.case, cli_args.query@, items@[i].data.key@, false),
                    ..items@[i]@
                }),
            callback is None ==> r.is_top_ranked(r.visible_items@, cli_args.max_visible as nat),
            callback is Some ==> {
                let fresh = take_up_to(fresh_entries(items@, Seq::empty()), cli_args.max_visible as nat);
                &&& r.items@.len() == fresh.len()
                &&& forall|j: int| 0 <= j < fresh.len() ==> #[trigger] r.items@[j] == Item::spec_new(j as usize, fresh[j])
                &&& r.visible_items@ == Seq::new(r.items@.len(), |i: int| i as usize)
            },
    {
        let query = cli_args.query.clone();
        let dynamic = callback.is_some();
        let mut menu = IcedMenu {
            cli_args,
            items: Vec::new(),
            visible_items: Vec::new(),
            selected_items: Vec::new(),
            query,
            cursor_position: 0,
            callback,
        };
        if dynamic {
            let ghost empty_keys = menu.selected_keys();
            assert(empty_keys =~= Seq::<Seq<char>>::empty());
            menu.refresh_from(items);
            assert(menu.visible_items@.len() == menu.items@.len());
        } else {
            let mut items = items;
            let ghost orig = items@;
            let n = items.len();
            let mut i: usize = 0;
            while i < n
                invariant
                    n == items@.len() == orig.len(),
                    i <= n,
                    forall|j: int| 0 <= j < i ==> #[trigger] items@[j]@ == (ItemView { index: j as usize, selected: false, ..orig[j]@ }),
                    forall|j: int| i <= j < n ==> #[trigger] items@[j] == orig[j],
                decreases n - i,
            {
                items[i].index = i;
                items[i].selected = false;
                i = i + 1;
            }
            menu.items = items;
            assert forall|j: int| 0 <= j < menu.items@.len() implies (#[trigger] menu.items@[j]).index == j
                && !menu.items@[j].selected by {
                assert(menu.items@[j]@ == (ItemView { index: j as usize, selected: false, ..orig[j]@ }));
            }
            assert(menu.wf());
            menu.update_items();
            assert(menu.selected_items@.len() == 0);
            assert(menu.visible_items@.subrange(0, menu.visible_items@.len() as int) == menu.visible_items@);
        }
        menu
    }

    /// Hands the menu a corpus that the callback fetched for the current
    /// query; asks for a resize when the number of visible entries changed.
    pub fn receive_items(&mut self, new_items: Vec<Item>) -> (r: Action)
        requires
            old(self).wf(),
        ensures
            final(self).wf(),
            refreshed(*old(self), *final(self), new_items@),
            r == (if final(self).visible_items@.len() == old(self).visible_items@.len() {
                Action::Nothing
            } else {
                Action::Resize
            }),
            old(self).selected_items@.len() <= old(self).cli_args.max_visible ==> final(self).visible_items@.len()
                <= old(self).cli_args.max_visible && final(self).items@.len() <= old(self).cli_args.max_visible,
            forall|k: int|
                0 <= k < old(self).selected_items@.len() ==> #[trigger] final(self).items@[final(self).selected_items@[k] as int].data.key@
                    == old(self).items@[old(self).selected_items@[k] as int].data.key@,
            final(self).selected_items@.len() == old(self).selected_items@.len(),
    {
        let prev = self.visible_items.len();
        let ghost nsel = self.selected_items@.len();
        self.refresh_from(new_items);
        proof {
            let nfresh = self.items@.len() - nsel;
            assert forall|k: int|
                0 <= k < nsel implies #[trigger] self.items@[self.selected_items@[k] as int].data.key@
                    == old(self).items@[old(self).selected_items@[k] as int].data.key@ by {
                assert(self.selected_items@[k] == (nfresh + k) as usize);
                assert(old(self).selected_items@[k] == old(self).selected_items@[k]);
            }
        }
        if self.visible_items.len() == prev {
            Action::Nothing
        } else {
            Action::Resize
        }
    }

    /// Handles one event and says what the caller should do next.
    pub fn update(&mut self, message: Message) -> (r: Action)
        requires
            old(self).wf(),
        ensures
            final(self).wf(),
            final(self).cli_args == old(self).cli_args,
            final(self).callback == old(self).callback,
            old(self).cli_args.max <= old(self).cli_args.max_visible && old(self).visible_items@.len()
                <= old(self).cli_args.max_visible ==> final(self).visible_items@.len() <= final(self).cli_args.max_visible,
            match message {
                Message::QueryChanged(q) => {
                    &&& final(self).query == q
                    &&& final(self).selected_items == old(self).selected_items
                    &&& final(self).cursor_position == (if final(self).visible_items@.len() == old(self).visible_items@.len() {
                        old(self).cursor_position
                    } else {
                        0
                    })
                    &&& if old(self).callback is Some {
                        &&& r == Action::Fetch
                        &&& final(self).items == old(self).items
                        &&& final(self).visible_items == old(self).visible_items
                    } else {
                        &&& rescored(old(self).items@, final(self).items@, old(self).cli_args.case, q@)
                        &&& final(self).visible_items@ == {
                            let v = final(self).visible_items@;
                            let k = v.len() - old(self).selected_items@.len();
                            v.subrange(0, k) + old(self).selected_items@
                        }
                        &&& final(self).is_top_ranked(
                            final(self).visible_items@.subrange(
                                0,
                                final(self).visible_items@.len() - old(self).selected_items@.len(),
                            ),
                            old(self).candidate_cap(),
                        )
                        &&& r == (if final(self).visible_items@.len() == old(self).visible_items@.len() {
                            Action::Nothing
                        } else {
                            Action::Resize
                        })
                    }
                },
                Message::CursorMoved(direction) => {
                    &&& r == Action::Nothing
                    &&& final(self).items == old(self).items
                    &&& final(self).visible_items == old(self).visible_items
                    &&& final(self).selected_items == old(self).selected_items
                    &&& final(self).query == old(self).query
                    &&& final(self).cursor_position as int == if old(self).visible_items@.len() > 0 {
                        cursor_after(old(self).cursor_position as int, old(self).visible_items@.len() as int, direction)
                    } else {
                        old(self).cursor_position as int
                    }
                },
                Message::CursorSelectionToggled => {
                    &&& r == Action::Nothing
                    &&& if old(self).visible_items@.len() > 0 {
                        selection_changed(
                            *old(self),
                            *final(self),
                            old(self).visible_items@[old(self).cursor_position as int],
                            SelectionChange::Toggle,
                        )
                    } else {
                        unchanged(*old(self), *final(self))
                    }
                },
                Message::MouseClicked(index) => if index < old(self).items@.len() {
                    &&& selection_changed(*old(self), *final(self), index, SelectionChange::Toggle)
                    &&& r matches Action::Close(Some(text)) && text@ == join_lines(selected_outputs(final(self).items@))
                } else {
                    &&& r == Action::Nothing
                    &&& unchanged(*old(self), *final(self))
                },
                Message::Submitted => {
                    &&& r matches Action::Close(Some(text)) && text@ == join_lines(selected_outputs(final(self).items@))
                    &&& if old(self).visible_items@.len() > 0 {
                        selection_changed(
                            *old(self),
                            *final(self),
                            old(self).visible_items@[old(self).cursor_position as int],
                            SelectionChange::Select,
                        )
                    } else {
                        unchanged(*old(self), *final(self))
                    }
                },
                Message::Quit => r == Action::Close(None) && unchanged(*old(self), *final(self)),
            },
    {
        match message {
            Message::QueryChanged(new_query) => {
                self.query = new_query;
                if self.callback.is_some() {
                    Action::Fetch
                } else {
                    let prev = self.visible_items.len();
                    self.update_items();
                    if self.visible_items.len() == prev {
                        Action::Nothing
                    } else {
                        Action::Resize
                    }
                }
            },
            Message::CursorMoved(direction) => {
                if self.visible_items.len() > 0 {
                    self.move_cursor(direction);
                }
                Action::Nothing
            },
            Message::CursorSelectionToggled => {
                if self.visible_items.len() > 0 {
                    let i = self.index_under_cursor();
                    self.update_selection(i, SelectionChange::Toggle);
                }
                Action::Nothing
            },
            Message::MouseClicked(index) => {
                if index < self.items.len() {
                    self.update_selection(index, SelectionChange::Toggle);
                    Action::Close(Some(self.submit()))
                } else {
                    Action::Nothing
                }
            },
            Message::Submitted => {
                if self.visible_items.len() > 0 {
                    let i = self.index_under_cursor();
                    self.update_selection(i, SelectionChange::Select);
                }
                Action::Close(Some(self.submit()))
            },
            Message::Quit => Action::Close(None),
        }
    }

    /// The keys of the selected entries, in selection order.
    pub open spec fn selected_keys(&self) -> Seq<Seq<char>> {
        Seq::new(self.selected_items@.len(), |k: int| self.items@[self.selected_items@[k] as int].data.key@)
    }

    /// Replaces the corpus by a freshly fetched one. Entries whose key is
    /// selected are dropped from it; the selected entries are carried over,
    /// still selected, after as many of the remaining new entries as there is
    /// room for beside them. Everything becomes visible.
    pub fn refresh_from(&mut self, new_items: Vec<Item>)
        requires
            old(self).wf(),
        ensures
            final(self).wf(),
            refreshed(*old(self), *final(self), new_items@),
    {
        let nsel = self.selected_items.len();
        let cap: usize = if nsel <= self.cli_args.max_visible {
            self.cli_args.max_visible - nsel
        } else {
            0
        };
        let ghost keys = self.selected_keys();
        let mut carried: Vec<Item> = Vec::new();
        let mut k: usize = 0;
        while k < nsel
            invariant
                self == old(self),
                self.wf(),
                nsel == self.selected_items@.len(),
                keys == self.selected_keys(),
                k <= nsel,
                carried@.len() == k,
                forall|m: int|
                    #![trigger carried@[m]]
                    0 <= m < k ==> carried@[m]@ == self.items@[self.selected_items@[m] as int]@ && carried@[m].data.key@
                        == keys[m],
            decreases nsel - k,
        {
            let i = self.selected_items[k];
            let it = &self.items[i];
            let c = Item {
                index: it.index,
                data: it.data.clone_data(),
                score: it.score,
                match_indices: clone_positions(&it.match_indices),
                selected: it.selected,
            };
            carried.push(c);
            k = k + 1;
        }
        let mut fresh: Vec<Item> = Vec::new();
        assert(keys.len() == nsel);
        let mut j: usize = 0;
        while j < new_items.len()
            invariant
                self == old(self),
                carried@.len() == nsel,
                keys.len() == nsel,
                forall|m: int| #![trigger carried@[m]] 0 <= m < nsel ==> carried@[m].data.key@ == keys[m],
                j <= new_items@.len(),
                fresh@.len() <= cap,
                fresh@.len() == take_up_to(fresh_entries(new_items@.subrange(0, j as int), keys), cap as nat).len(),
                forall|m: int|
                    0 <= m < fresh@.len() ==> #[trigger] fresh@[m] == Item::spec_new(
                        m as usize,
                        take_up_to(fresh_entries(new_items@.subrange(0, j as int), keys), cap as nat)[m],
                    ),
            decreases new_items@.len() - j,
        {
            let ghost pre = new_items@.subrange(0, j as int);
            assert(new_items@.subrange(0, j as int + 1).drop_last() == pre);
            let mut taken = false;
            let mut m: usize = 0;
            while m < nsel
                invariant
                    carried@.len() == nsel,
                    forall|q: int| #![trigger carried@[q]] 0 <= q < nsel ==> carried@[q].data.key@ == keys[q],
                    keys.len() == nsel,
                    j < new_items@.len(),
                    m <= nsel,
                    taken == exists|q: int| 0 <= q < m && keys[q] == new_items@[j as int].data.key@,
                decreases nsel - m,
            {
                if carried[m].data.key == new_items[j].data.key {
                    taken = true;
                }
                m = m + 1;
            }
            assert(taken == keys.contains(new_items@[j as int].data.key@)) by {
                if taken {
                    let q = choose|q: int| 0 <= q < nsel && keys[q] == new_items@[j as int].data.key@;
                    assert(keys[q] == new_items@[j as int].data.key@);
                }
                if keys.contains(new_items@[j as int].data.key@) {
                    let q = choose|q: int| 0 <= q < keys.len() && keys[q] == new_items@[j as int].data.key@;
                    assert(0 <= q < nsel);
                }
            }
            if !taken && fresh.len() < cap {
                let n = fresh.len();
                fresh.push(Item::new(n, new_items[j].data.clone_data()));
            }
            j = j + 1;
        }
        assert(new_items@.subrange(0, new_items@.len() as int) == new_items@);
        let nfresh = fresh.len();
        let mut items = fresh;
        let mut selected: Vec<usize> = Vec::new();
        let mut k2: usize = 0;
        while k2 < nsel
            invariant
                self == old(self),
                self.wf(),
                nsel == self.selected_items@.len(),
                carried@.len() == nsel,
                forall|m: int|
                    #![trigger carried@[m]]
                    0 <= m < nsel ==> carried@[m]@ == self.items@[self.selected_items@[m] as int]@,
                nfresh <= cap,
                cap as int + nsel <= usize::MAX,
                k2 <= nsel,
                items@.len() == nfresh + k2,
                forall|q: int| 0 <= q < nfresh ==> #[trigger] items@[q] == Item::spec_new(
                    q as usize,
                    take_up_to(fresh_entries(new_items@, keys), cap as nat)[q],
                ),
                nfresh == take_up_to(fresh_entries(new_items@, keys), cap as nat).len(),
                forall|q: int|
                    #![trigger carried@[q]]
                    0 <= q < k2 ==> items@[nfresh + q]@ == (ItemView { index: (nfresh + q) as usize, ..carried@[q]@ }),
                selected@ == Seq::new(k2 as nat, |q: int| (nfresh + q) as usize),
            decreases nsel - k2,
        {
            let c = &carried[k2];
            let idx = nfresh + k2;
            items.push(
                Item {
                    index: idx,
                    data: c.data.clone_data(),
                    score: c.score,
                    match_indices: clone_positions(&c.match_indices),
                    selected: c.selected,
                },
            );
            selected.push(idx);
            k2 = k2 + 1;
        }
        let total = items.len();
        let mut visible: Vec<usize> = Vec::new();
        let mut v: usize = 0;
        while v < total
            invariant
                v <= total,
                visible@ == Seq::new(v as nat, |i: int| i as usize),
            decreases total - v,
        {
            visible.push(v);
            v = v + 1;
        }
        let prev = self.visible_items.len();
        proof {
            assert forall|q: int| 0 <= q < nsel implies #[trigger] old(self).selected_items@[q] < old(self).items@.len() by {}
        }
        self.items = items;
        self.selected_items = selected;
        self.visible_items = visible;
        if total != prev {
            self.cursor_position = 0;
        }
        assert forall|i: int| 0 <= i < self.items@.len() implies ((#[trigger] self.items@[i]).selected
            <==> self.selected_items@.contains(i as usize)) by {
            if i < nfresh {
                if self.selected_items@.contains(i as usize) {
                    let q = choose|q: int| 0 <= q < nsel && self.selected_items@[q] == i as usize;
                }
            } else {
                let q = i - nfresh;
                assert(carried@[q]@ == old(self).items@[old(self).selected_items@[q] as int]@);
                assert(old(self).selected_items@.contains(old(self).selected_items@[q]));
                assert(self.selected_items@[q] == i as usize);
            }
        }
        assert forall|i: int| 0 <= i < self.items@.len() implies (#[trigger] self.items@[i]).index == i by {
            if i >= nfresh {
                let q = i - nfresh;
                assert(self.items@[nfresh + q]@ == (ItemView { index: (nfresh + q) as usize, ..carried@[q]@ }));
            }
        }
        assert(self.selected_items@ =~= Seq::new(nsel as nat, |k: int| (nfresh + k) as usize));
        assert(self.visible_items@ =~= Seq::new(self.items@.len(), |i: int| i as usize));
        assert(keys == old(self).selected_keys());
        assert(cap as nat == old(self).candidate_cap());
        assert forall|k: int|
            #![trigger old(self).selected_items@[k]]
            0 <= k < nsel implies self.items@[nfresh + k]@ == (ItemView {
                index: (nfresh + k) as usize,
                ..old(self).items@[old(self).selected_items@[k] as int]@
            }) by {
            assert(carried@[k]@ == old(self).items@[old(self).selected_items@[k] as int]@);
        }
    }

    /// Scores every entry against the query.
    pub fn score_items(&mut self)
        requires
            old(self).wf(),
        ensures
            final(self).wf(),
            rescored(old(self).items@, final(self).items@, old(self).cli_args.case, old(self).query@),
            final(self).cli_args == old(self).cli_args,
            final(self).query == old(self).query,
            final(self).selected_items == old(self).selected_items,
            final(self).visible_items == old(self).visible_items,
            final(self).cursor_position == old(self).cursor_position,
            final(self).callback == old(self).callback,
    {
        let n = self.items.len();
        let empty_query = self.query.as_str().is_empty();
        proof {
            assert(empty_query == (self.query@.len() == 0));
        }
        let mut i: usize = 0;
        while i < n
            invariant
                n == self.items@.len() == old(self).items@.len(),
                i <= n,
                self.cli_args == old(self).cli_args,
                self.query == old(self).query,
                self.selected_items == old(self).selected_items,
                self.visible_items == old(self).visible_items,
                self.cursor_position == old(self).cursor_position,
                self.callback == old(self).callback,
                empty_query == (self.query@.len() == 0),
                forall|j: int| 0 <= j < i ==> #[trigger] self.items@[j]@ == (ItemView {
                    score: score_for(self.cli_args.case, self.query@, old(self).items@[j].data.key@, old(self).items@[j].selected),
                    match_indices: positions_for(self.cli_args.case, self.query@, old(self).items@[j].data.key@, old(self).items@[j].selected),
                    ..old(self).items@[j]@
                }),
                forall|j: int| i <= j < n ==> #[trigger] self.items@[j] == old(self).items@[j],
                forall|j: int| 0 <= j < n ==> (#[trigger] self.items@[j]).index == old(self).items@[j].index,
                forall|j: int| 0 <= j < n ==> (#[trigger] self.items@[j]).selected == old(self).items@[j].selected,
            decreases n - i,
        {
            if empty_query || self.items[i].selected {
                self.items[i].score = None;
                self.items[i].match_indices = None;
            } else {
                let m = fuzzy_indices(self.cli_args.case, self.items[i].data.key.as_str(), self.query.as_str());
                match m {
                    Some((score, positions)) => {
                        self.items[i].score = Some(score);
                        self.items[i].match_indices = Some(positions);
                    },
                    None => {
                        self.items[i].score = None;
                        self.items[i].match_indices = None;
                    },
                }
            }
            i = i + 1;
        }
    }
}

/// Moving the cursor up and then down, or down and then up, returns it to
/// where it was, in any non-empty visible list.
pub proof fn lemma_cursor_wrap(pos: int, len: int)
    requires
        0 <= pos < len,
    ensures
        cursor_after(cursor_after(pos, len, CursorMoveDirection::Up), len, CursorMoveDirection::Down) == pos,
        cursor_after(cursor_after(pos, len, CursorMoveDirection::Down), len, CursorMoveDirection::Up) == pos,
{
}

proof fn lemma_unscored_top_is_prefix(items: Seq<Item>, query: Seq<char>, top: Seq<usize>, cap: nat, k: int)
    requires
        query.len() == 0,
        forall|i: int| 0 <= i < items.len() ==> (#[trigger] items[i]).score is None,
        top_ranked(items, Seq::empty(), query, top, cap),
        0 <= k < top.len(),
    ensures
        forall|j: int| 0 <= j <= k ==> top[j] == j,
    decreases k,
{
    let sel = Seq::<usize>::empty();
    if k > 0 {
        lemma_unscored_top_is_prefix(items, query, top, cap, k - 1);
        assert(above_in(items, top[k - 1] as int, top[k] as int));
    }
    assert(candidate(items, sel, query, top[k] as int));
    if top[k] as int != k {
        assert(candidate(items, sel, query, k));
        if top.contains(k as usize) {
            let w = choose|w: int| 0 <= w < top.len() && top[w] == k as usize;
            if w > k {
                assert(above_in(items, top[k] as int, top[w] as int));
            }
        } else {
            assert(above_in(items, top[k] as int, k));
        }
    }
}

/// With an empty query and nothing selected, no entry has a score, and the
/// visible list is the first entries of the corpus in corpus order, as many as
/// `max_visible` allows.
pub proof fn lemma_empty_query_shows_corpus_order(before: Seq<Item>, m: IcedMenu)
    requires
        m.wf(),
        m.query@.len() == 0,
        m.selected_items@.len() == 0,
        rescored(before, m.items@, m.cli_args.case, m.query@),
        m.is_top_ranked(m.visible_items@, m.cli_args.max_visible as nat),
    ensures
        forall|i: int| 0 <= i < m.items@.len() ==> (#[trigger] m.items@[i]).score is None,
        m.visible_items@ == Seq::new(
            if m.cli_args.max_visible <= m.items@.len() { m.cli_args.max_visible as nat } else { m.items@.len() },
            |k: int| k as usize,
        ),
{
    let items = m.items@;
    let top = m.visible_items@;
    let n = items.len();
    let cap = m.cli_args.max_visible as nat;
    assert forall|i: int| 0 <= i < n implies (#[trigger] items[i]).score is None by {
        assert(items[i]@.score == score_for(m.cli_args.case, m.query@, before[i].data.key@, before[i].selected));
    }
    assert(m.selected_items@ == Seq::<usize>::empty());
    if top.len() > 0 {
        lemma_unscored_top_is_prefix(items, m.query@, top, cap, top.len() - 1);
        assert(candidate(items, m.selected_items@, m.query@, top[top.len() - 1] as int));
    }
    if top.len() < cap && n > 0 {
        assert(candidate(items, m.selected_items@, m.query@, n - 1));
        let w = choose|w: int| 0 <= w < top.len() && top[w] == (n - 1) as usize;
    }
    let len = if cap <= n { cap } else { n };
    assert(top =~= Seq::new(len, |k: int| k as usize));
}

/// The records of `new_items` whose key is not in `taken`, in order.
pub open spec fn fresh_entries(new_items: Seq<Item>, taken: Seq<Seq<char>>) -> Seq<ItemData>
    decreases new_items.len(),
{
    if new_items.len() == 0 {
        Seq::empty()
    } else {
        let prev = fresh_entries(new_items.drop_last(), taken);
        if taken.contains(new_items.last().data.key@) {
            prev
        } else {
            prev.push(new_items.last().data)
        }
    }
}

/// At most the first `cap` elements of `s`.
pub open spec fn take_up_to<A>(s: Seq<A>, cap: nat) -> Seq<A> {
    if s.len() <= cap {
        s
    } else {
        s.subrange(0, cap as int)
    }
}

/// The events the menu reacts to.
#[derive(Debug, Clone, PartialEq, Eq)]
pub enum Message {
    QueryChanged(String),
    CursorMoved(CursorMoveDirection),
    CursorSelectionToggled,
    MouseClicked(usize),
    Submitted,
    Quit,
}

/// What the caller does after an event: nothing, resize the window to the new
/// visible list, run the callback for the new query and hand its corpus to
/// `receive_items`, or print the given text (if any) and exit.
#[derive(Debug, PartialEq, Eq)]
pub enum Action {
    Nothing,
    Resize,
    Fetch,
    Close(Option<String>),
}

#[derive(Debug, Clone, Copy, PartialEq, Eq, Structural)]
pub enum CursorMoveDirection {
    Up,
    Down,
    Reset,
}

#[derive(Debug, Clone, Copy, PartialEq, Eq, Structural)]
pub enum SelectionChange {
    Select,
    Deselect,
    Toggle,
}

impl SelectionChange {
    /// The change that a toggle makes of an entry with the given flag.
    pub fn toggle_change(selected: bool) -> (r: Self)
        ensures
            r == (if selected { SelectionChange::Deselect } else { SelectionChange::Select }),
    {
        if selected {
            Self::Deselect
        } else {
            Self::Select
        }
    }
}

} // verus!
