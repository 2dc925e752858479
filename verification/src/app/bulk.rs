//! Actions on every group in scope, and on the file under the cursor.

use super::results::{scope_flags, totals_unchanged};
use super::{App, Pane};
use crate::model::{
    choice, fit, is_choice, kept_only, DupeGroup, FileEntry, KeepStrategy,
};
use crate::text::{decimal, decimal_of, text_from, text_in};
use vstd::prelude::*;

verus! {

/// `after` is the group with the keeper that the strategy chooses.
pub open spec fn has_strategy(before: DupeGroup, after: DupeGroup, strategy: KeepStrategy) -> bool {
    &&& after == (DupeGroup { files: after.files, ..before })
    &&& after.files@ == if before.files@.len() > 0 {
        kept_only(before.files@, choice(before.files@, strategy))
    } else {
        before.files@
    }
    &&& before.files@.len() > 0 ==> is_choice(
        before.files@,
        strategy,
        choice(before.files@, strategy),
    )
}

/// How many flags are set.
pub open spec fn set_count(flags: Seq<bool>) -> nat
    decreases flags.len(),
{
    if flags.len() == 0 {
        0
    } else {
        set_count(flags.drop_last()) + if flags.last() {
            1nat
        } else {
            0nat
        }
    }
}

/// The ending of a counted noun.
pub open spec fn plural(n: nat) -> Seq<char> {
    if n == 1 {
        ""@
    } else {
        "s"@
    }
}

/// The ending of a counted noun.
pub fn plural_of(n: usize) -> (s: &'static str)
    ensures
        s@ == plural(n as nat),
{
    if n == 1 {
        ""
    } else {
        "s"
    }
}

impl App {
    /// How many groups are in scope.
    pub open spec fn scope_size(self) -> nat {
        set_count(scope_flags(self.groups@, self.selected@))
    }

    /// Indices the bulk actions apply to.
    pub fn scoped_indices(&self) -> (out: Vec<usize>)
        requires
            self.wf(),
        ensures
            out@.len() == self.scope_size(),
            forall|k: int|
                0 <= k < out@.len() ==> #[trigger] out@[k] < self.groups@.len() && scope_flags(
                    self.groups@,
                    self.selected@,
                )[out@[k] as int],
            forall|k: int, m: int| 0 <= k < m < out@.len() ==> #[trigger] out@[k] < #[trigger] out@[m],
            forall|i: usize|
                i < self.groups@.len() && scope_flags(self.groups@, self.selected@)[i as int]
                    ==> #[trigger] out@.contains(i),
    {
        let ghost flags = scope_flags(self.groups@, self.selected@);
        let mut out: Vec<usize> = Vec::new();
        let mut i: usize = 0;
        while i < self.groups.len()
            invariant
                self.wf(),
                flags == scope_flags(self.groups@, self.selected@),
                i <= self.groups@.len(),
                out@.len() == set_count(flags.take(i as int)),
                forall|k: int|
                    0 <= k < out@.len() ==> #[trigger] out@[k] < i && flags[out@[k] as int],
                forall|k: int, m: int|
                    0 <= k < m < out@.len() ==> #[trigger] out@[k] < #[trigger] out@[m],
                forall|j: usize| j < i && flags[j as int] ==> #[trigger] out@.contains(j),
            decreases self.groups@.len() - i,
        {
            let ghost before = out@;
            assert(flags.take(i + 1).drop_last() =~= flags.take(i as int));
            if self.in_scope(i) {
                out.push(i);
            }
            proof {
                assert forall|j: usize| j < i + 1 && flags[j as int] implies #[trigger] out@.contains(
                    j,
                ) by {
                    if j < i {
                        assert(before.contains(j));
                        let k = choose|k: int| 0 <= k < before.len() && before[k] == j;
                        assert(out@[k] == j);
                    } else {
                        assert(out@[before.len() as int] == j);
                    }
                }
            }
            i += 1;
        }
        assert(flags.take(i as int) =~= flags);
        out
    }

    /// A strategy chooses the keeper in every group in scope and leaves the others
    /// alone.
    pub open spec fn strategy_applied(self, after: App, strategy: KeepStrategy) -> bool {
        let flags = scope_flags(self.groups@, self.selected@);
        &&& after == (App { groups: after.groups, status: after.status, ..self })
        &&& after.groups@.len() == self.groups@.len()
        &&& forall|i: int|
            0 <= i < self.groups@.len() ==> if flags[i] {
                has_strategy(self.groups@[i], #[trigger] after.groups@[i], strategy)
            } else {
                after.groups@[i] == self.groups@[i]
            }
        &&& text_in(after.status) == Some(
            if self.selected@ == Set::<[u8; 32]>::empty() {
                "Keeping the "@ + strategy.words() + " in every group"@
            } else {
                "Keeping the "@ + strategy.words() + " in "@ + decimal(self.scope_size())
                    + " selected group"@ + plural(self.scope_size())
            },
        )
    }

    /// Choose the keeper in every group in scope.
    pub fn apply_strategy_to_all(&mut self, strategy: KeepStrategy)
        requires
            old(self).wf(),
        ensures
            final(self).wf(),
            old(self).strategy_applied(*final(self), strategy),
    {
        let ghost before = self.groups@;
        let ghost flags = scope_flags(self.groups@, self.selected@);
        let scoped = self.scoped_indices();
        let mut k: usize = 0;
        while k < scoped.len()
            invariant
                k <= scoped@.len(),
                *self == (App { groups: self.groups, ..*old(self) }),
                before == old(self).groups@,
                fit(before),
                self.groups@.len() == before.len(),
                flags == scope_flags(before, self.selected@),
                forall|m: int|
                    0 <= m < scoped@.len() ==> #[trigger] scoped@[m] < before.len() && flags[scoped@[m] as int],
                forall|m: int, n: int|
                    0 <= m < n < scoped@.len() ==> #[trigger] scoped@[m] < #[trigger] scoped@[n],
                forall|i: int|
                    0 <= i < before.len() ==> (#[trigger] self.groups@[i]) == before[i]
                        || has_strategy(before[i], self.groups@[i], strategy) && flags[i],
                forall|m: int|
                    0 <= m < k ==> has_strategy(
                        before[scoped@[m] as int],
                        #[trigger] self.groups@[scoped@[m] as int],
                        strategy,
                    ),
                forall|m: int|
                    k <= m < scoped@.len() ==> #[trigger] self.groups@[scoped@[m] as int]
                        == before[scoped@[m] as int],
                forall|i: int| 0 <= i < before.len() ==> (#[trigger] self.groups@[i]).wf(),
            decreases scoped@.len() - k,
        {
            let at: usize = scoped[k];
            let ghost held = self.groups@;
            assert(self.groups@[scoped@[k as int] as int] == before[at as int]);
            let group = &mut self.groups[at];
            group.apply_strategy(strategy);
            proof {
                assert(self.groups@ =~= held.update(at as int, self.groups@[at as int]));
                assert(has_strategy(before[at as int], self.groups@[at as int], strategy));
                strategy_keeps_group_sound(before[at as int], self.groups@[at as int], strategy);
                assert forall|m: int| k + 1 <= m < scoped@.len() implies #[trigger] self.groups@[scoped@[m] as int]
                    == before[scoped@[m] as int] by {
                    assert(scoped@[k as int] < scoped@[m]);
                    assert(held[scoped@[m] as int] == before[scoped@[m] as int]);
                }
                assert forall|m: int| 0 <= m < k + 1 implies has_strategy(
                    before[scoped@[m] as int],
                    #[trigger] self.groups@[scoped@[m] as int],
                    strategy,
                ) by {
                    if m < k {
                        assert(scoped@[m] < scoped@[k as int]);
                        assert(held[scoped@[m] as int] == self.groups@[scoped@[m] as int]);
                    }
                }
            }
            k += 1;
        }
        proof {
            assert(before.len() <= usize::MAX) by {
                assert(self.groups.len() <= usize::MAX);
            }
            assert forall|i: int| 0 <= i < before.len() implies if flags[i] {
                has_strategy(before[i], #[trigger] self.groups@[i], strategy)
            } else {
                self.groups@[i] == before[i]
            } by {
                if flags[i] {
                    assert(scoped@.contains(i as usize));
                    let m = choose|m: int| 0 <= m < scoped@.len() && scoped@[m] == i as usize;
                    assert(has_strategy(
                        before[scoped@[m] as int],
                        self.groups@[scoped@[m] as int],
                        strategy,
                    ));
                }
            }
            assert forall|i: int| 0 <= i < before.len() implies (#[trigger] self.groups@[i]).size
                == before[i].size && self.groups@[i].files@.len() == before[i].files@.len() by {}
            totals_unchanged(before, self.groups@);
        }
        let mut message = text_from("Keeping the ");
        message.append(strategy.label());
        if self.selected.is_empty() {
            message.append(" in every group");
        } else {
            message.append(" in ");
            message.append(decimal_of(scoped.len()).as_str());
            message.append(" selected group");
            message.append(plural_of(scoped.len()));
        }
        self.status = Some(message);
    }

    /// Whether some group in scope is not skipped.
    pub open spec fn some_unskipped(self) -> bool {
        exists|i: int|
            0 <= i < self.groups@.len() && scope_flags(self.groups@, self.selected@)[i] && !(
            #[trigger] self.groups@[i]).skipped
    }

    /// Skipping: with a selection all its groups move to one state; without one the
    /// highlighted group flips.
    pub open spec fn skip_toggled(self, after: App) -> bool {
        let flags = scope_flags(self.groups@, self.selected@);
        if self.selected@ == Set::<[u8; 32]>::empty() {
            &&& after == (App { groups: after.groups, ..self })
            &&& after.groups@ == if self.group_selected < self.groups@.len() {
                let g = self.groups@[self.group_selected as int];
                self.groups@.update(
                    self.group_selected as int,
                    DupeGroup { skipped: !g.skipped, ..g },
                )
            } else {
                self.groups@
            }
        } else {
            &&& after == (App { groups: after.groups, status: after.status, ..self })
            &&& after.groups@ == Seq::new(
                self.groups@.len(),
                |i: int|
                    if flags[i] {
                        DupeGroup { skipped: self.some_unskipped(), ..self.groups@[i] }
                    } else {
                        self.groups@[i]
                    },
            )
            &&& text_in(after.status) == Some(
                (if self.some_unskipped() {
                    "Skipped"@
                } else {
                    "Un-skipped"@
                }) + " "@ + decimal(self.scope_size()) + " selected group"@ + plural(
                    self.scope_size(),
                ),
            )
        }
    }

    /// Skip or unskip every group in scope, moving them all to one state rather
    /// than flipping each independently.
    pub fn toggle_skip_in_scope(&mut self)
        requires
            old(self).wf(),
        ensures
            final(self).wf(),
            old(self).skip_toggled(*final(self)),
    {
        let ghost before = self.groups@;
        let ghost flags = scope_flags(self.groups@, self.selected@);
        if self.selected.is_empty() {
            if self.group_selected < self.groups.len() {
                let skipped: bool = !self.groups[self.group_selected].skipped;
                self.groups[self.group_selected].skipped = skipped;
                proof {
                    let at = self.group_selected as int;
                    assert(self.groups@ =~= before.update(
                        at,
                        DupeGroup { skipped, ..before[at] },
                    ));
                    assert forall|i: int| 0 <= i < before.len() implies (#[trigger] self.groups@[i]).wf() by {
                        assert(before[i].wf());
                    }
                    totals_unchanged(before, self.groups@);
                }
            }
            return;
        }
        let skip: bool = self.any_unskipped();
        let scoped = self.scoped_indices();
        let mut i: usize = 0;
        while i < self.groups.len()
            invariant
                i <= before.len(),
                old(self).wf(),
                *self == (App { groups: self.groups, ..*old(self) }),
                before == old(self).groups@,
                self.groups@.len() == before.len(),
                flags == scope_flags(before, self.selected@),
                self.selected.wf(),
                forall|j: int|
                    0 <= j < i ==> (#[trigger] self.groups@[j]) == if flags[j] {
                        DupeGroup { skipped: skip, ..before[j] }
                    } else {
                        before[j]
                    },
                forall|j: int| i <= j < before.len() ==> #[trigger] self.groups@[j] == before[j],
            decreases before.len() - i,
        {
            let scoped_here: bool = self.selected.is_empty() || self.selected.contains(
                &self.groups[i].hash,
            );
            if scoped_here {
                self.groups[i].skipped = skip;
            }
            i += 1;
        }
        proof {
            assert(self.groups@ =~= Seq::new(
                before.len(),
                |i: int|
                    if flags[i] {
                        DupeGroup { skipped: skip, ..before[i] }
                    } else {
                        before[i]
                    },
            ));
            assert forall|i: int| 0 <= i < before.len() implies (#[trigger] self.groups@[i]).wf() by {
                assert(before[i].wf());
            }
            totals_unchanged(before, self.groups@);
        }
        let mut message = text_from(
            if skip {
                "Skipped"
            } else {
                "Un-skipped"
            },
        );
        message.append(" ");
        message.append(decimal_of(scoped.len()).as_str());
        message.append(" selected group");
        message.append(plural_of(scoped.len()));
        self.status = Some(message);
    }

    fn any_unskipped(&self) -> (b: bool)
        requires
            self.wf(),
        ensures
            b == self.some_unskipped(),
    {
        let mut i: usize = 0;
        while i < self.groups.len()
            invariant
                self.wf(),
                i <= self.groups@.len(),
                forall|j: int|
                    0 <= j < i && scope_flags(self.groups@, self.selected@)[j] ==> (
                    #[trigger] self.groups@[j]).skipped,
            decreases self.groups@.len() - i,
        {
            if self.in_scope(i) && !self.groups[i].skipped {
                assert(!self.groups@[i as int].skipped);
                return true;
            }
            i += 1;
        }
        false
    }

    /// Keeping the highlighted copy makes it the sole keeper of its group next to
    /// what is protected, and the group is not skipped any more.
    pub open spec fn highlighted_kept(self, after: App) -> bool {
        &&& after == (App { groups: after.groups, pane: Pane::Files, ..self })
        &&& if self.group_selected < self.groups@.len() {
            let at = self.group_selected as int;
            let g = self.groups@[at];
            let h = after.groups@[at];
            &&& after.groups@ == self.groups@.update(at, h)
            &&& h == (DupeGroup { files: h.files, skipped: false, ..g })
            &&& h.files@ == if self.file_selected < g.files@.len() {
                kept_only(g.files@, self.file_selected as int)
            } else {
                g.files@
            }
        } else {
            after.groups == self.groups
        }
    }

    /// Keep the highlighted copy.
    pub fn keep_highlighted(&mut self)
        requires
            old(self).wf(),
        ensures
            final(self).wf(),
            old(self).highlighted_kept(*final(self)),
    {
        let idx: usize = self.file_selected;
        let ghost before = self.groups@;
        if self.group_selected < self.groups.len() {
            let at: usize = self.group_selected;
            assert(before[at as int].wf());
            let group = &mut self.groups[at];
            group.keep_only(idx);
            group.skipped = false;
            proof {
                assert(self.groups@ =~= before.update(at as int, self.groups@[at as int]));
                assert forall|i: int| 0 <= i < before.len() implies (#[trigger] self.groups@[i]).wf()
                    && self.groups@[i].size == before[i].size && self.groups@[i].files@.len()
                    == before[i].files@.len() by {
                    assert(before[i].wf());
                }
                totals_unchanged(before, self.groups@);
            }
        }
        self.pane = Pane::Files;
    }

    /// Flipping the mark of the highlighted copy: refused for a protected copy and
    /// for the last keeper.
    pub open spec fn highlighted_toggled(self, after: App) -> bool {
        &&& after == (App {
            groups: after.groups,
            pane: Pane::Files,
            status: after.status,
            ..self
        })
        &&& if self.group_selected < self.groups@.len() {
            let at = self.group_selected as int;
            let g = self.groups@[at];
            let h = after.groups@[at];
            let idx = self.file_selected as int;
            let protected = idx < g.files@.len() && g.files@[idx].protected;
            let done = idx < g.files@.len() && !protected && !(g.files@[idx].keep
                && crate::model::keepers(g.files@) <= 1);
            &&& after.groups@ == self.groups@.update(at, h)
            &&& h == (DupeGroup { files: h.files, ..g })
            &&& h.files@ == if done {
                g.files@.update(idx, FileEntry { keep: !g.files@[idx].keep, ..g.files@[idx] })
            } else {
                g.files@
            }
            &&& if protected {
                text_in(after.status) == Some("Reference files are protected from deletion"@)
            } else if !done {
                text_in(after.status) == Some("At least one copy in a group must be kept"@)
            } else {
                after.status == self.status
            }
        } else {
            &&& after.groups == self.groups
            &&& after.status == self.status
        }
    }

    /// Flip the mark of the highlighted copy.
    pub fn toggle_highlighted(&mut self)
        requires
            old(self).wf(),
        ensures
            final(self).wf(),
            old(self).highlighted_toggled(*final(self)),
    {
        let idx: usize = self.file_selected;
        let ghost before = self.groups@;
        if self.group_selected < self.groups.len() {
            let at: usize = self.group_selected;
            assert(before[at as int].wf());
            let protected: bool = idx < self.groups[at].files.len()
                && self.groups[at].files[idx].protected;
            let group = &mut self.groups[at];
            let done: bool = group.toggle_mark(idx);
            proof {
                assert(self.groups@ =~= before.update(at as int, self.groups@[at as int]));
                assert forall|i: int| 0 <= i < before.len() implies (#[trigger] self.groups@[i]).wf()
                    && self.groups@[i].size == before[i].size && self.groups@[i].files@.len()
                    == before[i].files@.len() by {
                    assert(before[i].wf());
                }
                totals_unchanged(before, self.groups@);
            }
            if protected {
                self.status = Some(text_from("Reference files are protected from deletion"));
            } else if !done {
                self.status = Some(text_from("At least one copy in a group must be kept"));
            }
        }
        self.pane = Pane::Files;
    }
}

/// A strategy leaves a sound group sound.
pub proof fn strategy_keeps_group_sound(
    before: DupeGroup,
    after: DupeGroup,
    strategy: KeepStrategy,
)
    requires
        before.wf(),
        has_strategy(before, after, strategy),
    ensures
        after.wf(),
        after.size == before.size,
        after.files@.len() == before.files@.len(),
{
    if before.files@.len() > 0 {
        let idx = choice(before.files@, strategy);
        crate::model::kept_only_keeps(before.files@, idx);
        assert forall|i: int| 0 <= i < after.files@.len() implies (#[trigger] after.files@[i]).size
            == after.size by {
            assert(before.files@[i].size == before.size);
        }
    }
}

} // verus!
