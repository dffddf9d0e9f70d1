//! The plugin registry: the ordered set of loaded plugins together with
//! their per-round dispatch state.
//!
//! Order is significant and preserved from load order: the handshake
//! reports plugin identities in exactly this order. Each entry carries at
//! most one pending query round; starting a new round replaces the old
//! pending state, which is how a later query supersedes an earlier one.

use vstd::prelude::*;

use crate::protocol::PluginInfo;
use crate::protocol::PluginInfoV;

verus! {

/// One registered plugin: its reported identity plus the round number of
/// the query whose result is still awaited, if any.
pub struct Entry {
    pub info: PluginInfo,
    /// The round whose worker result this entry still awaits. `None`
    /// outside a round, or once the round's result was delivered or
    /// superseded.
    pub pending: Option<u64>,
}

/// Mathematical value of an [`Entry`].
pub struct EntryV {
    pub info: PluginInfoV,
    pub pending: Option<u64>,
}

impl View for Entry {
    type V = EntryV;

    open spec fn view(&self) -> EntryV {
        EntryV { info: self.info@, pending: self.pending }
    }
}

/// The ordered collection of loaded plugins. A registry is viewed as the
/// sequence of its entries in load order.
pub struct Registry {
    pub entries: Vec<Entry>,
}

impl View for Registry {
    type V = Seq<EntryV>;

    open spec fn view(&self) -> Seq<EntryV> {
        self.entries@.map_values(|e: Entry| e@)
    }
}

/// The identities of a sequence of entries, in order.
pub open spec fn infos(entries: Seq<EntryV>) -> Seq<PluginInfoV> {
    entries.map_values(|e: EntryV| e.info)
}

/// The identities of the plugins that loaded, in the order they were
/// requested: each load failure is omitted, everything else is kept.
pub open spec fn loaded_infos(results: Seq<Option<PluginInfoV>>) -> Seq<PluginInfoV>
    decreases results.len(),
{
    if results.len() == 0 {
        Seq::empty()
    } else {
        match results.last() {
            Some(p) => loaded_infos(results.drop_last()).push(p),
            None => loaded_infos(results.drop_last()),
        }
    }
}

/// Fresh entries for the given identities: no round pending anywhere.
pub open spec fn fresh_entries(ps: Seq<PluginInfoV>) -> Seq<EntryV> {
    ps.map_values(|p: PluginInfoV| EntryV { info: p, pending: None })
}

/// The same entries with every pending round discarded.
pub open spec fn all_cleared(entries: Seq<EntryV>) -> Seq<EntryV> {
    entries.map_values(|e: EntryV| EntryV { info: e.info, pending: None })
}

/// The same entries with every one awaiting the given round.
pub open spec fn all_pending(entries: Seq<EntryV>, round: u64) -> Seq<EntryV> {
    entries.map_values(|e: EntryV| EntryV { info: e.info, pending: Some(round) })
}

/// The position of the first entry whose identity equals `p`, if any.
pub open spec fn first_match(entries: Seq<EntryV>, p: PluginInfoV) -> Option<int>
    decreases entries.len(),
{
    if entries.len() == 0 {
        None
    } else if entries[0].info == p {
        Some(0int)
    } else {
        match first_match(entries.drop_first(), p) {
            Some(i) => Some(i + 1),
            None => None,
        }
    }
}

/// `first_match` finds the least position holding `p`, and fails only
/// when no position holds `p`.
pub proof fn lemma_first_match_characterization(entries: Seq<EntryV>, p: PluginInfoV)
    ensures
        match first_match(entries, p) {
            Some(i) => 0 <= i < entries.len() && entries[i].info == p && (forall|j: int|
                0 <= j < i ==> entries[j].info != p),
            None => forall|j: int| 0 <= j < entries.len() ==> entries[j].info != p,
        },
    decreases entries.len(),
{
    if entries.len() > 0 && entries[0].info != p {
        lemma_first_match_characterization(entries.drop_first(), p);
        assert(forall|j: int|
            1 <= j < entries.len() ==> entries[j] == entries.drop_first()[j - 1]);
    }
}

/// The identities of freshly built entries are exactly the given ones.
pub proof fn lemma_fresh_entries_infos(ps: Seq<PluginInfoV>)
    ensures
        infos(fresh_entries(ps)) == ps,
{
    assert(infos(fresh_entries(ps)) =~= ps);
}

/// The request-list position that the `j`-th reported identity came
/// from: the position of the `j`-th load that succeeded.
pub open spec fn source_position(results: Seq<Option<PluginInfoV>>, j: int) -> int
    decreases results.len(),
{
    if results.len() == 0 {
        0
    } else if results.last() is Some && j == loaded_infos(results).len() - 1 {
        results.len() - 1
    } else {
        source_position(results.drop_last(), j)
    }
}

/// Law (handshake list order): the reported identities form an ordered
/// sub-sequence of the requested plugin list. The `j`-th reported
/// identity is exactly what the request at its source position loaded,
/// and source positions strictly increase with `j`, so the original
/// relative order is preserved.
pub proof fn lemma_ready_list_is_ordered_subsequence(results: Seq<Option<PluginInfoV>>, j: int)
    requires
        0 <= j < loaded_infos(results).len(),
    ensures
        0 <= source_position(results, j) < results.len(),
        results[source_position(results, j)] == Some(loaded_infos(results)[j]),
        j > 0 ==> source_position(results, j - 1) < source_position(results, j),
    decreases results.len(),
{
    let rest = results.drop_last();
    if results.last() is Some {
        if j == loaded_infos(results).len() - 1 {
            if j > 0 {
                lemma_ready_list_is_ordered_subsequence(rest, j - 1);
            }
        } else {
            lemma_ready_list_is_ordered_subsequence(rest, j);
            if j > 0 {
                lemma_ready_list_is_ordered_subsequence(rest, j - 1);
            }
        }
    } else {
        lemma_ready_list_is_ordered_subsequence(rest, j);
        if j > 0 {
            lemma_ready_list_is_ordered_subsequence(rest, j - 1);
        }
    }
}

/// Law (handshake list omissions): exactly the load failures are
/// omitted — every load that succeeded is reported, from its own request
/// position.
pub proof fn lemma_ready_list_omits_only_failures(results: Seq<Option<PluginInfoV>>, i: int)
    requires
        0 <= i < results.len(),
        results[i] is Some,
    ensures
        exists|j: int|
            0 <= j < loaded_infos(results).len() && source_position(results, j) == i,
    decreases results.len(),
{
    let rest = results.drop_last();
    if results.last() is Some && i == results.len() - 1 {
        let jw = loaded_infos(results).len() - 1;
        assert(0 <= jw < loaded_infos(results).len() && source_position(results, jw) == i);
    } else {
        lemma_ready_list_omits_only_failures(rest, i);
        let jw = choose|j: int|
            0 <= j < loaded_infos(rest).len() && source_position(rest, j) == i;
        if results.last() is Some {
            assert(loaded_infos(results).len() == loaded_infos(rest).len() + 1);
            assert(jw != loaded_infos(results).len() - 1);
        }
        assert(0 <= jw < loaded_infos(results).len() && source_position(results, jw) == i);
    }
}

impl Registry {
    /// How many plugins are registered.
    pub fn len(&self) -> (r: usize)
        ensures
            r == self@.len(),
    {
        self.entries.len()
    }

    /// Build the registry from per-plugin load outcomes, given in request
    /// order: a loaded plugin contributes its reported identity, a load
    /// failure contributes nothing. No round is pending.
    pub fn from_load_results(results: Vec<Option<PluginInfo>>) -> (r: Registry)
        ensures
            r@ == fresh_entries(loaded_infos(results.deep_view())),
    {
        let ghost all: Seq<Option<PluginInfoV>> = results.deep_view();
        let mut entries: Vec<Entry> = Vec::new();
        let n = results.len();
        let mut i: usize = 0;
        proof {
            assert(all.take(0) =~= Seq::empty());
        }
        while i < n
            invariant
                n == results@.len(),
                all == results.deep_view(),
                all.len() == n,
                i <= n,
                entries@.map_values(|e: Entry| e@) == fresh_entries(
                    loaded_infos(all.take(i as int)),
                ),
            decreases n - i,
        {
            proof {
                assert(all.take(i + 1).drop_last() =~= all.take(i as int));
                assert(all.take(i + 1).last() == all[i as int]);
                assert(all[i as int] == results@[i as int].deep_view());
            }
            if results[i].is_some() {
                let p = results[i].as_ref().unwrap();
                proof {
                    assert(all[i as int] == Some(p@));
                    assert(loaded_infos(all.take(i + 1)) == loaded_infos(
                        all.take(i as int),
                    ).push(p@));
                }
                let entry = Entry { info: p.clone(), pending: None };
                let ghost pre = entries@;
                let ghost target = fresh_entries(loaded_infos(all.take(i + 1)));
                entries.push(entry);
                proof {
                    assert(entry@ == (EntryV { info: p@, pending: None }));
                    assert(pre.map_values(|e: Entry| e@).len() == pre.len());
                    assert(fresh_entries(loaded_infos(all.take(i as int))).len() == loaded_infos(
                        all.take(i as int),
                    ).len());
                    assert(target.len() == loaded_infos(all.take(i as int)).push(p@).len());
                    assert(target.len() == pre.len() + 1);
                    assert forall|j: int| 0 <= j < entries@.len() implies entries@.map_values(
                        |e: Entry| e@,
                    )[j] == target[j] by {
                        if j < pre.len() {
                            assert(entries@[j] == pre[j]);
                            assert(pre.map_values(|e: Entry| e@)[j] == fresh_entries(
                                loaded_infos(all.take(i as int)),
                            )[j]);
                            assert(target[j] == (EntryV {
                                info: loaded_infos(all.take(i as int))[j],
                                pending: None,
                            }));
                        } else {
                            assert(entries@[j] == entry);
                        }
                    }
                    assert(entries@.map_values(|e: Entry| e@) =~= target);
                }
            } else {
                proof {
                    assert(all[i as int] is None);
                    assert(loaded_infos(all.take(i + 1)) == loaded_infos(all.take(i as int)));
                }
            }
            i = i + 1;
        }
        proof {
            assert(all.take(n as int) =~= all);
        }
        Registry { entries }
    }

    /// The identities of the loaded plugins, in load order. This is the
    /// list the handshake reports; it never fails.
    pub fn list(&self) -> (r: Vec<PluginInfo>)
        ensures
            r@.map_values(|p: PluginInfo| p@) == infos(self@),
    {
        let mut out: Vec<PluginInfo> = Vec::new();
        let n = self.entries.len();
        let mut i: usize = 0;
        while i < n
            invariant
                n == self.entries@.len(),
                i <= n,
                out@.len() == i,
                forall|j: int| 0 <= j < i ==> out@[j]@ == self@[j].info,
            decreases n - i,
        {
            out.push(self.entries[i].info.clone());
            i = i + 1;
        }
        proof {
            assert(out@.map_values(|p: PluginInfo| p@) =~= infos(self@));
        }
        out
    }

    /// The position of the first entry whose identity equals `p` by
    /// value, or `None` when the subscriber referenced a plugin that is
    /// not in this session.
    pub fn find(&self, p: &PluginInfo) -> (r: Option<usize>)
        ensures
            match r {
                Some(i) => first_match(self@, p@) == Some(i as int),
                None => first_match(self@, p@) is None,
            },
    {
        let n = self.entries.len();
        let mut i: usize = 0;
        while i < n
            invariant
                n == self@.len(),
                n == self.entries@.len(),
                i <= n,
                forall|j: int| 0 <= j < i ==> self@[j].info != p@,
            decreases n - i,
        {
            if crate::protocol::info_eq(&self.entries[i].info, p) {
                proof {
                    lemma_first_match_characterization(self@, p@);
                    assert(self@[i as int].info == p@);
                    match first_match(self@, p@) {
                        Some(k) => {
                            assert(k == i as int) by {
                                if k < i as int {
                                    assert(self@[k].info != p@);
                                } else if k > i as int {
                                    assert(self@[i as int].info != p@);
                                }
                            }
                        },
                        None => {
                            assert(false);
                        },
                    }
                }
                return Some(i);
            }
            i = i + 1;
        }
        proof {
            lemma_first_match_characterization(self@, p@);
            if first_match(self@, p@) is Some {
                let k = first_match(self@, p@)->Some_0;
                assert(self@[k].info != p@);
            }
        }
        None
    }

    /// Discard every pending round. Identities and order are untouched.
    pub fn clear_pending(&mut self)
        ensures
            final(self)@ == all_cleared(old(self)@),
    {
        let n = self.entries.len();
        let mut i: usize = 0;
        while i < n
            invariant
                n == self.entries@.len(),
                n == old(self)@.len(),
                i <= n,
                forall|j: int|
                    0 <= j < n ==> self.entries@[j]@ == if j < i {
                        all_cleared(old(self)@)[j]
                    } else {
                        old(self)@[j]
                    },
            decreases n - i,
        {
            self.entries[i].pending = None;
            i = i + 1;
        }
        proof {
            assert(final(self)@ =~= all_cleared(old(self)@));
        }
    }

    /// Mark every entry as awaiting the given round, replacing (and so
    /// superseding) whatever round was pending before.
    pub fn begin_round(&mut self, round: u64)
        ensures
            final(self)@ == all_pending(old(self)@, round),
    {
        let n = self.entries.len();
        let mut i: usize = 0;
        while i < n
            invariant
                n == self.entries@.len(),
                n == old(self)@.len(),
                i <= n,
                forall|j: int|
                    0 <= j < n ==> self.entries@[j]@ == if j < i {
                        all_pending(old(self)@, round)[j]
                    } else {
                        old(self)@[j]
                    },
            decreases n - i,
        {
            self.entries[i].pending = Some(round);
            i = i + 1;
        }
        proof {
            assert(final(self)@ =~= all_pending(old(self)@, round));
        }
    }

    /// Accept a worker's result for `round` at `index`: report whether
    /// that exact round is still awaited there, and if so clear it. A
    /// stale or superseded result changes nothing and is reported as not
    /// taken.
    pub fn take_ready(&mut self, index: usize, round: u64) -> (r: bool)
        requires
            index < old(self)@.len(),
        ensures
            r == (old(self)@[index as int].pending == Some(round)),
            r ==> final(self)@ == old(self)@.update(
                index as int,
                EntryV { info: old(self)@[index as int].info, pending: None },
            ),
            !r ==> final(self)@ == old(self)@,
    {
        let hit = match self.entries[index].pending {
            Some(pending_round) => pending_round == round,
            None => false,
        };
        if hit {
            self.entries[index].pending = None;
            proof {
                assert(final(self)@ =~= old(self)@.update(
                    index as int,
                    EntryV { info: old(self)@[index as int].info, pending: None },
                ));
            }
        } else {
            proof {
                assert(final(self)@ =~= old(self)@);
            }
        }
        hit
    }
}

} // verus!
