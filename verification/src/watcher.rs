//! The filesystem watchers that are running, one per game.
//!
//! Watching a game's mod folder replaces the watcher it had before, and
//! unwatching drops it; the registry hands the replaced or removed watcher
//! back so that dropping it stops the watch. Creating watchers and
//! forwarding their events happen around this registry.

use vstd::prelude::*;
use crate::text::{chars_eq, chars_of};

verus! {

/// The running watchers, by game identifier.
pub struct WatcherRegistry<W> {
    watchers: Vec<(String, W)>,
}

pub open spec fn ids_unique<W>(s: Seq<(String, W)>) -> bool {
    forall|i: int, j: int|
        0 <= i < s.len() && 0 <= j < s.len() && i != j ==> (#[trigger] s[i]).0@ != (#[trigger] s[j]).0@
}

/// The watchers as a map from game identifier to watcher.
pub open spec fn watcher_map<W>(s: Seq<(String, W)>) -> Map<Seq<char>, W>
    decreases s.len(),
{
    if s.len() == 0 {
        Map::<Seq<char>, W>::empty()
    } else {
        watcher_map(s.drop_last()).insert(s.last().0@, s.last().1)
    }
}

proof fn lemma_unique_prefix<W>(s: Seq<(String, W)>)
    requires
        ids_unique(s),
        s.len() > 0,
    ensures
        ids_unique(s.drop_last()),
{
    let p = s.drop_last();
    assert forall|a: int, b: int|
        0 <= a < p.len() && 0 <= b < p.len() && a != b implies (#[trigger] p[a]).0@ != (
        #[trigger] p[b]).0@ by {
        assert(s[a].0@ != s[b].0@);
    }
}

proof fn lemma_absent<W>(s: Seq<(String, W)>, k: Seq<char>)
    requires
        forall|i: int| 0 <= i < s.len() ==> s[i].0@ != k,
    ensures
        !watcher_map(s).dom().contains(k),
    decreases s.len(),
{
    if s.len() > 0 {
        lemma_absent(s.drop_last(), k);
    }
}

proof fn lemma_lookup<W>(s: Seq<(String, W)>, i: int)
    requires
        ids_unique(s),
        0 <= i < s.len(),
    ensures
        watcher_map(s).dom().contains(s[i].0@),
        watcher_map(s)[s[i].0@] == s[i].1,
    decreases s.len(),
{
    if i < s.len() - 1 {
        lemma_unique_prefix(s);
        lemma_lookup(s.drop_last(), i);
        assert(s[s.len() - 1].0@ != s[i].0@);
    }
}

proof fn lemma_update<W>(s: Seq<(String, W)>, i: int, e: (String, W))
    requires
        ids_unique(s),
        0 <= i < s.len(),
        s[i].0@ == e.0@,
    ensures
        watcher_map(s.update(i, e)) == watcher_map(s).insert(e.0@, e.1),
        ids_unique(s.update(i, e)),
    decreases s.len(),
{
    let t = s.update(i, e);
    if i == s.len() - 1 {
        assert(t.drop_last() =~= s.drop_last());
        assert(watcher_map(t) =~= watcher_map(s).insert(e.0@, e.1));
    } else {
        assert(t.drop_last() =~= s.drop_last().update(i, e));
        lemma_unique_prefix(s);
        lemma_update(s.drop_last(), i, e);
        assert(s[s.len() - 1].0@ != s[i].0@);
        assert(watcher_map(t) =~= watcher_map(s).insert(e.0@, e.1));
    }
    assert forall|a: int, b: int|
        0 <= a < t.len() && 0 <= b < t.len() && a != b implies (#[trigger] t[a]).0@ != (
        #[trigger] t[b]).0@ by {
        if a != i && b != i {
            assert(s[a].0@ != s[b].0@);
        } else if a == i {
            assert(s[i].0@ != s[b].0@);
        } else {
            assert(s[a].0@ != s[i].0@);
        }
    }
}

proof fn lemma_push<W>(s: Seq<(String, W)>, e: (String, W))
    requires
        ids_unique(s),
        forall|i: int| 0 <= i < s.len() ==> s[i].0@ != e.0@,
    ensures
        watcher_map(s.push(e)) == watcher_map(s).insert(e.0@, e.1),
        ids_unique(s.push(e)),
{
    let t = s.push(e);
    assert(t.drop_last() =~= s);
    assert forall|a: int, b: int|
        0 <= a < t.len() && 0 <= b < t.len() && a != b implies (#[trigger] t[a]).0@ != (
        #[trigger] t[b]).0@ by {
        if a < s.len() && b < s.len() {
            assert(s[a].0@ != s[b].0@);
        }
    }
}

proof fn lemma_remove<W>(s: Seq<(String, W)>, i: int)
    requires
        ids_unique(s),
        0 <= i < s.len(),
    ensures
        watcher_map(s.remove(i)) == watcher_map(s).remove(s[i].0@),
        ids_unique(s.remove(i)),
    decreases s.len(),
{
    let t = s.remove(i);
    let k = s[i].0@;
    lemma_unique_prefix(s);
    if i == s.len() - 1 {
        assert(t =~= s.drop_last());
        assert forall|j: int| 0 <= j < t.len() implies t[j].0@ != k by {
            assert(s[j].0@ != s[i].0@);
        }
        lemma_absent(t, k);
        assert(watcher_map(t) =~= watcher_map(s).remove(k));
    } else {
        assert(t.drop_last() =~= s.drop_last().remove(i));
        assert(t.last() == s.last());
        lemma_remove(s.drop_last(), i);
        assert(s[s.len() - 1].0@ != s[i].0@);
        assert(watcher_map(t) =~= watcher_map(s).remove(k));
    }
    assert forall|a: int, b: int|
        0 <= a < t.len() && 0 <= b < t.len() && a != b implies (#[trigger] t[a]).0@ != (
        #[trigger] t[b]).0@ by {
        let a0 = if a < i { a } else { a + 1 };
        let b0 = if b < i { b } else { b + 1 };
        assert(t[a] == s[a0]);
        assert(t[b] == s[b0]);
        assert(s[a0].0@ != s[b0].0@);
    }
}

impl<W> View for WatcherRegistry<W> {
    type V = Map<Seq<char>, W>;

    closed spec fn view(&self) -> Map<Seq<char>, W> {
        watcher_map(self.watchers@)
    }
}

impl<W> WatcherRegistry<W> {
    #[verifier::type_invariant]
    spec fn inv(&self) -> bool {
        ids_unique(self.watchers@)
    }

    /// A registry with no watcher running.
    pub fn new() -> (r: WatcherRegistry<W>)
        ensures
            r@ == Map::<Seq<char>, W>::empty(),
    {
        WatcherRegistry { watchers: Vec::new() }
    }

    fn find(&self, game_id: &str) -> (r: Option<usize>)
        ensures
            match r {
                Some(i) => i < self.watchers@.len() && self.watchers@[i as int].0@ == game_id@,
                None => forall|i: int|
                    0 <= i < self.watchers@.len() ==> self.watchers@[i].0@ != game_id@,
            },
    {
        let kv: Vec<char> = chars_of(game_id);
        let mut i: usize = 0;
        while i < self.watchers.len()
            invariant
                i <= self.watchers@.len(),
                kv@ == game_id@,
                forall|j: int| 0 <= j < i ==> self.watchers@[j].0@ != game_id@,
            decreases self.watchers@.len() - i,
        {
            let cur: Vec<char> = chars_of(self.watchers[i].0.as_str());
            if chars_eq(&cur, &kv) {
                return Some(i);
            }
            i = i + 1;
        }
        None
    }

    /// Whether a watcher runs for `game_id`.
    pub fn is_watching(&self, game_id: &str) -> (r: bool)
        ensures
            r == self@.dom().contains(game_id@),
    {
        proof {
            use_type_invariant(self);
        }
        match self.find(game_id) {
            Some(i) => {
                proof {
                    lemma_lookup(self.watchers@, i as int);
                }
                true
            },
            None => {
                proof {
                    lemma_absent(self.watchers@, game_id@);
                }
                false
            },
        }
    }

    /// Records `watcher` as the one running for `game_id`, and hands back
    /// the watcher it replaces, if any.
    pub fn watch(&mut self, game_id: &str, watcher: W) -> (replaced: Option<W>)
        ensures
            final(self)@ == old(self)@.insert(game_id@, watcher),
            match replaced {
                Some(w) => old(self)@.dom().contains(game_id@) && old(self)@[game_id@] == w,
                None => !old(self)@.dom().contains(game_id@),
            },
    {
        proof {
            use_type_invariant(&*self);
        }
        let found: Option<usize> = self.find(game_id);
        let mut v: Vec<(String, W)> = Vec::new();
        std::mem::swap(&mut v, &mut self.watchers);
        let ghost s = v@;
        let entry: (String, W) = (game_id.to_owned(), watcher);
        match found {
            Some(i) => {
                proof {
                    lemma_lookup(s, i as int);
                    lemma_update(s, i as int, entry);
                }
                let (_, old_watcher) = v.remove(i);
                v.insert(i, entry);
                assert(v@ =~= s.update(i as int, entry));
                self.watchers = v;
                Some(old_watcher)
            },
            None => {
                proof {
                    lemma_absent(s, game_id@);
                    lemma_push(s, entry);
                }
                v.push(entry);
                self.watchers = v;
                None
            },
        }
    }

    /// Stops tracking the watcher for `game_id` and hands it back, so that
    /// dropping it ends the watch. Nothing happens for a game without one.
    pub fn unwatch(&mut self, game_id: &str) -> (removed: Option<W>)
        ensures
            final(self)@ == old(self)@.remove(game_id@),
            match removed {
                Some(w) => old(self)@.dom().contains(game_id@) && old(self)@[game_id@] == w,
                None => !old(self)@.dom().contains(game_id@),
            },
    {
        proof {
            use_type_invariant(&*self);
        }
        let found: Option<usize> = self.find(game_id);
        match found {
            Some(i) => {
                let mut v: Vec<(String, W)> = Vec::new();
                std::mem::swap(&mut v, &mut self.watchers);
                let ghost s = v@;
                proof {
                    lemma_lookup(s, i as int);
                    lemma_remove(s, i as int);
                }
                let (_, w) = v.remove(i);
                self.watchers = v;
                Some(w)
            },
            None => {
                proof {
                    lemma_absent(self.watchers@, game_id@);
                    assert(self@.remove(game_id@) =~= self@);
                }
                None
            },
        }
    }
}

} // verus!
