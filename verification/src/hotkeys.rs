//! Which global shortcut is bound to which preset.
//!
//! The registry remembers, per preset, the shortcut currently registered
//! with the operating system, so that changing or clearing a preset's
//! hotkey unregisters the old one instead of leaking it. The registration
//! itself happens around these functions.

use vstd::prelude::*;
use crate::text::{chars_eq, chars_of};

verus! {

/// The shortcuts registered for presets, by preset identifier.
#[derive(Debug)]
pub struct HotkeyRegistry {
    bound_shortcuts: Vec<(String, String)>,
}

pub open spec fn pair_keys_unique(s: Seq<(String, String)>) -> bool {
    forall|i: int, j: int|
        0 <= i < s.len() && 0 <= j < s.len() && i != j ==> (#[trigger] s[i]).0@ != (#[trigger] s[j]).0@
}

/// The bindings as a map from preset identifier to shortcut.
pub open spec fn binding_map(s: Seq<(String, String)>) -> Map<Seq<char>, Seq<char>>
    decreases s.len(),
{
    if s.len() == 0 {
        Map::<Seq<char>, Seq<char>>::empty()
    } else {
        binding_map(s.drop_last()).insert(s.last().0@, s.last().1@)
    }
}

proof fn lemma_binding_update(s: Seq<(String, String)>, i: int, e: (String, String))
    requires
        pair_keys_unique(s),
        0 <= i < s.len(),
        s[i].0@ == e.0@,
    ensures
        binding_map(s.update(i, e)) == binding_map(s).insert(e.0@, e.1@),
        pair_keys_unique(s.update(i, e)),
    decreases s.len(),
{
    let t = s.update(i, e);
    if i == s.len() - 1 {
        assert(t.drop_last() =~= s.drop_last());
        assert(binding_map(t) =~= binding_map(s).insert(e.0@, e.1@));
    } else {
        assert(t.drop_last() =~= s.drop_last().update(i, e));
        lemma_binding_update(s.drop_last(), i, e);
        assert(s[s.len() - 1].0@ != s[i].0@);
        assert(binding_map(t) =~= binding_map(s).insert(e.0@, e.1@));
    }
    assert forall|a: int, b: int|
        0 <= a < t.len() && 0 <= b < t.len() && a != b implies (#[trigger] t[a]).0@ != (
        #[trigger] t[b]).0@ by {
        if a != i && b != i {
            assert(s[a].0@ != s[b].0@);
        } else if a == i {
            assert(s[i].0@ != s[b].0@);
        } else {
            assert(s[a].0@ != s[i].0@);
        }
    }
}

proof fn lemma_binding_push(s: Seq<(String, String)>, e: (String, String))
    requires
        pair_keys_unique(s),
        forall|i: int| 0 <= i < s.len() ==> s[i].0@ != e.0@,
    ensures
        binding_map(s.push(e)) == binding_map(s).insert(e.0@, e.1@),
        pair_keys_unique(s.push(e)),
{
    let t = s.push(e);
    assert(t.drop_last() =~= s);
    assert forall|a: int, b: int|
        0 <= a < t.len() && 0 <= b < t.len() && a != b implies (#[trigger] t[a]).0@ != (
        #[trigger] t[b]).0@ by {
        if a < s.len() && b < s.len() {
            assert(s[a].0@ != s[b].0@);
        }
    }
}

proof fn lemma_binding_lookup(s: Seq<(String, String)>, i: int)
    requires
        pair_keys_unique(s),
        0 <= i < s.len(),
    ensures
        binding_map(s).dom().contains(s[i].0@),
        binding_map(s)[s[i].0@] == s[i].1@,
    decreases s.len(),
{
    if i < s.len() - 1 {
        let p = s.drop_last();
        assert(pair_keys_unique(p)) by {
            assert forall|a: int, b: int|
                0 <= a < p.len() && 0 <= b < p.len() && a != b implies (#[trigger] p[a]).0@ != (
                #[trigger] p[b]).0@ by {
                assert(s[a].0@ != s[b].0@);
            }
        }
        lemma_binding_lookup(p, i);
        assert(s[s.len() - 1].0@ != s[i].0@);
    }
}

proof fn lemma_binding_absent(s: Seq<(String, String)>, k: Seq<char>)
    requires
        forall|i: int| 0 <= i < s.len() ==> s[i].0@ != k,
    ensures
        !binding_map(s).dom().contains(k),
    decreases s.len(),
{
    if s.len() > 0 {
        lemma_binding_absent(s.drop_last(), k);
    }
}

/// The bindings of `s` other than the one for `k`.
pub open spec fn without_binding(s: Seq<(String, String)>, k: Seq<char>) -> Seq<(String, String)>
    decreases s.len(),
{
    if s.len() == 0 {
        Seq::<(String, String)>::empty()
    } else if s.last().0@ == k {
        without_binding(s.drop_last(), k)
    } else {
        without_binding(s.drop_last(), k).push(s.last())
    }
}

proof fn lemma_without_binding(s: Seq<(String, String)>, k: Seq<char>)
    requires
        pair_keys_unique(s),
    ensures
        binding_map(without_binding(s, k)) == binding_map(s).remove(k),
        pair_keys_unique(without_binding(s, k)),
        forall|j: int|
            0 <= j < without_binding(s, k).len() ==> exists|i: int|
                0 <= i < s.len() && #[trigger] without_binding(s, k)[j] == s[i],
    decreases s.len(),
{
    if s.len() > 0 {
        let p = s.drop_last();
        assert(pair_keys_unique(p)) by {
            assert forall|a: int, b: int|
                0 <= a < p.len() && 0 <= b < p.len() && a != b implies (#[trigger] p[a]).0@ != (
                #[trigger] p[b]).0@ by {
                assert(s[a].0@ != s[b].0@);
            }
        }
        lemma_without_binding(p, k);
        let w = without_binding(p, k);
        assert forall|j: int| 0 <= j < w.len() implies #[trigger] w[j].0@ != s.last().0@ by {
            let i = choose|i: int| 0 <= i < p.len() && w[j] == p[i];
            assert(s[i].0@ != s[s.len() - 1].0@);
        }
        if s.last().0@ == k {
            assert forall|i: int| 0 <= i < p.len() implies p[i].0@ != k by {
                assert(s[i].0@ != s[s.len() - 1].0@);
            }
            lemma_binding_absent(p, k);
            assert(binding_map(w) =~= binding_map(s).remove(k));
        } else {
            lemma_binding_push(w, s.last());
            assert(binding_map(without_binding(s, k)) =~= binding_map(s).remove(k));
            assert forall|j: int| 0 <= j < without_binding(s, k).len() implies exists|i: int|
                0 <= i < s.len() && #[trigger] without_binding(s, k)[j] == s[i] by {
                if j < w.len() {
                    let i = choose|i: int| 0 <= i < p.len() && w[j] == p[i];
                    assert(without_binding(s, k)[j] == s[i]);
                } else {
                    assert(without_binding(s, k)[j] == s[s.len() - 1]);
                }
            }
        }
    }
}

impl View for HotkeyRegistry {
    type V = Map<Seq<char>, Seq<char>>;

    closed spec fn view(&self) -> Map<Seq<char>, Seq<char>> {
        binding_map(self.bound_shortcuts@)
    }
}

impl HotkeyRegistry {
    #[verifier::type_invariant]
    spec fn inv(&self) -> bool {
        pair_keys_unique(self.bound_shortcuts@)
    }

    /// A registry with nothing bound.
    pub fn new() -> (r: HotkeyRegistry)
        ensures
            r@ == Map::<Seq<char>, Seq<char>>::empty(),
    {
        HotkeyRegistry { bound_shortcuts: Vec::new() }
    }

    fn find(&self, preset_id: &str) -> (r: Option<usize>)
        ensures
            match r {
                Some(i) => i < self.bound_shortcuts@.len() && self.bound_shortcuts@[i as int].0@
                    == preset_id@,
                None => forall|i: int|
                    0 <= i < self.bound_shortcuts@.len() ==> self.bound_shortcuts@[i].0@
                        != preset_id@,
            },
    {
        let kv: Vec<char> = chars_of(preset_id);
        let mut i: usize = 0;
        while i < self.bound_shortcuts.len()
            invariant
                i <= self.bound_shortcuts@.len(),
                kv@ == preset_id@,
                forall|j: int| 0 <= j < i ==> self.bound_shortcuts@[j].0@ != preset_id@,
            decreases self.bound_shortcuts@.len() - i,
        {
            let cur: Vec<char> = chars_of(self.bound_shortcuts[i].0.as_str());
            if chars_eq(&cur, &kv) {
                return Some(i);
            }
            i = i + 1;
        }
        None
    }

    /// The shortcut registered for a preset, if any.
    pub fn shortcut_for(&self, preset_id: &str) -> (r: Option<String>)
        ensures
            match r {
                Some(s) => self@.dom().contains(preset_id@) && self@[preset_id@] == s@,
                None => !self@.dom().contains(preset_id@),
            },
    {
        proof {
            use_type_invariant(self);
        }
        match self.find(preset_id) {
            Some(i) => {
                proof {
                    lemma_binding_lookup(self.bound_shortcuts@, i as int);
                }
                Some(self.bound_shortcuts[i].1.clone())
            },
            None => {
                proof {
                    lemma_binding_absent(self.bound_shortcuts@, preset_id@);
                }
                None
            },
        }
    }

    /// Records that `shortcut` is now registered for `preset_id`, replacing
    /// what was recorded for it.
    pub fn bind(&mut self, preset_id: &str, shortcut: &str)
        ensures
            final(self)@ == old(self)@.insert(preset_id@, shortcut@),
    {
        proof {
            use_type_invariant(&*self);
        }
        let entry: (String, String) = (preset_id.to_owned(), shortcut.to_owned());
        match self.find(preset_id) {
            Some(i) => {
                proof {
                    lemma_binding_update(self.bound_shortcuts@, i as int, entry);
                }
                let mut v: Vec<(String, String)> = Vec::new();
                std::mem::swap(&mut v, &mut self.bound_shortcuts);
                v.set(i, entry);
                self.bound_shortcuts = v;
            },
            None => {
                proof {
                    lemma_binding_push(self.bound_shortcuts@, entry);
                }
                let mut v: Vec<(String, String)> = Vec::new();
                std::mem::swap(&mut v, &mut self.bound_shortcuts);
                v.push(entry);
                self.bound_shortcuts = v;
            },
        }
    }

    /// Forgets the shortcut recorded for `preset_id` and returns it, so that
    /// it can be unregistered.
    pub fn unbind(&mut self, preset_id: &str) -> (r: Option<String>)
        ensures
            final(self)@ == old(self)@.remove(preset_id@),
            match r {
                Some(s) => old(self)@.dom().contains(preset_id@) && old(self)@[preset_id@] == s@,
                None => !old(self)@.dom().contains(preset_id@),
            },
    {
        proof {
            use_type_invariant(&*self);
        }
        let previous: Option<String> = self.shortcut_for(preset_id);
        let ghost s = self.bound_shortcuts@;
        let kv: Vec<char> = chars_of(preset_id);
        let mut out: Vec<(String, String)> = Vec::new();
        let mut k: usize = 0;
        while k < self.bound_shortcuts.len()
            invariant
                k <= self.bound_shortcuts@.len(),
                s == self.bound_shortcuts@,
                kv@ == preset_id@,
                out@ == without_binding(s.subrange(0, k as int), preset_id@),
            decreases self.bound_shortcuts@.len() - k,
        {
            let ghost pre = s.subrange(0, k as int);
            let cur: Vec<char> = chars_of(self.bound_shortcuts[k].0.as_str());
            if !chars_eq(&cur, &kv) {
                let e: (String, String) = (
                    self.bound_shortcuts[k].0.clone(),
                    self.bound_shortcuts[k].1.clone(),
                );
                assert(e == s[k as int]);
                out.push(e);
            }
            k = k + 1;
            proof {
                let post = s.subrange(0, k as int);
                assert(post.drop_last() =~= pre);
                assert(post.last() == s[k - 1]);
            }
        }
        assert(s.subrange(0, s.len() as int) =~= s);
        proof {
            lemma_without_binding(s, preset_id@);
        }
        self.bound_shortcuts = out;
        previous
    }
}

} // verus!
