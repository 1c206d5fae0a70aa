//! The macro table: an insertion-ordered mapping from macro name to an
//! optional replacement text, and the substitution pass applied to the
//! assembled source.
//!
//! A name that is present is "defined"; a present name without a value is a
//! bare flag. The table keeps one entry per name, in insertion order, and the
//! substitution pass walks the entries in that order, so a single build is
//! deterministic.

use vstd::prelude::*;

verus! {

/// The mathematical model of a macro table: the entries in order.
pub type Defs = Seq<(Seq<char>, Option<Seq<char>>)>;

/// Whether `name` is defined in `defs`.
pub open spec fn defs_contains(defs: Defs, name: Seq<char>) -> bool {
    exists|k: int| 0 <= k < defs.len() && defs[k].0 == name
}

/// The index of `name` in `defs`; meaningful when each name occurs once.
pub open spec fn defs_index(defs: Defs, name: Seq<char>) -> int {
    choose|k: int| 0 <= k < defs.len() && defs[k].0 == name
}

/// `defs` with `name` bound to `val`: the entry is updated in place when the
/// name is already present, and appended otherwise.
pub open spec fn defs_insert(defs: Defs, name: Seq<char>, val: Option<Seq<char>>) -> Defs {
    if defs_contains(defs, name) {
        defs.update(defs_index(defs, name), (name, val))
    } else {
        defs.push((name, val))
    }
}

/// `defs` without `name`.
pub open spec fn defs_remove(defs: Defs, name: Seq<char>) -> Defs {
    if defs_contains(defs, name) {
        defs.remove(defs_index(defs, name))
    } else {
        defs
    }
}

/// Each name occurs at most once.
pub open spec fn defs_wf(defs: Defs) -> bool {
    forall|i: int, j: int| 0 <= i < j < defs.len() ==> defs[i].0 != defs[j].0
}

/// The view of one stored entry.
pub open spec fn entry_view(e: (Vec<char>, Option<Vec<char>>)) -> (Seq<char>, Option<Seq<char>>) {
    (
        e.0@,
        match e.1 {
            Some(v) => Some(v@),
            None => None,
        },
    )
}

/// The macro table held by a builder.
pub struct MacroTable {
    entries: Vec<(Vec<char>, Option<Vec<char>>)>,
}

impl View for MacroTable {
    type V = Defs;

    closed spec fn view(&self) -> Defs {
        self.entries@.map_values(|e: (Vec<char>, Option<Vec<char>>)| entry_view(e))
    }
}

impl MacroTable {
    /// The table never holds two entries for one name.
    pub open spec fn wf(&self) -> bool {
        defs_wf(self@)
    }

    pub fn new() -> (r: MacroTable)
        ensures
            r@ == Seq::<(Seq<char>, Option<Seq<char>>)>::empty(),
            r.wf(),
    {
        let r = MacroTable { entries: Vec::new() };
        proof {
            assert(r@ =~= Seq::<(Seq<char>, Option<Seq<char>>)>::empty());
        }
        r
    }

    pub fn clone_table(&self) -> (r: MacroTable)
        ensures
            r@ == self@,
            self.wf() ==> r.wf(),
    {
        let mut entries: Vec<(Vec<char>, Option<Vec<char>>)> = Vec::new();
        let mut k: usize = 0;
        while k < self.entries.len()
            invariant
                k <= self.entries@.len(),
                entries@.len() == k,
                forall|j: int| 0 <= j < k ==> entry_view(#[trigger] entries@[j]) == entry_view(
                    self.entries@[j],
                ),
            decreases self.entries@.len() - k,
        {
            let name = crate::text::subvec(&self.entries[k].0, 0, self.entries[k].0.len());
            let value = match &self.entries[k].1 {
                Some(v) => Some(crate::text::subvec(v, 0, v.len())),
                None => None,
            };
            proof {
                assert(name@ =~= self.entries@[k as int].0@);
                assert(entry_view((name, value)) == entry_view(self.entries@[k as int]));
            }
            entries.push((name, value));
            k = k + 1;
        }
        let r = MacroTable { entries };
        proof {
            assert(r@ =~= self@);
        }
        r
    }

    /// The index of the entry for `name`, when there is one.
    fn find(&self, name: &Vec<char>) -> (r: Option<usize>)
        ensures
            match r {
                Some(k) => k < self@.len() && self@[k as int].0 == name@ && forall|j: int|
                    0 <= j < k ==> self@[j].0 != name@,
                None => !defs_contains(self@, name@),
            },
    {
        let mut k: usize = 0;
        while k < self.entries.len()
            invariant
                k <= self.entries@.len(),
                self@.len() == self.entries@.len(),
                forall|j: int| 0 <= j < k ==> self@[j].0 != name@,
            decreases self.entries@.len() - k,
        {
            if crate::text::chars_eq(&self.entries[k].0, name) {
                proof {
                    assert(self@[k as int].0 == name@);
                }
                return Some(k);
            }
            k = k + 1;
        }
        None
    }

    /// Whether `name` is currently defined.
    pub fn contains(&self, name: &Vec<char>) -> (r: bool)
        ensures
            r == defs_contains(self@, name@),
    {
        match self.find(name) {
            Some(_) => true,
            None => false,
        }
    }

    /// Binds `name` to `val`, overwriting any earlier binding.
    pub fn insert(&mut self, name: Vec<char>, val: Option<Vec<char>>)
        requires
            old(self).wf(),
        ensures
            final(self)@ == defs_insert(old(self)@, name@, match val {
                Some(v) => Some(v@),
                None => None,
            }),
            final(self).wf(),
    {
        let ghost val_view = match &val {
            Some(v) => Some(v@),
            None => None,
        };
        match self.find(&name) {
            Some(k) => {
                proof {
                    assert(defs_contains(self@, name@));
                    assert(defs_index(self@, name@) == k as int);
                }
                self.entries.set(k, (name, val));
                proof {
                    assert(self@ =~= defs_insert(old(self)@, name@, val_view));
                }
            },
            None => {
                self.entries.push((name, val));
                proof {
                    assert(self@ =~= defs_insert(old(self)@, name@, val_view));
                }
            },
        }
    }

    /// Removes the binding of `name`; reports whether one was there.
    pub fn remove(&mut self, name: &Vec<char>) -> (r: bool)
        requires
            old(self).wf(),
        ensures
            r == defs_contains(old(self)@, name@),
            final(self)@ == defs_remove(old(self)@, name@),
            final(self).wf(),
    {
        match self.find(name) {
            Some(k) => {
                proof {
                    assert(defs_contains(self@, name@));
                    assert(defs_index(self@, name@) == k as int);
                }
                self.entries.remove(k);
                proof {
                    assert(self@ =~= defs_remove(old(self)@, name@));
                }
                true
            },
            None => false,
        }
    }

    /// Applies every valued entry to `text`, in table order.
    pub fn substitute(&self, text: Vec<char>) -> (r: Vec<char>)
        ensures
            r@ == substituted(text@, self@),
    {
        let ghost defs = self@;
        let ghost text0 = text@;
        let mut cur = text;
        let mut k: usize = 0;
        while k < self.entries.len()
            invariant
                k <= self.entries@.len(),
                defs == self@,
                defs.len() == self.entries@.len(),
                subst_from(text0, defs, 0) == subst_from(cur@, defs, k as int),
            decreases self.entries@.len() - k,
        {
            let next = match &self.entries[k].1 {
                Some(rep) => replace_all(&cur, &self.entries[k].0, rep),
                None => cur,
            };
            proof {
                assert(defs[k as int] == entry_view(self.entries@[k as int]));
                assert(subst_from(cur@, defs, k as int) == subst_from(next@, defs, k + 1));
            }
            cur = next;
            k = k + 1;
        }
        cur
    }
}

/// Whether `pat` occurs in `s` at position `i`.
pub open spec fn match_at(s: Seq<char>, pat: Seq<char>, i: int) -> bool {
    i + pat.len() <= s.len() && s.subrange(i, i + pat.len() as int) == pat
}

/// The text of `s` from position `i` on, with every occurrence of `pat`
/// replaced by `rep`, scanning left to right and never rescanning replaced
/// text.
pub open spec fn replace_from(s: Seq<char>, pat: Seq<char>, rep: Seq<char>, i: int) -> Seq<char>
    decreases s.len() - i
        when 0 <= i && pat.len() > 0
{
    if i >= s.len() {
        Seq::empty()
    } else if match_at(s, pat, i) {
        rep + replace_from(s, pat, rep, i + pat.len())
    } else {
        seq![s[i]] + replace_from(s, pat, rep, i + 1)
    }
}

/// `s` with every occurrence of `pat` replaced by `rep`. An empty pattern
/// replaces nothing.
pub open spec fn replace_text(s: Seq<char>, pat: Seq<char>, rep: Seq<char>) -> Seq<char> {
    if pat.len() == 0 {
        s
    } else {
        replace_from(s, pat, rep, 0)
    }
}

/// One entry applied to `text`: a flag changes nothing, a valued macro is
/// substituted.
pub open spec fn apply_entry(text: Seq<char>, e: (Seq<char>, Option<Seq<char>>)) -> Seq<char> {
    match e.1 {
        Some(rep) => replace_text(text, e.0, rep),
        None => text,
    }
}

/// `text` with the entries of `defs` from index `k` on applied in order.
pub open spec fn subst_from(text: Seq<char>, defs: Defs, k: int) -> Seq<char>
    decreases defs.len() - k
        when 0 <= k <= defs.len()
{
    if k >= defs.len() {
        text
    } else {
        subst_from(apply_entry(text, defs[k]), defs, k + 1)
    }
}

/// `text` with every valued macro of `defs` substituted, in table order.
pub open spec fn substituted(text: Seq<char>, defs: Defs) -> Seq<char> {
    subst_from(text, defs, 0)
}

/// Whether `pat` occurs in `s` at position `i`, tested by characters.
fn match_at_exec(s: &Vec<char>, pat: &Vec<char>, i: usize) -> (r: bool)
    requires
        i <= s@.len(),
    ensures
        r == match_at(s@, pat@, i as int),
{
    let n = s.len();
    if pat.len() > n - i {
        return false;
    }
    let mut k: usize = 0;
    while k < pat.len()
        invariant
            k <= pat@.len(),
            n == s@.len(),
            i + pat@.len() <= s@.len(),
            forall|j: int| 0 <= j < k ==> s@[i + j] == pat@[j],
        decreases pat@.len() - k,
    {
        assert(i + k < n);
        if s[i + k] != pat[k] {
            proof {
                assert(s@.subrange(i as int, i + pat@.len() as int)[k as int] != pat@[k as int]);
            }
            return false;
        }
        k = k + 1;
    }
    proof {
        assert(s@.subrange(i as int, i + pat@.len() as int) =~= pat@);
    }
    true
}

/// Replaces every occurrence of `pat` in `s` by `rep`, left to right.
fn replace_all(s: &Vec<char>, pat: &Vec<char>, rep: &Vec<char>) -> (r: Vec<char>)
    ensures
        r@ == replace_text(s@, pat@, rep@),
{
    if pat.len() == 0 {
        return crate::text::subvec(s, 0, s.len());
    }
    let mut out: Vec<char> = Vec::new();
    let mut i: usize = 0;
    while i < s.len()
        invariant
            i <= s@.len(),
            pat@.len() > 0,
            replace_from(s@, pat@, rep@, 0) == out@ + replace_from(s@, pat@, rep@, i as int),
        decreases s@.len() - i,
    {
        if match_at_exec(s, pat, i) {
            let mut k: usize = 0;
            let ghost mid = out@;
            while k < rep.len()
                invariant
                    k <= rep@.len(),
                    out@ == mid + rep@.subrange(0, k as int),
                decreases rep@.len() - k,
            {
                out.push(rep[k]);
                proof {
                    assert(out@ =~= mid + rep@.subrange(0, k + 1));
                }
                k = k + 1;
            }
            proof {
                assert(out@ =~= mid + rep@);
                assert(mid + (rep@ + replace_from(s@, pat@, rep@, i + pat@.len())) =~= out@
                    + replace_from(s@, pat@, rep@, i + pat@.len()));
            }
            i = i + pat.len();
        } else {
            proof {
                assert(out@ + (seq![s@[i as int]] + replace_from(s@, pat@, rep@, i + 1)) =~= out@.push(
                    s@[i as int],
                ) + replace_from(s@, pat@, rep@, i + 1));
            }
            out.push(s[i]);
            i = i + 1;
        }
    }
    proof {
        assert(replace_from(s@, pat@, rep@, i as int) =~= Seq::<char>::empty());
        assert(out@ + Seq::<char>::empty() =~= out@);
    }
    out
}

} // verus!
