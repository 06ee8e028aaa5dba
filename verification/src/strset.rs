//! A verified set of strings, kept as a strictly ascending vector.
//!
//! The state machine uses it for `unassigned_tasks` and
//! `unprocessed_extraction_events`. Keeping the vector sorted in
//! lexicographic id order makes the coordinator's iteration order the
//! ascending id order that the scheduling rules ask for, and makes the
//! representation of a given set unique, which the snapshot determinism
//! argument leans on.

use vstd::prelude::*;

use crate::table::lemma_map_of_congruence;
use crate::table::Table;

verus! {

/// Strict lexicographic order on character sequences.
pub open spec fn str_lt(a: Seq<char>, b: Seq<char>) -> bool
    decreases a.len(),
{
    if b.len() == 0 {
        false
    } else if a.len() == 0 {
        true
    } else if (a[0] as u32) < (b[0] as u32) {
        true
    } else if a[0] == b[0] {
        str_lt(a.drop_first(), b.drop_first())
    } else {
        false
    }
}

/// Exactly one of `a < b`, `a == b`, `b < a` holds.
pub proof fn lemma_str_lt_trichotomy(a: Seq<char>, b: Seq<char>)
    ensures
        str_lt(a, b) || a == b || str_lt(b, a),
        str_lt(a, b) ==> a != b && !str_lt(b, a),
        a == b ==> !str_lt(a, b) && !str_lt(b, a),
    decreases a.len(),
{
    if a.len() == 0 && b.len() == 0 {
        assert(a =~= b);
    } else if a.len() > 0 && b.len() > 0 {
        vstd::utf8::char_u32_cast(a[0], a[0] as u32);
        vstd::utf8::char_u32_cast(b[0], b[0] as u32);
        lemma_str_lt_trichotomy(a.drop_first(), b.drop_first());
        if a == b {
            assert(a.drop_first() =~= b.drop_first());
        }
        if (a[0] as u32) < (b[0] as u32) {
            assert(str_lt(a, b));
        } else if a[0] == b[0] {
            if a.drop_first() == b.drop_first() {
                assert forall|i: int| 0 <= i < a.len() implies a[i] == b[i] by {
                    if i > 0 {
                        assert(a.drop_first()[i - 1] == b.drop_first()[i - 1]);
                    }
                }
                assert(a =~= b);
            }
        } else {
            assert((b[0] as u32) < (a[0] as u32));
            assert(str_lt(b, a));
        }
    }
}

/// Lexicographic order is transitive.
pub proof fn lemma_str_lt_trans(a: Seq<char>, b: Seq<char>, c: Seq<char>)
    requires
        str_lt(a, b),
        str_lt(b, c),
    ensures
        str_lt(a, c),
    decreases a.len(),
{
    if a.len() > 0 && b.len() > 0 && c.len() > 0 {
        if a[0] == b[0] && b[0] == c[0] {
            lemma_str_lt_trans(a.drop_first(), b.drop_first(), c.drop_first());
        }
    }
}

/// Dropping a common prefix does not change the order.
pub proof fn lemma_str_lt_skip(a: Seq<char>, b: Seq<char>, i: int)
    requires
        0 <= i <= a.len(),
        i <= b.len(),
        forall|j: int| 0 <= j < i ==> a[j] == b[j],
    ensures
        str_lt(a, b) == str_lt(a.skip(i), b.skip(i)),
    decreases i,
{
    if i > 0 {
        assert(a.len() > 0 && b.len() > 0);
        assert(a[0] == b[0]);
        lemma_str_lt_skip(a.drop_first(), b.drop_first(), i - 1);
        assert(a.drop_first().skip(i - 1) =~= a.skip(i));
        assert(b.drop_first().skip(i - 1) =~= b.skip(i));
    } else {
        assert(a.skip(0) =~= a);
        assert(b.skip(0) =~= b);
    }
}

/// Compare two strings lexicographically.
pub fn str_is_lt(a: &String, b: &String) -> (r: bool)
    ensures
        r == str_lt(a@, b@),
{
    let an = a.as_str().unicode_len();
    let bn = b.as_str().unicode_len();
    let mut i: usize = 0;
    loop
        invariant
            an == a@.len(),
            bn == b@.len(),
            i <= an,
            i <= bn,
            forall|j: int| 0 <= j < i ==> a@[j] == b@[j],
        decreases an - i,
    {
        if i == an || i == bn {
            proof {
                lemma_str_lt_skip(a@, b@, i as int);
            }
            return an < bn;
        }
        let ca = a.as_str().get_char(i);
        let cb = b.as_str().get_char(i);
        if ca as u32 != cb as u32 {
            proof {
                lemma_str_lt_skip(a@, b@, i as int);
                assert(a@.skip(i as int)[0] == a@[i as int]);
                assert(b@.skip(i as int)[0] == b@[i as int]);
            }
            return (ca as u32) < (cb as u32);
        }
        i = i + 1;
    }
}

/// The set denoted by a sequence of strings.
pub open spec fn set_of(s: Seq<String>) -> Set<Seq<char>>
    decreases s.len(),
{
    if s.len() == 0 {
        Set::empty()
    } else {
        set_of(s.drop_last()).insert(s.last()@)
    }
}

pub proof fn lemma_set_of_contains(s: Seq<String>, k: Seq<char>)
    ensures
        set_of(s).contains(k) <==> exists|i: int| 0 <= i < s.len() && s[i]@ == k,
    decreases s.len(),
{
    if s.len() > 0 {
        lemma_set_of_contains(s.drop_last(), k);
        if s.last()@ == k {
            assert(s[s.len() - 1]@ == k);
        } else if set_of(s).contains(k) {
            let i = choose|i: int| 0 <= i < s.drop_last().len() && s.drop_last()[i]@ == k;
            assert(s[i]@ == k);
        } else if exists|i: int| 0 <= i < s.len() && s[i]@ == k {
            let i = choose|i: int| 0 <= i < s.len() && s[i]@ == k;
            assert(s.drop_last()[i]@ == k);
        }
    }
}

pub proof fn lemma_set_of_card(s: Seq<String>)
    requires
        forall|i: int, j: int| 0 <= i < j < s.len() ==> s[i]@ != s[j]@,
    ensures
        set_of(s).finite(),
        set_of(s).len() == s.len(),
    decreases s.len(),
{
    if s.len() > 0 {
        lemma_set_of_card(s.drop_last());
        lemma_set_of_contains(s.drop_last(), s.last()@);
    }
}

/// A set of strings whose representation is strictly ascending.
#[derive(PartialEq, Debug)]
pub struct StrSet {
    pub items: Vec<String>,
}

impl View for StrSet {
    type V = Set<Seq<char>>;

    open spec fn view(&self) -> Set<Seq<char>> {
        set_of(self.items@)
    }
}

impl StrSet {
    /// Well-formed: strictly ascending, hence duplicate-free.
    pub open spec fn wf(&self) -> bool {
        forall|i: int, j: int| 0 <= i < j < self.items@.len() ==> str_lt(
            self.items@[i]@,
            self.items@[j]@,
        )
    }

    pub proof fn lemma_distinct(&self)
        requires
            self.wf(),
        ensures
            forall|i: int, j: int| 0 <= i < j < self.items@.len() ==> self.items@[i]@
                != self.items@[j]@,
            self@.finite(),
            self@.len() == self.items@.len(),
    {
        assert forall|i: int, j: int| 0 <= i < j < self.items@.len() implies self.items@[i]@
            != self.items@[j]@ by {
            lemma_str_lt_trichotomy(self.items@[i]@, self.items@[j]@);
        }
        lemma_set_of_card(self.items@);
    }

    pub fn new() -> (r: Self)
        ensures
            r.wf(),
            r@ =~= Set::<Seq<char>>::empty(),
            r.items@.len() == 0,
    {
        StrSet { items: Vec::new() }
    }

    pub fn len(&self) -> (n: usize)
        requires
            self.wf(),
        ensures
            n == self.items@.len(),
            n == self@.len(),
    {
        proof {
            self.lemma_distinct();
        }
        self.items.len()
    }

    pub fn is_empty(&self) -> (r: bool)
        requires
            self.wf(),
        ensures
            r == (self@ =~= Set::<Seq<char>>::empty()),
    {
        proof {
            self.lemma_distinct();
            if self.items@.len() > 0 {
                lemma_set_of_contains(self.items@, self.items@[0]@);
            }
        }
        self.items.len() == 0
    }

    fn find(&self, k: &String) -> (r: Option<usize>)
        ensures
            match r {
                Some(i) => i < self.items@.len() && self.items@[i as int]@ == k@,
                None => forall|i: int| 0 <= i < self.items@.len() ==> self.items@[i]@ != k@,
            },
    {
        let n = self.items.len();
        let mut i: usize = 0;
        while i < n
            invariant
                n == self.items@.len(),
                i <= n,
                forall|j: int| 0 <= j < i ==> self.items@[j]@ != k@,
            decreases n - i,
        {
            if self.items[i] == *k {
                return Some(i);
            }
            i = i + 1;
        }
        None
    }

    pub fn contains(&self, k: &String) -> (r: bool)
        ensures
            r == self@.contains(k@),
    {
        proof {
            lemma_set_of_contains(self.items@, k@);
        }
        self.find(k).is_some()
    }

    /// Insert, keeping the vector sorted; a no-op when already present.
    pub fn insert(&mut self, k: String)
        requires
            old(self).wf(),
        ensures
            final(self).wf(),
            final(self)@ =~= old(self)@.insert(k@),
            final(self).items@.len() == if old(self)@.contains(k@) {
                old(self).items@.len()
            } else {
                old(self).items@.len() + 1
            },
    {
        proof {
            lemma_set_of_contains(self.items@, k@);
        }
        let n = self.items.len();
        let mut i: usize = 0;
        while i < n && str_is_lt(&self.items[i], &k)
            invariant
                n == self.items@.len(),
                i <= n,
                forall|j: int| 0 <= j < i ==> str_lt(self.items@[j]@, k@),
            decreases n - i,
        {
            i = i + 1;
        }
        if i < n && self.items[i] == k {
            // Already present: the set is unchanged.
            proof {
                assert(self.items@[i as int]@ == k@);
                assert(old(self)@.insert(k@) =~= old(self)@);
            }
            return ;
        }
        proof {
            let s0 = self.items@;
            if i < n {
                lemma_str_lt_trichotomy(s0[i as int]@, k@);
                assert(str_lt(k@, s0[i as int]@));
                assert forall|j: int| i as int <= j < s0.len() implies str_lt(k@, s0[j]@) by {
                    if j > i as int {
                        lemma_str_lt_trans(k@, s0[i as int]@, s0[j]@);
                    }
                }
            }
            assert forall|j: int| 0 <= j < s0.len() implies s0[j]@ != k@ by {
                if j < i as int {
                    lemma_str_lt_trichotomy(s0[j]@, k@);
                } else {
                    lemma_str_lt_trichotomy(k@, s0[j]@);
                }
            }
            assert(!old(self)@.contains(k@));
        }
        self.items.insert(i, k);
        proof {
            let s0 = old(self).items@;
            let s1 = self.items@;
            assert forall|a: int, b: int| 0 <= a < b < s1.len() implies str_lt(s1[a]@, s1[b]@) by {
                if a < i && b > i {
                    assert(s1[a] == s0[a] && s1[b] == s0[b - 1]);
                } else if a == i && b > i {
                    assert(s1[b] == s0[b - 1]);
                } else if b == i {
                    assert(s1[a] == s0[a]);
                }
            }
            assert forall|k2: Seq<char>| set_of(s1).contains(k2) implies old(self)@.insert(
                k@,
            ).contains(k2) by {
                lemma_set_of_contains(s1, k2);
                lemma_set_of_contains(s0, k2);
                let idx = choose|idx: int| 0 <= idx < s1.len() && s1[idx]@ == k2;
                if idx < i {
                    assert(s0[idx]@ == k2);
                } else if idx > i {
                    assert(s0[idx - 1]@ == k2);
                }
            }
            assert forall|k2: Seq<char>| old(self)@.insert(k@).contains(k2) implies set_of(
                s1,
            ).contains(k2) by {
                lemma_set_of_contains(s1, k2);
                lemma_set_of_contains(s0, k2);
                if k2 == k@ {
                    assert(s1[i as int]@ == k2);
                } else {
                    let idx = choose|idx: int| 0 <= idx < s0.len() && s0[idx]@ == k2;
                    if idx < i {
                        assert(s1[idx]@ == k2);
                    } else {
                        assert(s1[idx + 1]@ == k2);
                    }
                }
            }
        }
    }

    /// Remove, keeping the vector sorted; a no-op when absent.
    pub fn remove(&mut self, k: &String)
        requires
            old(self).wf(),
        ensures
            final(self).wf(),
            final(self)@ =~= old(self)@.remove(k@),
            final(self).items@.len() == if old(self)@.contains(k@) {
                old(self).items@.len() - 1
            } else {
                old(self).items@.len() as int
            },
    {
        proof {
            lemma_set_of_contains(self.items@, k@);
            self.lemma_distinct();
        }
        match self.find(k) {
            Some(i) => {
                self.items.remove(i);
                proof {
                    let s0 = old(self).items@;
                    let s1 = self.items@;
                    assert forall|a: int, b: int| 0 <= a < b < s1.len() implies str_lt(
                        s1[a]@,
                        s1[b]@,
                    ) by {
                        if a < i && b >= i {
                            assert(s1[a] == s0[a] && s1[b] == s0[b + 1]);
                        } else if a >= i {
                            assert(s1[a] == s0[a + 1] && s1[b] == s0[b + 1]);
                        }
                    }
                    assert forall|k2: Seq<char>| set_of(s1).contains(k2) implies old(self)@.remove(
                        k@,
                    ).contains(k2) by {
                        lemma_set_of_contains(s1, k2);
                        lemma_set_of_contains(s0, k2);
                        let idx = choose|idx: int| 0 <= idx < s1.len() && s1[idx]@ == k2;
                        if idx < i {
                            assert(s0[idx]@ == k2);
                            assert(idx != i);
                        } else {
                            assert(s0[idx + 1]@ == k2);
                        }
                    }
                    assert forall|k2: Seq<char>| old(self)@.remove(k@).contains(k2) implies set_of(
                        s1,
                    ).contains(k2) by {
                        lemma_set_of_contains(s1, k2);
                        lemma_set_of_contains(s0, k2);
                        let idx = choose|idx: int| 0 <= idx < s0.len() && s0[idx]@ == k2;
                        if idx < i {
                            assert(s1[idx]@ == k2);
                        } else {
                            assert(idx != i);
                            assert(s1[idx - 1]@ == k2);
                        }
                    }
                }
            },
            None => {
                proof {
                    assert(old(self)@.remove(k@) =~= old(self)@);
                }
            },
        }
    }

    /// A copy with the same contents and the same representation.
    pub fn duplicate_sorted(&self) -> (r: Self)
        requires
            self.wf(),
        ensures
            r.wf(),
            r@ == self@,
            r.items@ =~= self.items@,
    {
        let n = self.items.len();
        let mut items: Vec<String> = Vec::new();
        let mut i: usize = 0;
        while i < n
            invariant
                n == self.items@.len(),
                i <= n,
                items@.len() == i,
                forall|j: int| 0 <= j < i ==> items@[j] == self.items@[j],
            decreases n - i,
        {
            items.push(self.items[i].clone());
            i = i + 1;
        }
        let r = StrSet { items };
        proof {
            assert(r.items@ =~= self.items@);
        }
        r
    }
}

/// A table whose values are string sets is well-formed when the sets are.
pub open spec fn sets_wf(t: Table<StrSet>) -> bool {
    forall|i: int| 0 <= i < t.entries@.len() ==> (#[trigger] t.entries@[i].1).wf()
}

impl Table<StrSet> {
    /// A copy of a table of string sets, preserving each set's shape.
    pub fn duplicate_sets(&self) -> (r: Self)
        requires
            self.wf(),
            sets_wf(*self),
        ensures
            r.wf(),
            sets_wf(r),
            r@ == self@,
            r.entries@.len() == self.entries@.len(),
            forall|i: int| 0 <= i < self.entries@.len() ==> (#[trigger] r.entries@[i]).0@
                == self.entries@[i].0@ && r.entries@[i].1.items@ == self.entries@[i].1.items@,
    {
        let n = self.entries.len();
        let mut entries: Vec<(String, StrSet)> = Vec::new();
        let mut i: usize = 0;
        while i < n
            invariant
                n == self.entries@.len(),
                sets_wf(*self),
                i <= n,
                entries@.len() == i,
                forall|j: int| 0 <= j < i ==> (#[trigger] entries@[j]).0@ == self.entries@[j].0@
                    && entries@[j].1.items@ == self.entries@[j].1.items@,
            decreases n - i,
        {
            let k = self.entries[i].0.clone();
            let v = self.entries[i].1.duplicate_sorted();
            proof {
                assert(v.items@ =~= self.entries@[i as int].1.items@);
            }
            entries.push((k, v));
            i = i + 1;
        }
        let r = Table { entries };
        proof {
            assert forall|j: int| 0 <= j < r.entries@.len() implies r.entries@[j].1@
                == self.entries@[j].1@ && (#[trigger] r.entries@[j].1).wf() by {
                assert(r.entries@[j].1.items@ == self.entries@[j].1.items@);
                assert(self.entries@[j].1.wf());
            }
            lemma_map_of_congruence(r.entries@, self.entries@);
        }
        r
    }

    /// Remove one id from every stored set, preserving shape.
    pub fn remove_everywhere(&mut self, id: &String)
        requires
            old(self).wf(),
            sets_wf(*old(self)),
        ensures
            final(self).wf(),
            sets_wf(*final(self)),
            final(self)@ == crate::state_machine::assignments_without(old(self)@, id@),
    {
        let n = self.entries.len();
        let mut i: usize = 0;
        while i < n
            invariant
                n == self.entries@.len(),
                n == old(self).entries@.len(),
                i <= n,
                old(self).wf(),
                sets_wf(*old(self)),
                forall|j: int| i <= j < n ==> self.entries@[j] == old(self).entries@[j],
                forall|j: int|
                    0 <= j < i ==> (#[trigger] self.entries@[j]).0@ == old(self).entries@[j].0@
                        && self.entries@[j].1@ == old(self).entries@[j].1@.remove(id@)
                        && self.entries@[j].1.wf(),
            decreases n - i,
        {
            let k = self.entries[i].0.clone();
            proof {
                assert(self.entries@[i as int] == old(self).entries@[i as int]);
                assert(old(self).entries@[i as int].1.wf());
            }
            let mut s = self.entries[i].1.duplicate_sorted();
            s.remove(id);
            self.entries.set(i, (k, s));
            i = i + 1;
        }
        proof {
            let s0 = old(self).entries@;
            let s1 = self.entries@;
            assert forall|a: int, b: int| 0 <= a < b < s1.len() implies s1[a].0@ != s1[b].0@ by {
                assert(s0[a].0@ != s0[b].0@);
            }
            assert forall|k: Seq<char>|
                crate::table::map_of(s1).contains_key(k) == crate::table::map_of(
                    s0,
                ).contains_key(k) by {
                crate::table::lemma_map_of_contains(s1, k);
                crate::table::lemma_map_of_contains(s0, k);
                if crate::table::map_of(s1).contains_key(k) {
                    let x = choose|x: int| 0 <= x < s1.len() && s1[x].0@ == k;
                    assert(s0[x].0@ == k);
                }
                if crate::table::map_of(s0).contains_key(k) {
                    let x = choose|x: int| 0 <= x < s0.len() && s0[x].0@ == k;
                    assert(s1[x].0@ == k);
                }
            }
            assert forall|k: Seq<char>|
                crate::table::map_of(s0).contains_key(k) implies #[trigger] crate::table::map_of(
                s1,
            )[k] == crate::table::map_of(s0)[k].remove(id@) by {
                crate::table::lemma_map_of_contains(s0, k);
                let x = choose|x: int| 0 <= x < s0.len() && s0[x].0@ == k;
                crate::table::lemma_map_of_index(s0, x);
                crate::table::lemma_map_of_index(s1, x);
                assert(s1[x].0@ == k);
                assert(s1[x].1@ == s0[x].1@.remove(id@));
            }
            assert(crate::table::map_of(s1) =~= crate::state_machine::assignments_without(
                crate::table::map_of(s0),
                id@,
            ));
        }
    }
}

} // verus!
