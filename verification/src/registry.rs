//! The registry of known usernames: a set of names, kept in ascending
//! order so that it is listed and written the same way every time.

use vstd::prelude::*;
use crate::text::{
    append_str, chars_of, lines, lines_of, owned, string_of, terminated, texts_of, views_of,
};

verus! {

/// Whether `a` comes before `b` in the order of texts: at the first
/// position where they differ `a` holds the smaller character, or `a` ends
/// there and `b` goes on.
pub open spec fn text_less(a: Seq<char>, b: Seq<char>) -> bool
    decreases a.len(),
{
    if b.len() == 0 {
        false
    } else if a.len() == 0 {
        true
    } else if a[0] != b[0] {
        a[0] < b[0]
    } else {
        text_less(a.drop_first(), b.drop_first())
    }
}

/// No text comes before itself.
pub proof fn lemma_text_less_irreflexive(a: Seq<char>)
    ensures
        !text_less(a, a),
    decreases a.len(),
{
    if a.len() > 0 {
        lemma_text_less_irreflexive(a.drop_first());
    }
}

/// Of two different texts one comes before the other.
pub proof fn lemma_text_less_total(a: Seq<char>, b: Seq<char>)
    ensures
        a == b || text_less(a, b) || text_less(b, a),
    decreases a.len(),
{
    if a.len() > 0 && b.len() > 0 && a[0] == b[0] {
        lemma_text_less_total(a.drop_first(), b.drop_first());
        if a.drop_first() == b.drop_first() {
            assert(a =~= seq![a[0]] + a.drop_first());
            assert(b =~= seq![b[0]] + b.drop_first());
        }
    } else if a.len() == 0 && b.len() == 0 {
        assert(a =~= b);
    }
}

/// What comes before a text that comes before a third comes before the
/// third.
pub proof fn lemma_text_less_transitive(a: Seq<char>, b: Seq<char>, c: Seq<char>)
    requires
        text_less(a, b),
        text_less(b, c),
    ensures
        text_less(a, c),
    decreases a.len(),
{
    if a.len() > 0 && a[0] == b[0] && b[0] == c[0] {
        lemma_text_less_transitive(a.drop_first(), b.drop_first(), c.drop_first());
    }
}

/// Whether the names stand in ascending order, none twice.
pub open spec fn is_ascending(names: Seq<Seq<char>>) -> bool {
    forall|i: int, j: int| 0 <= i < j < names.len() ==> text_less(names[i], names[j])
}

/// Tells whether one text comes before another.
pub fn comes_before(a: &Vec<char>, b: &Vec<char>) -> (less: bool)
    ensures
        less == text_less(a@, b@),
{
    let mut i: usize = 0;
    assert(a@.skip(0) =~= a@ && b@.skip(0) =~= b@);
    loop
        invariant
            i <= a.len(),
            i <= b.len(),
            text_less(a@, b@) == text_less(a@.skip(i as int), b@.skip(i as int)),
        decreases a.len() - i,
    {
        if i == b.len() {
            return false;
        }
        if i == a.len() {
            return true;
        }
        if a[i] != b[i] {
            return a[i] < b[i];
        }
        assert(a@.skip(i as int).drop_first() =~= a@.skip(i + 1));
        assert(b@.skip(i as int).drop_first() =~= b@.skip(i + 1));
        i += 1;
    }
}

/// The set of known usernames.
#[derive(Debug)]
pub struct UsernameRegistry {
    names: Vec<String>,
}

impl View for UsernameRegistry {
    type V = Seq<Seq<char>>;

    /// The names, in the order in which they are listed and written.
    closed spec fn view(&self) -> Seq<Seq<char>> {
        texts_of(self.names@)
    }
}

impl UsernameRegistry {
    /// A registry without names.
    pub fn new() -> (registry: UsernameRegistry)
        ensures
            registry@ == Seq::<Seq<char>>::empty(),
            is_ascending(registry@),
    {
        let registry = UsernameRegistry { names: Vec::new() };
        assert(registry@ =~= Seq::empty());
        registry
    }

    /// The number of names.
    pub fn len(&self) -> (n: usize)
        ensures
            n == self@.len(),
    {
        self.names.len()
    }

    /// The names in ascending order.
    pub fn names(&self) -> (names: &Vec<String>)
        ensures
            texts_of(names@) == self@,
    {
        &self.names
    }

    /// Tells whether a name is known.
    pub fn contains(&self, name: &str) -> (known: bool)
        ensures
            known == self@.contains(name@),
    {
        let wanted = owned(name);
        let mut i: usize = 0;
        while i < self.names.len()
            invariant
                i <= self.names.len(),
                wanted@ == name@,
                forall|j: int| 0 <= j < i ==> self@[j] != name@,
            decreases self.names.len() - i,
        {
            if self.names[i] == wanted {
                assert(self@[i as int] == name@);
                return true;
            }
            i += 1;
        }
        false
    }

    /// Makes a name known, and tells whether it was new.
    pub fn insert(&mut self, name: String) -> (added: bool)
        requires
            is_ascending(old(self)@),
        ensures
            added == !old(self)@.contains(name@),
            forall|w: Seq<char>| final(self)@.contains(w) <==> old(self)@.contains(w) || w == name@,
            final(self)@.len() == old(self)@.len() + if added {
                1int
            } else {
                0int
            },
            is_ascending(final(self)@),
    {
        let ghost before = self@;
        let letters = chars_of(name.as_str());
        let mut k: usize = 0;
        while k < self.names.len() && comes_before(&chars_of(self.names[k].as_str()), &letters)
            invariant
                k <= self.names.len(),
                self@ == before,
                letters@ == name@,
                forall|j: int| 0 <= j < k ==> text_less(before[j], name@),
            decreases self.names.len() - k,
        {
            k += 1;
        }
        proof {
            lemma_text_less_irreflexive(name@);
        }
        if k < self.names.len() && self.names[k] == name {
            assert(before[k as int] == name@);
            return false;
        }
        proof {
            if k < before.len() {
                lemma_text_less_total(before[k as int], name@);
            }
            assert forall|j: int| k <= j < before.len() implies text_less(name@, before[j]) by {
                if j > k {
                    lemma_text_less_transitive(name@, before[k as int], before[j]);
                }
            }
            assert(!before.contains(name@));
        }
        self.names.insert(k, name);
        proof {
            let after = self@;
            assert(after =~= before.insert(k as int, name@));
            assert(after[k as int] == name@);
            assert forall|w: Seq<char>| after.contains(w) <==> before.contains(w) || w
                == name@ by {
                if before.contains(w) {
                    let i = choose|i: int| 0 <= i < before.len() && before[i] == w;
                    if i < k {
                        assert(after[i] == w);
                    } else {
                        assert(after[i + 1] == w);
                    }
                }
                if after.contains(w) && w != name@ {
                    let i = choose|i: int| 0 <= i < after.len() && after[i] == w;
                    if i < k {
                        assert(before[i] == w);
                    } else {
                        assert(before[i - 1] == w);
                    }
                }
            }
            assert forall|i: int, j: int| 0 <= i < j < after.len() implies text_less(
                after[i],
                after[j],
            ) by {
                if j < k {
                    assert(after[i] == before[i] && after[j] == before[j]);
                } else if j == k {
                    assert(after[i] == before[i]);
                } else if i < k {
                    assert(after[i] == before[i] && after[j] == before[j - 1]);
                } else if i == k {
                    assert(after[j] == before[j - 1]);
                } else {
                    assert(after[i] == before[i - 1] && after[j] == before[j - 1]);
                }
            }
        }
        true
    }

    /// Forgets a name, and tells whether it was known.
    pub fn remove(&mut self, name: &str) -> (removed: bool)
        requires
            is_ascending(old(self)@),
        ensures
            removed == old(self)@.contains(name@),
            forall|w: Seq<char>| final(self)@.contains(w) <==> old(self)@.contains(w) && w != name@,
            final(self)@.len() == old(self)@.len() - if removed {
                1int
            } else {
                0int
            },
            is_ascending(final(self)@),
    {
        let ghost before = self@;
        let wanted = owned(name);
        let mut k: usize = 0;
        while k < self.names.len()
            invariant
                k <= self.names.len(),
                self@ == before,
                before == old(self)@,
                wanted@ == name@,
                is_ascending(before),
                forall|j: int| 0 <= j < k ==> before[j] != name@,
            decreases self.names.len() - k,
        {
            if self.names[k] == wanted {
                assert(before[k as int] == name@);
                let _ = self.names.remove(k);
                proof {
                    let after = self@;
                    assert(after =~= before.remove(k as int));
                    assert(before.contains(name@));
                    lemma_text_less_irreflexive(name@);
                    assert forall|w: Seq<char>| after.contains(w) <==> before.contains(w) && w
                        != name@ by {
                        if after.contains(w) {
                            let i = choose|i: int| 0 <= i < after.len() && after[i] == w;
                            if i < k {
                                assert(before[i] == w);
                                assert(text_less(before[i], before[k as int]));
                            } else {
                                assert(before[i + 1] == w);
                                assert(text_less(before[k as int], before[i + 1]));
                            }
                        }
                        if before.contains(w) && w != name@ {
                            let i = choose|i: int| 0 <= i < before.len() && before[i] == w;
                            if i < k {
                                assert(after[i] == w);
                            } else if i > k {
                                assert(after[i - 1] == w);
                            }
                        }
                    }
                    assert forall|i: int, j: int| 0 <= i < j < after.len() implies text_less(
                        after[i],
                        after[j],
                    ) by {
                        let bi = if i < k {
                            i
                        } else {
                            i + 1
                        };
                        let bj = if j < k {
                            j
                        } else {
                            j + 1
                        };
                        assert(after[i] == before[bi] && after[j] == before[bj]);
                    }
                }
                return true;
            }
            k += 1;
        }
        false
    }

    /// Writes the registry: one name on each line, in ascending order.
    pub fn to_text(&self) -> (text: String)
        ensures
            text@ == terminated(self@),
    {
        let mut out: Vec<char> = Vec::new();
        let mut i: usize = 0;
        assert(self@.take(0) =~= Seq::empty());
        while i < self.names.len()
            invariant
                i <= self.names.len(),
                out@ == terminated(self@.take(i as int)),
            decreases self.names.len() - i,
        {
            assert(self@.take(i + 1).drop_last() =~= self@.take(i as int));
            assert(self@.take(i + 1).last() == self.names[i as int]@);
            append_str(&mut out, self.names[i].as_str());
            out.push('\n');
            i += 1;
            assert(out@ =~= terminated(self@.take(i as int)));
        }
        assert(self@.take(i as int) =~= self@);
        string_of(&out)
    }

    /// Reads a registry from a text with one name on each line. A name
    /// that stands on several lines is known once.
    pub fn from_text(text: &str) -> (registry: UsernameRegistry)
        ensures
            is_ascending(registry@),
            forall|w: Seq<char>| registry@.contains(w) <==> lines(text@).contains(w),
    {
        let all = lines_of(&chars_of(text));
        let ghost ls = lines(text@);
        let mut registry = UsernameRegistry::new();
        let mut i: usize = 0;
        while i < all.len()
            invariant
                i <= all.len(),
                views_of(all@) == ls,
                is_ascending(registry@),
                forall|w: Seq<char>| registry@.contains(w) <==> ls.take(i as int).contains(w),
            decreases all.len() - i,
        {
            let ghost before = registry@;
            let name = string_of(&all[i]);
            registry.insert(name);
            i += 1;
            proof {
                let earlier = ls.take(i - 1);
                let now = ls.take(i as int);
                assert(now[i - 1] == ls[i - 1]);
                assert forall|w: Seq<char>| registry@.contains(w) <==> now.contains(w) by {
                    if now.contains(w) {
                        let j = choose|j: int| 0 <= j < now.len() && now[j] == w;
                        if j < i - 1 {
                            assert(earlier[j] == w);
                        }
                    }
                    if earlier.contains(w) {
                        let j = choose|j: int| 0 <= j < earlier.len() && earlier[j] == w;
                        assert(now[j] == w);
                    }
                }
            }
        }
        assert(ls.take(i as int) =~= ls);
        registry
    }
}

} // verus!
