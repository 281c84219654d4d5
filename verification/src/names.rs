//! Ordered sets and maps of names, kept as sorted vectors: the byte-wise order
//! of Rust strings, which for UTF-8 is the order of their characters' code points.
use vstd::prelude::*;

verus! {

/// `a` sorts before `b`: at the first difference `a` has the smaller
/// character, or `a` is a proper prefix of `b`.
pub open spec fn lex_lt(a: Seq<char>, b: Seq<char>) -> bool
    decreases a.len(),
{
    if a.len() == 0 {
        b.len() > 0
    } else if b.len() == 0 {
        false
    } else if a[0] != b[0] {
        a[0] < b[0]
    } else {
        lex_lt(a.drop_first(), b.drop_first())
    }
}

/// Strictly increasing, hence without repeats.
pub open spec fn increasing(s: Seq<Seq<char>>) -> bool {
    forall|i: int, j: int| 0 <= i < j < s.len() ==> lex_lt(#[trigger] s[i], #[trigger] s[j])
}

/// The names of a vector as plain values.
pub open spec fn names_of(v: Seq<String>) -> Seq<Seq<char>> {
    v.map_values(|s: String| s@)
}

/// The increasing sequence holding exactly the names of `set`.
pub open spec fn sorted_names(set: Set<Seq<char>>) -> Seq<Seq<char>> {
    choose|s: Seq<Seq<char>>| increasing(s) && s.to_set() == set
}

pub proof fn lemma_lex_irreflexive(a: Seq<char>)
    ensures
        !lex_lt(a, a),
    decreases a.len(),
{
    if a.len() > 0 {
        lemma_lex_irreflexive(a.drop_first());
    }
}

pub proof fn lemma_lex_transitive(a: Seq<char>, b: Seq<char>, c: Seq<char>)
    requires
        lex_lt(a, b),
        lex_lt(b, c),
    ensures
        lex_lt(a, c),
    decreases a.len(),
{
    if a.len() > 0 && b.len() > 0 && c.len() > 0 {
        if a[0] == b[0] && b[0] == c[0] {
            lemma_lex_transitive(a.drop_first(), b.drop_first(), c.drop_first());
        }
    }
}

pub proof fn lemma_lex_total(a: Seq<char>, b: Seq<char>)
    ensures
        a == b || lex_lt(a, b) || lex_lt(b, a),
    decreases a.len(),
{
    if a.len() > 0 && b.len() > 0 {
        if a[0] == b[0] {
            lemma_lex_total(a.drop_first(), b.drop_first());
            if a.drop_first() == b.drop_first() {
                assert(a =~= seq![a[0]] + a.drop_first());
                assert(b =~= seq![b[0]] + b.drop_first());
            }
        }
    } else if a.len() == 0 && b.len() == 0 {
        assert(a =~= b);
    }
}

pub proof fn lemma_lex_asymmetric(a: Seq<char>, b: Seq<char>)
    requires
        lex_lt(a, b),
    ensures
        !lex_lt(b, a),
{
    if lex_lt(b, a) {
        lemma_lex_transitive(a, b, a);
        lemma_lex_irreflexive(a);
    }
}

proof fn lemma_increasing_first_is_least(s: Seq<Seq<char>>, x: Seq<char>)
    requires
        increasing(s),
        s.contains(x),
        s.len() > 0,
    ensures
        x == s[0] || lex_lt(s[0], x),
{
    let k = choose|k: int| 0 <= k < s.len() && s[k] == x;
    if k > 0 {
        assert(lex_lt(s[0], s[k]));
    }
}

/// Two increasing sequences with the same names are equal.
pub proof fn lemma_increasing_unique(a: Seq<Seq<char>>, b: Seq<Seq<char>>)
    requires
        increasing(a),
        increasing(b),
        a.to_set() == b.to_set(),
    ensures
        a == b,
    decreases a.len(),
{
    if a.len() == 0 {
        if b.len() > 0 {
            assert(b.to_set().contains(b[0]));
        }
        assert(a =~= b);
    } else {
        assert(a.to_set().contains(a[0]));
        assert(b.len() > 0);
        assert(b.to_set().contains(b[0]));
        lemma_increasing_first_is_least(a, b[0]);
        lemma_increasing_first_is_least(b, a[0]);
        if a[0] != b[0] {
            lemma_lex_asymmetric(a[0], b[0]);
        }
        let ra = a.drop_first();
        let rb = b.drop_first();
        assert forall|x: Seq<char>| ra.to_set().contains(x) <==> rb.to_set().contains(x) by {
            if ra.contains(x) {
                let k = choose|k: int| 0 <= k < ra.len() && ra[k] == x;
                assert(a[k + 1] == x);
                assert(lex_lt(a[0], a[k + 1]));
                assert(b.to_set().contains(x));
                let j = choose|j: int| 0 <= j < b.len() && b[j] == x;
                if j == 0 {
                    lemma_lex_irreflexive(x);
                }
                assert(rb[j - 1] == x);
            }
            if rb.contains(x) {
                let k = choose|k: int| 0 <= k < rb.len() && rb[k] == x;
                assert(b[k + 1] == x);
                assert(lex_lt(b[0], b[k + 1]));
                assert(a.to_set().contains(x));
                let j = choose|j: int| 0 <= j < a.len() && a[j] == x;
                if j == 0 {
                    lemma_lex_irreflexive(x);
                }
                assert(ra[j - 1] == x);
            }
        }
        assert(ra.to_set() =~= rb.to_set());
        lemma_increasing_unique(ra, rb);
        assert(a =~= seq![a[0]] + ra);
        assert(b =~= seq![b[0]] + rb);
    }
}

/// An increasing sequence is the sorted form of its names.
pub proof fn lemma_sorted_names(s: Seq<Seq<char>>)
    requires
        increasing(s),
    ensures
        sorted_names(s.to_set()) == s,
{
    assert(increasing(s) && s.to_set() == s.to_set());
    let t = sorted_names(s.to_set());
    lemma_increasing_unique(t, s);
}

/// Whether `a` sorts before `b`.
pub fn less_than(a: &str, b: &str) -> (lt: bool)
    ensures
        lt == lex_lt(a@, b@),
{
    let x = crate::text::chars_of(a);
    let y = crate::text::chars_of(b);
    let mut i: usize = 0;
    proof {
        assert(x@.skip(0) =~= x@);
        assert(y@.skip(0) =~= y@);
    }
    while i < x.len() && i < y.len()
        invariant
            x@ == a@,
            y@ == b@,
            i <= x@.len(),
            i <= y@.len(),
            lex_lt(a@, b@) == lex_lt(x@.skip(i as int), y@.skip(i as int)),
        decreases x@.len() - i,
    {
        proof {
            assert(x@.skip(i as int)[0] == x@[i as int]);
            assert(y@.skip(i as int)[0] == y@[i as int]);
            assert(x@.skip(i as int).drop_first() =~= x@.skip(i as int + 1));
            assert(y@.skip(i as int).drop_first() =~= y@.skip(i as int + 1));
        }
        if x[i] != y[i] {
            return x[i] < y[i];
        }
        i = i + 1;
    }
    i < y.len()
}

proof fn lemma_to_set_insert_at(s: Seq<Seq<char>>, i: int, x: Seq<char>)
    requires
        0 <= i <= s.len(),
    ensures
        s.insert(i, x).to_set() == s.to_set().insert(x),
{
    let t = s.insert(i, x);
    assert forall|y: Seq<char>| t.to_set().contains(y) <==> s.to_set().insert(x).contains(y) by {
        if t.contains(y) {
            let k = choose|k: int| 0 <= k < t.len() && t[k] == y;
            if k < i {
                assert(s[k] == y);
            } else if k > i {
                assert(s[k - 1] == y);
            }
        }
        if s.contains(y) {
            let k = choose|k: int| 0 <= k < s.len() && s[k] == y;
            if k < i {
                assert(t[k] == y);
            } else {
                assert(t[k + 1] == y);
            }
        }
        if y == x {
            assert(t[i] == x);
        }
    }
    assert(t.to_set() =~= s.to_set().insert(x));
}

/// Adds `name` to the increasing `set` unless present (`BTreeSet::insert`);
/// reports whether it was added.
pub fn insert_name(set: &mut Vec<String>, name: String) -> (added: bool)
    requires
        increasing(names_of(old(set)@)),
    ensures
        increasing(names_of(final(set)@)),
        names_of(final(set)@).to_set() == names_of(old(set)@).to_set().insert(name@),
        added == !names_of(old(set)@).contains(name@),
        !added ==> final(set)@ == old(set)@,
{
    let ghost s = names_of(set@);
    let mut i: usize = 0;
    let mut searching = true;
    while searching && i < set.len()
        invariant
            s == names_of(set@),
            increasing(s),
            i <= s.len(),
            forall|k: int| 0 <= k < i ==> lex_lt(#[trigger] s[k], name@),
            !searching ==> i < s.len() && !lex_lt(s[i as int], name@),
        decreases s.len() - i + (if searching {
            1int
        } else {
            0int
        }),
    {
        if less_than(set[i].as_str(), name.as_str()) {
            i = i + 1;
        } else {
            searching = false;
        }
    }
    if i < set.len() && set[i] == name {
        proof {
            assert(s[i as int] == name@);
            assert(s.to_set().insert(name@) =~= s.to_set());
        }
        return false;
    }
    let ghost n = name@;
    set.insert(i, name);
    proof {
        assert(names_of(set@) =~= s.insert(i as int, n));
        if i < s.len() {
            assert(!lex_lt(s[i as int], n));
            assert(s[i as int] != n);
            lemma_lex_total(s[i as int], n);
        }
        let t = s.insert(i as int, n);
        assert forall|a: int, b: int| 0 <= a < b < t.len() implies lex_lt(#[trigger] t[a], #[trigger] t[b]) by {
            if b < i {
                assert(t[a] == s[a] && t[b] == s[b]);
            } else if b == i {
                assert(t[a] == s[a]);
            } else if a == i {
                assert(t[b] == s[b - 1]);
                if b - 1 > i {
                    assert(lex_lt(s[i as int], s[b - 1]));
                    lemma_lex_transitive(n, s[i as int], s[b - 1]);
                }
            } else if a < i {
                assert(t[a] == s[a] && t[b] == s[b - 1]);
            } else {
                assert(t[a] == s[a - 1] && t[b] == s[b - 1]);
            }
        }
        lemma_to_set_insert_at(s, i as int, n);
        assert forall|k: int| 0 <= k < s.len() implies s[k] != n by {
            if k < i {
                lemma_lex_irreflexive(n);
            } else if k > i {
                assert(lex_lt(s[i as int], s[k]));
                if s[k] == n {
                    lemma_lex_asymmetric(s[i as int], n);
                    lemma_lex_total(s[i as int], n);
                }
            }
        }
    }
    true
}

/// The names of `names` in increasing order, each once (collecting into a `BTreeSet`).
pub fn sorted_set(names: &Vec<String>) -> (set: Vec<String>)
    ensures
        increasing(names_of(set@)),
        names_of(set@).to_set() == names_of(names@).to_set(),
{
    let mut set: Vec<String> = Vec::new();
    let mut i: usize = 0;
    proof {
        assert(names_of(set@).to_set() =~= names_of(names@).take(0).to_set());
    }
    while i < names.len()
        invariant
            i <= names@.len(),
            increasing(names_of(set@)),
            names_of(set@).to_set() == names_of(names@).take(i as int).to_set(),
        decreases names@.len() - i,
    {
        insert_name(&mut set, names[i].clone());
        proof {
            assert(names_of(names@).take(i as int + 1) =~= names_of(names@).take(i as int).push(
                names@[i as int]@,
            ));
            crate::registry::lemma_to_set_push(names_of(names@).take(i as int), names@[i as int]@);
        }
        i = i + 1;
    }
    proof {
        assert(names_of(names@).take(i as int) =~= names_of(names@));
    }
    set
}


/// Removes `name` from the increasing `set` when present (`BTreeSet::remove`).
pub fn remove_name(set: &mut Vec<String>, name: &String)
    requires
        increasing(names_of(old(set)@)),
    ensures
        increasing(names_of(final(set)@)),
        names_of(final(set)@).to_set() == names_of(old(set)@).to_set().remove(name@),
{
    let ghost s = names_of(set@);
    let mut i: usize = 0;
    while i < set.len()
        invariant
            s == names_of(set@),
            s == names_of(old(set)@),
            increasing(s),
            i <= s.len(),
            forall|k: int| 0 <= k < i ==> s[k] != name@,
        decreases s.len() - i,
    {
        if set[i] == *name {
            proof {
                assert(s[i as int] == name@);
            }
            set.remove(i);
            proof {
                let t = names_of(set@);
                assert(t =~= s.remove(i as int));
                assert forall|a: int, b: int| 0 <= a < b < t.len() implies lex_lt(#[trigger] t[a], #[trigger] t[b]) by {
                    if b < i {
                        assert(t[a] == s[a] && t[b] == s[b]);
                    } else if a < i {
                        assert(t[a] == s[a] && t[b] == s[b + 1]);
                    } else {
                        assert(t[a] == s[a + 1] && t[b] == s[b + 1]);
                    }
                }
                assert forall|x: Seq<char>| t.to_set().contains(x) <==> s.to_set().remove(name@).contains(x) by {
                    if t.contains(x) {
                        let q = choose|q: int| 0 <= q < t.len() && t[q] == x;
                        if q < i {
                            assert(s[q] == x);
                            assert(lex_lt(s[q], s[i as int]));
                            if x == name@ {
                                lemma_lex_irreflexive(x);
                            }
                        } else {
                            assert(s[q + 1] == x);
                            assert(lex_lt(s[i as int], s[q + 1]));
                            if x == name@ {
                                lemma_lex_irreflexive(x);
                            }
                        }
                    }
                    if s.contains(x) && x != name@ {
                        let q = choose|q: int| 0 <= q < s.len() && s[q] == x;
                        if q < i {
                            assert(t[q] == x);
                        } else {
                            assert(q != i);
                            assert(t[q - 1] == x);
                        }
                    }
                }
                assert(t.to_set() =~= s.to_set().remove(name@));
            }
            return;
        }
        i = i + 1;
    }
    proof {
        assert(s.to_set().remove(name@) =~= s.to_set());
    }
}

} // verus!
