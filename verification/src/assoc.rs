use vstd::prelude::*;

use crate::strutil::{
    str_eq, str_lex_lt, lex_lt, lemma_lex_lt_irrefl, lemma_lex_lt_total, lemma_lex_lt_trans,
};

verus! {

/// The map denoted by an association list: for a repeated key, the
/// earliest entry wins.
pub open spec fn assoc_map<K: View, V>(s: Seq<(K, V)>) -> Map<<K as View>::V, V>
    decreases s.len(),
{
    if s.len() == 0 {
        Map::empty()
    } else {
        assoc_map(s.skip(1)).insert(s[0].0@, s[0].1)
    }
}

/// No two entries share a key.
pub open spec fn keys_distinct<K: View, V>(s: Seq<(K, V)>) -> bool {
    forall|i: int, j: int| 0 <= i < j < s.len() ==> s[i].0@ != s[j].0@
}

/// The keys stand in strictly increasing lexicographic order.
pub open spec fn keys_sorted<V>(s: Seq<(String, V)>) -> bool {
    forall|i: int, j: int| 0 <= i < j < s.len() ==> lex_lt(s[i].0@, s[j].0@)
}

/// Entries before `i` that miss the key do not affect the denoted map at it.
pub proof fn lemma_assoc_skip_agree<K: View, V>(s: Seq<(K, V)>, i: int, k: <K as View>::V)
    requires
        0 <= i <= s.len(),
        forall|j: int| 0 <= j < i ==> s[j].0@ != k,
    ensures
        assoc_map(s).dom().contains(k) == assoc_map(s.skip(i)).dom().contains(k),
        assoc_map(s).dom().contains(k) ==> assoc_map(s)[k] == assoc_map(s.skip(i))[k],
    decreases i,
{
    if i == 0 {
        assert(s.skip(0) =~= s);
    } else {
        lemma_assoc_skip_agree(s.skip(1), i - 1, k);
        assert(s.skip(1).skip(i - 1) =~= s.skip(i));
    }
}

/// A key that occurs in no entry is not in the denoted map.
pub proof fn lemma_assoc_absent<K: View, V>(s: Seq<(K, V)>, k: <K as View>::V)
    requires
        forall|j: int| 0 <= j < s.len() ==> s[j].0@ != k,
    ensures
        !assoc_map(s).dom().contains(k),
{
    lemma_assoc_skip_agree(s, s.len() as int, k);
    assert(s.skip(s.len() as int) =~= Seq::<(K, V)>::empty());
}

/// Inserting an entry whose key misses all earlier entries inserts
/// its pair into the denoted map.
pub proof fn lemma_assoc_insert<K: View, V>(s: Seq<(K, V)>, i: int, p: (K, V))
    requires
        0 <= i <= s.len(),
        forall|j: int| 0 <= j < i ==> s[j].0@ != p.0@,
    ensures
        assoc_map(s.insert(i, p)) =~= assoc_map(s).insert(p.0@, p.1),
    decreases i,
{
    let t = s.insert(i, p);
    if i == 0 {
        assert(t[0] == p);
        assert(t.skip(1) =~= s);
    } else {
        assert(t[0] == s[0]);
        assert(t.skip(1) =~= s.skip(1).insert(i - 1, p));
        lemma_assoc_insert(s.skip(1), i - 1, p);
        assert(assoc_map(t) =~= assoc_map(s.skip(1)).insert(p.0@, p.1).insert(s[0].0@, s[0].1));
        assert(s[0].0@ != p.0@);
        assert(assoc_map(s.skip(1)).insert(p.0@, p.1).insert(s[0].0@, s[0].1) =~= assoc_map(
            s.skip(1),
        ).insert(s[0].0@, s[0].1).insert(p.0@, p.1));
    }
}

/// Replacing the first entry holding a key overwrites that key's value
/// in the denoted map.
pub proof fn lemma_assoc_update<K: View, V>(s: Seq<(K, V)>, i: int, p: (K, V))
    requires
        0 <= i < s.len(),
        s[i].0@ == p.0@,
        forall|j: int| 0 <= j < i ==> s[j].0@ != p.0@,
    ensures
        assoc_map(s.update(i, p)) =~= assoc_map(s).insert(p.0@, p.1),
    decreases i,
{
    let t = s.update(i, p);
    if i == 0 {
        assert(t[0] == p);
        assert(t.skip(1) =~= s.skip(1));
    } else {
        assert(t[0] == s[0]);
        assert(t.skip(1) =~= s.skip(1).update(i - 1, p));
        lemma_assoc_update(s.skip(1), i - 1, p);
        assert(assoc_map(t) =~= assoc_map(s.skip(1)).insert(p.0@, p.1).insert(s[0].0@, s[0].1));
        assert(s[0].0@ != p.0@);
        assert(assoc_map(s.skip(1)).insert(p.0@, p.1).insert(s[0].0@, s[0].1) =~= assoc_map(
            s.skip(1),
        ).insert(s[0].0@, s[0].1).insert(p.0@, p.1));
    }
}

/// Appending an entry with a fresh key inserts its pair into the
/// denoted map.
pub proof fn lemma_assoc_push<K: View, V>(s: Seq<(K, V)>, p: (K, V))
    requires
        forall|j: int| 0 <= j < s.len() ==> s[j].0@ != p.0@,
    ensures
        assoc_map(s.push(p)) =~= assoc_map(s).insert(p.0@, p.1),
    decreases s.len(),
{
    let t = s.push(p);
    if s.len() == 0 {
        assert(t[0] == p);
        assert(t.skip(1) =~= Seq::<(K, V)>::empty());
        assert(assoc_map(Seq::<(K, V)>::empty()) =~= Map::<<K as View>::V, V>::empty());
        assert(assoc_map(t) =~= Map::<<K as View>::V, V>::empty().insert(p.0@, p.1));
        assert(assoc_map(s) =~= Map::<<K as View>::V, V>::empty());
    } else {
        assert(t[0] == s[0]);
        assert(t.skip(1) =~= s.skip(1).push(p));
        lemma_assoc_push(s.skip(1), p);
        assert(assoc_map(t) =~= assoc_map(s.skip(1)).insert(p.0@, p.1).insert(s[0].0@, s[0].1));
        assert(s[0].0@ != p.0@);
        assert(assoc_map(s.skip(1)).insert(p.0@, p.1).insert(s[0].0@, s[0].1) =~= assoc_map(
            s.skip(1),
        ).insert(s[0].0@, s[0].1).insert(p.0@, p.1));
        assert(assoc_map(s).insert(p.0@, p.1) =~= assoc_map(s.skip(1)).insert(s[0].0@, s[0].1)
            .insert(p.0@, p.1));
    }
}

/// Removing the first entry holding a key removes that key from the
/// denoted map, provided keys are distinct.
pub proof fn lemma_assoc_remove<K: View, V>(s: Seq<(K, V)>, i: int)
    requires
        0 <= i < s.len(),
        keys_distinct(s),
    ensures
        assoc_map(s.remove(i)) =~= assoc_map(s).remove(s[i].0@),
    decreases i,
{
    let t = s.remove(i);
    if i == 0 {
        assert(t =~= s.skip(1));
        lemma_assoc_absent(s.skip(1), s[0].0@);
        assert(assoc_map(s).remove(s[0].0@) =~= assoc_map(s.skip(1)));
    } else {
        assert(t[0] == s[0]);
        assert(t.skip(1) =~= s.skip(1).remove(i - 1));
        assert(keys_distinct(s.skip(1)));
        lemma_assoc_remove(s.skip(1), i - 1);
        assert(s[0].0@ != s[i].0@);
        assert(assoc_map(t) =~= assoc_map(s.skip(1)).remove(s[i].0@).insert(s[0].0@, s[0].1));
        assert(assoc_map(s.skip(1)).remove(s[i].0@).insert(s[0].0@, s[0].1) =~= assoc_map(
            s.skip(1),
        ).insert(s[0].0@, s[0].1).remove(s[i].0@));
    }
}

/// Every entry's key is in the denoted map.
pub proof fn lemma_assoc_contains<K: View, V>(s: Seq<(K, V)>, i: int)
    requires
        0 <= i < s.len(),
    ensures
        assoc_map(s).dom().contains(s[i].0@),
    decreases i,
{
    if i > 0 {
        lemma_assoc_contains(s.skip(1), i - 1);
    }
}

/// With distinct keys, each entry's key maps to that entry's value.
pub proof fn lemma_assoc_value_at<K: View, V>(s: Seq<(K, V)>, i: int)
    requires
        keys_distinct(s),
        0 <= i < s.len(),
    ensures
        assoc_map(s).dom().contains(s[i].0@),
        assoc_map(s)[s[i].0@] == s[i].1,
{
    lemma_assoc_contains(s, i);
    lemma_assoc_skip_agree(s, i, s[i].0@);
    assert(s.skip(i)[0] == s[i]);
}

/// Looks a key up in an association list with string keys.
pub fn assoc_get_str<'a, V>(entries: &'a Vec<(String, V)>, name: &str) -> (r: Option<&'a V>)
    ensures
        match r {
            Some(v) => assoc_map(entries@).dom().contains(name@) && *v == assoc_map(
                entries@,
            )[name@] && (exists|i: int|
                0 <= i < entries@.len() && entries@[i].0@ == name@ && *v == entries@[i].1),
            None => !assoc_map(entries@).dom().contains(name@),
        },
{
    let mut i: usize = 0;
    while i < entries.len()
        invariant
            i <= entries@.len(),
            forall|j: int| 0 <= j < i ==> entries@[j].0@ != name@,
        decreases entries@.len() - i,
    {
        if str_eq(entries[i].0.as_str(), name) {
            proof {
                lemma_assoc_skip_agree(entries@, i as int, name@);
            }
            return Some(&entries[i].1);
        }
        i = i + 1;
    }
    proof {
        lemma_assoc_absent(entries@, name@);
    }
    None
}

/// Takes a key's entry out of an association list with distinct string
/// keys.
pub fn assoc_take_str<V>(entries: &mut Vec<(String, V)>, name: &str) -> (r: Option<V>)
    requires
        keys_distinct(old(entries)@),
    ensures
        keys_distinct(final(entries)@),
        match r {
            Some(v) => assoc_map(old(entries)@).dom().contains(name@) && v == assoc_map(
                old(entries)@,
            )[name@] && assoc_map(final(entries)@) == assoc_map(old(entries)@).remove(name@)
                && (exists|i: int|
                0 <= i < old(entries)@.len() && old(entries)@[i].0@ == name@ && v == old(
                    entries,
                )@[i].1),
            None => !assoc_map(old(entries)@).dom().contains(name@) && final(entries)@ == old(
                entries,
            )@,
        },
{
    let ghost s0 = entries@;
    let mut i: usize = 0;
    while i < entries.len()
        invariant
            s0 == old(entries)@,
            entries@ == s0,
            i <= s0.len(),
            keys_distinct(s0),
            forall|j: int| 0 <= j < i ==> s0[j].0@ != name@,
        decreases s0.len() - i,
    {
        if str_eq(entries[i].0.as_str(), name) {
            proof {
                lemma_assoc_contains(s0, i as int);
                lemma_assoc_skip_agree(s0, i as int, name@);
                lemma_assoc_remove(s0, i as int);
            }
            let p = entries.remove(i);
            proof {
                assert(keys_distinct(entries@));
            }
            return Some(p.1);
        }
        i = i + 1;
    }
    proof {
        lemma_assoc_absent(s0, name@);
    }
    None
}

/// Binds a key in an association list with distinct string keys,
/// replacing any entry that already holds it.
pub fn assoc_set_str<V>(entries: &mut Vec<(String, V)>, name: String, value: V)
    requires
        keys_distinct(old(entries)@),
    ensures
        assoc_map(final(entries)@) == assoc_map(old(entries)@).insert(name@, value),
        keys_distinct(final(entries)@),
{
    let ghost s0 = entries@;
    let mut i: usize = 0;
    while i < entries.len()
        invariant
            s0 == old(entries)@,
            entries@ == s0,
            i <= s0.len(),
            keys_distinct(s0),
            forall|j: int| 0 <= j < i ==> s0[j].0@ != name@,
        decreases s0.len() - i,
    {
        if str_eq(entries[i].0.as_str(), name.as_str()) {
            let p = (name, value);
            entries.remove(i);
            entries.insert(i, p);
            proof {
                assert(entries@ =~= s0.update(i as int, p));
                lemma_assoc_update(s0, i as int, p);
                assert(keys_distinct(entries@));
            }
            return ;
        }
        i = i + 1;
    }
    let p = (name, value);
    entries.push(p);
    proof {
        lemma_assoc_push(s0, p);
        assert(keys_distinct(entries@));
    }
}

/// Removes a key from an association list with distinct string keys;
/// reports whether it was there.
pub fn assoc_remove_str<V>(entries: &mut Vec<(String, V)>, name: &str) -> (r: bool)
    requires
        keys_distinct(old(entries)@),
    ensures
        r == assoc_map(old(entries)@).dom().contains(name@),
        assoc_map(final(entries)@) == assoc_map(old(entries)@).remove(name@),
        keys_distinct(final(entries)@),
{
    let ghost s0 = entries@;
    let mut i: usize = 0;
    while i < entries.len()
        invariant
            s0 == old(entries)@,
            entries@ == s0,
            i <= s0.len(),
            keys_distinct(s0),
            forall|j: int| 0 <= j < i ==> s0[j].0@ != name@,
        decreases s0.len() - i,
    {
        if str_eq(entries[i].0.as_str(), name) {
            proof {
                lemma_assoc_contains(s0, i as int);
            }
            entries.remove(i);
            proof {
                lemma_assoc_remove(s0, i as int);
                assert(keys_distinct(entries@));
            }
            return true;
        }
        i = i + 1;
    }
    proof {
        lemma_assoc_absent(s0, name@);
        assert(assoc_map(s0).remove(name@) =~= assoc_map(s0));
    }
    false
}

/// Binds a key in an association list whose string keys are kept in
/// strictly increasing lexicographic order.
pub fn assoc_set_sorted<V>(entries: &mut Vec<(String, V)>, name: String, value: V)
    requires
        keys_sorted(old(entries)@),
    ensures
        assoc_map(final(entries)@) == assoc_map(old(entries)@).insert(name@, value),
        keys_sorted(final(entries)@),
{
    let ghost s0 = entries@;
    let mut i: usize = 0;
    while i < entries.len() && str_lex_lt(entries[i].0.as_str(), name.as_str())
        invariant
            s0 == old(entries)@,
            entries@ == s0,
            i <= s0.len(),
            keys_sorted(s0),
            forall|j: int| 0 <= j < i ==> lex_lt(s0[j].0@, name@),
        decreases s0.len() - i,
    {
        i = i + 1;
    }
    proof {
        assert forall|j: int| 0 <= j < i implies s0[j].0@ != name@ by {
            if s0[j].0@ == name@ {
                lemma_lex_lt_irrefl(name@);
            }
        }
    }
    if i < entries.len() && str_eq(entries[i].0.as_str(), name.as_str()) {
        let p = (name, value);
        entries.remove(i);
        entries.insert(i, p);
        proof {
            assert(entries@ =~= s0.update(i as int, p));
            lemma_assoc_update(s0, i as int, p);
            assert(keys_sorted(entries@));
        }
    } else {
        proof {
            if i < s0.len() {
                lemma_lex_lt_total(s0[i as int].0@, name@);
                assert(lex_lt(name@, s0[i as int].0@));
            }
            assert forall|j: int| i <= j < s0.len() implies lex_lt(name@, s0[j].0@) by {
                lemma_lex_lt_total(s0[i as int].0@, name@);
                if j > i {
                    lemma_lex_lt_trans(name@, s0[i as int].0@, s0[j].0@);
                }
            }
        }
        let p = (name, value);
        entries.insert(i, p);
        proof {
            lemma_assoc_insert(s0, i as int, p);
            let t = s0.insert(i as int, p);
            assert forall|x: int, y: int| 0 <= x < y < t.len() implies lex_lt(t[x].0@, t[y].0@) by {
                assert(t[x] == if x < i { s0[x] } else if x == i { p } else { s0[x - 1] });
                assert(t[y] == if y < i { s0[y] } else if y == i { p } else { s0[y - 1] });
            }
        }
    }
}

} // verus!
