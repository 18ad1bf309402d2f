//! String-keyed association lists.
//!
//! Label maps, annotation maps, resource maps and the namespace cache are
//! all held as vectors of key-value pairs, looked up by first match. An
//! upsert replaces the value behind an existing key and appends otherwise,
//! so a list built only by upserts behaves exactly like a map whose entries
//! reflect the latest write.

use vstd::prelude::*;

verus! {

/// The list seen at the spec level: each key as its character sequence,
/// each value as its view.
pub open spec fn entries_view<V: View>(v: Seq<(String, V)>) -> Seq<(Seq<char>, V::V)> {
    v.map_values(|p: (String, V)| (p.0@, p.1@))
}

/// First-match lookup.
pub open spec fn assoc_lookup<T>(m: Seq<(Seq<char>, T)>, key: Seq<char>) -> Option<T>
    decreases m.len(),
{
    if m.len() == 0 {
        None
    } else if m[0].0 == key {
        Some(m[0].1)
    } else {
        assoc_lookup(m.drop_first(), key)
    }
}

/// A lookup ignores a prefix free of its key.
proof fn lemma_assoc_lookup_skip<T>(m: Seq<(Seq<char>, T)>, i: int, key: Seq<char>)
    requires
        0 <= i <= m.len(),
        forall|j: int| 0 <= j < i ==> (#[trigger] m[j]).0 != key,
    ensures
        assoc_lookup(m, key) == assoc_lookup(m.skip(i), key),
    decreases i,
{
    if i > 0 {
        assert(m[0].0 != key);
        let d = m.drop_first();
        assert(forall|j: int| 0 <= j < i - 1 ==> (#[trigger] d[j]).0 != key);
        lemma_assoc_lookup_skip(d, i - 1, key);
        assert(d.skip(i - 1) =~= m.skip(i));
    } else {
        assert(m.skip(0) =~= m);
    }
}

/// Replacing the first entry that carries a key rebinds that key and
/// nothing else.
proof fn lemma_assoc_update_first<T>(m: Seq<(Seq<char>, T)>, i: int, x: (Seq<char>, T), key: Seq<char>)
    requires
        0 <= i < m.len(),
        m[i].0 == x.0,
        forall|j: int| 0 <= j < i ==> (#[trigger] m[j]).0 != x.0,
    ensures
        assoc_lookup(m.update(i, x), key) == if key == x.0 {
            Some(x.1)
        } else {
            assoc_lookup(m, key)
        },
    decreases i,
{
    let u = m.update(i, x);
    if i == 0 {
        assert(u[0] == x);
        if key != x.0 {
            assert(u.drop_first() =~= m.drop_first());
        }
    } else {
        assert(u[0] == m[0]);
        assert(m[0].0 != x.0);
        if u[0].0 == key {
        } else {
            let d = m.drop_first();
            assert(u.drop_first() =~= d.update(i - 1, x));
            assert(d[i - 1].0 == x.0);
            assert(forall|j: int| 0 <= j < i - 1 ==> (#[trigger] d[j]).0 != x.0);
            lemma_assoc_update_first(d, i - 1, x, key);
        }
    }
}

/// Appending a fresh key binds it and leaves every other key alone.
proof fn lemma_assoc_push<T>(m: Seq<(Seq<char>, T)>, x: (Seq<char>, T), key: Seq<char>)
    requires
        assoc_lookup(m, x.0) is None,
    ensures
        assoc_lookup(m.push(x), key) == if key == x.0 {
            Some(x.1)
        } else {
            assoc_lookup(m, key)
        },
    decreases m.len(),
{
    let p = m.push(x);
    if m.len() == 0 {
        assert(p[0] == x);
        if key != x.0 {
            assert(p.drop_first() =~= Seq::<(Seq<char>, T)>::empty());
        }
    } else {
        assert(p[0] == m[0]);
        if p[0].0 == key {
        } else {
            assert(p.drop_first() =~= m.drop_first().push(x));
            lemma_assoc_push(m.drop_first(), x, key);
        }
    }
}

/// Looks a key up in an association list, returning a borrow of the first
/// value stored behind it.
pub fn assoc_get<'a, V: View>(entries: &'a Vec<(String, V)>, key: &String) -> (r: Option<&'a V>)
    ensures
        match r {
            Some(v) => assoc_lookup(entries_view(entries@), key@) == Some(v@),
            None => assoc_lookup(entries_view(entries@), key@) is None,
        },
{
    let ghost m = entries_view(entries@);
    let mut i: usize = 0;
    while i < entries.len()
        invariant
            i <= entries.len(),
            m == entries_view(entries@),
            forall|j: int| 0 <= j < i ==> (#[trigger] m[j]).0 != key@,
        decreases entries.len() - i,
    {
        if entries[i].0 == *key {
            proof {
                lemma_assoc_lookup_skip(m, i as int, key@);
                assert(m.skip(i as int)[0] == m[i as int]);
                assert(m[i as int] == (entries@[i as int].0@, entries@[i as int].1@));
            }
            return Some(&entries[i].1);
        }
        proof {
            assert(m[i as int] == (entries@[i as int].0@, entries@[i as int].1@));
        }
        i = i + 1;
    }
    proof {
        lemma_assoc_lookup_skip(m, entries.len() as int, key@);
        assert(m.skip(entries.len() as int) =~= Seq::<(Seq<char>, V::V)>::empty());
    }
    None
}

/// Binds a key to a value: the first entry carrying the key is replaced,
/// or a new entry is appended. Afterwards the key reads back as the given
/// value and every other key is unchanged.
pub fn assoc_upsert<V: View>(entries: &mut Vec<(String, V)>, name: String, value: V)
    ensures
        forall|k: Seq<char>|
            assoc_lookup(entries_view(final(entries)@), k) == if k == name@ {
                Some(value@)
            } else {
                assoc_lookup(entries_view(old(entries)@), k)
            },
{
    let ghost m = entries_view(entries@);
    let mut i: usize = 0;
    while i < entries.len()
        invariant
            i <= entries.len(),
            m == entries_view(entries@),
            m == entries_view(old(entries)@),
            forall|j: int| 0 <= j < i ==> (#[trigger] m[j]).0 != name@,
        decreases entries.len() - i,
    {
        if entries[i].0 == name {
            proof {
                assert(m[i as int] == (entries@[i as int].0@, entries@[i as int].1@));
                assert(m[i as int].0 == name@);
            }
            let ghost m0 = entries@;
            entries.remove(i);
            entries.insert(i, (name, value));
            proof {
                assert(entries@ =~= m0.update(i as int, (name, value)));
                assert(entries_view(entries@) =~= m.update(i as int, (name@, value@)));
                assert forall|k: Seq<char>|
                    assoc_lookup(entries_view(entries@), k) == (if k == name@ {
                        Some(value@)
                    } else {
                        assoc_lookup(m, k)
                    }) by {
                    lemma_assoc_update_first(m, i as int, (name@, value@), k);
                }
            }
            return ;
        }
        proof {
            assert(m[i as int] == (entries@[i as int].0@, entries@[i as int].1@));
        }
        i = i + 1;
    }
    proof {
        lemma_assoc_lookup_skip(m, entries.len() as int, name@);
        assert(m.skip(entries.len() as int) =~= Seq::<(Seq<char>, V::V)>::empty());
        assert(assoc_lookup(m, name@) is None);
    }
    entries.push((name, value));
    proof {
        assert(entries_view(entries@) =~= m.push((name@, value@)));
        assert forall|k: Seq<char>|
            assoc_lookup(entries_view(entries@), k) == (if k == name@ {
                Some(value@)
            } else {
                assoc_lookup(m, k)
            }) by {
            lemma_assoc_push(m, (name@, value@), k);
        }
    }
}

} // verus!
