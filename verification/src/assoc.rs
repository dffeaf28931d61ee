//! Association lists keyed by text or by number: the library's maps. A list
//! stands for the map from each key to the value of its first entry; insert
//! replaces that entry or appends one, as a map insert does.
use vstd::prelude::*;

verus! {

/// The value of the first entry whose key is `k`.
pub open spec fn assoc<V>(m: Seq<(String, V)>, k: Seq<char>) -> Option<V>
    decreases m.len(),
{
    if m.len() == 0 {
        None
    } else if m[0].0@ == k {
        Some(m[0].1)
    } else {
        assoc(m.drop_first(), k)
    }
}

/// The map that an association list stands for.
pub open spec fn as_map<V>(m: Seq<(String, V)>) -> Map<Seq<char>, V> {
    Map::new(|k: Seq<char>| assoc(m, k) is Some, |k: Seq<char>| assoc(m, k)->0)
}

/// The keys of a list, in order.
pub open spec fn keys_of<V>(m: Seq<(String, V)>) -> Seq<Seq<char>> {
    m.map_values(|e: (String, V)| e.0@)
}

/// No key occurs twice.
pub open spec fn unique_keys<V>(m: Seq<(String, V)>) -> bool {
    forall|i: int, j: int| 0 <= i < j < m.len() ==> m[i].0@ != m[j].0@
}

pub proof fn lemma_assoc_skip<V>(m: Seq<(String, V)>, k: Seq<char>, i: int)
    requires
        0 <= i <= m.len(),
        forall|j: int| 0 <= j < i ==> m[j].0@ != k,
    ensures
        assoc(m, k) == assoc(m.skip(i), k),
    decreases i,
{
    if i > 0 {
        lemma_assoc_skip(m, k, i - 1);
        assert(m.skip(i - 1)[0] == m[i - 1]);
        assert(m.skip(i - 1).drop_first() =~= m.skip(i));
    } else {
        assert(m.skip(0) =~= m);
    }
}

pub proof fn lemma_assoc_at<V>(m: Seq<(String, V)>, k: Seq<char>, i: int)
    requires
        0 <= i < m.len(),
        m[i].0@ == k,
        forall|j: int| 0 <= j < i ==> m[j].0@ != k,
    ensures
        assoc(m, k) == Some(m[i].1),
{
    lemma_assoc_skip(m, k, i);
    assert(m.skip(i)[0] == m[i]);
}

pub proof fn lemma_assoc_none<V>(m: Seq<(String, V)>, k: Seq<char>)
    requires
        forall|j: int| 0 <= j < m.len() ==> m[j].0@ != k,
    ensures
        assoc(m, k) is None,
{
    lemma_assoc_skip(m, k, m.len() as int);
}

/// An entry for `k` exists exactly when some entry has that key.
pub proof fn lemma_assoc_some<V>(m: Seq<(String, V)>, k: Seq<char>)
    ensures
        assoc(m, k) is Some <==> exists|j: int| 0 <= j < m.len() && m[j].0@ == k,
    decreases m.len(),
{
    if m.len() > 0 {
        lemma_assoc_some(m.drop_first(), k);
        if exists|j: int| 0 <= j < m.len() && m[j].0@ == k {
            let j = choose|j: int| 0 <= j < m.len() && m[j].0@ == k;
            if j > 0 {
                assert(m.drop_first()[j - 1] == m[j]);
            }
        }
        if exists|j: int| 0 <= j < m.drop_first().len() && m.drop_first()[j].0@ == k {
            let j = choose|j: int| 0 <= j < m.drop_first().len() && m.drop_first()[j].0@ == k;
            assert(m[j + 1] == m.drop_first()[j]);
        }
    }
}

/// With unique keys, the value of any entry is the value its key maps to.
pub proof fn lemma_assoc_unique<V>(m: Seq<(String, V)>, i: int)
    requires
        unique_keys(m),
        0 <= i < m.len(),
    ensures
        assoc(m, m[i].0@) == Some(m[i].1),
{
    lemma_assoc_at(m, m[i].0@, i);
}

/// Index of the first entry with key `k`.
pub fn find_key<V>(m: &Vec<(String, V)>, k: &str) -> (r: Option<usize>)
    ensures
        match r {
            Some(i) => i < m@.len() && m@[i as int].0@ == k@ && (forall|j: int|
                0 <= j < i ==> m@[j].0@ != k@) && assoc(m@, k@) == Some(m@[i as int].1),
            None => assoc(m@, k@) is None && forall|j: int| 0 <= j < m@.len() ==> m@[j].0@ != k@,
        },
{
    let key: String = k.to_owned();
    let mut i: usize = 0;
    while i < m.len()
        invariant
            i <= m@.len(),
            key@ == k@,
            forall|j: int| 0 <= j < i ==> m@[j].0@ != k@,
        decreases m@.len() - i,
    {
        if m[i].0 == key {
            proof {
                lemma_assoc_at(m@, k@, i as int);
            }
            return Some(i);
        }
        i += 1;
    }
    proof {
        lemma_assoc_none(m@, k@);
    }
    None
}

/// The value stored for `k`.
pub fn lookup<'a, V>(m: &'a Vec<(String, V)>, k: &str) -> (r: Option<&'a V>)
    ensures
        match r {
            Some(v) => assoc(m@, k@) == Some(*v),
            None => assoc(m@, k@) is None,
        },
{
    match find_key(m, k) {
        Some(i) => Some(&m[i].1),
        None => None,
    }
}

/// The text stored for `k`, or the empty string.
pub fn lookup_text(m: &Vec<(String, String)>, k: &str) -> (r: String)
    ensures
        r@ == text_or_empty(assoc(m@, k@)),
{
    match lookup(m, k) {
        Some(v) => v.clone(),
        None => String::new(),
    }
}

/// The text of an optional string, empty for `None`.
pub open spec fn text_or_empty(o: Option<String>) -> Seq<char> {
    match o {
        Some(s) => s@,
        None => Seq::empty(),
    }
}

pub proof fn lemma_update_at<V>(m: Seq<(String, V)>, i: int, nk: String, v: V, k: Seq<char>)
    requires
        0 <= i < m.len(),
        nk@ == m[i].0@,
        forall|j: int| 0 <= j < i ==> m[j].0@ != m[i].0@,
    ensures
        assoc(m.update(i, (nk, v)), k) == (if k == m[i].0@ {
            Some(v)
        } else {
            assoc(m, k)
        }),
    decreases i,
{
    let m2 = m.update(i, (nk, v));
    if i == 0 {
        assert(m2.drop_first() =~= m.drop_first());
    } else {
        assert(m2.drop_first() =~= m.drop_first().update(i - 1, (nk, v)));
        assert(m.drop_first()[i - 1] == m[i]);
        lemma_update_at(m.drop_first(), i - 1, nk, v, k);
    }
}

pub proof fn lemma_push<V>(m: Seq<(String, V)>, key: String, v: V, k: Seq<char>)
    ensures
        assoc(m.push((key, v)), k) == (if assoc(m, k) is Some {
            assoc(m, k)
        } else if key@ == k {
            Some(v)
        } else {
            None
        }),
    decreases m.len(),
{
    if m.len() == 0 {
        assert(m.push((key, v)).drop_first() =~= Seq::<(String, V)>::empty());
    } else {
        assert(m.push((key, v)).drop_first() =~= m.drop_first().push((key, v)));
        lemma_push(m.drop_first(), key, v, k);
    }
}

/// Stores `v` under `k`, replacing an existing value.
pub fn insert<V>(m: &mut Vec<(String, V)>, k: String, v: V)
    ensures
        as_map(final(m)@) == as_map(old(m)@).insert(k@, v),
        unique_keys(old(m)@) ==> unique_keys(final(m)@),
{
    match find_key(m, k.as_str()) {
        Some(i) => {
            let ghost old_m = m@;
            let ghost nk = k;
            m.set(i, (k, v));
            proof {
                assert(m@ == old_m.update(i as int, (nk, v)));
                assert forall|key: Seq<char>| #[trigger] as_map(m@).contains_key(key) == as_map(
                    old_m,
                ).insert(k@, v).contains_key(key) && (as_map(m@).contains_key(key) ==> as_map(
                    m@,
                )[key] == as_map(old_m).insert(k@, v)[key]) by {
                    lemma_update_at(old_m, i as int, nk, v, key);
                }
                assert(as_map(m@) =~= as_map(old_m).insert(k@, v));
            }
        },
        None => {
            let ghost old_m = m@;
            let ghost kv = k@;
            m.push((k, v));
            proof {
                assert forall|key: Seq<char>| #[trigger] as_map(m@).contains_key(key) == as_map(
                    old_m,
                ).insert(kv, v).contains_key(key) && (as_map(m@).contains_key(key) ==> as_map(
                    m@,
                )[key] == as_map(old_m).insert(kv, v)[key]) by {
                    lemma_push(old_m, m@.last().0, v, key);
                    assert(m@ == old_m.push((m@.last().0, v)));
                }
                assert(as_map(m@) =~= as_map(old_m).insert(kv, v));
            }
        },
    }
}

/// The value of the first entry whose numeric key is `k`.
pub open spec fn assoc_n<V>(m: Seq<(u32, V)>, k: u32) -> Option<V>
    decreases m.len(),
{
    if m.len() == 0 {
        None
    } else if m[0].0 == k {
        Some(m[0].1)
    } else {
        assoc_n(m.drop_first(), k)
    }
}

/// The map that a numerically keyed association list stands for.
pub open spec fn as_map_n<V>(m: Seq<(u32, V)>) -> Map<u32, V> {
    Map::new(|k: u32| assoc_n(m, k) is Some, |k: u32| assoc_n(m, k)->0)
}

proof fn lemma_assoc_n_skip<V>(m: Seq<(u32, V)>, k: u32, i: int)
    requires
        0 <= i <= m.len(),
        forall|j: int| 0 <= j < i ==> m[j].0 != k,
    ensures
        assoc_n(m, k) == assoc_n(m.skip(i), k),
    decreases i,
{
    if i > 0 {
        lemma_assoc_n_skip(m, k, i - 1);
        assert(m.skip(i - 1)[0] == m[i - 1]);
        assert(m.skip(i - 1).drop_first() =~= m.skip(i));
    } else {
        assert(m.skip(0) =~= m);
    }
}

pub fn find_key_n<V>(m: &Vec<(u32, V)>, k: u32) -> (r: Option<usize>)
    ensures
        match r {
            Some(i) => i < m@.len() && m@[i as int].0 == k && assoc_n(m@, k) == Some(
                m@[i as int].1,
            ),
            None => assoc_n(m@, k) is None,
        },
{
    let mut i: usize = 0;
    while i < m.len()
        invariant
            i <= m@.len(),
            forall|j: int| 0 <= j < i ==> m@[j].0 != k,
        decreases m@.len() - i,
    {
        if m[i].0 == k {
            proof {
                lemma_assoc_n_skip(m@, k, i as int);
                assert(m@.skip(i as int)[0] == m@[i as int]);
            }
            return Some(i);
        }
        i += 1;
    }
    proof {
        lemma_assoc_n_skip(m@, k, i as int);
    }
    None
}

proof fn lemma_update_at_n<V>(m: Seq<(u32, V)>, i: int, v: V, k: u32)
    requires
        0 <= i < m.len(),
        forall|j: int| 0 <= j < i ==> m[j].0 != m[i].0,
    ensures
        assoc_n(m.update(i, (m[i].0, v)), k) == (if k == m[i].0 {
            Some(v)
        } else {
            assoc_n(m, k)
        }),
    decreases i,
{
    let m2 = m.update(i, (m[i].0, v));
    if i == 0 {
        assert(m2.drop_first() =~= m.drop_first());
    } else {
        assert(m2.drop_first() =~= m.drop_first().update(i - 1, (m[i].0, v)));
        assert(m.drop_first()[i - 1] == m[i]);
        lemma_update_at_n(m.drop_first(), i - 1, v, k);
    }
}

proof fn lemma_push_n<V>(m: Seq<(u32, V)>, key: u32, v: V, k: u32)
    ensures
        assoc_n(m.push((key, v)), k) == (if assoc_n(m, k) is Some {
            assoc_n(m, k)
        } else if key == k {
            Some(v)
        } else {
            None
        }),
    decreases m.len(),
{
    if m.len() == 0 {
        assert(m.push((key, v)).drop_first() =~= Seq::<(u32, V)>::empty());
    } else {
        assert(m.push((key, v)).drop_first() =~= m.drop_first().push((key, v)));
        lemma_push_n(m.drop_first(), key, v, k);
    }
}

pub fn insert_n<V>(m: &mut Vec<(u32, V)>, k: u32, v: V)
    ensures
        as_map_n(final(m)@) == as_map_n(old(m)@).insert(k, v),
{
    let ghost old_m = m@;
    let mut i: usize = 0;
    while i < m.len()
        invariant
            m@ == old_m,
            old_m == old(m)@,
            i <= m@.len(),
            forall|j: int| 0 <= j < i ==> m@[j].0 != k,
        decreases m@.len() - i,
    {
        if m[i].0 == k {
            m.set(i, (k, v));
            proof {
                assert(m@ == old_m.update(i as int, (old_m[i as int].0, v)));
                assert forall|key: u32| #[trigger] as_map_n(m@).contains_key(key) == as_map_n(
                    old_m,
                ).insert(k, v).contains_key(key) && (as_map_n(m@).contains_key(key) ==> as_map_n(
                    m@,
                )[key] == as_map_n(old_m).insert(k, v)[key]) by {
                    lemma_update_at_n(old_m, i as int, v, key);
                }
                assert(as_map_n(m@) =~= as_map_n(old_m).insert(k, v));
            }
            return;
        }
        i += 1;
    }
    m.push((k, v));
    proof {
        assert forall|key: u32| #[trigger] as_map_n(m@).contains_key(key) == as_map_n(
            old_m,
        ).insert(k, v).contains_key(key) && (as_map_n(m@).contains_key(key) ==> as_map_n(
            m@,
        )[key] == as_map_n(old_m).insert(k, v)[key]) by {
            lemma_assoc_n_skip(old_m, k, old_m.len() as int);
            lemma_push_n(old_m, k, v, key);
        }
        assert(as_map_n(m@) =~= as_map_n(old_m).insert(k, v));
    }
}

/// The map of texts that a table of strings stands for.
pub open spec fn text_map(m: Seq<(String, String)>) -> Map<Seq<char>, Seq<char>> {
    as_map(m).map_values(|s: String| s@)
}

/// The map of texts that a numerically keyed table of strings stands for.
pub open spec fn text_map_n(m: Seq<(u32, String)>) -> Map<u32, Seq<char>> {
    as_map_n(m).map_values(|s: String| s@)
}

/// Stores text `v` under `k` in a table of strings.
pub fn insert_text(m: &mut Vec<(String, String)>, k: String, v: String)
    ensures
        text_map(final(m)@) == text_map(old(m)@).insert(k@, v@),
{
    let ghost old_m = m@;
    let ghost vv = v;
    insert(m, k, v);
    proof {
        assert(text_map(m@) =~= text_map(old_m).insert(k@, vv@));
    }
}

/// Stores text `v` under the number `k`.
pub fn insert_text_n(m: &mut Vec<(u32, String)>, k: u32, v: String)
    ensures
        text_map_n(final(m)@) == text_map_n(old(m)@).insert(k, v@),
{
    let ghost old_m = m@;
    let ghost vv = v;
    insert_n(m, k, v);
    proof {
        assert(text_map_n(m@) =~= text_map_n(old_m).insert(k, vv@));
    }
}

/// The text stored for `k`, when there is one.
pub fn get_text(m: &Vec<(String, String)>, k: &str) -> (r: Option<String>)
    ensures
        match r {
            Some(v) => text_map(m@).contains_key(k@) && text_map(m@)[k@] == v@,
            None => !text_map(m@).contains_key(k@),
        },
{
    match lookup(m, k) {
        Some(v) => Some(v.clone()),
        None => None,
    }
}

/// The text stored for the number `k`, when there is one.
pub fn get_text_n(m: &Vec<(u32, String)>, k: u32) -> (r: Option<String>)
    ensures
        match r {
            Some(v) => text_map_n(m@).contains_key(k) && text_map_n(m@)[k] == v@,
            None => !text_map_n(m@).contains_key(k),
        },
{
    match find_key_n(m, k) {
        Some(i) => Some(m[i].1.clone()),
        None => None,
    }
}

} // verus!
