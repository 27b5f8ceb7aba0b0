//! Helpers for vectors used as sets and as association lists with unique
//! keys, together with the lemmas their callers need.

use vstd::prelude::*;

verus! {

/// Whether the association list `s` holds an entry for the name `k`.
pub open spec fn has_str_key<T>(s: Seq<(String, T)>, k: Seq<char>) -> bool {
    exists|i: int| 0 <= i < s.len() && s[i].0@ == k
}

/// The index of the entry for `k` in `s`.
pub open spec fn str_key_idx<T>(s: Seq<(String, T)>, k: Seq<char>) -> int {
    choose|i: int| 0 <= i < s.len() && s[i].0@ == k
}

/// The value stored for `k` in `s`.
pub open spec fn str_key_val<T>(s: Seq<(String, T)>, k: Seq<char>) -> T {
    s[str_key_idx(s, k)].1
}

/// All names in the association list `s` are distinct.
pub open spec fn str_keys_unique<T>(s: Seq<(String, T)>) -> bool {
    forall|i: int, j: int| 0 <= i < j < s.len() ==> s[i].0@ != s[j].0@
}

/// Whether the association list `s` holds an entry for the key `k`.
pub open spec fn has_u64_key<T>(s: Seq<(u64, T)>, k: u64) -> bool {
    exists|i: int| 0 <= i < s.len() && s[i].0 == k
}

/// The index of the entry for `k` in `s`.
pub open spec fn u64_key_idx<T>(s: Seq<(u64, T)>, k: u64) -> int {
    choose|i: int| 0 <= i < s.len() && s[i].0 == k
}

/// The value stored for `k` in `s`.
pub open spec fn u64_key_val<T>(s: Seq<(u64, T)>, k: u64) -> T {
    s[u64_key_idx(s, k)].1
}

/// All keys in the association list `s` are distinct.
pub open spec fn u64_keys_unique<T>(s: Seq<(u64, T)>) -> bool {
    forall|i: int, j: int| 0 <= i < j < s.len() ==> s[i].0 != s[j].0
}

/// With unique names, any entry holding `k` stands at `str_key_idx`.
pub proof fn lemma_str_key_at<T>(s: Seq<(String, T)>, k: Seq<char>, i: int)
    requires
        str_keys_unique(s),
        0 <= i < s.len(),
        s[i].0@ == k,
    ensures
        has_str_key(s, k),
        str_key_idx(s, k) == i,
        str_key_val(s, k) == s[i].1,
{
    assert(has_str_key(s, k));
    let j = str_key_idx(s, k);
    if i < j {
        assert(s[i].0@ != s[j].0@);
    } else if j < i {
        assert(s[j].0@ != s[i].0@);
    }
}

/// With unique keys, any entry holding `k` stands at `u64_key_idx`.
pub proof fn lemma_u64_key_at<T>(s: Seq<(u64, T)>, k: u64, i: int)
    requires
        u64_keys_unique(s),
        0 <= i < s.len(),
        s[i].0 == k,
    ensures
        has_u64_key(s, k),
        u64_key_idx(s, k) == i,
        u64_key_val(s, k) == s[i].1,
{
    assert(has_u64_key(s, k));
    let j = u64_key_idx(s, k);
    if i < j {
        assert(s[i].0 != s[j].0);
    } else if j < i {
        assert(s[j].0 != s[i].0);
    }
}

/// Find the entry for the name `k`.
pub fn str_key_find<T>(v: &Vec<(String, T)>, k: &String) -> (r: Option<usize>)
    ensures
        match r {
            Some(i) => 0 <= i < v@.len() && v@[i as int].0@ == k@,
            None => !has_str_key(v@, k@),
        },
{
    let n = v.len();
    let mut i: usize = 0;
    while i < n
        invariant
            i <= n,
            n == v@.len(),
            forall|j: int| 0 <= j < i ==> v@[j].0@ != k@,
        decreases n - i,
    {
        if *k == v[i].0 {
            return Some(i);
        }
        i = i + 1;
    }
    None
}

/// Find the entry for the key `k`.
pub fn u64_key_find<T>(v: &Vec<(u64, T)>, k: u64) -> (r: Option<usize>)
    ensures
        match r {
            Some(i) => 0 <= i < v@.len() && v@[i as int].0 == k,
            None => !has_u64_key(v@, k),
        },
{
    let n = v.len();
    let mut i: usize = 0;
    while i < n
        invariant
            i <= n,
            n == v@.len(),
            forall|j: int| 0 <= j < i ==> v@[j].0 != k,
        decreases n - i,
    {
        if v[i].0 == k {
            return Some(i);
        }
        i = i + 1;
    }
    None
}

/// Whether the vector contains the value `x`.
pub fn contains_u64(v: &Vec<u64>, x: u64) -> (r: bool)
    ensures
        r == v@.contains(x),
{
    let n = v.len();
    let mut i: usize = 0;
    while i < n
        invariant
            i <= n,
            n == v@.len(),
            forall|j: int| 0 <= j < i ==> v@[j] != x,
        decreases n - i,
    {
        if v[i] == x {
            return true;
        }
        i = i + 1;
    }
    false
}

/// Whether the sequence of names holds the name `x`.
pub open spec fn seq_has_name(s: Seq<String>, x: Seq<char>) -> bool {
    exists|i: int| 0 <= i < s.len() && s[i]@ == x
}

/// Whether the vector of names contains the name `x`.
pub fn contains_str(v: &Vec<String>, x: &String) -> (r: bool)
    ensures
        r == seq_has_name(v@, x@),
{
    let n = v.len();
    let mut i: usize = 0;
    while i < n
        invariant
            i <= n,
            n == v@.len(),
            forall|j: int| 0 <= j < i ==> v@[j]@ != x@,
        decreases n - i,
    {
        if *x == v[i] {
            assert(seq_has_name(v@, x@));
            return true;
        }
        i = i + 1;
    }
    false
}

/// The entry stored for the name `k`, if any.
pub open spec fn str_key_opt<T>(s: Seq<(String, T)>, k: Seq<char>) -> Option<T> {
    if has_str_key(s, k) {
        Option::Some(str_key_val(s, k))
    } else {
        Option::None
    }
}

/// The entry stored for the key `k`, if any.
pub open spec fn u64_key_opt<T>(s: Seq<(u64, T)>, k: u64) -> Option<T> {
    if has_u64_key(s, k) {
        Option::Some(u64_key_val(s, k))
    } else {
        Option::None
    }
}

/// Replacing the value at index `i` changes that name's entry and no
/// other.
pub proof fn lemma_str_update_frame<T>(s: Seq<(String, T)>, i: int, v: T)
    requires
        str_keys_unique(s),
        0 <= i < s.len(),
    ensures
        ({
            let t = s.update(i, (s[i].0, v));
            &&& str_keys_unique(t)
            &&& str_key_opt(t, s[i].0@) == Option::Some(v)
            &&& forall|k: Seq<char>| k != s[i].0@ ==> #[trigger] str_key_opt(t, k) == str_key_opt(s, k)
        }),
{
    let t = s.update(i, (s[i].0, v));
    assert(forall|j: int| 0 <= j < s.len() ==> t[j].0 == s[j].0);
    lemma_str_key_at(t, s[i].0@, i);
    assert forall|k: Seq<char>| k != s[i].0@ implies #[trigger] str_key_opt(t, k) == str_key_opt(
        s,
        k,
    ) by {
        if has_str_key(s, k) {
            let j = str_key_idx(s, k);
            lemma_str_key_at(s, k, j);
            lemma_str_key_at(t, k, j);
        } else {
            if has_str_key(t, k) {
                let j = str_key_idx(t, k);
                assert(s[j].0@ == k);
            }
        }
    }
}

/// Appending an entry under a fresh name adds that name and changes no
/// other.
pub proof fn lemma_str_push_frame<T>(s: Seq<(String, T)>, name: String, v: T)
    requires
        str_keys_unique(s),
        !has_str_key(s, name@),
    ensures
        ({
            let t = s.push((name, v));
            &&& str_keys_unique(t)
            &&& str_key_opt(t, name@) == Option::Some(v)
            &&& forall|k: Seq<char>| k != name@ ==> #[trigger] str_key_opt(t, k) == str_key_opt(s, k)
        }),
{
    let t = s.push((name, v));
    assert(forall|j: int| 0 <= j < s.len() ==> t[j].0 == s[j].0);
    assert(t[s.len() as int].0@ == name@);
    lemma_str_key_at(t, name@, s.len() as int);
    assert forall|k: Seq<char>| k != name@ implies #[trigger] str_key_opt(t, k) == str_key_opt(
        s,
        k,
    ) by {
        if has_str_key(s, k) {
            let j = str_key_idx(s, k);
            lemma_str_key_at(s, k, j);
            lemma_str_key_at(t, k, j);
        } else {
            if has_str_key(t, k) {
                let j = str_key_idx(t, k);
                assert(0 <= j < s.len() ==> s[j].0@ == k);
            }
        }
    }
}

/// Removing the entry at index `i` drops that name and changes no other.
pub proof fn lemma_str_remove_frame<T>(s: Seq<(String, T)>, i: int)
    requires
        str_keys_unique(s),
        0 <= i < s.len(),
    ensures
        ({
            let t = s.remove(i);
            &&& str_keys_unique(t)
            &&& str_key_opt(t, s[i].0@) == Option::None::<T>
            &&& forall|k: Seq<char>| k != s[i].0@ ==> #[trigger] str_key_opt(t, k) == str_key_opt(s, k)
        }),
{
    let t = s.remove(i);
    assert(forall|j: int| 0 <= j < i ==> t[j] == s[j]);
    assert(forall|j: int| i <= j < t.len() ==> t[j] == s[j + 1]);
    assert forall|p: int, q: int| 0 <= p < q < t.len() implies t[p].0@ != t[q].0@ by {
        let p2 = if p < i {
            p
        } else {
            p + 1
        };
        let q2 = if q < i {
            q
        } else {
            q + 1
        };
        assert(t[p] == s[p2] && t[q] == s[q2]);
    }
    if has_str_key(t, s[i].0@) {
        let j = str_key_idx(t, s[i].0@);
        let j2 = if j < i {
            j
        } else {
            j + 1
        };
        assert(s[j2].0@ == s[i].0@ && j2 != i);
    }
    assert forall|k: Seq<char>| k != s[i].0@ implies #[trigger] str_key_opt(t, k) == str_key_opt(
        s,
        k,
    ) by {
        if has_str_key(s, k) {
            let j = str_key_idx(s, k);
            lemma_str_key_at(s, k, j);
            let j2 = if j < i {
                j
            } else {
                j - 1
            };
            assert(t[j2].0@ == k && t[j2].1 == s[j].1);
            lemma_str_key_at(t, k, j2);
        } else {
            if has_str_key(t, k) {
                let j = str_key_idx(t, k);
                let j2 = if j < i {
                    j
                } else {
                    j + 1
                };
                assert(s[j2].0@ == k);
            }
        }
    }
}

/// Replacing the value at index `i` changes that key's entry and no other.
pub proof fn lemma_u64_update_frame<T>(s: Seq<(u64, T)>, i: int, v: T)
    requires
        u64_keys_unique(s),
        0 <= i < s.len(),
    ensures
        ({
            let t = s.update(i, (s[i].0, v));
            &&& u64_keys_unique(t)
            &&& u64_key_opt(t, s[i].0) == Option::Some(v)
            &&& forall|k: u64| k != s[i].0 ==> #[trigger] u64_key_opt(t, k) == u64_key_opt(s, k)
        }),
{
    let t = s.update(i, (s[i].0, v));
    assert(forall|j: int| 0 <= j < s.len() ==> t[j].0 == s[j].0);
    lemma_u64_key_at(t, s[i].0, i);
    assert forall|k: u64| k != s[i].0 implies #[trigger] u64_key_opt(t, k) == u64_key_opt(s, k) by {
        if has_u64_key(s, k) {
            let j = u64_key_idx(s, k);
            lemma_u64_key_at(s, k, j);
            lemma_u64_key_at(t, k, j);
        } else {
            if has_u64_key(t, k) {
                let j = u64_key_idx(t, k);
                assert(s[j].0 == k);
            }
        }
    }
}

/// Appending an entry under a fresh key adds that key and changes no
/// other.
pub proof fn lemma_u64_push_frame<T>(s: Seq<(u64, T)>, key: u64, v: T)
    requires
        u64_keys_unique(s),
        !has_u64_key(s, key),
    ensures
        ({
            let t = s.push((key, v));
            &&& u64_keys_unique(t)
            &&& u64_key_opt(t, key) == Option::Some(v)
            &&& forall|k: u64| k != key ==> #[trigger] u64_key_opt(t, k) == u64_key_opt(s, k)
        }),
{
    let t = s.push((key, v));
    assert(forall|j: int| 0 <= j < s.len() ==> t[j].0 == s[j].0);
    assert(t[s.len() as int].0 == key);
    lemma_u64_key_at(t, key, s.len() as int);
    assert forall|k: u64| k != key implies #[trigger] u64_key_opt(t, k) == u64_key_opt(s, k) by {
        if has_u64_key(s, k) {
            let j = u64_key_idx(s, k);
            lemma_u64_key_at(s, k, j);
            lemma_u64_key_at(t, k, j);
        } else {
            if has_u64_key(t, k) {
                let j = u64_key_idx(t, k);
                assert(0 <= j < s.len() ==> s[j].0 == k);
            }
        }
    }
}

/// Removing the entry at index `i` drops that key and changes no other.
pub proof fn lemma_u64_remove_frame<T>(s: Seq<(u64, T)>, i: int)
    requires
        u64_keys_unique(s),
        0 <= i < s.len(),
    ensures
        ({
            let t = s.remove(i);
            &&& u64_keys_unique(t)
            &&& u64_key_opt(t, s[i].0) == Option::None::<T>
            &&& forall|k: u64| k != s[i].0 ==> #[trigger] u64_key_opt(t, k) == u64_key_opt(s, k)
        }),
{
    let t = s.remove(i);
    assert(forall|j: int| 0 <= j < i ==> t[j] == s[j]);
    assert(forall|j: int| i <= j < t.len() ==> t[j] == s[j + 1]);
    assert forall|p: int, q: int| 0 <= p < q < t.len() implies t[p].0 != t[q].0 by {
        let p2 = if p < i {
            p
        } else {
            p + 1
        };
        let q2 = if q < i {
            q
        } else {
            q + 1
        };
        assert(t[p] == s[p2] && t[q] == s[q2]);
    }
    if has_u64_key(t, s[i].0) {
        let j = u64_key_idx(t, s[i].0);
        let j2 = if j < i {
            j
        } else {
            j + 1
        };
        assert(s[j2].0 == s[i].0 && j2 != i);
    }
    assert forall|k: u64| k != s[i].0 implies #[trigger] u64_key_opt(t, k) == u64_key_opt(s, k) by {
        if has_u64_key(s, k) {
            let j = u64_key_idx(s, k);
            lemma_u64_key_at(s, k, j);
            let j2 = if j < i {
                j
            } else {
                j - 1
            };
            assert(t[j2].0 == k && t[j2].1 == s[j].1);
            lemma_u64_key_at(t, k, j2);
        } else {
            if has_u64_key(t, k) {
                let j = u64_key_idx(t, k);
                let j2 = if j < i {
                    j
                } else {
                    j + 1
                };
                assert(s[j2].0 == k);
            }
        }
    }
}

/// Removing the entry at `i` from a duplicate-free sequence keeps every
/// other value and keeps the sequence duplicate-free.
pub proof fn lemma_remove_at<T>(s: Seq<T>, i: int)
    requires
        0 <= i < s.len(),
        s.no_duplicates(),
    ensures
        ({
            let t = s.subrange(0, i) + s.subrange(i + 1, s.len() as int);
            &&& t.no_duplicates()
            &&& t.len() == s.len() - 1
            &&& forall|y: T| t.contains(y) <==> (s.contains(y) && y != s[i])
        }),
{
    let t = s.subrange(0, i) + s.subrange(i + 1, s.len() as int);
    assert forall|y: T| t.contains(y) implies (s.contains(y) && y != s[i]) by {
        let j = choose|j: int| 0 <= j < t.len() && t[j] == y;
        if j < i {
            assert(s[j] == y);
            assert(j != i);
        } else {
            assert(s[j + 1] == y);
            assert(j + 1 != i);
        }
    }
    assert forall|y: T| s.contains(y) && y != s[i] implies t.contains(y) by {
        let j = choose|j: int| 0 <= j < s.len() && s[j] == y;
        if j < i {
            assert(t[j] == y);
        } else {
            assert(j != i);
            assert(t[j - 1] == y);
        }
    }
    assert forall|p: int, q: int| 0 <= p < q < t.len() implies t[p] != t[q] by {
        let p2 = if p < i { p } else { p + 1 };
        let q2 = if q < i { q } else { q + 1 };
        assert(t[p] == s[p2]);
        assert(t[q] == s[q2]);
    }
}

/// Membership in a pushed sequence: the old members plus the new value.
pub proof fn lemma_contains_push<T>(s: Seq<T>, x: T, y: T)
    ensures
        s.push(x).contains(y) == (s.contains(y) || y == x),
{
    if s.contains(y) {
        let j = choose|j: int| 0 <= j < s.len() && s[j] == y;
        assert(s.push(x)[j] == y);
    }
    if y == x {
        assert(s.push(x)[s.len() as int] == y);
    }
    if s.push(x).contains(y) {
        let j = choose|j: int| 0 <= j < s.push(x).len() && s.push(x)[j] == y;
        if j < s.len() {
            assert(s[j] == y);
        }
    }
}

/// Pushing a value that is not yet present keeps a sequence duplicate
/// free.
pub proof fn lemma_no_dup_push<T>(s: Seq<T>, v: T)
    requires
        s.no_duplicates(),
        !s.contains(v),
    ensures
        s.push(v).no_duplicates(),
{
    let t = s.push(v);
    assert forall|i: int, j: int| 0 <= i < j < t.len() implies t[i] != t[j] by {
        if j == s.len() {
            assert(s[i] == t[i]);
            if t[i] == v {
                assert(s.contains(v));
            }
        }
    }
}

/// Store `val` under `key`, replacing any entry already there.
pub fn u64_upsert<T>(v: &mut Vec<(u64, T)>, key: u64, val: T)
    requires
        u64_keys_unique(old(v)@),
    ensures
        u64_keys_unique(final(v)@),
        u64_key_opt(final(v)@, key) == Option::Some(val),
        forall|k: u64| k != key ==> #[trigger] u64_key_opt(final(v)@, k) == u64_key_opt(old(v)@, k),
{
    match u64_key_find(v, key) {
        Some(i) => {
            proof {
                lemma_u64_key_at(v@, key, i as int);
                lemma_u64_update_frame(v@, i as int, val);
            }
            v[i] = (key, val);
            assert(v@ =~= old(v)@.update(i as int, (old(v)@[i as int].0, v@[i as int].1)));
        },
        None => {
            proof {
                lemma_u64_push_frame(v@, key, val);
            }
            v.push((key, val));
        },
    }
}

/// Remove the (single) occurrence of `x` from a duplicate-free vector, if
/// present.
pub fn remove_u64(v: &mut Vec<u64>, x: u64)
    requires
        old(v)@.no_duplicates(),
    ensures
        final(v)@.no_duplicates(),
        !final(v)@.contains(x),
        forall|y: u64| y != x ==> final(v)@.contains(y) == old(v)@.contains(y),
        final(v)@.len() == if old(v)@.contains(x) {
            old(v)@.len() - 1
        } else {
            old(v)@.len() as int
        },
{
    let n = v.len();
    let mut i: usize = 0;
    while i < n
        invariant
            i <= n,
            n == v@.len(),
            v@ == old(v)@,
            v@.no_duplicates(),
            forall|j: int| 0 <= j < i ==> v@[j] != x,
        decreases n - i,
    {
        if v[i] == x {
            proof {
                lemma_remove_at(v@, i as int);
            }
            v.remove(i);
            return ;
        }
        i = i + 1;
    }
}

/// Names are unique and each per-peer list is duplicate free.
pub open spec fn list_wf(m: Seq<(String, Vec<u64>)>) -> bool {
    &&& str_keys_unique(m)
    &&& forall|i: int| 0 <= i < m.len() ==> (#[trigger] m[i].1)@.no_duplicates()
}

/// Whether the per-peer list under `name` holds the value `v`.
pub open spec fn in_list(m: Seq<(String, Vec<u64>)>, name: Seq<char>, v: u64) -> bool {
    has_str_key(m, name) && str_key_val(m, name)@.contains(v)
}

/// Add `value` to the list kept for `node`, creating the list if the peer
/// has none yet. Every other membership fact is untouched.
pub fn add_to_list(m: &mut Vec<(String, Vec<u64>)>, node: &String, value: u64)
    requires
        list_wf(old(m)@),
    ensures
        list_wf(final(m)@),
        in_list(final(m)@, node@, value),
        forall|n2: Seq<char>, v: u64| !(n2 == node@ && v == value) ==> #[trigger] in_list(
            final(m)@,
            n2,
            v,
        ) == in_list(old(m)@, n2, v),
{
    let ghost m0 = m@;
    let ghost was_present = has_str_key(m0, node@);
    let si: usize = match str_key_find(m, node) {
        Some(i) => i,
        None => {
            let ghost pre = m@;
            m.push((node.clone(), Vec::new()));
            proof {
                lemma_str_push_frame(pre, m@.last().0, m@.last().1);
                assert(m@ =~= pre.push((m@.last().0, m@.last().1)));
            }
            m.len() - 1
        },
    };
    proof {
        lemma_str_key_at(m@, node@, si as int);
    }
    let ghost m1 = m@;
    proof {
        assert(was_present ==> m1 == m0);
        assert(!was_present ==> m1[si as int].1@ == Seq::<u64>::empty());
        assert forall|k: Seq<char>| k != node@ implies #[trigger] str_key_opt(m1, k)
            == str_key_opt(m0, k) by {}
    }
    if !contains_u64(&m[si].1, value) {
        let ghost mb = m@;
        m[si].1.push(value);
        proof {
            assert(m@ =~= mb.update(si as int, (mb[si as int].0, m@[si as int].1)));
            lemma_str_update_frame(mb, si as int, m@[si as int].1);
            assert(m@[si as int].1@ == mb[si as int].1@.push(value));
            lemma_no_dup_push(mb[si as int].1@, value);
        }
    }
    proof {
        lemma_str_key_at(m@, node@, si as int);
        assert(m@[si as int].1@.contains(value)) by {
            if m1[si as int].1@.contains(value) {
            } else {
                lemma_contains_push(m1[si as int].1@, value, value);
            }
        }
        assert forall|n2: Seq<char>, v: u64| !(n2 == node@ && v == value) implies #[trigger] in_list(
            m@,
            n2,
            v,
        ) == in_list(m0, n2, v) by {
            if n2 == node@ {
                lemma_contains_push(m1[si as int].1@, value, v);
                if was_present {
                    let p = str_key_idx(m0, node@);
                    lemma_str_key_at(m0, node@, p);
                    assert(p == si);
                }
            } else {
                assert(str_key_opt(m@, n2) == str_key_opt(m1, n2));
                assert(str_key_opt(m1, n2) == str_key_opt(m0, n2));
            }
        }
        assert forall|i: int| 0 <= i < m@.len() implies (#[trigger] m@[i].1)@.no_duplicates() by {
            if i != si {
                assert(m@[i].1 == m1[i].1);
            }
        }
    }
}

/// Remove `value` from the list kept for `node`, if both exist. Every
/// other membership fact is untouched.
pub fn remove_from_list(m: &mut Vec<(String, Vec<u64>)>, node: &String, value: u64)
    requires
        list_wf(old(m)@),
    ensures
        list_wf(final(m)@),
        !in_list(final(m)@, node@, value),
        forall|n2: Seq<char>, v: u64| !(n2 == node@ && v == value) ==> #[trigger] in_list(
            final(m)@,
            n2,
            v,
        ) == in_list(old(m)@, n2, v),
{
    match str_key_find(m, node) {
        None => {},
        Some(si) => {
            proof {
                lemma_str_key_at(m@, node@, si as int);
            }
            let ghost mb = m@;
            remove_u64(&mut m[si].1, value);
            proof {
                assert(m@ =~= mb.update(si as int, (mb[si as int].0, m@[si as int].1)));
                lemma_str_update_frame(mb, si as int, m@[si as int].1);
                lemma_str_key_at(m@, node@, si as int);
                assert forall|n2: Seq<char>, v: u64| !(n2 == node@ && v == value) implies #[trigger] in_list(
                    m@,
                    n2,
                    v,
                ) == in_list(mb, n2, v) by {
                    if n2 == node@ {
                        let p = str_key_idx(mb, node@);
                        lemma_str_key_at(mb, node@, p);
                        assert(p == si);
                    } else {
                        assert(str_key_opt(m@, n2) == str_key_opt(mb, n2));
                    }
                }
                assert forall|i: int| 0 <= i < m@.len() implies (
                #[trigger] m@[i].1)@.no_duplicates() by {
                    if i != si {
                        assert(m@[i].1 == mb[i].1);
                    }
                }
            }
        },
    }
}

/// Drop every entry whose name is not in `keep`; surviving entries are
/// untouched.
pub fn retain_named<T>(m: &mut Vec<(String, T)>, keep: &Vec<String>)
    requires
        str_keys_unique(old(m)@),
    ensures
        str_keys_unique(final(m)@),
        forall|k: Seq<char>| seq_has_name(keep@, k) ==> #[trigger] str_key_opt(final(m)@, k)
            == str_key_opt(old(m)@, k),
        forall|k: Seq<char>| !seq_has_name(keep@, k) ==> !has_str_key(final(m)@, k),
        forall|i: int| 0 <= i < final(m)@.len() ==> old(m)@.contains(#[trigger] final(m)@[i]),
{
    let mut i: usize = 0;
    while i < m.len()
        invariant
            i <= m@.len(),
            str_keys_unique(m@),
            forall|j: int| 0 <= j < i ==> seq_has_name(keep@, #[trigger] m@[j].0@),
            forall|k: Seq<char>| seq_has_name(keep@, k) ==> #[trigger] str_key_opt(m@, k)
                == str_key_opt(old(m)@, k),
            forall|j: int| 0 <= j < m@.len() ==> old(m)@.contains(#[trigger] m@[j]),
        decreases m@.len() - i,
    {
        if contains_str(keep, &m[i].0) {
            i = i + 1;
        } else {
            let ghost mb = m@;
            proof {
                lemma_str_remove_frame(m@, i as int);
            }
            m.remove(i);
            proof {
                assert forall|j: int| 0 <= j < m@.len() implies old(m)@.contains(
                    #[trigger] m@[j],
                ) by {
                    if j < i {
                        assert(m@[j] == mb[j]);
                    } else {
                        assert(m@[j] == mb[j + 1]);
                    }
                }
                assert forall|j: int| 0 <= j < i implies seq_has_name(
                    keep@,
                    #[trigger] m@[j].0@,
                ) by {
                    assert(m@[j] == mb[j]);
                }
            }
        }
    }
    proof {
        assert forall|k: Seq<char>| !seq_has_name(keep@, k) implies !has_str_key(
            final(m)@,
            k,
        ) by {
            if has_str_key(m@, k) {
                let j = str_key_idx(m@, k);
                lemma_str_key_at(m@, k, j);
            }
        }
    }
}

} // verus!
