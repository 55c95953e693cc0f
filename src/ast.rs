//! Generic value tree that the configuration is read into.
use vstd::prelude::*;

verus! {

/// A node of the configuration tree. A real number is kept as the text it
/// was written with; a hash is kept as its (key, value) pairs.
#[derive(Debug)]
pub enum Value {
    Int(i64),
    Real(String),
    Str(String),
    Bool(bool),
    Array(Vec<Value>),
    Hash(Vec<(String, Value)>),
}

/// The value that `key` is bound to in the pairs `h` (the first binding).
pub open spec fn lookup(h: Seq<(String, Value)>, key: Seq<char>) -> Option<Value>
    decreases h.len(),
{
    if h.len() == 0 {
        None
    } else if h[0].0@ == key {
        Some(h[0].1)
    } else {
        lookup(h.drop_first(), key)
    }
}

/// Whether `key` is bound in the pairs `h`.
pub open spec fn has_key(h: Seq<(String, Value)>, key: Seq<char>) -> bool {
    exists|i: int| 0 <= i < h.len() && #[trigger] h[i].0@ == key
}

/// Character-wise equality of two strings.
pub fn str_eq(a: &str, b: &str) -> (r: bool)
    ensures
        r == (a@ == b@),
{
    let n = a.unicode_len();
    if n != b.unicode_len() {
        return false;
    }
    let mut i: usize = 0;
    while i < n
        invariant
            n == a@.len(),
            n == b@.len(),
            i <= n,
            a@.subrange(0, i as int) == b@.subrange(0, i as int),
        decreases n - i,
    {
        if a.get_char(i) != b.get_char(i) {
            assert(a@[i as int] != b@[i as int]);
            return false;
        }
        assert(a@.subrange(0, i + 1) == a@.subrange(0, i as int).push(a@[i as int]));
        assert(b@.subrange(0, i + 1) == b@.subrange(0, i as int).push(b@[i as int]));
        i += 1;
    }
    assert(a@ == a@.subrange(0, n as int));
    assert(b@ == b@.subrange(0, n as int));
    true
}

/// The value bound to `key` in `h`, if any.
pub fn hash_get<'a>(h: &'a Vec<(String, Value)>, key: &str) -> (r: Option<&'a Value>)
    ensures
        match r {
            Some(v) => lookup(h@, key@) == Some(*v),
            None => lookup(h@, key@) is None,
        },
{
    let mut i: usize = 0;
    assert(h@.subrange(0, h@.len() as int) == h@);
    while i < h.len()
        invariant
            i <= h@.len(),
            lookup(h@, key@) == lookup(h@.subrange(i as int, h@.len() as int), key@),
        decreases h.len() - i,
    {
        let ghost s = h@.subrange(i as int, h@.len() as int);
        assert(s.drop_first() == h@.subrange(i + 1, h@.len() as int));
        if str_eq(h[i].0.as_str(), key) {
            return Some(&h[i].1);
        }
        i += 1;
    }
    None
}

impl Value {
    /// A copy of this value: the same variant, with the same scalar, or
    /// with copies of the same number of elements (of a hash: under the same
    /// keys).
    pub fn duplicate(&self) -> (r: Value)
        ensures
            copy_of(*self, r),
        decreases self,
    {
        match self {
            Value::Int(i) => Value::Int(*i),
            Value::Real(s) => Value::Real(s.clone()),
            Value::Str(s) => Value::Str(s.clone()),
            Value::Bool(b) => Value::Bool(*b),
            Value::Array(a) => {
                let mut r: Vec<Value> = Vec::new();
                let mut i: usize = 0;
                while i < a.len()
                    invariant
                        *self == Value::Array(*a),
                        i <= a@.len(),
                        r@.len() == i,
                    decreases a.len() - i,
                {
                    proof {
                        broadcast use vstd::std_specs::vec::axiom_vec_index_decreases;
                        assert(decreases_to!(*a => a[i as int]));
                        assert(decreases_to!(*self => self->Array_0));
                        assert(decreases_to!(*self => a[i as int]));
                    }
                    r.push(a[i].duplicate());
                    i += 1;
                }
                Value::Array(r)
            },
            Value::Hash(h) => {
                let mut r: Vec<(String, Value)> = Vec::new();
                let mut i: usize = 0;
                while i < h.len()
                    invariant
                        *self == Value::Hash(*h),
                        i <= h@.len(),
                        r@.len() == i,
                        forall|k: int| 0 <= k < i ==> (#[trigger] h@[k]).0@ == r@[k].0@,
                    decreases h.len() - i,
                {
                    proof {
                        broadcast use vstd::std_specs::vec::axiom_vec_index_decreases;
                        assert(decreases_to!(*h => h[i as int]));
                        assert(decreases_to!(h[i as int] => h[i as int].1));
                        assert(decreases_to!(*self => self->Hash_0));
                        assert(decreases_to!(*self => h[i as int]));
                        assert(decreases_to!(*self => h[i as int].1));
                    }
                    r.push((h[i].0.clone(), h[i].1.duplicate()));
                    i += 1;
                }
                Value::Hash(r)
            },
        }
    }

    pub fn as_hash(&self) -> (r: Option<&Vec<(String, Value)>>)
        ensures
            match self {
                Value::Hash(h) => r == Some(h),
                _ => r is None,
            },
    {
        match self {
            Value::Hash(h) => Some(h),
            _ => None,
        }
    }

    pub fn as_array(&self) -> (r: Option<&Vec<Value>>)
        ensures
            match self {
                Value::Array(a) => r == Some(a),
                _ => r is None,
            },
    {
        match self {
            Value::Array(a) => Some(a),
            _ => None,
        }
    }

    pub fn as_str(&self) -> (r: Option<&str>)
        ensures
            match self {
                Value::Str(s) => r is Some && r->0@ == s@,
                _ => r is None,
            },
    {
        match self {
            Value::Str(s) => Some(s.as_str()),
            _ => None,
        }
    }

    pub fn as_bool(&self) -> (r: Option<bool>)
        ensures
            match self {
                Value::Bool(b) => r == Some(*b),
                _ => r is None,
            },
    {
        match self {
            Value::Bool(b) => Some(*b),
            _ => None,
        }
    }
}

/// `b` copies `a`: the same variant, with the same scalar, or with the same
/// number of elements (of a hash: under the same keys, in order).
pub open spec fn copy_of(a: Value, b: Value) -> bool {
    match (a, b) {
        (Value::Int(x), Value::Int(y)) => x == y,
        (Value::Real(x), Value::Real(y)) => x@ == y@,
        (Value::Str(x), Value::Str(y)) => x@ == y@,
        (Value::Bool(x), Value::Bool(y)) => x == y,
        (Value::Array(x), Value::Array(y)) => x@.len() == y@.len(),
        (Value::Hash(x), Value::Hash(y)) => x@.len() == y@.len() && forall|i: int|
            0 <= i < x@.len() ==> (#[trigger] x@[i]).0@ == y@[i].0@,
        _ => false,
    }
}

/// The members of `h` whose keys are not among `allowed`, in order.
pub open spec fn disallowed(h: Seq<(String, Value)>, allowed: Seq<&str>) -> Seq<(String, Value)>
    decreases h.len(),
{
    if h.len() == 0 {
        seq![]
    } else if key_allowed(allowed, h.last().0@) {
        disallowed(h.drop_last(), allowed)
    } else {
        disallowed(h.drop_last(), allowed).push(h.last())
    }
}

/// `members` reports exactly the members of `h` whose keys are not among
/// `allowed`, in order: each key, and a copy of its value.
pub open spec fn reports(members: Seq<(String, Value)>, h: Seq<(String, Value)>, allowed: Seq<&str>) -> bool {
    &&& members.len() == disallowed(h, allowed).len()
    &&& forall|i: int|
        0 <= i < members.len() ==> (#[trigger] members[i]).0@ == disallowed(h, allowed)[i].0@ && copy_of(
            disallowed(h, allowed)[i].1,
            members[i].1,
        )
}

/// Whether `k` is one of `allowed`.
pub open spec fn key_allowed(allowed: Seq<&str>, k: Seq<char>) -> bool {
    exists|j: int| 0 <= j < allowed.len() && #[trigger] allowed[j]@ == k
}

/// Whether every member of `h` is one of `allowed`.
pub open spec fn members_allowed(h: Seq<(String, Value)>, allowed: Seq<&str>) -> bool {
    forall|i: int| 0 <= i < h.len() ==> key_allowed(allowed, (#[trigger] h[i]).0@)
}

fn is_allowed(allowed: &[&str], k: &str) -> (r: bool)
    ensures
        r == key_allowed(allowed@, k@),
{
    let mut j: usize = 0;
    while j < allowed.len()
        invariant
            j <= allowed@.len(),
            forall|k2: int| 0 <= k2 < j ==> #[trigger] allowed@[k2]@ != k@,
        decreases allowed.len() - j,
    {
        if str_eq(allowed[j], k) {
            return true;
        }
        j += 1;
    }
    false
}

/// The members of `map` whose keys are not among `allowed`, in order.
pub fn not_allowed_member(map: &Vec<(String, Value)>, allowed: &[&str]) -> (r: Vec<(String, Value)>)
    ensures
        forall|i: int| 0 <= i < r@.len() ==> !key_allowed(allowed@, (#[trigger] r@[i]).0@),
        forall|i: int| 0 <= i < r@.len() ==> has_key(map@, (#[trigger] r@[i]).0@),
        forall|k: int|
            0 <= k < map@.len() && !key_allowed(allowed@, (#[trigger] map@[k]).0@) ==> exists|i: int|
                0 <= i < r@.len() && r@[i].0@ == map@[k].0@,
        reports(r@, map@, allowed@),
{
    let mut r: Vec<(String, Value)> = Vec::new();
    let mut k: usize = 0;
    assert(map@.subrange(0, 0) =~= Seq::<(String, Value)>::empty());
    while k < map.len()
        invariant
            k <= map@.len(),
            forall|i: int| 0 <= i < r@.len() ==> !key_allowed(allowed@, (#[trigger] r@[i]).0@),
            forall|i: int| 0 <= i < r@.len() ==> has_key(map@, (#[trigger] r@[i]).0@),
            forall|k2: int|
                0 <= k2 < k && !key_allowed(allowed@, (#[trigger] map@[k2]).0@) ==> exists|i: int|
                    0 <= i < r@.len() && r@[i].0@ == map@[k2].0@,
            reports(r@, map@.subrange(0, k as int), allowed@),
        decreases map.len() - k,
    {
        let ghost pre = map@.subrange(0, k + 1);
        assert(pre.drop_last() == map@.subrange(0, k as int));
        assert(pre.last() == map@[k as int]);
        if !is_allowed(allowed, map[k].0.as_str()) {
            let ghost old_r = r@;
            r.push((map[k].0.clone(), map[k].1.duplicate()));
            assert forall|k2: int|
                0 <= k2 < k + 1 && !key_allowed(allowed@, (#[trigger] map@[k2]).0@) implies exists|i: int|
                0 <= i < r@.len() && r@[i].0@ == map@[k2].0@ by {
                if k2 < k {
                    let i = choose|i: int| 0 <= i < old_r.len() && old_r[i].0@ == map@[k2].0@;
                    assert(r@[i] == old_r[i]);
                } else {
                    assert(r@[old_r.len() as int].0@ == map@[k2].0@);
                }
            }
            assert forall|i: int| 0 <= i < r@.len() implies has_key(map@, (#[trigger] r@[i]).0@) by {
                if i < old_r.len() {
                    assert(r@[i] == old_r[i]);
                } else {
                    assert(r@[i].0@ == map@[k as int].0@);
                }
            }
            let ghost d = disallowed(pre, allowed@);
            assert(d == disallowed(map@.subrange(0, k as int), allowed@).push(map@[k as int]));
            assert forall|i: int| 0 <= i < r@.len() implies (#[trigger] r@[i]).0@ == d[i].0@ && copy_of(
                d[i].1,
                r@[i].1,
            ) by {
                if i < old_r.len() {
                    assert(r@[i] == old_r[i]);
                }
            }
        } else {
            assert(disallowed(pre, allowed@) == disallowed(map@.subrange(0, k as int), allowed@));
        }
        k += 1;
    }
    assert(map@.subrange(0, map@.len() as int) == map@);
    r
}

/// Checks that every member of `hash` is among `allowed`; the others are
/// reported, under `prefix`, as unrecognized.
pub fn verify_hash(hash: &Vec<(String, Value)>, allowed: &[&str], prefix: Option<&str>) -> (r: Result<
    (),
    crate::Error,
>)
    ensures
        r is Ok <==> members_allowed(hash@, allowed@),
        r is Err ==> (r->Err_0 matches crate::Error::UnrecognizedMembers { prefix: p, members }
            && reports(members@, hash@, allowed@) && match prefix {
            Some(x) => p is Some && p->0@ == x@,
            None => p is None,
        }),
{
    let not_allowed = not_allowed_member(hash, allowed);
    if not_allowed.len() == 0 {
        assert forall|i: int| 0 <= i < hash@.len() implies key_allowed(allowed@, (#[trigger] hash@[i]).0@) by {
            if !key_allowed(allowed@, hash@[i].0@) {
                let j = choose|j: int| 0 <= j < not_allowed@.len() && not_allowed@[j].0@ == hash@[i].0@;
            }
        }
        Ok(())
    } else {
        proof {
            let i = choose|k: int| 0 <= k < hash@.len() && not_allowed@[0].0@ == hash@[k].0@;
            assert(!key_allowed(allowed@, not_allowed@[0].0@));
            assert(!key_allowed(allowed@, hash@[i].0@));
        }
        let prefix = match prefix {
            Some(p) => Some(p.to_owned()),
            None => None,
        };
        Err(crate::Error::UnrecognizedMembers { prefix, members: not_allowed })
    }
}

} // verus!
