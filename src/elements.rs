//! The decoded tree: executable values and their mathematical model.
use vstd::prelude::*;

verus! {

/// What a decoded value is, as a mathematical object.
///
/// A number is kept as the bit pattern of an IEEE-754 binary64 value; an
/// object as its members, one per key, in the order in which each key was
/// first seen.
pub enum Json {
    Str(Seq<char>),
    Number(u64),
    Object(u32, Seq<(Seq<char>, Json)>),
    Array(Seq<Json>),
    Undefined,
    Bool(bool),
    Null,
}

/// A decoded value.
#[derive(Debug)]
pub enum JsonValue {
    /// A text value.
    String(String),
    /// A number, as the bit pattern of an IEEE-754 binary64 value
    /// (`f64::from_bits` gives the float).
    Number(u64),
    /// An object: a map of keys to values.
    Object(Object),
    /// An ordered list of values.
    Array(Vec<JsonValue>),
    /// The value of an entry whose type tag is not recognised.
    Undefined,
    /// A boolean.
    Bool(bool),
    /// The null value.
    Null,
}

/// An object: the element count its header declared, and its members.
#[derive(Debug)]
pub struct Object {
    /// The number of entries the container header declared; it may exceed
    /// the number of members when keys repeat.
    pub size: u32,
    /// The members, one per distinct key.
    pub values: Members,
}

/// The members of an object: key-value pairs with pairwise distinct keys.
#[derive(Debug)]
pub struct Members {
    entries: Vec<(String, JsonValue)>,
}

/// The value at the root of a document: always a container.
#[derive(Debug)]
pub enum JsonBaseValue {
    Object(Object),
    Array(Vec<JsonValue>),
}

/// A container together with the sizes its header declared.
#[derive(Debug)]
pub struct JsonBase {
    /// The container's extent in bytes.
    pub size: u32,
    /// The number of entries the header declared.
    pub elements: u32,
    /// The container itself.
    pub value: JsonBaseValue,
}

impl JsonValue {
    /// The value as a mathematical object.
    pub open spec fn view(&self) -> Json
        decreases self,
    {
        match self {
            JsonValue::String(s) => Json::Str(s@),
            JsonValue::Number(n) => Json::Number(*n),
            JsonValue::Object(o) => Json::Object(o.size, o.values.view()),
            JsonValue::Array(v) => Json::Array(values_view(v@)),
            JsonValue::Undefined => Json::Undefined,
            JsonValue::Bool(b) => Json::Bool(*b),
            JsonValue::Null => Json::Null,
        }
    }
}

impl Members {
    /// The members as (key, value) pairs, in the order keys were first seen.
    pub closed spec fn view(&self) -> Seq<(Seq<char>, Json)>
        decreases self,
    {
        members_view(self.entries@)
    }
}

impl JsonBaseValue {
    /// The root container as a mathematical object.
    pub open spec fn view(&self) -> Json {
        match self {
            JsonBaseValue::Object(o) => Json::Object(o.size, o.values@),
            JsonBaseValue::Array(v) => Json::Array(values_view(v@)),
        }
    }
}

/// The view of each value, in order.
pub open spec fn values_view(v: Seq<JsonValue>) -> Seq<Json>
    decreases v,
{
    if v.len() == 0 {
        Seq::empty()
    } else {
        values_view(v.drop_last()).push(v.last().view())
    }
}

/// The view of each (key, value) pair, in order.
pub open spec fn members_view(v: Seq<(String, JsonValue)>) -> Seq<(Seq<char>, Json)>
    decreases v,
{
    if v.len() == 0 {
        Seq::empty()
    } else {
        members_view(v.drop_last()).push((v.last().0@, v.last().1.view()))
    }
}

/// The first position at or after `i` whose key is `k`, or `m.len()` if there is none.
pub open spec fn key_position_from(m: Seq<(Seq<char>, Json)>, k: Seq<char>, i: int) -> int
    decreases m.len() - i,
{
    if i < 0 || i >= m.len() {
        m.len() as int
    } else if m[i].0 == k {
        i
    } else {
        key_position_from(m, k, i + 1)
    }
}

/// The position of key `k` among the members, or `m.len()` if it is absent.
pub open spec fn key_position(m: Seq<(Seq<char>, Json)>, k: Seq<char>) -> int {
    key_position_from(m, k, 0)
}

/// The value that members `m` hold under key `k`.
pub open spec fn lookup(m: Seq<(Seq<char>, Json)>, k: Seq<char>) -> Option<Json> {
    let i = key_position(m, k);
    if i < m.len() {
        Some(m[i].1)
    } else {
        None
    }
}

/// Members `m` with `k` bound to `v`: an existing binding of `k` is replaced in
/// place, otherwise the pair is appended.
pub open spec fn insert_member(m: Seq<(Seq<char>, Json)>, k: Seq<char>, v: Json) -> Seq<
    (Seq<char>, Json),
> {
    let i = key_position(m, k);
    if i < m.len() {
        m.update(i, (k, v))
    } else {
        m.push((k, v))
    }
}

/// No key occurs twice.
pub open spec fn keys_distinct(m: Seq<(Seq<char>, Json)>) -> bool {
    forall|i: int, j: int| 0 <= i < j < m.len() ==> m[i].0 != m[j].0
}

proof fn lemma_key_position_from(m: Seq<(Seq<char>, Json)>, k: Seq<char>, i: int)
    requires
        0 <= i <= m.len(),
    ensures
        i <= key_position_from(m, k, i) <= m.len(),
        key_position_from(m, k, i) < m.len() ==> m[key_position_from(m, k, i)].0 == k,
        forall|j: int| i <= j < key_position_from(m, k, i) ==> m[j].0 != k,
    decreases m.len() - i,
{
    if i < m.len() && m[i].0 != k {
        lemma_key_position_from(m, k, i + 1);
    }
}

/// The first position whose key is `k`, or `m.len()`.
pub proof fn lemma_key_position(m: Seq<(Seq<char>, Json)>, k: Seq<char>)
    ensures
        0 <= key_position(m, k) <= m.len(),
        key_position(m, k) < m.len() ==> m[key_position(m, k)].0 == k,
        forall|j: int| 0 <= j < key_position(m, k) ==> m[j].0 != k,
{
    lemma_key_position_from(m, k, 0);
}

/// Binding a key keeps the keys distinct, and the key then maps to the new value.
pub proof fn lemma_insert_member(m: Seq<(Seq<char>, Json)>, k: Seq<char>, v: Json)
    ensures
        keys_distinct(m) ==> keys_distinct(insert_member(m, k, v)),
        lookup(insert_member(m, k, v), k) == Some(v),
{
    lemma_key_position(m, k);
    let r = insert_member(m, k, v);
    lemma_key_position(r, k);
    if key_position(m, k) < m.len() {
        assert(key_position(r, k) == key_position(m, k)) by {
            if key_position(r, k) < key_position(m, k) {
                assert(r[key_position(r, k)] == m[key_position(r, k)]);
            } else if key_position(r, k) > key_position(m, k) {
                assert(r[key_position(m, k)].0 == k);
            }
        }
    } else {
        assert(r[m.len() as int].0 == k);
    }
}

proof fn lemma_members_view(v: Seq<(String, JsonValue)>)
    ensures
        members_view(v).len() == v.len(),
        forall|i: int|
            0 <= i < v.len() ==> #[trigger] members_view(v)[i] == (v[i].0@, v[i].1.view()),
    decreases v.len(),
{
    if v.len() > 0 {
        lemma_members_view(v.drop_last());
    }
}

impl Members {
    /// No members.
    pub fn new() -> (r: Members)
        ensures
            r@ == Seq::<(Seq<char>, Json)>::empty(),
            keys_distinct(r@),
    {
        proof {
            lemma_members_view(Seq::empty());
        }
        let r = Members { entries: Vec::new() };
        assert(r@ =~= Seq::<(Seq<char>, Json)>::empty());
        r
    }

    /// The number of members.
    pub fn len(&self) -> (r: usize)
        ensures
            r == self@.len(),
    {
        proof {
            lemma_members_view(self.entries@);
        }
        self.entries.len()
    }

    /// Binds `key` to `value`, replacing an earlier binding of `key`.
    pub fn insert(&mut self, key: String, value: JsonValue)
        ensures
            final(self)@ == insert_member(old(self)@, key@, value@),
            keys_distinct(old(self)@) ==> keys_distinct(final(self)@),
            lookup(final(self)@, key@) == Some(value@),
    {
        proof {
            lemma_insert_member(self@, key@, value@);
            lemma_members_view(self.entries@);
            lemma_key_position(self@, key@);
        }
        let n = self.entries.len();
        let mut i: usize = 0;
        while i < n
            invariant
                n == self.entries.len(),
                self.entries@ == old(self).entries@,
                i <= n,
                members_view(self.entries@).len() == n,
                forall|j: int| 0 <= j < i ==> self.entries@[j].0@ != key@,
            decreases n - i,
        {
            if self.entries[i].0 == key {
                proof {
                    lemma_members_view(self.entries@);
                    lemma_key_position(self@, key@);
                    assert(self@[i as int].0 == key@);
                    assert(key_position(self@, key@) == i);
                }
                let ghost before = self.entries@;
                self.entries[i] = (key, value);
                proof {
                    lemma_members_view(before);
                    lemma_members_view(self.entries@);
                    assert(self@ =~= insert_member(members_view(before), key@, value@));
                    lemma_insert_member(members_view(before), key@, value@);
                }
                return;
            }
            i += 1;
        }
        proof {
            lemma_members_view(self.entries@);
            lemma_key_position(self@, key@);
            assert(key_position(self@, key@) == n) by {
                if key_position(self@, key@) < n {
                    assert(self@[key_position(self@, key@)].0 == self.entries@[key_position(self@, key@)].0@);
                }
            }
        }
        let ghost before = self.entries@;
        self.entries.push((key, value));
        proof {
            lemma_members_view(before);
            lemma_members_view(self.entries@);
            assert(self@ =~= insert_member(members_view(before), key@, value@));
        }
    }

    /// The member at position `i`, in the order keys were first seen.
    pub fn entry(&self, i: usize) -> (r: (&String, &JsonValue))
        requires
            i < self@.len(),
        ensures
            (r.0@, r.1@) == self@[i as int],
    {
        proof {
            lemma_members_view(self.entries@);
        }
        let e = &self.entries[i];
        (&e.0, &e.1)
    }

    /// The value bound to `key`, if any.
    pub fn get(&self, key: &str) -> (r: Option<&JsonValue>)
        ensures
            match r {
                Some(v) => lookup(self@, key@) == Some(v@),
                None => lookup(self@, key@) is None,
            },
    {
        proof {
            lemma_members_view(self.entries@);
            lemma_key_position(self@, key@);
        }
        let wanted = key.to_owned();
        let n = self.entries.len();
        let mut i: usize = 0;
        while i < n
            invariant
                n == self.entries.len(),
                i <= n,
                wanted@ == key@,
                members_view(self.entries@).len() == n,
                forall|j: int| 0 <= j < i ==> self.entries@[j].0@ != key@,
            decreases n - i,
        {
            if self.entries[i].0 == wanted {
                proof {
                    lemma_members_view(self.entries@);
                    lemma_key_position(self@, key@);
                    assert(self@[i as int].0 == key@);
                    assert(key_position(self@, key@) == i);
                }
                return Some(&self.entries[i].1);
            }
            i += 1;
        }
        proof {
            lemma_members_view(self.entries@);
            lemma_key_position(self@, key@);
            assert(key_position(self@, key@) == n) by {
                if key_position(self@, key@) < n {
                    assert(self@[key_position(self@, key@)].0 == self.entries@[key_position(self@, key@)].0@);
                }
            }
        }
        None
    }
}

} // verus!
