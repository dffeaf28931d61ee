//! A JSON document model that the parsers of this library read.
use vstd::prelude::*;

verus! {

/// A JSON value as the library reads it. Numbers keep what the parsers can
/// use: a non-negative integer, a negative integer, or a number with a
/// fraction or exponent part, whose value no parser reads.
pub enum Json {
    Null,
    Bool(bool),
    UInt(u64),
    Neg(i64),
    Float,
    Str(String),
    Arr(Vec<Json>),
    Obj(Vec<(String, Json)>),
}

/// The value stored under `key` in a list of object members: the first member
/// with that key.
pub open spec fn member_lookup(m: Seq<(String, Json)>, key: Seq<char>) -> Option<Json>
    decreases m.len(),
{
    if m.len() == 0 {
        None
    } else if m[0].0@ == key {
        Some(m[0].1)
    } else {
        member_lookup(m.drop_first(), key)
    }
}

proof fn lemma_member_lookup_skip(m: Seq<(String, Json)>, key: Seq<char>, i: int)
    requires
        0 <= i <= m.len(),
        forall|j: int| 0 <= j < i ==> m[j].0@ != key,
    ensures
        member_lookup(m, key) == member_lookup(m.skip(i), key),
    decreases i,
{
    if i > 0 {
        lemma_member_lookup_skip(m, key, i - 1);
        assert(m.skip(i - 1)[0] == m[i - 1]);
        assert(m.skip(i - 1).drop_first() =~= m.skip(i));
    } else {
        assert(m.skip(0) =~= m);
    }
}

/// The value behind an optional reference.
pub open spec fn deref_opt<'a>(o: Option<&'a Json>) -> Option<Json> {
    match o {
        Some(v) => Some(*v),
        None => None,
    }
}

impl Json {
    /// The member `key` of an object; `None` for a missing key or a value
    /// that is not an object.
    pub open spec fn field(self, key: Seq<char>) -> Option<Json> {
        match self {
            Json::Obj(m) => member_lookup(m@, key),
            _ => None,
        }
    }

    pub open spec fn str_of(self) -> Option<Seq<char>> {
        match self {
            Json::Str(s) => Some(s@),
            _ => None,
        }
    }

    pub open spec fn u64_of(self) -> Option<u64> {
        match self {
            Json::UInt(n) => Some(n),
            _ => None,
        }
    }

    /// A number as a signed 64-bit integer, when it is an integer in range.
    pub open spec fn i64_of(self) -> Option<i64> {
        match self {
            Json::UInt(n) => if n <= i64::MAX as u64 {
                Some(n as i64)
            } else {
                None
            },
            Json::Neg(n) => Some(n),
            _ => None,
        }
    }

    pub open spec fn bool_of(self) -> Option<bool> {
        match self {
            Json::Bool(b) => Some(b),
            _ => None,
        }
    }

    pub open spec fn arr_of(self) -> Option<Seq<Json>> {
        match self {
            Json::Arr(v) => Some(v@),
            _ => None,
        }
    }

    pub open spec fn obj_of(self) -> Option<Seq<(String, Json)>> {
        match self {
            Json::Obj(m) => Some(m@),
            _ => None,
        }
    }

    pub open spec fn field_str(self, key: Seq<char>) -> Option<Seq<char>> {
        match self.field(key) {
            Some(v) => v.str_of(),
            None => None,
        }
    }

    pub open spec fn field_u64(self, key: Seq<char>) -> Option<u64> {
        match self.field(key) {
            Some(v) => v.u64_of(),
            None => None,
        }
    }

    pub open spec fn field_i64(self, key: Seq<char>) -> Option<i64> {
        match self.field(key) {
            Some(v) => v.i64_of(),
            None => None,
        }
    }

    pub open spec fn field_bool(self, key: Seq<char>) -> Option<bool> {
        match self.field(key) {
            Some(v) => v.bool_of(),
            None => None,
        }
    }

    pub open spec fn field_arr(self, key: Seq<char>) -> Option<Seq<Json>> {
        match self.field(key) {
            Some(v) => v.arr_of(),
            None => None,
        }
    }

    pub open spec fn field_obj(self, key: Seq<char>) -> Option<Seq<(String, Json)>> {
        match self.field(key) {
            Some(v) => v.obj_of(),
            None => None,
        }
    }

    /// The text under `key`, or the empty text when it is missing or not a string.
    pub open spec fn text_at(self, key: Seq<char>) -> Seq<char> {
        match self.field_str(key) {
            Some(t) => t,
            None => Seq::empty(),
        }
    }

    /// The non-negative integer under `key`, or 0.
    pub open spec fn count_at(self, key: Seq<char>) -> u64 {
        match self.field_u64(key) {
            Some(n) => n,
            None => 0,
        }
    }

    /// The boolean under `key`, or false.
    pub open spec fn flag_at(self, key: Seq<char>) -> bool {
        match self.field_bool(key) {
            Some(b) => b,
            None => false,
        }
    }

    /// The signed integer under `key`, or 0.
    pub open spec fn int_at(self, key: Seq<char>) -> i64 {
        match self.field_i64(key) {
            Some(n) => n,
            None => 0,
        }
    }

    pub fn get(&self, key: &str) -> (r: Option<&Json>)
        ensures
            deref_opt(r) == self.field(key@),
    {
        match self {
            Json::Obj(m) => {
                let k: String = key.to_owned();
                let mut i: usize = 0;
                while i < m.len()
                    invariant
                        0 <= i <= m@.len(),
                        k@ == key@,
                        self.field(key@) == member_lookup(m@, key@),
                        forall|j: int| 0 <= j < i ==> m@[j].0@ != key@,
                    decreases m@.len() - i,
                {
                    if m[i].0 == k {
                        proof {
                            lemma_member_lookup_skip(m@, key@, i as int);
                            assert(m@.skip(i as int)[0] == m@[i as int]);
                        }
                        return Some(&m[i].1);
                    }
                    i += 1;
                }
                proof {
                    lemma_member_lookup_skip(m@, key@, i as int);
                }
                None
            },
            _ => None,
        }
    }

    pub fn as_str(&self) -> (r: Option<&str>)
        ensures
            match r {
                Some(t) => self.str_of() == Some(t@),
                None => self.str_of() is None,
            },
    {
        match self {
            Json::Str(s) => Some(s.as_str()),
            _ => None,
        }
    }

    pub fn as_u64(&self) -> (r: Option<u64>)
        ensures
            r == self.u64_of(),
    {
        match self {
            Json::UInt(n) => Some(*n),
            _ => None,
        }
    }

    pub fn as_i64(&self) -> (r: Option<i64>)
        ensures
            r == self.i64_of(),
    {
        match self {
            Json::UInt(n) => if *n <= i64::MAX as u64 {
                Some(*n as i64)
            } else {
                None
            },
            Json::Neg(n) => Some(*n),
            _ => None,
        }
    }

    pub fn as_bool(&self) -> (r: Option<bool>)
        ensures
            r == self.bool_of(),
    {
        match self {
            Json::Bool(b) => Some(*b),
            _ => None,
        }
    }

    pub fn as_array(&self) -> (r: Option<&Vec<Json>>)
        ensures
            match r {
                Some(v) => self.arr_of() == Some(v@),
                None => self.arr_of() is None,
            },
    {
        match self {
            Json::Arr(v) => Some(v),
            _ => None,
        }
    }

    pub fn as_object(&self) -> (r: Option<&Vec<(String, Json)>>)
        ensures
            match r {
                Some(m) => self.obj_of() == Some(m@),
                None => self.obj_of() is None,
            },
    {
        match self {
            Json::Obj(m) => Some(m),
            _ => None,
        }
    }

    pub fn get_str(&self, key: &str) -> (r: Option<&str>)
        ensures
            match r {
                Some(t) => self.field_str(key@) == Some(t@),
                None => self.field_str(key@) is None,
            },
    {
        match self.get(key) {
            Some(v) => v.as_str(),
            None => None,
        }
    }

    pub fn get_u64(&self, key: &str) -> (r: Option<u64>)
        ensures
            r == self.field_u64(key@),
    {
        match self.get(key) {
            Some(v) => v.as_u64(),
            None => None,
        }
    }

    pub fn get_i64(&self, key: &str) -> (r: Option<i64>)
        ensures
            r == self.field_i64(key@),
    {
        match self.get(key) {
            Some(v) => v.as_i64(),
            None => None,
        }
    }

    pub fn get_bool(&self, key: &str) -> (r: Option<bool>)
        ensures
            r == self.field_bool(key@),
    {
        match self.get(key) {
            Some(v) => v.as_bool(),
            None => None,
        }
    }

    pub fn get_array(&self, key: &str) -> (r: Option<&Vec<Json>>)
        ensures
            match r {
                Some(v) => self.field_arr(key@) == Some(v@),
                None => self.field_arr(key@) is None,
            },
    {
        match self.get(key) {
            Some(v) => v.as_array(),
            None => None,
        }
    }

    /// The index of the first member named `key`, in an object.
    fn position(&self, key: &str) -> (r: Option<usize>)
        ensures
            match r {
                Some(i) => self is Obj && i < self->Obj_0@.len() && self.field(key@) == Some(
                    self->Obj_0@[i as int].1,
                ),
                None => self.field(key@) is None,
            },
    {
        match self {
            Json::Obj(m) => {
                let mut i: usize = 0;
                while i < m.len()
                    invariant
                        0 <= i <= m@.len(),
                        self is Obj,
                        self->Obj_0@ == m@,
                        self.field(key@) == member_lookup(m@, key@),
                        forall|j: int| 0 <= j < i ==> m@[j].0@ != key@,
                    decreases m@.len() - i,
                {
                    if crate::text::text_eq(m[i].0.as_str(), key) {
                        proof {
                            lemma_member_lookup_skip(m@, key@, i as int);
                            assert(m@.skip(i as int)[0] == m@[i as int]);
                        }
                        return Some(i);
                    }
                    i += 1;
                }
                proof {
                    lemma_member_lookup_skip(m@, key@, i as int);
                    assert(m@.skip(i as int) =~= Seq::<(String, Json)>::empty());
                }
                None
            },
            _ => None,
        }
    }

    /// The array under `key`, taken out of the object.
    pub fn into_array(self, key: &str) -> (r: Option<Vec<Json>>)
        ensures
            match r {
                Some(v) => self.field_arr(key@) == Some(v@),
                None => self.field_arr(key@) is None,
            },
    {
        let i = match self.position(key) {
            Some(i) => i,
            None => return None,
        };
        match self {
            Json::Obj(mut m) => {
                let (_, v) = m.swap_remove(i);
                match v {
                    Json::Arr(a) => Some(a),
                    _ => None,
                }
            },
            _ => None,
        }
    }

    pub fn get_object(&self, key: &str) -> (r: Option<&Vec<(String, Json)>>)
        ensures
            match r {
                Some(m) => self.field_obj(key@) == Some(m@),
                None => self.field_obj(key@) is None,
            },
    {
        match self.get(key) {
            Some(v) => v.as_object(),
            None => None,
        }
    }

    /// The text under `key`, or an empty string.
    pub fn text(&self, key: &str) -> (r: String)
        ensures
            r@ == self.text_at(key@),
    {
        match self.get_str(key) {
            Some(t) => t.to_owned(),
            None => String::new(),
        }
    }

    /// The non-negative integer under `key`, or 0.
    pub fn count(&self, key: &str) -> (r: u64)
        ensures
            r == self.count_at(key@),
    {
        match self.get_u64(key) {
            Some(n) => n,
            None => 0,
        }
    }

    /// The boolean under `key`, or false.
    pub fn flag(&self, key: &str) -> (r: bool)
        ensures
            r == self.flag_at(key@),
    {
        match self.get_bool(key) {
            Some(b) => b,
            None => false,
        }
    }

    /// The signed integer under `key`, or 0.
    pub fn signed(&self, key: &str) -> (r: i64)
        ensures
            r == self.int_at(key@),
    {
        match self.get_i64(key) {
            Some(n) => n,
            None => 0,
        }
    }
}

} // verus!
