//! Plugin parameters: a JSON value held as plain data.

use vstd::prelude::*;
use crate::strings::str_eq;

verus! {

/// A JSON value. A number is held as its decimal text.
#[derive(Debug)]
pub enum Value {
    Null,
    Bool(bool),
    Number(String),
    String(String),
    Array(Vec<Value>),
    Object(Vec<(String, Value)>),
}

/// Index of the first member of `m` named `k`, or `-1`.
pub open spec fn member_index(m: Seq<(String, Value)>, k: Seq<char>) -> int
    decreases m.len(),
{
    if m.len() == 0 {
        -1
    } else if m[0].0@ == k {
        0
    } else {
        let r = member_index(m.subrange(1, m.len() as int), k);
        if r < 0 { -1 } else { r + 1 }
    }
}

/// The member of an object named `k`; `None` for every other kind of value.
pub open spec fn value_get(v: Value, k: Seq<char>) -> Option<Value> {
    match v {
        Value::Object(m) => {
            let i = member_index(m@, k);
            if i < 0 { None } else { Some(m@[i].1) }
        },
        _ => None,
    }
}

/// The boolean held by a value.
pub open spec fn value_bool(v: Value) -> Option<bool> {
    match v {
        Value::Bool(b) => Some(b),
        _ => None,
    }
}

/// Optional parameters as a value.
pub open spec fn opt_value(p: Option<&Value>) -> Option<Value> {
    match p {
        Some(v) => Some(*v),
        None => None,
    }
}

/// The boolean found under `k` in optional parameters, or `default`.
pub open spec fn param_bool(params: Option<Value>, k: Seq<char>, default: bool) -> bool {
    match params {
        Some(p) => match value_get(p, k) {
            Some(Value::Bool(b)) => b,
            _ => default,
        },
        None => default,
    }
}

/// Whether `s` is the decimal text of a non-negative integer that fits in
/// 64 bits, and its value.
pub open spec fn decimal_value(s: Seq<char>) -> int
    decreases s.len(),
{
    if s.len() == 0 {
        0
    } else {
        decimal_value(s.drop_last()) * 10 + (s.last() as int - '0' as int)
    }
}

pub open spec fn is_decimal(s: Seq<char>) -> bool {
    s.len() > 0 && forall|i: int| 0 <= i < s.len() ==> '0' <= #[trigger] s[i] && s[i] <= '9'
}

pub proof fn lemma_member_index(m: Seq<(String, Value)>, k: Seq<char>)
    ensures
        -1 <= member_index(m, k) < m.len(),
        member_index(m, k) >= 0 ==> m[member_index(m, k)].0@ == k,
        member_index(m, k) >= 0 ==> forall|j: int| 0 <= j < member_index(m, k) ==> m[j].0@ != k,
        member_index(m, k) < 0 ==> forall|j: int| 0 <= j < m.len() ==> m[j].0@ != k,
    decreases m.len(),
{
    if m.len() > 0 {
        let t = m.subrange(1, m.len() as int);
        lemma_member_index(t, k);
        if m[0].0@ != k {
            assert forall|j: int| 1 <= j < m.len() implies m[j] == t[j - 1] by {}
        }
    }
}

impl Value {
    /// The member named `key` of an object; `None` for other values.
    pub fn get(&self, key: &str) -> (r: Option<&Value>)
        ensures
            match r {
                Some(x) => value_get(*self, key@) == Some(*x),
                None => value_get(*self, key@) is None,
            },
    {
        match self {
            Value::Object(m) => {
                let mut i: usize = 0;
                while i < m.len()
                    invariant
                        i <= m@.len(),
                        *self == Value::Object(*m),
                        forall|j: int| 0 <= j < i ==> m@[j].0@ != key@,
                    decreases m.len() - i,
                {
                    if str_eq(m[i].0.as_str(), key) {
                        proof {
                            lemma_member_index(m@, key@);
                            let idx = member_index(m@, key@);
                            assert(idx >= 0) by {
                                if idx < 0 { assert(m@[i as int].0@ != key@); }
                            }
                            if idx < i { assert(m@[idx].0@ != key@); }
                            if idx > i { assert(m@[i as int].0@ != key@); }
                            assert(idx == i);
                            assert(value_get(*self, key@) == Some(m@[i as int].1));
                        }
                        return Some(&m[i].1);
                    }
                    i = i + 1;
                }
                proof {
                    lemma_member_index(m@, key@);
                }
                None
            },
            _ => None,
        }
    }

    /// The boolean held by the value.
    pub fn as_bool(&self) -> (r: Option<bool>)
        ensures
            r == value_bool(*self),
    {
        match self {
            Value::Bool(b) => Some(*b),
            _ => None,
        }
    }

    /// The string held by the value.
    pub fn as_str(&self) -> (r: Option<&str>)
        ensures
            match *self {
                Value::String(s) => r is Some && r->0@ == s@,
                _ => r is None,
            },
    {
        match self {
            Value::String(s) => Some(s.as_str()),
            _ => None,
        }
    }

    /// The items held by an array value.
    pub fn as_array(&self) -> (r: Option<&Vec<Value>>)
        ensures
            match *self {
                Value::Array(a) => r == Some(&a),
                _ => r is None,
            },
    {
        match self {
            Value::Array(a) => Some(a),
            _ => None,
        }
    }

    /// The value of a number that is a non-negative integer fitting in 64
    /// bits; `None` for every other value.
    pub fn as_u64(&self) -> (r: Option<u64>)
        ensures
            match *self {
                Value::Number(s) => match r {
                    Some(n) => is_decimal(s@) && decimal_value(s@) == n,
                    None => !is_decimal(s@) || decimal_value(s@) > u64::MAX,
                },
                _ => r is None,
            },
    {
        match self {
            Value::Number(s) => {
                let cs = crate::strings::to_chars(s.as_str());
                if cs.len() == 0 {
                    return None;
                }
                let mut acc: u64 = 0;
                let mut i: usize = 0;
                while i < cs.len()
                    invariant
                        i <= cs@.len(), cs@ == s@, cs@.len() > 0,
                        *self == Value::Number(*s),
                        forall|j: int| 0 <= j < i ==> '0' <= #[trigger] cs@[j] && cs@[j] <= '9',
                        acc == decimal_value(cs@.take(i as int)),
                    decreases cs.len() - i,
                {
                    let c = cs[i];
                    assert(cs@.take(i + 1).drop_last() =~= cs@.take(i as int));
                    if c < '0' || c > '9' {
                        assert(!('0' <= s@[i as int] && s@[i as int] <= '9'));
                        assert(!is_decimal(s@));
                        return None;
                    }
                    let d = (c as u32 - '0' as u32) as u64;
                    if acc > (u64::MAX - d) / 10 {
                        proof {
                            assert(acc * 10 + d > u64::MAX) by (nonlinear_arith)
                                requires acc > (u64::MAX - d) / 10, d <= 9;
                            assert(decimal_value(cs@.take(i + 1)) > u64::MAX);
                            if is_decimal(s@) {
                                lemma_decimal_grows(cs@, i as int + 1);
                            }
                            assert(!is_decimal(s@) || decimal_value(s@) > u64::MAX);
                        }
                        return None;
                    }
                    acc = acc * 10 + d;
                    i = i + 1;
                }
                assert(cs@.take(cs@.len() as int) =~= cs@);
                Some(acc)
            },
            _ => None,
        }
    }
}

/// A decimal text is at least as large as any of its prefixes.
pub proof fn lemma_decimal_grows(s: Seq<char>, k: int)
    requires
        0 <= k <= s.len(),
        forall|i: int| 0 <= i < s.len() ==> '0' <= #[trigger] s[i] && s[i] <= '9',
    ensures
        decimal_value(s) >= decimal_value(s.take(k)),
    decreases s.len(),
{
    if k < s.len() {
        assert(s.drop_last().take(k) =~= s.take(k));
        lemma_decimal_grows(s.drop_last(), k);
        lemma_decimal_nonneg(s.drop_last());
    } else {
        assert(s.take(k) =~= s);
    }
}

pub proof fn lemma_decimal_nonneg(s: Seq<char>)
    requires
        forall|i: int| 0 <= i < s.len() ==> '0' <= #[trigger] s[i] && s[i] <= '9',
    ensures
        decimal_value(s) >= 0,
    decreases s.len(),
{
    if s.len() > 0 {
        lemma_decimal_nonneg(s.drop_last());
    }
}

/// The boolean found under `key` in optional parameters, or `default`.
pub fn get_bool_param(params: Option<&Value>, key: &str, default: bool) -> (r: bool)
    ensures
        r == param_bool(opt_value(params), key@, default),
{
    match params {
        Some(p) => match p.get(key) {
            Some(Value::Bool(b)) => *b,
            _ => default,
        },
        None => default,
    }
}

} // verus!
