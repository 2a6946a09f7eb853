//! A JSON document model for command arguments and replies.
//!
//! Numbers keep the three shapes a JSON number can have: a non-negative
//! integer, a negative integer, or a double. A double is held as its IEEE-754
//! bit pattern and a single-precision value as its 32-bit pattern; the library
//! carries such values through and never computes with them.
use crate::error::CmdError;
use crate::text::join;
use vstd::prelude::*;

verus! {

#[derive(Debug)]
pub enum JsonNumber {
    /// A non-negative integer.
    UInt(u64),
    /// A negative integer.
    NegInt(i64),
    /// A double, as its bit pattern.
    Float(u64),
    /// A single-precision value, as its bit pattern; rendered as a double.
    Single(u32),
}

#[derive(Debug)]
pub enum JsonValue {
    Null,
    Bool(bool),
    Number(JsonNumber),
    Str(String),
    Array(Vec<JsonValue>),
    /// Members in order; a key that occurs twice is found at its first place.
    Object(Vec<(String, JsonValue)>),
}

/// The mathematical content of a JSON value.
pub enum Json {
    Null,
    Bool(bool),
    Num(JsonNumber),
    Str(Seq<char>),
    Arr(Seq<Json>),
    Obj(Seq<(Seq<char>, Json)>),
}

pub open spec fn json_view(v: JsonValue) -> Json
    decreases v,
{
    match v {
        JsonValue::Null => Json::Null,
        JsonValue::Bool(b) => Json::Bool(b),
        JsonValue::Number(n) => Json::Num(n),
        JsonValue::Str(s) => Json::Str(s@),
        JsonValue::Array(items) => Json::Arr(items_view(items@)),
        JsonValue::Object(fields) => Json::Obj(fields_view(fields@)),
    }
}

pub open spec fn items_view(s: Seq<JsonValue>) -> Seq<Json>
    decreases s,
{
    if s.len() == 0 {
        Seq::empty()
    } else {
        items_view(s.drop_last()).push(json_view(s.last()))
    }
}

/// `items_view` takes the view of each item, in place.
pub proof fn lemma_items_view(s: Seq<JsonValue>)
    ensures
        items_view(s).len() == s.len(),
        forall|i: int| 0 <= i < s.len() ==> #[trigger] items_view(s)[i] == json_view(s[i]),
    decreases s.len(),
{
    if s.len() > 0 {
        lemma_items_view(s.drop_last());
        assert forall|i: int| 0 <= i < s.len() implies #[trigger] items_view(s)[i] == json_view(s[i]) by {
            if i < s.len() - 1 {
                assert(s.drop_last()[i] == s[i]);
            }
        }
    }
}

pub open spec fn fields_view(s: Seq<(String, JsonValue)>) -> Seq<(Seq<char>, Json)>
    decreases s,
{
    if s.len() == 0 {
        Seq::empty()
    } else {
        fields_view(s.drop_last()).push((s.last().0@, json_view(s.last().1)))
    }
}

impl View for JsonValue {
    type V = Json;

    open spec fn view(&self) -> Json {
        json_view(*self)
    }
}

pub proof fn lemma_fields_view(s: Seq<(String, JsonValue)>)
    ensures
        fields_view(s).len() == s.len(),
        forall|i: int|
            0 <= i < s.len() ==> #[trigger] fields_view(s)[i] == (s[i].0@, json_view(s[i].1)),
    decreases s.len(),
{
    if s.len() > 0 {
        lemma_fields_view(s.drop_last());
    }
}

/// `a == b` for string slices: the same characters in the same order.
pub(crate) fn str_eq(a: &str, b: &str) -> (r: bool)
    ensures
        r == (a@ == b@),
{
    let ca = crate::text::chars_of(a);
    let cb = crate::text::chars_of(b);
    crate::text::chars_eq(ca.as_slice(), cb.as_slice())
}

/// The first member named `key`.
pub open spec fn obj_get(fields: Seq<(Seq<char>, Json)>, key: Seq<char>) -> Option<Json>
    decreases fields.len(),
{
    if fields.len() == 0 {
        None
    } else if fields[0].0 == key {
        Some(fields[0].1)
    } else {
        obj_get(fields.drop_first(), key)
    }
}

pub open spec fn value_u64(v: Option<Json>) -> Option<u64> {
    match v {
        Some(Json::Num(JsonNumber::UInt(u))) => Some(u),
        _ => None,
    }
}

pub open spec fn value_str(v: Option<Json>) -> Option<Seq<char>> {
    match v {
        Some(Json::Str(s)) => Some(s),
        _ => None,
    }
}

pub open spec fn value_bool(v: Option<Json>) -> Option<bool> {
    match v {
        Some(Json::Bool(b)) => Some(b),
        _ => None,
    }
}

pub open spec fn value_number(v: Option<Json>) -> Option<JsonNumber> {
    match v {
        Some(Json::Num(n)) => Some(n),
        _ => None,
    }
}

/// The first key in `keys` whose member is a string, with that string.
pub open spec fn first_str(fields: Seq<(Seq<char>, Json)>, keys: Seq<Seq<char>>) -> Option<
    Seq<char>,
>
    decreases keys.len(),
{
    if keys.len() == 0 {
        None
    } else {
        match value_str(obj_get(fields, keys[0])) {
            Some(s) => Some(s),
            None => first_str(fields, keys.drop_first()),
        }
    }
}

/// The first key in `keys` whose member is a non-negative integer.
pub open spec fn first_u64(fields: Seq<(Seq<char>, Json)>, keys: Seq<Seq<char>>) -> Option<u64>
    decreases keys.len(),
{
    if keys.len() == 0 {
        None
    } else {
        match value_u64(obj_get(fields, keys[0])) {
            Some(u) => Some(u),
            None => first_u64(fields, keys.drop_first()),
        }
    }
}

/// The first key in `keys` whose member is a number of any shape.
pub open spec fn first_number(fields: Seq<(Seq<char>, Json)>, keys: Seq<Seq<char>>) -> Option<
    JsonNumber,
>
    decreases keys.len(),
{
    if keys.len() == 0 {
        None
    } else {
        match value_number(obj_get(fields, keys[0])) {
            Some(n) => Some(n),
            None => first_number(fields, keys.drop_first()),
        }
    }
}

pub open spec fn keys_view(keys: Seq<&str>) -> Seq<Seq<char>> {
    keys.map_values(|k: &str| k@)
}

/// Keys joined with `|`, as they appear in an error.
pub open spec fn keys_label(keys: Seq<&str>) -> Seq<char> {
    join(keys_view(keys), "|"@)
}

pub open spec fn invalid_argument(key: Seq<char>, reason: Seq<char>, e: CmdError) -> bool {
    e matches CmdError::InvalidArgument { key: k, reason: r } && k@ == key && r@ == reason
}

/// The members of a command's arguments: an object gives its members, null
/// gives none, anything else is refused.
pub open spec fn args_of(v: Json) -> Option<Seq<(Seq<char>, Json)>> {
    match v {
        Json::Obj(fields) => Some(fields),
        Json::Null => Some(Seq::empty()),
        _ => None,
    }
}

impl JsonNumber {
    pub fn copy(&self) -> (r: JsonNumber)
        ensures
            r == *self,
    {
        match self {
            JsonNumber::UInt(u) => JsonNumber::UInt(*u),
            JsonNumber::NegInt(i) => JsonNumber::NegInt(*i),
            JsonNumber::Float(b) => JsonNumber::Float(*b),
            JsonNumber::Single(b) => JsonNumber::Single(*b),
        }
    }
}

impl JsonValue {
    /// A member-for-member copy.
    #[verifier::loop_isolation(false)]
    pub fn deep_clone(&self) -> (r: JsonValue)
        ensures
            r@ == self@,
        decreases self,
    {
        match self {
            JsonValue::Null => JsonValue::Null,
            JsonValue::Bool(b) => JsonValue::Bool(*b),
            JsonValue::Number(n) => JsonValue::Number(n.copy()),
            JsonValue::Str(s) => JsonValue::Str(s.clone()),
            JsonValue::Array(items) => {
                let mut out: Vec<JsonValue> = Vec::new();
                let mut i: usize = 0;
                while i < items.len()
                    invariant
                        i <= items.len(),
                        items_view(out@) == items_view(items@.subrange(0, i as int)),
                    decreases items.len() - i,
                {
                    let c = items[i].deep_clone();
                    let ghost before = out@;
                    out.push(c);
                    assert(out@.drop_last() == before);
                    assert(items@.subrange(0, i + 1).drop_last() == items@.subrange(0, i as int));
                    i = i + 1;
                }
                assert(items@.subrange(0, items.len() as int) == items@);
                JsonValue::Array(out)
            },
            JsonValue::Object(fields) => {
                let mut out: Vec<(String, JsonValue)> = Vec::new();
                let mut i: usize = 0;
                while i < fields.len()
                    invariant
                        i <= fields.len(),
                        fields_view(out@) == fields_view(fields@.subrange(0, i as int)),
                    decreases fields.len() - i,
                {
                    let v = fields[i].1.deep_clone();
                    let ghost before = out@;
                    out.push((fields[i].0.clone(), v));
                    assert(out@.drop_last() == before);
                    assert(fields@.subrange(0, i + 1).drop_last() == fields@.subrange(0, i as int));
                    i = i + 1;
                }
                assert(fields@.subrange(0, fields.len() as int) == fields@);
                JsonValue::Object(out)
            },
        }
    }

    /// A string value.
    pub fn text(s: &str) -> (r: JsonValue)
        ensures
            r@ == Json::Str(s@),
    {
        JsonValue::Str(String::from_str(s))
    }

    /// A non-negative integer value.
    pub fn uint(u: u64) -> (r: JsonValue)
        ensures
            r@ == Json::Num(JsonNumber::UInt(u)),
    {
        JsonValue::Number(JsonNumber::UInt(u))
    }
}

/// A member-for-member copy of an object's members.
pub fn clone_fields(fields: &[(String, JsonValue)]) -> (out: Vec<(String, JsonValue)>)
    ensures
        fields_view(out@) == fields_view(fields@),
{
    let mut out: Vec<(String, JsonValue)> = Vec::new();
    let mut i: usize = 0;
    while i < fields.len()
        invariant
            i <= fields.len(),
            fields_view(out@) == fields_view(fields@.subrange(0, i as int)),
        decreases fields.len() - i,
    {
        let v = fields[i].1.deep_clone();
        let ghost before = out@;
        out.push((fields[i].0.clone(), v));
        assert(out@.drop_last() == before);
        assert(fields@.subrange(0, i + 1).drop_last() == fields@.subrange(0, i as int));
        i = i + 1;
    }
    assert(fields@.subrange(0, fields.len() as int) == fields@);
    out
}

/// The first member named `key`.
pub fn get_field<'a>(fields: &'a [(String, JsonValue)], key: &str) -> (r: Option<&'a JsonValue>)
    ensures
        match r {
            Some(v) => obj_get(fields_view(fields@), key@) == Some(v@),
            None => obj_get(fields_view(fields@), key@) is None,
        },
{
    let ghost fv = fields_view(fields@);
    proof {
        lemma_fields_view(fields@);
        assert(fv.subrange(0, fv.len() as int) == fv);
    }
    let mut i: usize = 0;
    while i < fields.len()
        invariant
            i <= fields.len(),
            fv == fields_view(fields@),
            fv.len() == fields@.len(),
            forall|j: int| 0 <= j < fields@.len() ==> #[trigger] fv[j] == (fields@[j].0@, json_view(fields@[j].1)),
            obj_get(fv, key@) == obj_get(fv.subrange(i as int, fv.len() as int), key@),
        decreases fields.len() - i,
    {
        let ghost rest = fv.subrange(i as int, fv.len() as int);
        assert(rest.drop_first() == fv.subrange(i + 1, fv.len() as int));
        assert(rest[0] == fv[i as int]);
        if str_eq(fields[i].0.as_str(), key) {
            return Some(&fields[i].1);
        }
        i = i + 1;
    }
    None
}

/// The members of a command's arguments.
pub fn command_args(value: &JsonValue) -> (r: Result<&[(String, JsonValue)], CmdError>)
    ensures
        match r {
            Ok(fields) => args_of(value@) == Some(fields_view(fields@)),
            Err(e) => args_of(value@) is None && invalid_argument("args"@, "expected object"@, e),
        },
{
    match value {
        JsonValue::Object(fields) => Ok(fields.as_slice()),
        JsonValue::Null => Ok(&[]),
        _ => Err(
            CmdError::InvalidArgument {
                key: String::from_str("args"),
                reason: String::from_str("expected object"),
            },
        ),
    }
}

/// `keys.join("|")`.
pub fn join_keys(keys: &[&str]) -> (s: String)
    ensures
        s@ == keys_label(keys@),
{
    let mut s = String::new();
    let mut i: usize = 0;
    while i < keys.len()
        invariant
            i <= keys.len(),
            s@ == join(keys_view(keys@.subrange(0, i as int)), "|"@),
        decreases keys.len() - i,
    {
        let ghost pre = keys_view(keys@.subrange(0, i as int));
        let ghost post = keys_view(keys@.subrange(0, i + 1));
        assert(post.drop_last() == pre);
        assert(post.last() == keys@[i as int]@);
        if i > 0 {
            s.append("|");
        } else {
            assert(pre.len() == 0);
        }
        s.append(keys[i]);
        i = i + 1;
    }
    assert(keys@.subrange(0, keys.len() as int) == keys@);
    s
}

/// A required string member.
pub fn arg_string(args: &[(String, JsonValue)], key: &str) -> (r: Result<String, CmdError>)
    ensures
        match r {
            Ok(s) => value_str(obj_get(fields_view(args@), key@)) == Some(s@),
            Err(e) => value_str(obj_get(fields_view(args@), key@)) is None && invalid_argument(
                key@,
                "missing string"@,
                e,
            ),
        },
{
    match get_field(args, key) {
        Some(JsonValue::Str(s)) => Ok(s.clone()),
        _ => Err(
            CmdError::InvalidArgument {
                key: String::from_str(key),
                reason: String::from_str("missing string"),
            },
        ),
    }
}

/// The first string among several member names.
pub fn arg_string_any(args: &[(String, JsonValue)], keys: &[&str]) -> (r: Result<String, CmdError>)
    ensures
        match r {
            Ok(s) => first_str(fields_view(args@), keys_view(keys@)) == Some(s@),
            Err(e) => first_str(fields_view(args@), keys_view(keys@)) is None && invalid_argument(
                keys_label(keys@),
                "missing string"@,
                e,
            ),
        },
{
    let mut i: usize = 0;
    assert(keys@.subrange(0, keys@.len() as int) == keys@);
    while i < keys.len()
        invariant
            i <= keys.len(),
            first_str(fields_view(args@), keys_view(keys@)) == first_str(
                fields_view(args@),
                keys_view(keys@.subrange(i as int, keys@.len() as int)),
            ),
        decreases keys.len() - i,
    {
        let ghost rest = keys_view(keys@.subrange(i as int, keys@.len() as int));
        assert(rest.drop_first() == keys_view(keys@.subrange(i + 1, keys@.len() as int)));
        assert(rest[0] == keys@[i as int]@);
        if let Some(JsonValue::Str(s)) = get_field(args, keys[i]) {
            return Ok(s.clone());
        }
        i = i + 1;
    }
    Err(
        CmdError::InvalidArgument {
            key: join_keys(keys),
            reason: String::from_str("missing string"),
        },
    )
}

/// The first non-negative integer among several member names.
pub fn find_u64_any(args: &[(String, JsonValue)], keys: &[&str]) -> (r: Option<u64>)
    ensures
        r == first_u64(fields_view(args@), keys_view(keys@)),
{
    let mut i: usize = 0;
    assert(keys@.subrange(0, keys@.len() as int) == keys@);
    while i < keys.len()
        invariant
            i <= keys.len(),
            first_u64(fields_view(args@), keys_view(keys@)) == first_u64(
                fields_view(args@),
                keys_view(keys@.subrange(i as int, keys@.len() as int)),
            ),
        decreases keys.len() - i,
    {
        let ghost rest = keys_view(keys@.subrange(i as int, keys@.len() as int));
        assert(rest.drop_first() == keys_view(keys@.subrange(i + 1, keys@.len() as int)));
        assert(rest[0] == keys@[i as int]@);
        if let Some(JsonValue::Number(JsonNumber::UInt(u))) = get_field(args, keys[i]) {
            return Some(*u);
        }
        i = i + 1;
    }
    None
}

/// The first number of any shape among several member names.
pub fn find_number_any(args: &[(String, JsonValue)], keys: &[&str]) -> (r: Option<JsonNumber>)
    ensures
        r == first_number(fields_view(args@), keys_view(keys@)),
{
    let mut i: usize = 0;
    assert(keys@.subrange(0, keys@.len() as int) == keys@);
    while i < keys.len()
        invariant
            i <= keys.len(),
            first_number(fields_view(args@), keys_view(keys@)) == first_number(
                fields_view(args@),
                keys_view(keys@.subrange(i as int, keys@.len() as int)),
            ),
        decreases keys.len() - i,
    {
        let ghost rest = keys_view(keys@.subrange(i as int, keys@.len() as int));
        assert(rest.drop_first() == keys_view(keys@.subrange(i + 1, keys@.len() as int)));
        assert(rest[0] == keys@[i as int]@);
        if let Some(JsonValue::Number(n)) = get_field(args, keys[i]) {
            return Some(n.copy());
        }
        i = i + 1;
    }
    None
}

/// A required unsigned integer among several member names, truncated to
/// 32 bits.
pub fn arg_u32_any(args: &[(String, JsonValue)], keys: &[&str]) -> (r: Result<u32, CmdError>)
    ensures
        match r {
            Ok(v) => first_u64(fields_view(args@), keys_view(keys@)) matches Some(u) && v == u as u32,
            Err(e) => first_u64(fields_view(args@), keys_view(keys@)) is None && invalid_argument(
                keys_label(keys@),
                "missing unsigned integer"@,
                e,
            ),
        },
{
    match find_u64_any(args, keys) {
        Some(u) => Ok(u as u32),
        None => Err(
            CmdError::InvalidArgument {
                key: join_keys(keys),
                reason: String::from_str("missing unsigned integer"),
            },
        ),
    }
}

/// A required unsigned integer member.
pub fn arg_u64(args: &[(String, JsonValue)], key: &str) -> (r: Result<u64, CmdError>)
    ensures
        match r {
            Ok(v) => value_u64(obj_get(fields_view(args@), key@)) == Some(v),
            Err(e) => value_u64(obj_get(fields_view(args@), key@)) is None && invalid_argument(
                key@,
                "missing unsigned integer"@,
                e,
            ),
        },
{
    match get_field(args, key) {
        Some(JsonValue::Number(JsonNumber::UInt(u))) => Ok(*u),
        _ => Err(
            CmdError::InvalidArgument {
                key: String::from_str(key),
                reason: String::from_str("missing unsigned integer"),
            },
        ),
    }
}

/// A required unsigned integer member, truncated to 8 bits.
pub fn arg_u8(args: &[(String, JsonValue)], key: &str) -> (r: Result<u8, CmdError>)
    ensures
        match r {
            Ok(v) => value_u64(obj_get(fields_view(args@), key@)) matches Some(u) && v == u as u8,
            Err(e) => value_u64(obj_get(fields_view(args@), key@)) is None && invalid_argument(
                key@,
                "missing unsigned integer"@,
                e,
            ),
        },
{
    match arg_u64(args, key) {
        Ok(u) => Ok(u as u8),
        Err(e) => Err(e),
    }
}

/// A required unsigned integer member, truncated to 16 bits.
pub fn arg_u16(args: &[(String, JsonValue)], key: &str) -> (r: Result<u16, CmdError>)
    ensures
        match r {
            Ok(v) => value_u64(obj_get(fields_view(args@), key@)) matches Some(u) && v == u as u16,
            Err(e) => value_u64(obj_get(fields_view(args@), key@)) is None && invalid_argument(
                key@,
                "missing unsigned integer"@,
                e,
            ),
        },
{
    match arg_u64(args, key) {
        Ok(u) => Ok(u as u16),
        Err(e) => Err(e),
    }
}

} // verus!
