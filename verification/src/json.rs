//! JSON values: a plain tree with typed accessors and builders, read and
//! written by `serde_json`.

use vstd::prelude::*;

use crate::text::{str_eq, text_less};

verus! {

/// A JSON value. Non-negative integers, negative integers and all other
/// numbers are kept apart; the latter as the text that prints them.
#[derive(Debug)]
pub enum Json {
    Null,
    Bool(bool),
    Uint(u64),
    Neg(i64),
    Float(String),
    Str(String),
    Arr(Vec<Json>),
    Obj(Vec<(String, Json)>),
}

/// What a JSON value holds.
pub enum JsonView {
    Null,
    Bool(bool),
    Uint(u64),
    Neg(i64),
    Float(Seq<char>),
    Str(Seq<char>),
    Arr(Seq<JsonView>),
    Obj(Seq<(Seq<char>, JsonView)>),
}

pub open spec fn json_view(j: Json) -> JsonView
    decreases j,
{
    match j {
        Json::Null => JsonView::Null,
        Json::Bool(b) => JsonView::Bool(b),
        Json::Uint(n) => JsonView::Uint(n),
        Json::Neg(n) => JsonView::Neg(n),
        Json::Float(s) => JsonView::Float(s@),
        Json::Str(s) => JsonView::Str(s@),
        Json::Arr(v) => JsonView::Arr(
            Seq::new(
                v@.len(),
                |i: int|
                    if 0 <= i < v@.len() {
                        json_view(v@[i])
                    } else {
                        JsonView::Null
                    },
            ),
        ),
        Json::Obj(v) => JsonView::Obj(
            Seq::new(
                v@.len(),
                |i: int|
                    if 0 <= i < v@.len() {
                        (v@[i].0@, json_view(v@[i].1))
                    } else {
                        (Seq::empty(), JsonView::Null)
                    },
            ),
        ),
    }
}

impl View for Json {
    type V = JsonView;

    open spec fn view(&self) -> JsonView {
        json_view(*self)
    }
}

/// The value of the first member named `key`.
pub open spec fn member(m: Seq<(Seq<char>, JsonView)>, key: Seq<char>) -> Option<JsonView>
    decreases m.len(),
{
    if m.len() == 0 {
        None
    } else if m[0].0 == key {
        Some(m[0].1)
    } else {
        member(m.drop_first(), key)
    }
}

impl JsonView {
    pub open spec fn obj() -> JsonView {
        JsonView::Obj(Seq::empty())
    }

    pub open spec fn arr() -> JsonView {
        JsonView::Arr(Seq::empty())
    }

    /// The object with one more member.
    pub open spec fn with(self, key: Seq<char>, value: JsonView) -> JsonView {
        match self {
            JsonView::Obj(m) => JsonView::Obj(m.push((key, value))),
            _ => self,
        }
    }

    /// The array with one more item.
    pub open spec fn item(self, value: JsonView) -> JsonView {
        match self {
            JsonView::Arr(a) => JsonView::Arr(a.push(value)),
            _ => self,
        }
    }

    /// The member of an object with this name.
    pub open spec fn get(self, key: Seq<char>) -> Option<JsonView> {
        match self {
            JsonView::Obj(m) => member(m, key),
            _ => None,
        }
    }

    pub open spec fn as_str(self) -> Option<Seq<char>> {
        match self {
            JsonView::Str(s) => Some(s),
            _ => None,
        }
    }

    pub open spec fn as_u64(self) -> Option<u64> {
        match self {
            JsonView::Uint(n) => Some(n),
            _ => None,
        }
    }

    pub open spec fn as_i64(self) -> Option<i64> {
        match self {
            JsonView::Uint(n) => if n <= i64::MAX {
                Some(n as i64)
            } else {
                None
            },
            JsonView::Neg(n) => Some(n),
            _ => None,
        }
    }

    pub open spec fn as_bool(self) -> Option<bool> {
        match self {
            JsonView::Bool(b) => Some(b),
            _ => None,
        }
    }

    pub open spec fn as_arr(self) -> Option<Seq<JsonView>> {
        match self {
            JsonView::Arr(a) => Some(a),
            _ => None,
        }
    }

    /// The string member with this name.
    pub open spec fn get_str(self, key: Seq<char>) -> Option<Seq<char>> {
        match self.get(key) {
            Some(v) => v.as_str(),
            None => None,
        }
    }

    /// The member `b` of the member `a`.
    pub open spec fn get2(self, a: Seq<char>, b: Seq<char>) -> Option<JsonView> {
        match self.get(a) {
            Some(v) => v.get(b),
            None => None,
        }
    }

    /// The string member `b` of the member `a`.
    pub open spec fn get2_str(self, a: Seq<char>, b: Seq<char>) -> Option<Seq<char>> {
        match self.get(a) {
            Some(v) => v.get_str(b),
            None => None,
        }
    }

    /// The unsigned member with this name.
    pub open spec fn get_u64(self, key: Seq<char>) -> Option<u64> {
        match self.get(key) {
            Some(v) => v.as_u64(),
            None => None,
        }
    }

    /// A field of a record of `n` fields: a record is an object, and the field
    /// the member with its name, or it is a list of that length, and the field
    /// stands at its place.
    pub open spec fn field(self, key: Seq<char>, at: nat, n: nat) -> Option<JsonView> {
        match self {
            JsonView::Arr(a) => if at < n && a.len() == n {
                Some(a[at as int])
            } else {
                None
            },
            _ => self.get(key),
        }
    }

    /// The string in a field of a record.
    pub open spec fn field_str(self, key: Seq<char>, at: nat, n: nat) -> Option<Seq<char>> {
        match self.field(key, at, n) {
            Some(v) => v.as_str(),
            None => None,
        }
    }

    /// The unsigned number in a field of a record.
    pub open spec fn field_u64(self, key: Seq<char>, at: nat, n: nat) -> Option<u64> {
        match self.field(key, at, n) {
            Some(v) => v.as_u64(),
            None => None,
        }
    }

    /// The integer member with this name.
    pub open spec fn get_i64(self, key: Seq<char>) -> Option<i64> {
        match self.get(key) {
            Some(v) => v.as_i64(),
            None => None,
        }
    }
}

/// What a list of values holds.
pub open spec fn views(v: Seq<Json>) -> Seq<JsonView> {
    Seq::new(v.len(), |i: int| v[i]@)
}

/// The text, or null.
pub open spec fn opt_str(s: Option<Seq<char>>) -> JsonView {
    match s {
        Some(t) => JsonView::Str(t),
        None => JsonView::Null,
    }
}

/// The array of the given texts.
pub open spec fn str_items(v: Seq<Seq<char>>) -> JsonView {
    JsonView::Arr(Seq::new(v.len(), |i: int| JsonView::Str(v[i])))
}

impl Json {
    /// An object without members.
    pub fn obj() -> (r: Json)
        ensures
            r@ == JsonView::obj(),
    {
        let r: Json = Json::Obj(Vec::new());
        assert(r@->Obj_0 =~= Seq::<(Seq<char>, JsonView)>::empty());
        r
    }

    /// An array without items.
    pub fn arr() -> (r: Json)
        ensures
            r@ == JsonView::arr(),
    {
        let r: Json = Json::Arr(Vec::new());
        assert(r@->Arr_0 =~= Seq::<JsonView>::empty());
        r
    }

    pub fn text(s: &str) -> (r: Json)
        ensures
            r@ == JsonView::Str(s@),
    {
        Json::Str(s.to_string())
    }

    pub fn text_or_null(s: &Option<String>) -> (r: Json)
        ensures
            r@ == opt_str(match *s {
                Some(t) => Some(t@),
                None => None,
            }),
    {
        match s {
            Some(t) => Json::Str(t.clone()),
            None => Json::Null,
        }
    }

    /// The array of the given strings.
    pub fn texts(v: &Vec<String>) -> (r: Json)
        ensures
            r@ == str_items(crate::text::strs(v@)),
    {
        let mut r: Json = Json::arr();
        let mut i: usize = 0;
        assert(r@->Arr_0 =~= str_items(crate::text::strs(v@.take(0)))->Arr_0);
        while i < v.len()
            invariant
                i <= v.len(),
                r@ == str_items(crate::text::strs(v@.take(i as int))),
            decreases v.len() - i,
        {
            r = r.item(Json::Str(v[i].clone()));
            i += 1;
            assert(r@->Arr_0 =~= str_items(crate::text::strs(v@.take(i as int)))->Arr_0);
        }
        assert(v@.take(i as int) =~= v@);
        r
    }

    /// Adds a member to an object.
    pub fn with(self, key: &str, value: Json) -> (r: Json)
        ensures
            r@ == self@.with(key@, value@),
    {
        match self {
            Json::Obj(m) => {
                let mut m2 = m;
                m2.push((key.to_string(), value));
                let r: Json = Json::Obj(m2);
                assert(r@->Obj_0 =~= json_view(Json::Obj(m))->Obj_0.push((key@, value@)));
                r
            },
            other => other,
        }
    }

    /// Adds an item to an array.
    pub fn item(self, value: Json) -> (r: Json)
        ensures
            r@ == self@.item(value@),
    {
        match self {
            Json::Arr(a) => {
                let mut a2 = a;
                a2.push(value);
                let r: Json = Json::Arr(a2);
                assert(r@->Arr_0 =~= json_view(Json::Arr(a))->Arr_0.push(value@));
                r
            },
            other => other,
        }
    }

    /// The member of an object with this name.
    pub fn get(&self, key: &str) -> (r: Option<&Json>)
        ensures
            match r {
                Some(v) => self@.get(key@) == Some(v@),
                None => self@.get(key@) is None,
            },
    {
        match self {
            Json::Obj(m) => {
                let ghost all = self@->Obj_0;
                let mut i: usize = 0;
                assert(all.skip(0) =~= all);
                while i < m.len()
                    invariant
                        i <= m.len(),
                        self == Json::Obj(*m),
                        all == self@->Obj_0,
                        self@ is Obj,
                        all.len() == m.len(),
                        member(all, key@) == member(all.skip(i as int), key@),
                    decreases m.len() - i,
                {
                    assert(all.skip(i as int)[0] == (m@[i as int].0@, m@[i as int].1@));
                    if str_eq(m[i].0.as_str(), key) {
                        return Some(&m[i].1);
                    }
                    assert(all.skip(i as int).drop_first() =~= all.skip(i as int + 1));
                    i += 1;
                }
                None
            },
            _ => None,
        }
    }

    pub fn as_str(&self) -> (r: Option<&str>)
        ensures
            match r {
                Some(s) => self@.as_str() == Some(s@),
                None => self@.as_str() is None,
            },
    {
        match self {
            Json::Str(s) => Some(s.as_str()),
            _ => None,
        }
    }

    pub fn as_u64(&self) -> (r: Option<u64>)
        ensures
            r == self@.as_u64(),
    {
        match self {
            Json::Uint(n) => Some(*n),
            _ => None,
        }
    }

    pub fn as_i64(&self) -> (r: Option<i64>)
        ensures
            r == self@.as_i64(),
    {
        match self {
            Json::Uint(n) => if *n <= i64::MAX as u64 {
                Some(*n as i64)
            } else {
                None
            },
            Json::Neg(n) => Some(*n),
            _ => None,
        }
    }

    pub fn as_bool(&self) -> (r: Option<bool>)
        ensures
            r == self@.as_bool(),
    {
        match self {
            Json::Bool(b) => Some(*b),
            _ => None,
        }
    }

    pub fn as_arr(&self) -> (r: Option<&Vec<Json>>)
        ensures
            match r {
                Some(a) => self@.as_arr() == Some(views(a@)),
                None => self@.as_arr() is None,
            },
    {
        match self {
            Json::Arr(a) => {
                assert(self@->Arr_0 =~= views(a@));
                Some(a)
            },
            _ => None,
        }
    }

    /// The string member with this name.
    pub fn get_str(&self, key: &str) -> (r: Option<&str>)
        ensures
            match r {
                Some(s) => self@.get_str(key@) == Some(s@),
                None => self@.get_str(key@) is None,
            },
    {
        match self.get(key) {
            Some(v) => v.as_str(),
            None => None,
        }
    }

    /// The string member `b` of the member `a`.
    pub fn get2_str(&self, a: &str, b: &str) -> (r: Option<&str>)
        ensures
            match r {
                Some(s) => self@.get2_str(a@, b@) == Some(s@),
                None => self@.get2_str(a@, b@) is None,
            },
    {
        match self.get(a) {
            Some(v) => v.get_str(b),
            None => None,
        }
    }

    /// The array of the given values.
    pub fn list(v: Vec<Json>) -> (r: Json)
        ensures
            r@ == JsonView::Arr(views(v@)),
    {
        let r: Json = Json::Arr(v);
        assert(r@->Arr_0 =~= views(v@));
        r
    }

    /// The unsigned member with this name.
    pub fn get_u64(&self, key: &str) -> (r: Option<u64>)
        ensures
            r == self@.get_u64(key@),
    {
        match self.get(key) {
            Some(v) => v.as_u64(),
            None => None,
        }
    }

    /// A field of a record of `n` fields, by its name or by its place.
    pub fn field(&self, key: &str, at: usize, n: usize) -> (r: Option<&Json>)
        ensures
            match r {
                Some(v) => self@.field(key@, at as nat, n as nat) == Some(v@),
                None => self@.field(key@, at as nat, n as nat) is None,
            },
    {
        match self.as_arr() {
            Some(a) => if at < n && a.len() == n {
                Some(&a[at])
            } else {
                None
            },
            None => self.get(key),
        }
    }

    /// The string in a field of a record.
    pub fn field_str(&self, key: &str, at: usize, n: usize) -> (r: Option<&str>)
        ensures
            match r {
                Some(s) => self@.field_str(key@, at as nat, n as nat) == Some(s@),
                None => self@.field_str(key@, at as nat, n as nat) is None,
            },
    {
        match self.field(key, at, n) {
            Some(v) => v.as_str(),
            None => None,
        }
    }

    /// The unsigned number in a field of a record.
    pub fn field_u64(&self, key: &str, at: usize, n: usize) -> (r: Option<u64>)
        ensures
            r == self@.field_u64(key@, at as nat, n as nat),
    {
        match self.field(key, at, n) {
            Some(v) => v.as_u64(),
            None => None,
        }
    }

    /// The integer member with this name.
    pub fn get_i64(&self, key: &str) -> (r: Option<i64>)
        ensures
            r == self@.get_i64(key@),
    {
        match self.get(key) {
            Some(v) => v.as_i64(),
            None => None,
        }
    }

    /// A copy of the value.
    pub fn dup(&self) -> (r: Json)
        ensures
            r@ == self@,
        decreases self,
    {
        match self {
            Json::Null => Json::Null,
            Json::Bool(b) => Json::Bool(*b),
            Json::Uint(n) => Json::Uint(*n),
            Json::Neg(n) => Json::Neg(*n),
            Json::Float(s) => Json::Float(s.clone()),
            Json::Str(s) => Json::Str(s.clone()),
            Json::Arr(a) => {
                let mut out: Vec<Json> = Vec::new();
                let mut i: usize = 0;
                while i < a.len()
                    invariant
                        i <= a.len(),
                        self == Json::Arr(*a),
                        out.len() == i,
                        forall|k: int| 0 <= k < i ==> json_view(#[trigger] out@[k]) == json_view(a@[k]),
                    decreases a.len() - i,
                {
                    assert(decreases_to!(*self => self->Arr_0));
                    assert(decreases_to!(*a => a@[i as int]));
                    out.push(a[i].dup());
                    i += 1;
                }
                let r: Json = Json::Arr(out);
                assert(r@->Arr_0 =~= self@->Arr_0);
                r
            },
            Json::Obj(m) => {
                let mut out: Vec<(String, Json)> = Vec::new();
                let mut i: usize = 0;
                while i < m.len()
                    invariant
                        i <= m.len(),
                        self == Json::Obj(*m),
                        out.len() == i,
                        forall|k: int| 0 <= k < i ==> (#[trigger] out@[k]).0@ == m@[k].0@ && json_view(out@[k].1)
                            == json_view(m@[k].1),
                    decreases m.len() - i,
                {
                    assert(decreases_to!(*self => self->Obj_0));
                    assert(decreases_to!(*m => m@[i as int]));
                    assert(decreases_to!(m@[i as int] => m@[i as int].1));
                    out.push((m[i].0.clone(), m[i].1.dup()));
                    i += 1;
                }
                let r: Json = Json::Obj(out);
                assert(r@->Obj_0 =~= self@->Obj_0);
                r
            },
        }
    }
}

// ---------- reading and writing ----------

/// `serde_json::Value`, as it passes between the functions below.
#[verifier::external_type_specification]
#[verifier::external_body]
pub struct ExValue(serde_json::Value);

/// What `serde_json::from_str` makes of a text: the value, or the message of
/// its error.
pub uninterp spec fn json_parsed(text: Seq<char>) -> Result<JsonView, Seq<char>>;

/// The text that `serde_json::Value::to_string` prints for a value.
pub uninterp spec fn json_printed(v: JsonView) -> Seq<char>;

/// Converts a `serde_json::Value`, variant by variant.
#[verifier::external_body]
fn from_value(v: serde_json::Value) -> Json
{
    match v {
        serde_json::Value::Null => Json::Null,
        serde_json::Value::Bool(b) => Json::Bool(b),
        serde_json::Value::Number(n) => match (n.as_u64(), n.as_i64()) {
            (Some(u), _) => Json::Uint(u),
            (None, Some(i)) => Json::Neg(i),
            (None, None) => Json::Float(n.to_string()),
        },
        serde_json::Value::String(s) => Json::Str(s),
        serde_json::Value::Array(a) => Json::Arr(a.into_iter().map(from_value).collect()),
        serde_json::Value::Object(m) => Json::Obj(m.into_iter().map(|e| (e.0, from_value(e.1))).collect()),
    }
}

/// Converts to a `serde_json::Value`, variant by variant.
#[verifier::external_body]
fn to_value(j: &Json) -> serde_json::Value
{
    match j {
        Json::Null => serde_json::Value::Null,
        Json::Bool(b) => serde_json::Value::Bool(*b),
        Json::Uint(n) => serde_json::Value::from(*n),
        Json::Neg(n) => serde_json::Value::from(*n),
        Json::Float(s) => serde_json::from_str(s).unwrap_or_default(),
        Json::Str(s) => serde_json::Value::String(s.clone()),
        Json::Arr(a) => serde_json::Value::Array(a.iter().map(to_value).collect()),
        Json::Obj(m) => serde_json::Value::Object(m.iter().map(|e| (e.0.clone(), to_value(&e.1))).collect()),
    }
}

/// Reads a JSON text with `serde_json::from_str`. The result depends on the
/// text alone.
#[verifier::external_body]
pub(crate) fn parse(text: &str) -> (r: Result<Json, String>)
    ensures
        match r {
            Ok(j) => json_parsed(text@) == Ok::<JsonView, Seq<char>>(j@),
            Err(e) => json_parsed(text@) == Err::<JsonView, Seq<char>>(e@),
        },
{
    serde_json::from_str::<serde_json::Value>(text).map(from_value).map_err(|e| e.to_string())
}

/// What `serde_json::from_slice` makes of bytes: the value, or the message of
/// its error.
pub uninterp spec fn json_parsed_bytes(bytes: Seq<u8>) -> Result<JsonView, Seq<char>>;

/// Reads JSON bytes with `serde_json::from_slice`. The result depends on the
/// bytes alone.
#[verifier::external_body]
pub(crate) fn parse_bytes(bytes: &[u8]) -> (r: Result<Json, String>)
    ensures
        match r {
            Ok(j) => json_parsed_bytes(bytes@) == Ok::<JsonView, Seq<char>>(j@),
            Err(e) => json_parsed_bytes(bytes@) == Err::<JsonView, Seq<char>>(e@),
        },
{
    serde_json::from_slice::<serde_json::Value>(bytes).map(from_value).map_err(|e| e.to_string())
}

/// Nothing deeper than a list of texts.
pub open spec fn flat_value(v: JsonView) -> bool {
    match v {
        JsonView::Null => true,
        JsonView::Bool(_) => true,
        JsonView::Uint(_) => true,
        JsonView::Str(_) => true,
        JsonView::Arr(a) => forall|i: int| 0 <= i < a.len() ==> (#[trigger] a[i]) is Str,
        _ => false,
    }
}

/// An object of flat values, its members in the order of their names, the first
/// of which does not begin with `$`.
pub open spec fn flat_object(v: JsonView) -> bool {
    match v {
        JsonView::Obj(m) => {
            &&& m.len() > 0 && m[0].0.len() > 0 ==> m[0].0[0] != '$'
            &&& forall|i: int| 0 <= i < m.len() ==> flat_value((#[trigger] m[i]).1)
            &&& forall|i: int, j: int|
                0 <= i < j < m.len() ==> text_less((#[trigger] m[i]).0, (#[trigger] m[j]).0)
        },
        _ => false,
    }
}

/// A text that starts and ends with a brace.
pub open spec fn in_braces(s: Seq<char>) -> bool {
    s.len() >= 2 && s[0] == '{' && s.last() == '}'
}

/// The reading succeeded with this value.
pub open spec fn reads_as(r: Result<JsonView, Seq<char>>, v: JsonView) -> bool {
    r matches Ok(x) && x == v
}

/// Prints a JSON value with `serde_json::Value::to_string`. The text depends
/// on the value alone and holds no line break: the compact printer writes no
/// white space of its own and escapes control characters in strings. An object
/// stands in braces, and a flat object whose members are in order, as the
/// printer writes them, is read back as it was. Nothing is claimed of reading
/// an object whose first name begins with `$`: `serde_json` keeps such names
/// for its own types and reads other values out of them.
#[verifier::external_body]
pub(crate) fn print(j: &Json) -> (r: String)
    ensures
        r@ == json_printed(j@),
        !r@.contains('\n'),
        j@ is Obj ==> in_braces(r@),
        flat_object(j@) ==> reads_as(json_parsed(r@), j@),
{
    to_value(j).to_string()
}

impl Json {
    /// Reads a value out of a text.
    pub fn read(text: &str) -> (r: Result<Json, String>)
        ensures
            match r {
                Ok(j) => json_parsed(text@) == Ok::<JsonView, Seq<char>>(j@),
                Err(e) => json_parsed(text@) == Err::<JsonView, Seq<char>>(e@),
            },
    {
        parse(text)
    }

    /// The value as a text without line breaks.
    pub fn write(&self) -> (r: String)
        ensures
            r@ == json_printed(self@),
            !r@.contains('\n'),
            flat_object(self@) ==> reads_as(json_parsed(r@), self@),
    {
        print(self)
    }
}

} // verus!
