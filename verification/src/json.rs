//! JSON values: what a request carries and what a reply is made of.

use vstd::prelude::*;

use crate::text::{same, slices};

verus! {

/// A JSON number, told apart as a parser tells them apart.
#[derive(Debug, Clone, Copy, PartialEq, Eq)]
pub enum Numeral {
    /// A whole number from zero on.
    Unsigned(u64),
    /// A whole number below zero.
    Negative(i64),
    /// Any other number, as the bit pattern of a double-precision one.
    Float(u64),
    /// A single-precision number, as its bit pattern.
    Single(u32),
}

/// A JSON value. The fields of an object keep their order.
#[derive(Debug, PartialEq)]
pub enum Json {
    Null,
    Bool(bool),
    Number(Numeral),
    Text(String),
    List(Vec<Json>),
    Object(Vec<(String, Json)>),
}

/// A JSON value, as what it says.
pub ghost enum JsonView {
    Null,
    Bool(bool),
    Number(Numeral),
    Text(Seq<char>),
    List(Seq<JsonView>),
    Object(Seq<(Seq<char>, JsonView)>),
}

impl JsonView {
    /// The object without fields.
    pub open spec fn object() -> JsonView {
        JsonView::Object(Seq::empty())
    }

    /// The list without elements.
    pub open spec fn list() -> JsonView {
        JsonView::List(Seq::empty())
    }

    /// An object with one field more.
    pub open spec fn put(self, key: Seq<char>, value: JsonView) -> JsonView {
        match self {
            JsonView::Object(fields) => JsonView::Object(fields.push((key, value))),
            _ => self,
        }
    }

    /// A list with one element more.
    pub open spec fn add(self, value: JsonView) -> JsonView {
        match self {
            JsonView::List(items) => JsonView::List(items.push(value)),
            _ => self,
        }
    }

    /// The whole number `n`.
    pub open spec fn number(n: u64) -> JsonView {
        JsonView::Number(Numeral::Unsigned(n))
    }

    /// The whole number `n`.
    pub open spec fn integer(n: i64) -> JsonView {
        if n < 0 {
            JsonView::Number(Numeral::Negative(n))
        } else {
            JsonView::Number(Numeral::Unsigned(n as u64))
        }
    }

    /// A list of texts.
    pub open spec fn texts(v: Seq<Seq<char>>) -> JsonView {
        JsonView::List(v.map_values(|s: Seq<char>| JsonView::Text(s)))
    }

    /// A text, or nothing.
    pub open spec fn optional(s: Option<Seq<char>>) -> JsonView {
        match s {
            Some(t) => JsonView::Text(t),
            None => JsonView::Null,
        }
    }

    /// The place of the first field of that name, from the `i`-th field on.
    pub open spec fn place_from(
        fields: Seq<(Seq<char>, JsonView)>,
        key: Seq<char>,
        i: int,
    ) -> Option<int>
        decreases fields.len() - i,
    {
        if i >= fields.len() {
            None
        } else if fields[i].0 == key {
            Some(i)
        } else {
            JsonView::place_from(fields, key, i + 1)
        }
    }

    /// An object with the field set: in its place where there is one of that
    /// name, else at the end. What is no object stays as it is.
    pub open spec fn set(self, key: Seq<char>, value: JsonView) -> JsonView {
        match self {
            JsonView::Object(fields) => match JsonView::place_from(fields, key, 0) {
                Some(i) => JsonView::Object(fields.update(i, (key, value))),
                None => JsonView::Object(fields.push((key, value))),
            },
            _ => self,
        }
    }

    /// The first field of that name, from the `i`-th field on.
    pub open spec fn field_from(
        fields: Seq<(Seq<char>, JsonView)>,
        key: Seq<char>,
        i: int,
    ) -> Option<JsonView>
        decreases fields.len() - i,
    {
        if i >= fields.len() {
            None
        } else if fields[i].0 == key {
            Some(fields[i].1)
        } else {
            JsonView::field_from(fields, key, i + 1)
        }
    }

    /// The field of that name, where the value is an object that has one.
    pub open spec fn field(self, key: Seq<char>) -> Option<JsonView> {
        match self {
            JsonView::Object(fields) => JsonView::field_from(fields, key, 0),
            _ => None,
        }
    }

    /// The text, where the value is one.
    pub open spec fn text(self) -> Option<Seq<char>> {
        match self {
            JsonView::Text(s) => Some(s),
            _ => None,
        }
    }
}

impl Json {
    /// What the value says.
    pub open spec fn view(self) -> JsonView
        decreases self,
    {
        match self {
            Json::Null => JsonView::Null,
            Json::Bool(b) => JsonView::Bool(b),
            Json::Number(n) => JsonView::Number(n),
            Json::Text(s) => JsonView::Text(s@),
            Json::List(v) => JsonView::List(
                Seq::new(
                    v@.len(),
                    |i: int|
                        if 0 <= i < v@.len() {
                            v@[i].view()
                        } else {
                            JsonView::Null
                        },
                ),
            ),
            Json::Object(v) => JsonView::Object(
                Seq::new(
                    v@.len(),
                    |i: int|
                        if 0 <= i < v@.len() {
                            (v@[i].0@, v@[i].1.view())
                        } else {
                            (Seq::empty(), JsonView::Null)
                        },
                ),
            ),
        }
    }

    /// The object without fields.
    pub fn object() -> (r: Json)
        ensures
            r@ == JsonView::object(),
    {
        let fields: Vec<(String, Json)> = Vec::new();
        let r = Json::Object(fields);
        assert(r@->Object_0 =~= Seq::empty());
        r
    }

    /// The list without elements.
    pub fn list() -> (r: Json)
        ensures
            r@ == JsonView::list(),
    {
        let items: Vec<Json> = Vec::new();
        let r = Json::List(items);
        assert(r@->List_0 =~= Seq::empty());
        r
    }

    /// A text.
    pub fn text(s: &str) -> (r: Json)
        ensures
            r@ == JsonView::Text(s@),
    {
        Json::Text(s.to_owned())
    }

    /// A whole number.
    pub fn number(n: u64) -> (r: Json)
        ensures
            r@ == JsonView::number(n),
    {
        Json::Number(Numeral::Unsigned(n))
    }

    /// A whole number.
    pub fn integer(n: i64) -> (r: Json)
        ensures
            r@ == JsonView::integer(n),
    {
        if n < 0 {
            Json::Number(Numeral::Negative(n))
        } else {
            Json::Number(Numeral::Unsigned(n as u64))
        }
    }

    /// A list of texts.
    pub fn texts(v: &Vec<&str>) -> (r: Json)
        ensures
            r@ == JsonView::texts(slices(v@)),
    {
        let mut items: Vec<Json> = Vec::new();
        let mut i: usize = 0;
        while i < v.len()
            invariant
                i <= v@.len(),
                items@.len() == i,
                forall|k: int| 0 <= k < i ==> (#[trigger] items@[k])@ == JsonView::Text(v@[k]@),
            decreases v@.len() - i,
        {
            items.push(Json::Text(v[i].to_owned()));
            i = i + 1;
        }
        let r = Json::List(items);
        assert(r@->List_0 =~= JsonView::texts(slices(v@))->List_0);
        r
    }

    /// A text, or nothing.
    pub fn optional(s: &Option<String>) -> (r: Json)
        ensures
            r@ == JsonView::optional(
                match *s {
                    Some(t) => Some(t@),
                    None => None,
                },
            ),
    {
        match s {
            Some(t) => Json::Text(t.clone()),
            None => Json::Null,
        }
    }

    /// The object with the field set: in its place where there is one of that
    /// name, else at the end. What is no object stays as it is.
    pub fn set(self, key: &str, value: Json) -> (r: Json)
        ensures
            r@ == self@.set(key@, value@),
    {
        match self {
            Json::Object(mut fields) => {
                let ghost whole = Json::Object(fields);
                let ghost before = whole@->Object_0;
                let mut i: usize = 0;
                while i < fields.len() && !same(fields[i].0.as_str(), key)
                    invariant
                        i <= fields@.len(),
                        whole == Json::Object(fields),
                        before == whole@->Object_0,
                        before.len() == fields@.len(),
                        JsonView::place_from(before, key@, 0) == JsonView::place_from(
                            before,
                            key@,
                            i as int,
                        ),
                    decreases fields@.len() - i,
                {
                    assert(before[i as int].0 == fields@[i as int].0@);
                    i = i + 1;
                }
                if i < fields.len() {
                    assert(before[i as int].0 == fields@[i as int].0@);
                    fields.set(i, (key.to_owned(), value));
                    let r = Json::Object(fields);
                    assert(r@->Object_0 =~= before.update(i as int, (key@, value@)));
                    r
                } else {
                    fields.push((key.to_owned(), value));
                    let r = Json::Object(fields);
                    assert(r@->Object_0 =~= before.push((key@, value@)));
                    r
                }
            },
            other => other,
        }
    }

    /// The object with one field more. What is no object stays as it is.
    pub fn put(self, key: &str, value: Json) -> (r: Json)
        ensures
            r@ == self@.put(key@, value@),
    {
        match self {
            Json::Object(mut fields) => {
                let ghost before = Json::Object(fields)@->Object_0;
                fields.push((key.to_owned(), value));
                let r = Json::Object(fields);
                assert(r@->Object_0 =~= before.push((key@, value@)));
                r
            },
            other => other,
        }
    }

    /// The list with one element more. What is no list stays as it is.
    pub fn add(self, value: Json) -> (r: Json)
        ensures
            r@ == self@.add(value@),
    {
        match self {
            Json::List(mut items) => {
                let ghost before = Json::List(items)@->List_0;
                items.push(value);
                let r = Json::List(items);
                assert(r@->List_0 =~= before.push(value@));
                r
            },
            other => other,
        }
    }

    /// The field of that name, where the value is an object that has one.
    pub fn get(&self, key: &str) -> (r: Option<&Json>)
        ensures
            match r {
                Some(v) => self@.field(key@) == Some(v@),
                None => self@.field(key@) is None,
            },
    {
        match self {
            Json::Object(fields) => {
                let ghost all = self@->Object_0;
                let mut i: usize = 0;
                while i < fields.len()
                    invariant
                        i <= fields@.len(),
                        all.len() == fields@.len(),
                        all == self@->Object_0,
                        self@ is Object,
                        *self == Json::Object(*fields),
                        JsonView::field_from(all, key@, 0) == JsonView::field_from(
                            all,
                            key@,
                            i as int,
                        ),
                    decreases fields@.len() - i,
                {
                    assert(all[i as int] == (fields@[i as int].0@, fields@[i as int].1@));
                    if same(fields[i].0.as_str(), key) {
                        return Some(&fields[i].1);
                    }
                    i = i + 1;
                }
                None
            },
            _ => None,
        }
    }

    /// The text, where the value is one.
    pub fn as_str(&self) -> (r: Option<&str>)
        ensures
            match r {
                Some(s) => self@.text() == Some(s@),
                None => self@.text() is None,
            },
    {
        match self {
            Json::Text(s) => Some(s.as_str()),
            _ => None,
        }
    }

    /// The same value once more.
    pub fn copy(&self) -> (r: Json)
        ensures
            r@ == self@,
        decreases self,
    {
        match self {
            Json::Null => Json::Null,
            Json::Bool(b) => Json::Bool(*b),
            Json::Number(n) => Json::Number(*n),
            Json::Text(s) => Json::Text(s.clone()),
            Json::List(v) => {
                let mut out: Vec<Json> = Vec::new();
                let mut i: usize = 0;
                while i < v.len()
                    invariant
                        i <= v@.len(),
                        out@.len() == i,
                        *self == Json::List(*v),
                        forall|k: int| 0 <= k < i ==> (#[trigger] out@[k])@ == v@[k]@,
                    decreases v@.len() - i,
                {
                    assert(decreases_to!(*self => self->List_0));
                    assert(decreases_to!(v@ => v@[i as int]));
                    let x = v[i].copy();
                    out.push(x);
                    i = i + 1;
                }
                let r = Json::List(out);
                assert(r@->List_0 =~= self@->List_0);
                r
            },
            Json::Object(v) => {
                let mut out: Vec<(String, Json)> = Vec::new();
                let mut i: usize = 0;
                while i < v.len()
                    invariant
                        i <= v@.len(),
                        out@.len() == i,
                        *self == Json::Object(*v),
                        forall|k: int|
                            0 <= k < i ==> (#[trigger] out@[k]).0@ == v@[k].0@ && out@[k].1@
                                == v@[k].1@,
                    decreases v@.len() - i,
                {
                    assert(decreases_to!(*self => self->Object_0));
                    assert(decreases_to!(v@ => v@[i as int]));
                    assert(decreases_to!(v@[i as int] => v@[i as int].1));
                    let x = v[i].1.copy();
                    out.push((v[i].0.clone(), x));
                    i = i + 1;
                }
                let r = Json::Object(out);
                assert(r@->Object_0 =~= self@->Object_0);
                r
            },
        }
    }
}

/// A field that is read is the first one of its name, and none is read where
/// no field has the name.
pub proof fn the_first_field_of_a_name_is_read(fields: Seq<(Seq<char>, JsonView)>, key: Seq<char>, i: int)
    requires
        0 <= i <= fields.len(),
        forall|k: int| 0 <= k < i ==> (#[trigger] fields[k]).0 != key,
        i < fields.len() ==> fields[i].0 == key,
    ensures
        i < fields.len() ==> JsonView::Object(fields).field(key) == Some(fields[i].1),
        i < fields.len() ==> JsonView::place_from(fields, key, 0) == Some(i),
        i == fields.len() ==> JsonView::Object(fields).field(key) is None,
        i == fields.len() ==> JsonView::place_from(fields, key, 0) is None,
{
    reading_goes_on(fields, key, 0, i);
}

proof fn reading_goes_on(fields: Seq<(Seq<char>, JsonView)>, key: Seq<char>, from: int, i: int)
    requires
        0 <= from <= i <= fields.len(),
        forall|k: int| from <= k < i ==> (#[trigger] fields[k]).0 != key,
    ensures
        JsonView::field_from(fields, key, from) == JsonView::field_from(fields, key, i),
        JsonView::place_from(fields, key, from) == JsonView::place_from(fields, key, i),
    decreases i - from,
{
    if from < i {
        reading_goes_on(fields, key, from + 1, i);
    }
}

proof fn a_place_is_found(fields: Seq<(Seq<char>, JsonView)>, key: Seq<char>, from: int) -> (i: int)
    requires
        0 <= from <= fields.len(),
    ensures
        from <= i <= fields.len(),
        forall|k: int| from <= k < i ==> (#[trigger] fields[k]).0 != key,
        i < fields.len() ==> fields[i].0 == key,
    decreases fields.len() - from,
{
    if from == fields.len() || fields[from].0 == key {
        from
    } else {
        a_place_is_found(fields, key, from + 1)
    }
}

/// A field that was set is read back, every other field reads as before, and
/// the object has one field more only where it had none of that name.
pub proof fn a_set_field_is_read_back(
    fields: Seq<(Seq<char>, JsonView)>,
    key: Seq<char>,
    value: JsonView,
    other: Seq<char>,
)
    requires
        other != key,
    ensures
        ({
            let before = JsonView::Object(fields);
            let after = before.set(key, value);
            &&& after is Object
            &&& after.field(key) == Some(value)
            &&& after.field(other) == before.field(other)
            &&& before.field(key) is Some ==> after->Object_0.len() == fields.len()
            &&& before.field(key) is None ==> after->Object_0.len() == fields.len() + 1
        }),
{
    let i = a_place_is_found(fields, key, 0);
    the_first_field_of_a_name_is_read(fields, key, i);
    let j = a_place_is_found(fields, other, 0);
    the_first_field_of_a_name_is_read(fields, other, j);
    let after = JsonView::Object(fields).set(key, value)->Object_0;
    the_first_field_of_a_name_is_read(after, key, i);
    if j < fields.len() {
        the_first_field_of_a_name_is_read(after, other, j);
    } else {
        the_first_field_of_a_name_is_read(after, other, after.len() as int);
    }
}

/// A field that was put behind others is read back where none of them has its
/// name; the others read as before.
pub proof fn a_put_field_is_read_back(
    fields: Seq<(Seq<char>, JsonView)>,
    key: Seq<char>,
    value: JsonView,
    other: Seq<char>,
)
    requires
        other != key,
    ensures
        ({
            let before = JsonView::Object(fields);
            let after = before.put(key, value);
            &&& before.field(key) is None ==> after.field(key) == Some(value)
            &&& before.field(key) is Some ==> after.field(key) == before.field(key)
            &&& after.field(other) == before.field(other)
        }),
{
    let i = a_place_is_found(fields, key, 0);
    the_first_field_of_a_name_is_read(fields, key, i);
    let j = a_place_is_found(fields, other, 0);
    the_first_field_of_a_name_is_read(fields, other, j);
    let after = JsonView::Object(fields).put(key, value)->Object_0;
    the_first_field_of_a_name_is_read(after, key, i);
    if j < fields.len() {
        the_first_field_of_a_name_is_read(after, other, j);
    } else {
        the_first_field_of_a_name_is_read(after, other, after.len() as int);
    }
}

/// A whole number is written with its sign and its value.
pub proof fn a_whole_number_keeps_its_value(n: i64)
    ensures
        n >= 0 ==> JsonView::integer(n) == JsonView::Number(Numeral::Unsigned(n as u64)),
        n < 0 ==> JsonView::integer(n) == JsonView::Number(Numeral::Negative(n)),
{
}

} // verus!
