//! JSON values.

use vstd::prelude::*;

use crate::double::Double;

verus! {

/// A JSON value. Objects keep the order of their members.
#[derive(Debug)]
pub enum Json {
    Null,
    Bool(bool),
    /// A number, as its decimal text.
    Number(String),
    /// A number that was computed; written as null where it is not finite.
    Double(Double),
    Text(String),
    List(Vec<Json>),
    Object(Vec<(String, Json)>),
}

/// What a JSON value says.
pub ghost enum JsonView {
    Null,
    Bool(bool),
    Number(Seq<char>),
    Double(Double),
    Text(Seq<char>),
    List(Seq<JsonView>),
    Object(Seq<(Seq<char>, JsonView)>),
}

/// What `v` says.
pub open spec fn view_of(v: Json) -> JsonView
    decreases v,
{
    match v {
        Json::Null => JsonView::Null,
        Json::Bool(b) => JsonView::Bool(b),
        Json::Number(t) => JsonView::Number(t@),
        Json::Double(d) => JsonView::Double(d),
        Json::Text(t) => JsonView::Text(t@),
        Json::List(items) => JsonView::List(
            Seq::new(
                items@.len(),
                |i: int|
                    if 0 <= i < items@.len() {
                        view_of(items@[i])
                    } else {
                        JsonView::Null
                    },
            ),
        ),
        Json::Object(members) => JsonView::Object(
            Seq::new(
                members@.len(),
                |i: int|
                    if 0 <= i < members@.len() {
                        (members@[i].0@, view_of(members@[i].1))
                    } else {
                        (Seq::empty(), JsonView::Null)
                    },
            ),
        ),
    }
}

impl View for Json {
    type V = JsonView;

    open spec fn view(&self) -> JsonView {
        view_of(*self)
    }
}

/// The outside type of parsed JSON, opaque here.
#[verifier::external_type_specification]
#[verifier::external_body]
pub struct OutsideValue(serde_json::Value);

/// What a value of `serde_json` holds, numbers as the texts that `serde_json`
/// writes for them.
pub uninterp spec fn held(v: serde_json::Value) -> JsonView;

/// What `serde_json::from_str` reads in a text: the value, or the message of
/// the error.
pub uninterp spec fn parsed(text: Seq<char>) -> Result<JsonView, Seq<char>>;

/// The views of a list of values.
pub open spec fn item_views(items: Seq<Json>) -> Seq<JsonView> {
    items.map_values(|v: Json| v@)
}

/// The views of the members of an object.
pub open spec fn member_views(members: Seq<(String, Json)>) -> Seq<(Seq<char>, JsonView)> {
    members.map_values(|m: (String, Json)| (m.0@, m.1@))
}

/// The value of the first member called `key`.
pub open spec fn lookup(members: Seq<(Seq<char>, JsonView)>, key: Seq<char>) -> Option<JsonView>
    decreases members.len(),
{
    if members.len() == 0 {
        None
    } else if members[0].0 == key {
        Some(members[0].1)
    } else {
        lookup(members.drop_first(), key)
    }
}

impl JsonView {
    /// The member called `key`, where the value is an object that has one.
    pub open spec fn member(self, key: Seq<char>) -> Option<JsonView> {
        match self {
            JsonView::Object(members) => lookup(members, key),
            _ => None,
        }
    }

    /// The members, where the value is an object.
    pub open spec fn members(self) -> Option<Seq<(Seq<char>, JsonView)>> {
        match self {
            JsonView::Object(members) => Some(members),
            _ => None,
        }
    }

    /// The text, where the value is one.
    pub open spec fn text(self) -> Option<Seq<char>> {
        match self {
            JsonView::Text(t) => Some(t),
            _ => None,
        }
    }

    /// The text of the member called `key`.
    pub open spec fn member_text(self, key: Seq<char>) -> Option<Seq<char>> {
        match self.member(key) {
            Some(v) => v.text(),
            None => None,
        }
    }

    /// The text of the member called `key`, empty where there is none.
    pub open spec fn text_or_empty(self, key: Seq<char>) -> Seq<char> {
        match self.member_text(key) {
            Some(t) => t,
            None => ""@,
        }
    }

    /// The members of the object that the member called `key` is.
    pub open spec fn member_members(self, key: Seq<char>) -> Option<Seq<(Seq<char>, JsonView)>> {
        match self.member(key) {
            Some(v) => v.members(),
            None => None,
        }
    }
}

/// What the result of parsing says.
pub open spec fn outcome(r: Result<Json, String>) -> Result<JsonView, Seq<char>> {
    match r {
        Ok(v) => Ok(v@),
        Err(e) => Err(e@),
    }
}

/// `serde_json::from_str`, with the error as its message: a function of the
/// text.
#[verifier::external_body]
fn outside_parse(text: &str) -> (r: Result<serde_json::Value, String>)
    ensures
        (match r {
            Ok(v) => Ok(held(v)),
            Err(e) => Err(e@),
        }) == parsed(text@),
{
    match serde_json::from_str::<serde_json::Value>(text) {
        Ok(v) => Ok(v),
        Err(e) => Err(e.to_string()),
    }
}

/// The top level of a parsed value.
enum Level {
    Null,
    Bool(bool),
    Number(String),
    Text(String),
    List(Vec<serde_json::Value>),
    Object(Vec<(String, serde_json::Value)>),
}

/// What a list of parsed values holds.
spec fn held_items(items: Seq<serde_json::Value>) -> Seq<JsonView> {
    items.map_values(|v: serde_json::Value| held(v))
}

/// What the members of a parsed object hold.
spec fn held_members(members: Seq<(String, serde_json::Value)>) -> Seq<(Seq<char>, JsonView)> {
    members.map_values(|m: (String, serde_json::Value)| (m.0@, held(m.1)))
}

/// The variants of `serde_json::Value` told apart, each with what it holds.
#[verifier::external_body]
fn level(v: serde_json::Value) -> (r: Level)
    ensures
        held(v) == (match r {
            Level::Null => JsonView::Null,
            Level::Bool(b) => JsonView::Bool(b),
            Level::Number(t) => JsonView::Number(t@),
            Level::Text(t) => JsonView::Text(t@),
            Level::List(items) => JsonView::List(held_items(items@)),
            Level::Object(members) => JsonView::Object(held_members(members@)),
        }),
{
    match v {
        serde_json::Value::Null => Level::Null,
        serde_json::Value::Bool(b) => Level::Bool(b),
        serde_json::Value::Number(n) => Level::Number(n.to_string()),
        serde_json::Value::String(s) => Level::Text(s),
        serde_json::Value::Array(a) => Level::List(a),
        serde_json::Value::Object(o) => Level::Object(o.into_iter().collect()),
    }
}

/// The items from the last to the first.
fn reversed<T>(items: Vec<T>) -> (out: Vec<T>)
    ensures
        out@ == items@.reverse(),
{
    let ghost all = items@;
    let mut rest: Vec<T> = items;
    let mut out: Vec<T> = Vec::new();
    while rest.len() > 0
        invariant
            out@.len() + rest@.len() == all.len(),
            forall|i: int| 0 <= i < rest@.len() ==> rest@[i] == all[i],
            forall|i: int| 0 <= i < out@.len() ==> out@[i] == all[all.len() - 1 - i],
        decreases rest@.len(),
    {
        let last: Option<T> = rest.pop();
        if let Some(x) = last {
            out.push(x);
        }
    }
    assert(out@ =~= all.reverse());
    out
}

/// A parsed value as a [`Json`].
fn convert(v: serde_json::Value) -> (r: Json)
    ensures
        r@ == held(v),
    decreases held(v),
{
    let ghost whole = held(v);
    match level(v) {
        Level::Null => Json::Null,
        Level::Bool(b) => Json::Bool(b),
        Level::Number(t) => Json::Number(t),
        Level::Text(t) => Json::Text(t),
        Level::List(items) => {
            let ghost views = held_items(items@);
            let mut rest: Vec<serde_json::Value> = items;
            let mut back: Vec<Json> = Vec::new();
            while rest.len() > 0
                invariant
                    whole == held(v),
                    whole == JsonView::List(views),
                    back@.len() + rest@.len() == views.len(),
                    forall|i: int| 0 <= i < rest@.len() ==> held(#[trigger] rest@[i]) == views[i],
                    forall|i: int|
                        0 <= i < back@.len() ==> (#[trigger] back@[i])@ == views[views.len() - 1 - i],
                decreases rest@.len(),
            {
                let ghost k = rest@.len() - 1;
                if let Some(x) = rest.pop() {
                    proof {
                        assert(held(x) == views[k]);
                        assert(decreases_to!(whole => whole->List_0));
                        assert(decreases_to!(views => views[k]));
                    }
                    back.push(convert(x));
                }
            }
            let list: Vec<Json> = reversed(back);
            assert(item_views(list@) =~= views);
            Json::of_list(list)
        },
        Level::Object(members) => {
            let ghost views = held_members(members@);
            let mut rest: Vec<(String, serde_json::Value)> = members;
            let mut back: Vec<(String, Json)> = Vec::new();
            while rest.len() > 0
                invariant
                    whole == held(v),
                    whole == JsonView::Object(views),
                    back@.len() + rest@.len() == views.len(),
                    forall|i: int|
                        0 <= i < rest@.len() ==> ((#[trigger] rest@[i]).0@, held(rest@[i].1))
                            == views[i],
                    forall|i: int|
                        0 <= i < back@.len() ==> ((#[trigger] back@[i]).0@, back@[i].1@)
                            == views[views.len() - 1 - i],
                decreases rest@.len(),
            {
                let ghost k = rest@.len() - 1;
                if let Some((key, x)) = rest.pop() {
                    proof {
                        assert((key@, held(x)) == views[k]);
                        assert(decreases_to!(whole => whole->Object_0));
                        assert(decreases_to!(views => views[k]));
                        assert(decreases_to!(views[k] => views[k].1));
                    }
                    back.push((key, convert(x)));
                }
            }
            let list: Vec<(String, Json)> = reversed(back);
            assert(member_views(list@) =~= views);
            let r = Json::Object(list);
            assert(r@->Object_0 =~= member_views(list@));
            r
        },
    }
}

/// The value written in a text, or why there is none.
pub(crate) fn parse(text: &str) -> (r: Result<Json, String>)
    ensures
        outcome(r) == parsed(text@),
{
    match outside_parse(text) {
        Ok(v) => Ok(convert(v)),
        Err(e) => Err(e),
    }
}

impl Json {
    /// A text value.
    pub fn of_text(t: &str) -> (r: Json)
        ensures
            r@ == JsonView::Text(t@),
    {
        Json::Text(t.to_string())
    }

    /// A text value.
    pub fn of_string(t: String) -> (r: Json)
        ensures
            r@ == JsonView::Text(t@),
    {
        Json::Text(t)
    }

    /// A text value, or null.
    pub fn of_option(t: &Option<String>) -> (r: Json)
        ensures
            r@ == (match t {
                Some(s) => JsonView::Text(s@),
                None => JsonView::Null,
            }),
    {
        match t {
            Some(s) => Json::of_text(s.as_str()),
            None => Json::Null,
        }
    }

    /// A whole number.
    pub fn of_signed(n: i64) -> (r: Json)
        ensures
            r@ == JsonView::Number(crate::text::int_text(n as int)),
    {
        Json::Number(crate::text::signed(n))
    }

    /// A count.
    pub fn of_count(n: usize) -> (r: Json)
        ensures
            r@ == JsonView::Number(crate::text::nat_text(n as nat)),
    {
        Json::Number(crate::text::count(n))
    }

    /// A computed number, or null.
    pub fn of_double(d: Option<Double>) -> (r: Json)
        ensures
            r@ == (match d {
                Some(x) => JsonView::Double(x),
                None => JsonView::Null,
            }),
    {
        match d {
            Some(x) => Json::Double(x),
            None => Json::Null,
        }
    }

    /// A list.
    pub fn of_list(items: Vec<Json>) -> (r: Json)
        ensures
            r@ == JsonView::List(item_views(items@)),
    {
        let r = Json::List(items);
        assert(r@->List_0 =~= item_views(items@));
        r
    }

    /// The members, where the value is an object.
    pub fn members(&self) -> (r: Option<&Vec<(String, Json)>>)
        ensures
            r is Some == self@.members() is Some,
            r matches Some(m) ==> self@.members() == Some(member_views(m@)),
    {
        match self {
            Json::Object(m) => {
                assert(self@->Object_0 =~= member_views(m@));
                Some(m)
            },
            _ => None,
        }
    }

    /// The text, where the value is one.
    pub fn text(&self) -> (r: Option<&str>)
        ensures
            r is Some == self@.text() is Some,
            r matches Some(t) ==> self@.text() == Some(t@),
    {
        match self {
            Json::Text(t) => Some(t.as_str()),
            _ => None,
        }
    }

    /// The member called `key`, where the value is an object that has one.
    pub fn member(&self, key: &str) -> (r: Option<&Json>)
        ensures
            r is Some == self@.member(key@) is Some,
            r matches Some(v) ==> self@.member(key@) == Some(v@),
    {
        let members: &Vec<(String, Json)> = match self.members() {
            Some(m) => m,
            None => return None,
        };
        let n: usize = members.len();
        let mut i: usize = 0;
        let ghost all = member_views(members@);
        assert(all.skip(0) =~= all);
        while i < n
            invariant
                n == members@.len(),
                i <= n,
                all == member_views(members@),
                self@.members() == Some(all),
                lookup(all, key@) == lookup(all.skip(i as int), key@),
            decreases n - i,
        {
            assert(all.skip(i as int)[0] == (members@[i as int].0@, members@[i as int].1@));
            if crate::text::same(members[i].0.as_str(), key) {
                return Some(&members[i].1);
            }
            assert(all.skip(i as int).drop_first() =~= all.skip(i + 1));
            i += 1;
        }
        None
    }

    /// The text of the member called `key`.
    pub fn member_text(&self, key: &str) -> (r: Option<&str>)
        ensures
            r is Some == self@.member_text(key@) is Some,
            r matches Some(t) ==> self@.member_text(key@) == Some(t@),
    {
        match self.member(key) {
            Some(v) => v.text(),
            None => None,
        }
    }

    /// The text of the member called `key`, empty where there is none.
    pub fn text_or_empty(&self, key: &str) -> (r: &str)
        ensures
            r@ == self@.text_or_empty(key@),
    {
        match self.member_text(key) {
            Some(t) => t,
            None => "",
        }
    }

    /// The members of the object that the member called `key` is.
    pub fn member_members(&self, key: &str) -> (r: Option<&Vec<(String, Json)>>)
        ensures
            r is Some == self@.member_members(key@) is Some,
            r matches Some(m) ==> self@.member_members(key@) == Some(member_views(m@)),
    {
        match self.member(key) {
            Some(v) => v.members(),
            None => None,
        }
    }
}

/// An object that is being written.
pub struct Members {
    list: Vec<(String, Json)>,
}

impl View for Members {
    type V = Seq<(Seq<char>, JsonView)>;

    closed spec fn view(&self) -> Seq<(Seq<char>, JsonView)> {
        member_views(self.list@)
    }
}

impl Members {
    pub fn new() -> (r: Members)
        ensures
            r@ == Seq::<(Seq<char>, JsonView)>::empty(),
    {
        let r = Members { list: Vec::new() };
        assert(r@ =~= Seq::<(Seq<char>, JsonView)>::empty());
        r
    }

    /// The object with one more member.
    pub fn with(self, key: &str, value: Json) -> (r: Members)
        ensures
            r@ == self@.push((key@, value@)),
    {
        let mut list: Vec<(String, Json)> = self.list;
        let ghost before = list@;
        list.push((key.to_string(), value));
        let r = Members { list };
        assert(r@ =~= member_views(before).push((key@, value@)));
        r
    }

    /// The object with one more member, a text.
    pub fn text(self, key: &str, value: &str) -> (r: Members)
        ensures
            r@ == self@.push((key@, JsonView::Text(value@))),
    {
        self.with(key, Json::of_text(value))
    }

    /// The finished object.
    pub fn done(self) -> (r: Json)
        ensures
            r@ == JsonView::Object(self@),
    {
        let r = Json::Object(self.list);
        assert(r@->Object_0 =~= self@);
        r
    }
}

/// A list that is being written.
pub struct Items {
    list: Vec<Json>,
}

impl View for Items {
    type V = Seq<JsonView>;

    closed spec fn view(&self) -> Seq<JsonView> {
        item_views(self.list@)
    }
}

impl Items {
    pub fn new() -> (r: Items)
        ensures
            r@ == Seq::<JsonView>::empty(),
    {
        let r = Items { list: Vec::new() };
        assert(r@ =~= Seq::<JsonView>::empty());
        r
    }

    /// The list with one more value.
    pub fn with(self, value: Json) -> (r: Items)
        ensures
            r@ == self@.push(value@),
    {
        let mut list: Vec<Json> = self.list;
        let ghost before = list@;
        list.push(value);
        let r = Items { list };
        assert(r@ =~= item_views(before).push(value@));
        r
    }

    /// The finished list.
    pub fn done(self) -> (r: Json)
        ensures
            r@ == JsonView::List(self@),
    {
        let r = Json::of_list(self.list);
        assert(item_views(self.list@) == self@);
        r
    }
}

} // verus!
