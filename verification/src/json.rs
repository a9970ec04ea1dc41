//! JSON values, as far as requests, answers and bodies need them.
use vstd::prelude::*;

use crate::text;

verus! {

/// A JSON value. The members of an object keep the order in which they were put in.
pub enum Json {
    Null,
    Bool(bool),
    /// A whole number that is not negative.
    Unsigned(u64),
    /// A whole number below zero.
    Signed(i64),
    /// Any other number, as it is written.
    Real(String),
    Text(String),
    List(Vec<Json>),
    Object(Vec<(String, Json)>),
}

/// What a JSON value is.
pub enum JsonView {
    Null,
    Bool(bool),
    Unsigned(u64),
    Signed(i64),
    Real(Seq<char>),
    Text(Seq<char>),
    List(Seq<JsonView>),
    Object(Seq<(Seq<char>, JsonView)>),
}

impl View for Json {
    type V = JsonView;

    open spec fn view(&self) -> JsonView
        decreases self,
    {
        match self {
            Json::Null => JsonView::Null,
            Json::Bool(b) => JsonView::Bool(*b),
            Json::Unsigned(n) => JsonView::Unsigned(*n),
            Json::Signed(n) => JsonView::Signed(*n),
            Json::Real(s) => JsonView::Real(s@),
            Json::Text(s) => JsonView::Text(s@),
            Json::List(items) => JsonView::List(
                Seq::new(
                    items@.len(),
                    |i: int|
                        if 0 <= i < items@.len() {
                            items@[i].view()
                        } else {
                            JsonView::Null
                        },
                ),
            ),
            Json::Object(members) => JsonView::Object(
                Seq::new(
                    members@.len(),
                    |i: int|
                        if 0 <= i < members@.len() {
                            (members@[i].0@, members@[i].1.view())
                        } else {
                            (Seq::empty(), JsonView::Null)
                        },
                ),
            ),
        }
    }
}

/// The items of a list, one by one.
proof fn lemma_list_view(items: Vec<Json>)
    ensures
        Json::List(items)@ is List,
        Json::List(items)@->List_0.len() == items@.len(),
        forall|i: int|
            0 <= i < items@.len() ==> #[trigger] Json::List(items)@->List_0[i] == items@[i]@,
{
    reveal_with_fuel(<Json as View>::view, 2);
}

/// The members of an object, one by one.
proof fn lemma_object_view(members: Vec<(String, Json)>)
    ensures
        Json::Object(members)@ is Object,
        Json::Object(members)@->Object_0.len() == members@.len(),
        forall|i: int|
            0 <= i < members@.len() ==> #[trigger] Json::Object(members)@->Object_0[i] == (
                members@[i].0@,
                members@[i].1@,
            ),
{
    reveal_with_fuel(<Json as View>::view, 2);
}

/// The value of the first member of the name `key`; none where there is no such
/// member, or where the value is no object.
pub open spec fn member(value: JsonView, key: Seq<char>) -> Option<JsonView> {
    match value {
        JsonView::Object(members) => first_member(members, key),
        _ => None,
    }
}

/// The value of the first of `members` whose name is `key`.
pub open spec fn first_member(members: Seq<(Seq<char>, JsonView)>, key: Seq<char>) -> Option<
    JsonView,
>
    decreases members.len(),
{
    if members.len() == 0 {
        None
    } else if members.first().0 == key {
        Some(members.first().1)
    } else {
        first_member(members.drop_first(), key)
    }
}

/// The text that a value is, where it is a text.
pub open spec fn text_in(value: Option<JsonView>) -> Option<Seq<char>> {
    match value {
        Some(JsonView::Text(s)) => Some(s),
        _ => None,
    }
}

/// The number that a value is, where it is a whole number that is not negative.
pub open spec fn unsigned_in(value: Option<JsonView>) -> Option<u64> {
    match value {
        Some(JsonView::Unsigned(n)) => Some(n),
        _ => None,
    }
}

/// The texts among some values, in their order.
pub open spec fn texts_among(values: Seq<JsonView>) -> Seq<Seq<char>>
    decreases values.len(),
{
    if values.len() == 0 {
        Seq::empty()
    } else {
        match values.last() {
            JsonView::Text(s) => texts_among(values.drop_last()).push(s),
            _ => texts_among(values.drop_last()),
        }
    }
}

/// The texts in a value that is a list; none in any other value.
pub open spec fn texts_in(value: Option<JsonView>) -> Seq<Seq<char>> {
    match value {
        Some(JsonView::List(items)) => texts_among(items),
        _ => Seq::empty(),
    }
}

impl JsonView {
    /// An object without members.
    pub open spec fn object() -> JsonView {
        JsonView::Object(Seq::empty())
    }

    /// A list without items.
    pub open spec fn list() -> JsonView {
        JsonView::List(Seq::empty())
    }

    /// This object with one more member at its end; any other value as it is.
    pub open spec fn plus(self, key: Seq<char>, value: JsonView) -> JsonView {
        match self {
            JsonView::Object(members) => JsonView::Object(members.push((key, value))),
            other => other,
        }
    }

    /// This object, with a text at its end where there is one.
    pub open spec fn plus_text(self, key: Seq<char>, value: Option<Seq<char>>) -> JsonView {
        match value {
            Some(s) => self.plus(key, JsonView::Text(s)),
            None => self,
        }
    }

    /// This object, with a number at its end where there is one.
    pub open spec fn plus_number(self, key: Seq<char>, value: Option<usize>) -> JsonView {
        match value {
            Some(n) => self.plus(key, JsonView::Unsigned(n as u64)),
            None => self,
        }
    }

    /// This list with one more item at its end; any other value as it is.
    pub open spec fn item(self, value: JsonView) -> JsonView {
        match self {
            JsonView::List(items) => JsonView::List(items.push(value)),
            other => other,
        }
    }
}

/// The view of an optional value.
pub open spec fn view_of(value: Option<&Json>) -> Option<JsonView> {
    match value {
        Some(v) => Some(v@),
        None => None,
    }
}

impl Json {
    /// The value of a member, where this is an object that has it.
    pub fn get(&self, key: &str) -> (r: Option<&Json>)
        ensures
            view_of(r) == member(self@, key@),
    {
        match self {
            Json::Object(members) => {
                let ghost all = self@->Object_0;
                proof {
                    lemma_object_view(*members);
                }
                let mut i: usize = 0;
                assert(all.skip(0) == all);
                while i < members.len()
                    invariant
                        i <= members@.len(),
                        self == Json::Object(*members),
                        all == self@->Object_0,
                        all.len() == members@.len(),
                        forall|k: int|
                            0 <= k < members@.len() ==> #[trigger] all[k] == (
                                members@[k].0@,
                                members@[k].1@,
                            ),
                        first_member(all.skip(i as int), key@) == first_member(all, key@),
                    decreases members@.len() - i,
                {
                    assert(all.skip(i as int).first() == (members@[i as int].0@, members@[i as int].1@));
                    assert(all.skip(i as int).drop_first() == all.skip(i + 1));
                    if text::same_text(members[i].0.as_str(), key) {
                        return Some(&members[i].1);
                    }
                    i += 1;
                }
                None
            },
            _ => None,
        }
    }

    /// The text that this is, where it is a text.
    pub fn as_text(&self) -> (r: Option<&str>)
        ensures
            r is Some <==> text_in(Some(self@)) is Some,
            r matches Some(s) ==> text_in(Some(self@)) == Some(s@),
    {
        match self {
            Json::Text(s) => Some(s.as_str()),
            _ => None,
        }
    }

    /// The number that this is, where it is a whole number that is not negative.
    pub fn as_u64(&self) -> (r: Option<u64>)
        ensures
            r == unsigned_in(Some(self@)),
    {
        match self {
            Json::Unsigned(n) => Some(*n),
            _ => None,
        }
    }

    /// The texts in this value, where it is a list.
    pub fn texts(&self) -> (r: Vec<String>)
        ensures
            r@.map_values(|s: String| s@) == texts_in(Some(self@)),
    {
        let mut r: Vec<String> = Vec::new();
        if let Json::List(items) = self {
            let ghost all = self@->List_0;
            proof {
                lemma_list_view(*items);
            }
            let mut i: usize = 0;
            assert(r@.map_values(|s: String| s@) == texts_among(all.take(0)));
            while i < items.len()
                invariant
                    i <= items@.len(),
                    self == Json::List(*items),
                    all == self@->List_0,
                    all.len() == items@.len(),
                    forall|k: int| 0 <= k < items@.len() ==> #[trigger] all[k] == items@[k]@,
                    r@.map_values(|s: String| s@) == texts_among(all.take(i as int)),
                decreases items@.len() - i,
            {
                let ghost upto = all.take(i + 1);
                let ghost before = r@.map_values(|s: String| s@);
                assert(upto.drop_last() == all.take(i as int));
                assert(upto.last() == items@[i as int]@);
                if let Json::Text(s) = &items[i] {
                    r.push(s.clone());
                    assert(r@.map_values(|s: String| s@) == before.push(s@));
                }
                i += 1;
            }
            assert(all.take(i as int) == all);
        } else {
            assert(r@.map_values(|s: String| s@) == Seq::<Seq<char>>::empty());
        }
        r
    }

    /// A text.
    pub fn text(s: &str) -> (r: Json)
        ensures
            r@ == JsonView::Text(s@),
    {
        Json::Text(s.to_owned())
    }

    /// A number.
    pub fn unsigned(n: usize) -> (r: Json)
        ensures
            r@ == JsonView::Unsigned(n as u64),
    {
        Json::Unsigned(n as u64)
    }

    /// An object without members.
    pub fn object() -> (r: Json)
        ensures
            r@ == JsonView::object(),
    {
        let r = Json::Object(Vec::new());
        assert(r@->Object_0 == Seq::<(Seq<char>, JsonView)>::empty());
        r
    }

    /// A list without items.
    pub fn list() -> (r: Json)
        ensures
            r@ == JsonView::list(),
    {
        let r = Json::List(Vec::new());
        assert(r@->List_0 == Seq::<JsonView>::empty());
        r
    }

    /// This object with one more member at its end; any other value as it is.
    pub fn with(self, key: &str, value: Json) -> (r: Json)
        ensures
            r@ == self@.plus(key@, value@),
    {
        let ghost before = self@->Object_0;
        match self {
            Json::Object(members) => {
                proof {
                    lemma_object_view(members);
                }
                let mut all = members;
                all.push((key.to_owned(), value));
                let r = Json::Object(all);
                proof {
                    lemma_object_view(all);
                }
                assert(r@->Object_0 == before.push((key@, value@)));
                r
            },
            other => other,
        }
    }

    /// This object, with one more member at its end where there is a text for it.
    pub fn with_text(self, key: &str, value: Option<&str>) -> (r: Json)
        ensures
            r@ == self@.plus_text(key@, text::opt_text(value)),
    {
        match value {
            Some(s) => self.with(key, Json::text(s)),
            None => self,
        }
    }

    /// This object, with one more member at its end where there is a number for it.
    pub fn with_number(self, key: &str, value: Option<usize>) -> (r: Json)
        ensures
            r@ == self@.plus_number(key@, value),
    {
        match value {
            Some(n) => self.with(key, Json::unsigned(n)),
            None => self,
        }
    }

    /// This list with one more item at its end; any other value as it is.
    pub fn and(self, item: Json) -> (r: Json)
        ensures
            r@ == self@.item(item@),
    {
        let ghost before = self@->List_0;
        match self {
            Json::List(items) => {
                proof {
                    lemma_list_view(items);
                }
                let mut all = items;
                all.push(item);
                let r = Json::List(all);
                proof {
                    lemma_list_view(all);
                }
                assert(r@->List_0 == before.push(item@));
                r
            },
            other => other,
        }
    }
}

// ---------------------------------------------------------------------------
// Laws
// ---------------------------------------------------------------------------

/// A member that is put into an object is found under its name, unless there was one of
/// that name before; every other member is found as before.
pub proof fn law_members_are_found(
    members: Seq<(Seq<char>, JsonView)>,
    key: Seq<char>,
    value: JsonView,
    wanted: Seq<char>,
)
    ensures
        member(JsonView::Object(Seq::empty()), wanted) is None,
        ({
            let before = member(JsonView::Object(members), wanted);
            let after = member(JsonView::Object(members).plus(key, value), wanted);
            &&& before is Some || wanted != key ==> after == before
            &&& before is None && wanted == key ==> after == Some(value)
        }),
        JsonView::Object(members).plus(key, value) is Object,
        JsonView::Object(members).plus(key, value)->Object_0.len() == members.len() + 1,
    decreases members.len(),
{
    let longer = members.push((key, value));
    if members.len() == 0 {
        assert(longer.first() == (key, value));
        assert(longer.drop_first() == Seq::<(Seq<char>, JsonView)>::empty());
        assert(first_member(longer.drop_first(), wanted) is None);
    } else {
        law_members_are_found(members.drop_first(), key, value, wanted);
        assert(longer.first() == members.first());
        assert(longer.drop_first() == members.drop_first().push((key, value)));
    }
}

/// A value that is no object has no members.
pub proof fn law_only_objects_have_members(value: JsonView, key: Seq<char>)
    ensures
        !(value is Object) ==> member(value, key) is None,
{
}

/// The texts in a list are its items that are texts, in their order; what is no list
/// holds none.
pub proof fn law_texts_of_a_list(a: Seq<JsonView>, b: Seq<JsonView>, v: JsonView)
    ensures
        texts_in(Some(JsonView::List(a + b))) == texts_in(Some(JsonView::List(a))) + texts_in(
            Some(JsonView::List(b)),
        ),
        v matches JsonView::Text(s) ==> texts_in(Some(JsonView::List(seq![v]))) == seq![s],
        !(v is Text) ==> texts_in(Some(JsonView::List(seq![v]))).len() == 0,
        !(v is List) ==> texts_in(Some(v)).len() == 0,
        texts_in(None).len() == 0,
    decreases b.len(),
{
    let one = seq![v];
    assert(one.drop_last() == Seq::<JsonView>::empty());
    assert(one.last() == v);
    assert(texts_among(one.drop_last()) == Seq::<Seq<char>>::empty());
    if b.len() == 0 {
        assert(a + b == a);
        assert(texts_among(a) + texts_among(b) == texts_among(a));
    } else {
        let rest = b.drop_last();
        law_texts_of_a_list(a, rest, v);
        assert((a + b).drop_last() == a + rest);
        assert((a + b).last() == b.last());
        assert(texts_among(a + rest) == texts_among(a) + texts_among(rest));
        if let JsonView::Text(s) = b.last() {
            assert(texts_among(a) + texts_among(rest).push(s) == (texts_among(a) + texts_among(
                rest,
            )).push(s));
        }
    }
}

/// A text is read from texts only, and a number from whole numbers only, each as it is.
pub proof fn law_values_are_read_as_they_are(v: JsonView)
    ensures
        text_in(None) is None,
        text_in(Some(v)) is Some <==> v is Text,
        v matches JsonView::Text(s) ==> text_in(Some(v)) == Some(s),
        unsigned_in(None) is None,
        unsigned_in(Some(v)) is Some <==> v is Unsigned,
        v matches JsonView::Unsigned(n) ==> unsigned_in(Some(v)) == Some(n),
{
}

/// A member is found where no earlier one has its name.
pub(crate) proof fn lemma_member_at(members: Seq<(Seq<char>, JsonView)>, i: int)
    requires
        0 <= i < members.len(),
        forall|k: int| 0 <= k < i ==> (#[trigger] members[k]).0 != members[i].0,
    ensures
        member(JsonView::Object(members), members[i].0) == Some(members[i].1),
    decreases i,
{
    if i > 0 {
        let rest = members.drop_first();
        assert(members.first() == members[0]);
        assert forall|k: int| 0 <= k < i - 1 implies (#[trigger] rest[k]).0 != rest[i - 1].0 by {
            assert(rest[k] == members[k + 1]);
        }
        lemma_member_at(rest, i - 1);
        assert(rest[i - 1] == members[i]);
    }
}

/// A member is not found where none has its name.
pub(crate) proof fn lemma_no_member(members: Seq<(Seq<char>, JsonView)>, key: Seq<char>)
    requires
        forall|k: int| 0 <= k < members.len() ==> (#[trigger] members[k]).0 != key,
    ensures
        member(JsonView::Object(members), key) is None,
    decreases members.len(),
{
    if members.len() > 0 {
        let rest = members.drop_first();
        assert(members.first() == members[0]);
        assert forall|k: int| 0 <= k < rest.len() implies (#[trigger] rest[k]).0 != key by {
            assert(rest[k] == members[k + 1]);
        }
        lemma_no_member(rest, key);
    }
}

/// A value is viewed as it is: a list by its items, an object by its members, each in its
/// place, and any other value by what it holds.
pub proof fn law_values_are_viewed_as_they_are(v: Json)
    ensures
        v is Null <==> v@ is Null,
        v matches Json::Bool(b) ==> v@ == JsonView::Bool(b),
        v matches Json::Unsigned(n) ==> v@ == JsonView::Unsigned(n),
        v matches Json::Signed(n) ==> v@ == JsonView::Signed(n),
        v matches Json::Real(s) ==> v@ == JsonView::Real(s@),
        v matches Json::Text(s) ==> v@ == JsonView::Text(s@),
        v matches Json::List(items) ==> (v@ matches JsonView::List(views) && views.len()
            == items@.len() && (forall|i: int|
            0 <= i < items@.len() ==> #[trigger] views[i] == items@[i]@)),
        v matches Json::Object(members) ==> (v@ matches JsonView::Object(views) && views.len()
            == members@.len() && (forall|i: int|
            0 <= i < members@.len() ==> #[trigger] views[i] == (members@[i].0@, members@[i].1@))),
{
    match v {
        Json::List(items) => {
            lemma_list_view(items);
        },
        Json::Object(members) => {
            lemma_object_view(members);
        },
        _ => {},
    }
}

} // verus!
