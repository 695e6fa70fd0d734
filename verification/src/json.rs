//! JSON values, and what the library does with them: reading, showing, looking
//! up, and putting together.
use serde_json::Value;
use vstd::prelude::*;

use crate::text;

verus! {

/// `serde_json::Value`: what it holds is its `tree`.
#[verifier::external_type_specification]
#[verifier::external_body]
pub struct ExValue(serde_json::Value);

/// A JSON number: its value, where it is a whole number that 64 bits hold, and
/// how it shows.
pub struct JsonNumber {
    pub whole: Option<u64>,
    pub shown: Seq<char>,
}

/// What a JSON value holds.
pub enum JsonTree {
    Null,
    Bool(bool),
    Number(JsonNumber),
    Text(Seq<char>),
    List(Seq<JsonTree>),
    Object(Map<Seq<char>, JsonTree>),
}

/// What a value holds.
pub uninterp spec fn tree(v: serde_json::Value) -> JsonTree;

/// How a tree shows, without spaces.
pub uninterp spec fn json_text(t: JsonTree) -> Seq<char>;

/// How a list of trees shows, indented.
pub uninterp spec fn pretty_text(ts: Seq<JsonTree>) -> Seq<char>;

/// What a text says, if it is JSON.
pub uninterp spec fn json_read(s: Seq<char>) -> Option<JsonTree>;

/// What values hold.
pub open spec fn trees(vs: Seq<Value>) -> Seq<JsonTree> {
    vs.map_values(|v: Value| tree(v))
}

impl JsonTree {
    /// The member of an object under a key.
    pub open spec fn member(self, key: Seq<char>) -> Option<JsonTree> {
        match self {
            JsonTree::Object(m) => if m.dom().contains(key) {
                Some(m[key])
            } else {
                None
            },
            _ => None,
        }
    }

    /// The text that a value is, if it is one.
    pub open spec fn as_text(self) -> Option<Seq<char>> {
        match self {
            JsonTree::Text(s) => Some(s),
            _ => None,
        }
    }

    /// The part that a step of a path leads to: a member of an object, or an
    /// item of a list by its number.
    pub open spec fn step(self, token: Seq<char>) -> Option<JsonTree> {
        match self {
            JsonTree::Object(m) => if m.dom().contains(token) {
                Some(m[token])
            } else {
                None
            },
            JsonTree::List(s) => match index_of(token) {
                Some(i) => if i < s.len() {
                    Some(s[i as int])
                } else {
                    None
                },
                None => None,
            },
            _ => None,
        }
    }

    /// The part that a path leads to.
    pub open spec fn at(self, path: Seq<Seq<char>>) -> Option<JsonTree>
        decreases path.len(),
    {
        if path.len() == 0 {
            Some(self)
        } else {
            match self.step(path[0]) {
                Some(t) => t.at(path.drop_first()),
                None => None,
            }
        }
    }

    /// With another value where a path leads to.
    pub open spec fn replaced(self, path: Seq<Seq<char>>, new: JsonTree) -> JsonTree
        decreases path.len(),
    {
        if path.len() == 0 {
            new
        } else {
            match (self, self.step(path[0])) {
                (JsonTree::Object(m), Some(t)) => JsonTree::Object(
                    m.insert(path[0], t.replaced(path.drop_first(), new)),
                ),
                (JsonTree::List(s), Some(t)) => JsonTree::List(
                    s.update(
                        index_of(path[0])->Some_0 as int,
                        t.replaced(path.drop_first(), new),
                    ),
                ),
                _ => self,
            }
        }
    }
}

/// The number that a step of a path spells: without a sign, and without zeros
/// in front.
pub open spec fn index_of(token: Seq<char>) -> Option<nat> {
    if token.len() > 0 && (token[0] == '+' || (token[0] == '0' && token.len() != 1)) {
        None
    } else {
        text::number(token, usize::MAX as nat)
    }
}

/// Whether a step of a path stands for itself in a pointer.
pub open spec fn plain_token(token: Seq<char>) -> bool {
    !token.contains('/') && !token.contains('~')
}

/// How a path is spelled: a slash before each step.
pub open spec fn spelled(path: Seq<Seq<char>>) -> Seq<char>
    decreases path.len(),
{
    if path.len() == 0 {
        Seq::empty()
    } else {
        spelled(path.drop_last()) + seq!['/'] + path.last()
    }
}

/// Where the last slash stands, or -1.
pub open spec fn last_slash(s: Seq<char>) -> int
    decreases s.len(),
{
    if s.len() == 0 || s.last() == '/' {
        s.len() - 1
    } else {
        last_slash(s.drop_last())
    }
}

/// The steps that a pointer spells: what stands after each slash.
pub open spec fn steps_of(s: Seq<char>) -> Seq<Seq<char>>
    decreases s.len(),
{
    let i = last_slash(s);
    if 0 <= i < s.len() {
        steps_of(s.take(i)).push(s.skip(i + 1))
    } else {
        Seq::empty()
    }
}

/// Whether a text is a pointer without escapes.
pub open spec fn plain_pointer(s: Seq<char>) -> bool {
    (s.len() == 0 || s[0] == '/') && !s.contains('~')
}

proof fn lemma_last_slash(front: Seq<char>, last: Seq<char>)
    requires
        !last.contains('/'),
    ensures
        last_slash(front + seq!['/'] + last) == front.len(),
    decreases last.len(),
{
    let s = front + seq!['/'] + last;
    if last.len() > 0 {
        assert(s.last() == last.last());
        assert(last.contains(last.last()));
        assert(s.drop_last() =~= front + seq!['/'] + last.drop_last());
        assert(!last.drop_last().contains('/')) by {
            if last.drop_last().contains('/') {
                let i = choose|i: int| 0 <= i < last.len() - 1 && last.drop_last()[i] == '/';
                assert(last[i] == '/');
            }
        }
        lemma_last_slash(front, last.drop_last());
    } else {
        assert(s.last() == '/');
    }
}

/// The steps of a path that is spelled are its steps.
pub(crate) proof fn lemma_spelled(path: Seq<Seq<char>>)
    requires
        forall|i: int| 0 <= i < path.len() ==> plain_token(#[trigger] path[i]),
    ensures
        steps_of(spelled(path)) == path,
        plain_pointer(spelled(path)),
    decreases path.len(),
{
    if path.len() > 0 {
        let front = spelled(path.drop_last());
        let s = spelled(path);
        lemma_spelled(path.drop_last());
        assert(plain_token(path[path.len() - 1]));
        lemma_last_slash(front, path.last());
        assert(s.take(front.len() as int) =~= front);
        assert(s.skip(front.len() as int + 1) =~= path.last());
        assert(steps_of(s) =~= path);
        if s.contains('~') {
            let i = choose|i: int| 0 <= i < s.len() && s[i] == '~';
            if i < front.len() {
                assert(front[i] == '~');
            } else {
                assert(path.last()[i - front.len() - 1] == '~');
            }
        }
    } else {
        assert(steps_of(spelled(path)) =~= path);
    }
}

/// Spells a path.
pub(crate) fn spell(path: &Vec<String>) -> (res: String)
    requires
        forall|i: int| 0 <= i < path@.len() ==> plain_token((#[trigger] path@[i])@),
    ensures
        steps_of(res@) == text::all_chars(path@),
        plain_pointer(res@),
{
    let ghost all = text::all_chars(path@);
    let mut res = String::new();
    let mut i: usize = 0;
    assert(all.take(0) =~= Seq::empty());
    assert(res@ =~= spelled(all.take(0)));
    while i < path.len()
        invariant
            i <= path@.len(),
            all == text::all_chars(path@),
            res@ == spelled(all.take(i as int)),
        decreases path@.len() - i,
    {
        let ghost before = res@;
        res.push('/');
        res.append(path[i].as_str());
        assert(all.take(i + 1).drop_last() =~= all.take(i as int));
        assert(all.take(i + 1).last() == path@[i as int]@);
        assert(res@ =~= before + seq!['/'] + path@[i as int]@);
        i += 1;
    }
    assert(all.take(i as int) =~= all);
    proof {
        assert forall|j: int| 0 <= j < all.len() implies plain_token(#[trigger] all[j]) by {
            assert(plain_token(path@[j]@));
        }
        lemma_spelled(all);
    }
    res
}

/// `serde_json::from_str` into a `Value`: what a text says depends on the text
/// alone. Nothing is said of the wording of errors.
#[verifier::external_body]
pub(crate) fn read(s: &str) -> (res: Result<Value, String>)
    ensures
        match res {
            Ok(v) => json_read(s@) == Some(tree(v)),
            Err(_) => json_read(s@) is None,
        },
{
    serde_json::from_str::<Value>(s).map_err(|e| e.to_string())
}

/// `serde_json::Value`'s `Display`: how a value shows depends on what it holds
/// alone, for the members of an object come in the order of their keys.
#[verifier::external_body]
pub(crate) fn show(v: &Value) -> (res: String)
    ensures
        res@ == json_text(tree(*v)),
{
    v.to_string()
}

/// `serde_json::to_string_pretty` of a list of values, which cannot fail: the
/// keys of objects are texts.
#[verifier::external_body]
pub(crate) fn show_pretty(vs: &Vec<Value>) -> (res: Option<String>)
    ensures
        res is Some && res->Some_0@ == pretty_text(trees(vs@)),
{
    serde_json::to_string_pretty(vs).ok()
}

/// What sort of value a JSON value is.
#[derive(Debug, Clone, Copy, PartialEq, Eq, Structural)]
pub enum JsonKind {
    Null,
    Flag(bool),
    Number,
    Text,
    List,
    Object,
}

impl JsonTree {
    /// What sort of value this is.
    pub open spec fn kind(self) -> JsonKind {
        match self {
            JsonTree::Null => JsonKind::Null,
            JsonTree::Bool(b) => JsonKind::Flag(b),
            JsonTree::Number(_) => JsonKind::Number,
            JsonTree::Text(_) => JsonKind::Text,
            JsonTree::List(_) => JsonKind::List,
            JsonTree::Object(_) => JsonKind::Object,
        }
    }
}

/// The variants of `serde_json::Value`: which of them a value is.
#[verifier::external_body]
pub(crate) fn kind_of(v: &Value) -> (res: JsonKind)
    ensures
        res == tree(*v).kind(),
{
    match v {
        Value::Null => JsonKind::Null,
        Value::Bool(b) => JsonKind::Flag(*b),
        Value::Number(_) => JsonKind::Number,
        Value::String(_) => JsonKind::Text,
        Value::Array(_) => JsonKind::List,
        Value::Object(_) => JsonKind::Object,
    }
}

/// `serde_json::Value::get` with a text: the member of an object.
#[verifier::external_body]
pub(crate) fn member<'a>(v: &'a Value, key: &str) -> (res: Option<&'a Value>)
    ensures
        match res {
            Some(m) => tree(*v).member(key@) == Some(tree(*m)),
            None => tree(*v).member(key@) is None,
        },
{
    v.get(key)
}

/// `serde_json::Value::as_str`: the text that a value is.
#[verifier::external_body]
pub(crate) fn text_in(v: &Value) -> (res: Option<&str>)
    ensures
        match res {
            Some(s) => tree(*v).as_text() == Some(s@),
            None => tree(*v).as_text() is None,
        },
{
    v.as_str()
}

/// `serde_json::Value::as_u64`: the whole number that a value is.
#[verifier::external_body]
pub(crate) fn whole_in(v: &Value) -> (res: Option<u64>)
    ensures
        res == match tree(*v) {
            JsonTree::Number(n) => n.whole,
            _ => None,
        },
{
    v.as_u64()
}

/// `serde_json::Value::as_array`: the items of a list.
#[verifier::external_body]
pub(crate) fn items_in(v: &Value) -> (res: Option<&Vec<Value>>)
    ensures
        match res {
            Some(vs) => tree(*v) == JsonTree::List(trees(vs@)),
            None => !(tree(*v) is List),
        },
{
    v.as_array()
}

/// `serde_json::Value::pointer`: the part that the steps of a pointer lead to.
#[verifier::external_body]
pub(crate) fn pointer<'a>(v: &'a Value, path: &str) -> (res: Option<&'a Value>)
    requires
        plain_pointer(path@),
    ensures
        match res {
            Some(m) => tree(*v).at(steps_of(path@)) == Some(tree(*m)),
            None => tree(*v).at(steps_of(path@)) is None,
        },
{
    v.pointer(path)
}

/// `serde_json::Value::pointer_mut`: the part that the steps of a pointer lead
/// to, if any, becomes another.
#[verifier::external_body]
pub(crate) fn set_pointer(v: &mut Value, path: &str, new: Value) -> (res: bool)
    requires
        plain_pointer(path@),
    ensures
        res == (tree(*old(v)).at(steps_of(path@)) is Some),
        tree(*final(v)) == if res {
            tree(*old(v)).replaced(steps_of(path@), tree(new))
        } else {
            tree(*old(v))
        },
{
    match v.pointer_mut(path) {
        Some(p) => {
            *p = new;
            true
        },
        None => false,
    }
}

/// `serde_json::Value::String`.
#[verifier::external_body]
pub(crate) fn text_value(s: String) -> (res: Value)
    ensures
        tree(res) == JsonTree::Text(s@),
{
    Value::String(s)
}

/// `serde_json::Value::Null`.
#[verifier::external_body]
pub(crate) fn null_value() -> (res: Value)
    ensures
        tree(res) == JsonTree::Null,
{
    Value::Null
}

/// `serde_json::Value::Array`.
#[verifier::external_body]
pub(crate) fn list_value(vs: Vec<Value>) -> (res: Value)
    ensures
        tree(res) == JsonTree::List(trees(vs@)),
{
    Value::Array(vs)
}

/// `serde_json::Map::new`, as an object without members.
#[verifier::external_body]
pub(crate) fn empty_object() -> (res: Value)
    ensures
        tree(res) == JsonTree::Object(Map::<Seq<char>, JsonTree>::empty()),
{
    Value::Object(serde_json::Map::new())
}

/// Indexing a `serde_json::Value` by a text, to write: the member of an object
/// under the key becomes another, or is added.
#[verifier::external_body]
pub(crate) fn put(v: &mut Value, key: &str, m: Value)
    requires
        tree(*old(v)) is Object,
    ensures
        tree(*final(v)) == JsonTree::Object(tree(*old(v))->Object_0.insert(key@, tree(m))),
{
    v[key] = m;
}

/// `serde_json::Value`'s `Clone`.
#[verifier::external_body]
pub(crate) fn copy(v: &Value) -> (res: Value)
    ensures
        tree(res) == tree(*v),
{
    v.clone()
}

/// An object with two members.
pub open spec fn pair(k1: Seq<char>, v1: JsonTree, k2: Seq<char>, v2: JsonTree) -> JsonTree {
    JsonTree::Object(Map::<Seq<char>, JsonTree>::empty().insert(k1, v1).insert(k2, v2))
}

/// An object with one member.
pub open spec fn single(k: Seq<char>, v: JsonTree) -> JsonTree {
    JsonTree::Object(Map::<Seq<char>, JsonTree>::empty().insert(k, v))
}

/// An object with one member.
pub(crate) fn object1(k: &str, v: Value) -> (res: Value)
    ensures
        tree(res) == single(k@, tree(v)),
{
    let mut o = empty_object();
    put(&mut o, k, v);
    o
}

/// An object with two members.
pub(crate) fn object2(k1: &str, v1: Value, k2: &str, v2: Value) -> (res: Value)
    ensures
        tree(res) == pair(k1@, tree(v1), k2@, tree(v2)),
{
    let mut o = empty_object();
    put(&mut o, k1, v1);
    put(&mut o, k2, v2);
    o
}

/// A member of an object is what stands under its key, and nothing else has
/// members.
pub proof fn law_member(m: Map<Seq<char>, JsonTree>, key: Seq<char>, v: JsonTree, t: JsonTree)
    ensures
        JsonTree::Object(m.insert(key, v)).member(key) == Some(v),
        !m.dom().contains(key) ==> JsonTree::Object(m).member(key) is None,
        !(t is Object) ==> t.member(key) is None,
        t matches JsonTree::Text(s) ==> t.as_text() == Some(s),
        !(t is Text) ==> t.as_text() is None,
{
}

/// A path leads a step at a time: to a member by its key, to an item by its
/// number.
pub proof fn law_path(t: JsonTree, key: Seq<char>, n: usize, path: Seq<Seq<char>>)
    ensures
        t.at(Seq::empty()) == Some(t),
        t.at(seq![key] + path) == match t.step(key) {
            Some(u) => u.at(path),
            None => None,
        },
        t matches JsonTree::Object(m) ==> (m.dom().contains(key) ==> t.step(key) == Some(m[key])) && (
        !m.dom().contains(key) ==> t.step(key) is None),
        t matches JsonTree::List(s) ==> (n < s.len() ==> t.step(text::dec(n as nat)) == Some(
            s[n as int],
        )) && (n >= s.len() ==> t.step(text::dec(n as nat)) is None),
        !(t is Object) && !(t is List) ==> t.step(key) is None,
{
    assert((seq![key] + path).drop_first() =~= path);
    text::law_number_reads_back(n as nat, usize::MAX as nat);
    text::law_decimal_reads_back(n as nat);
}

/// What is put where a path leads to reads back there; what another first step
/// leads to stays, and a path that leads nowhere changes nothing.
pub proof fn law_replaced(t: JsonTree, path: Seq<Seq<char>>, new: JsonTree, other: Seq<char>)
    ensures
        t.at(path) is Some ==> t.replaced(path, new).at(path) == Some(new),
        path.len() > 0 && t.step(path[0]) is None ==> t.replaced(path, new) == t,
        path.len() > 0 && t is Object && other != path[0] ==> t.replaced(path, new).step(other)
            == t.step(other),
        path.len() > 0 && t is List && index_of(other) != index_of(path[0]) ==> t.replaced(
            path,
            new,
        ).step(other) == t.step(other),
        path.len() == 0 ==> t.replaced(path, new) == new,
    decreases path.len(),
{
    if path.len() > 0 {
        if let Some(u) = t.step(path[0]) {
            law_replaced(u, path.drop_first(), new, other);
        }
    }
}

/// A pointer spells its steps, a slash before each.
pub proof fn law_pointer(path: Seq<Seq<char>>, token: Seq<char>)
    requires
        forall|i: int| 0 <= i < path.len() ==> plain_token(#[trigger] path[i]),
        plain_token(token),
    ensures
        spelled(path.push(token)) == spelled(path) + seq!['/'] + token,
        spelled(Seq::empty()) == Seq::<char>::empty(),
        steps_of(spelled(path)) == path,
{
    assert(path.push(token).drop_last() =~= path);
    lemma_spelled(path);
}

/// An object of one or two members holds these and no others.
pub proof fn law_small_objects(
    k1: Seq<char>,
    v1: JsonTree,
    k2: Seq<char>,
    v2: JsonTree,
    other: Seq<char>,
)
    requires
        k1 != k2,
        other != k1,
        other != k2,
    ensures
        pair(k1, v1, k2, v2).member(k1) == Some(v1),
        pair(k1, v1, k2, v2).member(k2) == Some(v2),
        pair(k1, v1, k2, v2).member(other) is None,
        single(k1, v1).member(k1) == Some(v1),
        single(k1, v1).member(other) is None,
{
}

} // verus!
