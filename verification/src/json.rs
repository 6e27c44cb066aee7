//! JSON documents.

use vstd::prelude::*;

use crate::strmap::{string_values, StrMap};
use crate::text;

verus! {

/// A JSON value. A number is held in its decimal notation, an object as the
/// list of its fields in the order of their names.
#[derive(Debug)]
pub enum Json {
    Null,
    Bool(bool),
    Number(String),
    Text(String),
    List(Vec<Json>),
    Object(Vec<(String, Json)>),
}

/// A JSON value.
pub enum Tree {
    Null,
    Bool(bool),
    Number(Seq<char>),
    Text(Seq<char>),
    List(Seq<Tree>),
    Object(Seq<(Seq<char>, Tree)>),
}

impl View for Json {
    type V = Tree;

    open spec fn view(&self) -> Tree {
        tree(*self)
    }
}

/// The value that a JSON value stands for.
pub open spec fn tree(j: Json) -> Tree
    decreases j,
{
    match j {
        Json::Null => Tree::Null,
        Json::Bool(b) => Tree::Bool(b),
        Json::Number(n) => Tree::Number(n@),
        Json::Text(s) => Tree::Text(s@),
        Json::List(items) => Tree::List(trees(items@)),
        Json::Object(fields) => Tree::Object(field_trees(fields@)),
    }
}

/// The values that a list of JSON values stands for.
pub open spec fn trees(items: Seq<Json>) -> Seq<Tree>
    decreases items,
{
    if items.len() == 0 {
        Seq::empty()
    } else {
        trees(items.drop_last()).push(tree(items.last()))
    }
}

/// The fields that a list of JSON fields stands for.
pub open spec fn field_trees(fields: Seq<(String, Json)>) -> Seq<(Seq<char>, Tree)>
    decreases fields,
{
    if fields.len() == 0 {
        Seq::empty()
    } else {
        field_trees(fields.drop_last()).push((fields.last().0@, tree(fields.last().1)))
    }
}

/// What a list of JSON values stands for, item by item.
pub proof fn lemma_trees(items: Seq<Json>)
    ensures
        trees(items).len() == items.len(),
        forall|i: int| 0 <= i < items.len() ==> #[trigger] trees(items)[i] == tree(items[i]),
    decreases items.len(),
{
    if items.len() > 0 {
        lemma_trees(items.drop_last());
    }
}

/// What a list of JSON fields stands for, field by field.
pub proof fn lemma_field_trees(fields: Seq<(String, Json)>)
    ensures
        field_trees(fields).len() == fields.len(),
        forall|i: int|
            0 <= i < fields.len() ==> #[trigger] field_trees(fields)[i] == (
                fields[i].0@,
                tree(fields[i].1),
            ),
    decreases fields.len(),
{
    if fields.len() > 0 {
        lemma_field_trees(fields.drop_last());
    }
}

// Reading.

/// The outermost level of a JSON text; what stands inside is still text.
#[derive(Debug)]
pub enum Level {
    Null,
    Bool(bool),
    Number(String),
    Text(String),
    List(Vec<String>),
    Object(Vec<(String, String)>),
}

/// The outermost level of a JSON text.
pub enum LevelView {
    Null,
    Bool(bool),
    Number(Seq<char>),
    Text(Seq<char>),
    List(Seq<Seq<char>>),
    Object(Seq<(Seq<char>, Seq<char>)>),
}

/// Pairs of texts, by their views.
pub open spec fn pairs(v: Seq<(String, String)>) -> Seq<(Seq<char>, Seq<char>)> {
    v.map_values(|p: (String, String)| (p.0@, p.1@))
}

/// The outermost level, by its views.
pub open spec fn level_view(l: Option<Level>) -> Option<LevelView> {
    match l {
        None => None,
        Some(Level::Null) => Some(LevelView::Null),
        Some(Level::Bool(b)) => Some(LevelView::Bool(b)),
        Some(Level::Number(n)) => Some(LevelView::Number(n@)),
        Some(Level::Text(s)) => Some(LevelView::Text(s@)),
        Some(Level::List(v)) => Some(LevelView::List(text::views(v@))),
        Some(Level::Object(v)) => Some(LevelView::Object(pairs(v@))),
    }
}

/// What `serde_json` reads on the outermost level of a text.
pub uninterp spec fn json_level(s: Seq<char>) -> Option<LevelView>;

/// `serde_json::from_str` into `serde_json::Value`: the outermost level of a
/// text, where it is JSON, with what stands inside written out again. It
/// depends on the text alone.
#[verifier::external_body]
pub(crate) fn read_level(s: &str) -> (r: Option<Level>)
    ensures
        level_view(r) == json_level(s@),
{
    Some(match serde_json::from_str::<serde_json::Value>(s).ok()? {
        serde_json::Value::Null => Level::Null,
        serde_json::Value::Bool(b) => Level::Bool(b),
        serde_json::Value::Number(n) => Level::Number(n.to_string()),
        serde_json::Value::String(s) => Level::Text(s),
        serde_json::Value::Array(v) => Level::List(v.iter().map(|x| x.to_string()).collect()),
        serde_json::Value::Object(m) => {
            Level::Object(m.into_iter().map(|(k, x)| (k, x.to_string())).collect())
        },
    })
}

/// What `serde_json` writes for the value of a text, or its error where the
/// text is no JSON.
pub uninterp spec fn json_text(s: Seq<char>) -> Result<Seq<char>, Seq<char>>;

/// The result of writing a text again, by its views.
pub open spec fn text_result(r: Result<String, String>) -> Result<Seq<char>, Seq<char>> {
    match r {
        Ok(t) => Ok(t@),
        Err(e) => Err(e@),
    }
}

/// `serde_json::Value::from_str`, and `serde_json::Value::to_string` of what it
/// gives: the value of a JSON text in one notation, or the error of reading it.
/// Either depends on the text alone.
#[verifier::external_body]
pub(crate) fn write_again(s: &str) -> (r: Result<String, String>)
    ensures
        text_result(r) == json_text(s@),
{
    let value: Result<serde_json::Value, serde_json::Error> = s.parse();
    value.map(|v| v.to_string()).map_err(|e| e.to_string())
}

/// How deep a document may be nested.
pub const MAX_DEPTH: u32 = 128;

/// The value of a JSON text that is nested less deep than `depth`.
pub open spec fn parsed(s: Seq<char>, depth: nat) -> Option<Tree>
    decreases depth, 0int,
{
    if depth == 0 {
        None
    } else {
        match json_level(s) {
            None => None,
            Some(LevelView::Null) => Some(Tree::Null),
            Some(LevelView::Bool(b)) => Some(Tree::Bool(b)),
            Some(LevelView::Number(n)) => Some(Tree::Number(n)),
            Some(LevelView::Text(t)) => Some(Tree::Text(t)),
            Some(LevelView::List(v)) => match parsed_list(v, (depth - 1) as nat) {
                Some(items) => Some(Tree::List(items)),
                None => None,
            },
            Some(LevelView::Object(v)) => match parsed_fields(v, (depth - 1) as nat) {
                Some(fields) => Some(Tree::Object(fields)),
                None => None,
            },
        }
    }
}

/// The values of JSON texts.
pub open spec fn parsed_list(v: Seq<Seq<char>>, depth: nat) -> Option<Seq<Tree>>
    decreases depth, 1 + v.len(),
{
    if v.len() == 0 {
        Some(Seq::empty())
    } else {
        match (parsed_list(v.drop_last(), depth), parsed(v.last(), depth)) {
            (Some(items), Some(item)) => Some(items.push(item)),
            _ => None,
        }
    }
}

/// The fields whose values are JSON texts.
pub open spec fn parsed_fields(v: Seq<(Seq<char>, Seq<char>)>, depth: nat) -> Option<
    Seq<(Seq<char>, Tree)>,
>
    decreases depth, 1 + v.len(),
{
    if v.len() == 0 {
        Some(Seq::empty())
    } else {
        match (parsed_fields(v.drop_last(), depth), parsed(v.last().1, depth)) {
            (Some(fields), Some(value)) => Some(fields.push((v.last().0, value))),
            _ => None,
        }
    }
}

/// The value of a JSON text.
pub open spec fn json(s: Seq<char>) -> Option<Tree> {
    parsed(s, MAX_DEPTH as nat)
}

/// The view of an optional value.
pub open spec fn opt_tree(j: Option<Json>) -> Option<Tree> {
    match j {
        Some(x) => Some(x@),
        None => None,
    }
}

proof fn lemma_list_fails(v: Seq<Seq<char>>, depth: nat, i: int)
    requires
        0 <= i < v.len(),
        parsed(v[i], depth) is None,
    ensures
        parsed_list(v, depth) is None,
    decreases v.len(),
{
    if i < v.len() - 1 {
        lemma_list_fails(v.drop_last(), depth, i);
    }
}

proof fn lemma_fields_fail(v: Seq<(Seq<char>, Seq<char>)>, depth: nat, i: int)
    requires
        0 <= i < v.len(),
        parsed(v[i].1, depth) is None,
    ensures
        parsed_fields(v, depth) is None,
    decreases v.len(),
{
    if i < v.len() - 1 {
        lemma_fields_fail(v.drop_last(), depth, i);
    }
}

/// The value of a JSON text that is nested less deep than `depth`.
fn read_json(s: &str, depth: u32) -> (r: Option<Json>)
    ensures
        opt_tree(r) == parsed(s@, depth as nat),
    decreases depth,
{
    if depth == 0 {
        return None;
    }
    match read_level(s) {
        None => None,
        Some(Level::Null) => Some(Json::Null),
        Some(Level::Bool(b)) => Some(Json::Bool(b)),
        Some(Level::Number(n)) => Some(Json::Number(n)),
        Some(Level::Text(t)) => Some(Json::Text(t)),
        Some(Level::List(v)) => {
            let ghost all = text::views(v@);
            let mut items: Vec<Json> = Vec::new();
            for i in 0..v.len()
                invariant
                    depth > 0,
                    all == text::views(v@),
                    json_level(s@) == Some(LevelView::List(all)),
                    parsed_list(all.take(i as int), (depth - 1) as nat) == Some(trees(items@)),
            {
                assert(all.take(i + 1).drop_last() =~= all.take(i as int));
                assert(all[i as int] == v@[i as int]@);
                match read_json(&v[i], depth - 1) {
                    None => {
                        proof {
                            lemma_list_fails(all, (depth - 1) as nat, i as int);
                        }
                        return None;
                    },
                    Some(item) => {
                        let ghost before = items@;
                        items.push(item);
                        assert(items@.drop_last() =~= before);
                    },
                }
            }
            assert(all.take(v@.len() as int) =~= all);
            Some(Json::List(items))
        },
        Some(Level::Object(v)) => {
            let ghost all = pairs(v@);
            let mut fields: Vec<(String, Json)> = Vec::new();
            for i in 0..v.len()
                invariant
                    depth > 0,
                    all == pairs(v@),
                    json_level(s@) == Some(LevelView::Object(all)),
                    parsed_fields(all.take(i as int), (depth - 1) as nat) == Some(
                        field_trees(fields@),
                    ),
            {
                assert(all.take(i + 1).drop_last() =~= all.take(i as int));
                assert(all[i as int] == (v@[i as int].0@, v@[i as int].1@));
                match read_json(&v[i].1, depth - 1) {
                    None => {
                        proof {
                            lemma_fields_fail(all, (depth - 1) as nat, i as int);
                        }
                        return None;
                    },
                    Some(value) => {
                        let ghost before = fields@;
                        fields.push((v[i].0.clone(), value));
                        assert(fields@.drop_last() =~= before);
                    },
                }
            }
            assert(all.take(v@.len() as int) =~= all);
            Some(Json::Object(fields))
        },
    }
}

/// The value of a JSON text, where it is one.
pub fn parse_json(s: &str) -> (r: Option<Json>)
    ensures
        opt_tree(r) == json(s@),
{
    read_json(s, MAX_DEPTH)
}

// Access.

/// The value of the last field of the given name.
pub open spec fn field_in(fields: Seq<(Seq<char>, Tree)>, key: Seq<char>) -> Option<Tree>
    decreases fields.len(),
{
    if fields.len() == 0 {
        None
    } else if fields.last().0 == key {
        Some(fields.last().1)
    } else {
        field_in(fields.drop_last(), key)
    }
}

/// The value of a field of an object.
pub open spec fn field(t: Tree, key: Seq<char>) -> Option<Tree> {
    match t {
        Tree::Object(fields) => field_in(fields, key),
        _ => None,
    }
}

/// The text of a field of an object, where it is one.
pub open spec fn text_field(t: Tree, key: Seq<char>) -> Option<Seq<char>> {
    match field(t, key) {
        Some(Tree::Text(s)) => Some(s),
        _ => None,
    }
}

/// The view of an optional reference to a value.
pub open spec fn opt_ref(j: Option<&Json>) -> Option<Tree> {
    match j {
        Some(x) => Some(x@),
        None => None,
    }
}

impl Json {
    /// The value of a field of an object.
    pub fn get(&self, key: &str) -> (r: Option<&Json>)
        ensures
            opt_ref(r) == field(self@, key@),
    {
        match self {
            Json::Object(fields) => {
                let ghost all = field_trees(fields@);
                proof {
                    lemma_field_trees(fields@);
                    assert(all.take(all.len() as int) =~= all);
                }
                let mut i: usize = fields.len();
                while i > 0
                    invariant
                        i <= fields@.len(),
                        self@ == Tree::Object(all),
                        all.len() == fields@.len(),
                        forall|k: int|
                            0 <= k < fields@.len() ==> #[trigger] all[k] == (
                                fields@[k].0@,
                                tree(fields@[k].1),
                            ),
                        field_in(all.take(i as int), key@) == field_in(all, key@),
                    decreases i,
                {
                    i = i - 1;
                    assert(all.take(i + 1).drop_last() =~= all.take(i as int));
                    assert(all.take(i + 1).last() == all[i as int]);
                    if text::same(&fields[i].0, key) {
                        return Some(&fields[i].1);
                    }
                }
                None
            },
            _ => None,
        }
    }

    /// The value of a field of an object, taken out of it.
    pub fn into_field(self, key: &str) -> (r: Option<Json>)
        ensures
            opt_tree(r) == field(self@, key@),
    {
        match self {
            Json::Object(given) => {
                let mut fields = given;
                let ghost all = field_trees(fields@);
                proof {
                    lemma_field_trees(fields@);
                    assert(all.take(all.len() as int) =~= all);
                }
                let mut i: usize = fields.len();
                while i > 0
                    invariant
                        i <= fields@.len(),
                        self@ == Tree::Object(all),
                        all.len() == fields@.len(),
                        forall|k: int|
                            0 <= k < fields@.len() ==> #[trigger] all[k] == (
                                fields@[k].0@,
                                tree(fields@[k].1),
                            ),
                        field_in(all.take(i as int), key@) == field_in(all, key@),
                    decreases i,
                {
                    i = i - 1;
                    assert(all.take(i + 1).drop_last() =~= all.take(i as int));
                    assert(all.take(i + 1).last() == all[i as int]);
                    if text::same(&fields[i].0, key) {
                        return Some(fields.swap_remove(i).1);
                    }
                }
                None
            },
            _ => None,
        }
    }

    /// The text of a field of an object, where it is one.
    pub fn text(&self, key: &str) -> (r: Option<String>)
        ensures
            text::opt_view(r) == text_field(self@, key@),
    {
        match self.get(key) {
            Some(Json::Text(s)) => Some(s.clone()),
            _ => None,
        }
    }
}

/// The texts of fields by their names, where all of them are texts.
pub open spec fn texts_of(fields: Seq<(Seq<char>, Tree)>) -> Option<Map<Seq<char>, Seq<char>>>
    decreases fields.len(),
{
    if fields.len() == 0 {
        Some(Map::empty())
    } else {
        match (texts_of(fields.drop_last()), fields.last().1) {
            (Some(m), Tree::Text(s)) => Some(m.insert(fields.last().0, s)),
            _ => None,
        }
    }
}

/// The texts of a value by their names, where it is an object of texts.
pub open spec fn texts_in(value: Option<Tree>) -> Option<Map<Seq<char>, Seq<char>>> {
    match value {
        Some(Tree::Object(fields)) => texts_of(fields),
        _ => None,
    }
}

/// The view of an optional map of texts.
pub open spec fn opt_texts(m: Option<StrMap<String>>) -> Option<Map<Seq<char>, Seq<char>>> {
    match m {
        Some(x) => Some(string_values(x@)),
        None => None,
    }
}

proof fn lemma_texts_fail(fields: Seq<(Seq<char>, Tree)>, i: int)
    requires
        0 <= i < fields.len(),
        !(fields[i].1 is Text),
    ensures
        texts_of(fields) is None,
    decreases fields.len(),
{
    if i < fields.len() - 1 {
        lemma_texts_fail(fields.drop_last(), i);
    }
}

/// The texts of a value by their names, where it is an object of texts.
pub fn text_map(value: &Option<Json>) -> (r: Option<StrMap<String>>)
    ensures
        opt_texts(r) == texts_in(opt_tree(*value)),
{
    match value {
        Some(Json::Object(fields)) => {
            let ghost all = field_trees(fields@);
            proof {
                lemma_field_trees(fields@);
            }
            let mut map: StrMap<String> = StrMap::new();
            assert(string_values(map@) =~= Map::empty());
            for i in 0..fields.len()
                invariant
                    opt_tree(*value) == Some(Tree::Object(all)),
                    all.len() == fields@.len(),
                    forall|k: int|
                        0 <= k < fields@.len() ==> #[trigger] all[k] == (
                            fields@[k].0@,
                            tree(fields@[k].1),
                        ),
                    texts_of(all.take(i as int)) == Some(string_values(map@)),
            {
                assert(all.take(i + 1).drop_last() =~= all.take(i as int));
                assert(all.take(i + 1).last() == all[i as int]);
                match &fields[i].1 {
                    Json::Text(s) => {
                        let ghost before = map@;
                        let name = fields[i].0.clone();
                        let value = s.clone();
                        map.insert(name, value);
                        assert(string_values(map@) =~= string_values(before).insert(
                            name@,
                            value@,
                        ));
                    },
                    _ => {
                        proof {
                            lemma_texts_fail(all, i as int);
                        }
                        return None;
                    },
                }
            }
            assert(all.take(all.len() as int) =~= all);
            Some(map)
        },
        _ => None,
    }
}

// Writing.

/// A text as a JSON value.
pub fn text_json(s: &str) -> (r: Json)
    ensures
        r@ == Tree::Text(s@),
{
    Json::Text(s.to_owned())
}

/// Texts as JSON values.
pub open spec fn text_trees(v: Seq<Seq<char>>) -> Seq<Tree> {
    v.map_values(|s: Seq<char>| Tree::Text(s))
}

/// A list of texts as a JSON value.
pub fn texts_json(v: &Vec<String>) -> (r: Json)
    ensures
        r@ == Tree::List(text_trees(text::views(v@))),
{
    let mut items: Vec<Json> = Vec::new();
    for i in 0..v.len()
        invariant
            trees(items@) == text_trees(text::views(v@)).take(i as int),
    {
        let ghost before = items@;
        items.push(text_json(&v[i]));
        assert(items@.drop_last() =~= before);
    }
    assert(trees(items@) =~= text_trees(text::views(v@)));
    Json::List(items)
}

/// An object with one field.
pub fn object1(name: &str, value: Json) -> (r: Json)
    ensures
        r@ == Tree::Object(seq![(name@, value@)]),
{
    let fields = vec![(name.to_owned(), value)];
    proof {
        lemma_field_trees(fields@);
        assert(field_trees(fields@) =~= seq![(name@, value@)]);
    }
    Json::Object(fields)
}

/// The bytes that `serde_json` writes for an object with the given fields,
/// whose values are texts.
pub uninterp spec fn object_text(fields: Seq<(Seq<char>, Seq<char>)>) -> Seq<u8>;

/// `serde_json::to_vec` of an object whose values are texts: the bytes depend
/// on the fields alone.
#[verifier::external_body]
pub(crate) fn write_object(fields: &Vec<(String, String)>) -> (r: Vec<u8>)
    ensures
        r@ == object_text(pairs(fields@)),
{
    let object: serde_json::Map<String, serde_json::Value> = fields
        .iter()
        .map(|(k, v)| (k.clone(), serde_json::Value::String(v.clone())))
        .collect();
    serde_json::to_vec(&serde_json::Value::Object(object)).unwrap_or_default()
}

// Laws.

/// A field of an object is the last one of its name, and every one that stands
/// there is found.
pub proof fn fields_are_found_by_name(
    fields: Seq<(Seq<char>, Tree)>,
    key: Seq<char>,
    value: Tree,
    other: Seq<char>,
)
    ensures
        field(Tree::Object(fields.push((key, value))), key) == Some(value),
        other != key ==> field(Tree::Object(fields.push((key, value))), other) == field(
            Tree::Object(fields),
            other,
        ),
        field(Tree::Object(Seq::empty()), key) is None,
        !(value is Object) ==> field(value, key) is None,
        value matches Tree::Text(s) ==> text_field(Tree::Object(fields.push((key, value))), key)
            == Some(s),
        !(value is Text) ==> text_field(Tree::Object(fields.push((key, value))), key) is None,
{
    assert(fields.push((key, value)).drop_last() =~= fields);
}

/// The texts of an object are those of all its fields, where each is one.
pub proof fn texts_of_an_object_are_all_its_fields(
    fields: Seq<(Seq<char>, Tree)>,
    m: Map<Seq<char>, Seq<char>>,
    key: Seq<char>,
    s: Seq<char>,
    value: Tree,
)
    ensures
        texts_of(fields) == Some(m) ==> texts_of(fields.push((key, Tree::Text(s)))) == Some(
            m.insert(key, s),
        ),
        texts_of(fields) is None || !(value is Text) ==> texts_of(fields.push((key, value)))
            is None,
        texts_of(Seq::empty()) == Some(Map::<Seq<char>, Seq<char>>::empty()),
        texts_in(Some(Tree::Object(fields))) == texts_of(fields),
        texts_in(None) is None,
        !(value is Object) ==> texts_in(Some(value)) is None,
{
    assert(fields.push((key, value)).drop_last() =~= fields);
    assert(fields.push((key, Tree::Text(s))).drop_last() =~= fields);
}

/// A document is read level by level: a list item by item, an object field by
/// field, each in its order.
pub proof fn document_is_read_level_by_level(s: Seq<char>, depth: nat, i: int)
    requires
        depth > 0,
    ensures
        json_level(s) is None ==> parsed(s, depth) is None,
        json_level(s) == Some(LevelView::Null) ==> parsed(s, depth) == Some(Tree::Null),
        json_level(s) matches Some(LevelView::Bool(b)) ==> parsed(s, depth) == Some(Tree::Bool(b)),
        json_level(s) matches Some(LevelView::Number(n)) ==> parsed(s, depth) == Some(
            Tree::Number(n),
        ),
        json_level(s) matches Some(LevelView::Text(t)) ==> parsed(s, depth) == Some(Tree::Text(t)),
        json_level(s) matches Some(LevelView::List(v)) ==> (parsed(s, depth) matches Some(t) ==> (t
            matches Tree::List(items) && items.len() == v.len() && (0 <= i < v.len() ==> parsed(
            v[i],
            (depth - 1) as nat,
        ) == Some(items[i])))),
        json_level(s) matches Some(LevelView::Object(v)) ==> (parsed(s, depth) matches Some(t)
            ==> (t matches Tree::Object(fields) && fields.len() == v.len() && (0 <= i < v.len()
            ==> fields[i].0 == v[i].0 && parsed(v[i].1, (depth - 1) as nat) == Some(fields[i].1)))),
{
    if let Some(LevelView::List(v)) = json_level(s) {
        lemma_list_is_read(v, (depth - 1) as nat, i);
    }
    if let Some(LevelView::Object(v)) = json_level(s) {
        lemma_fields_are_read(v, (depth - 1) as nat, i);
    }
}

proof fn lemma_list_is_read(v: Seq<Seq<char>>, depth: nat, i: int)
    ensures
        parsed_list(v, depth) matches Some(items) ==> items.len() == v.len() && (0 <= i < v.len()
            ==> parsed(v[i], depth) == Some(items[i])),
    decreases v.len(),
{
    if v.len() > 0 {
        lemma_list_is_read(v.drop_last(), depth, i);
    }
}

proof fn lemma_fields_are_read(v: Seq<(Seq<char>, Seq<char>)>, depth: nat, i: int)
    ensures
        parsed_fields(v, depth) matches Some(fields) ==> fields.len() == v.len() && (0 <= i
            < v.len() ==> fields[i].0 == v[i].0 && parsed(v[i].1, depth) == Some(fields[i].1)),
    decreases v.len(),
{
    if v.len() > 0 {
        lemma_fields_are_read(v.drop_last(), depth, i);
    }
}

/// A document may be 128 levels deep.
pub proof fn documents_have_a_depth(s: Seq<char>)
    ensures
        json(s) == parsed(s, 128),
{
}

} // verus!
