//! JSON values as a tree of the library's own, with the text form and the
//! path queries taken from `serde_json` and `jsonpath_lib`.

use crate::text::chars_of;
use vstd::prelude::*;

verus! {

/// A JSON number: an integer where it is one, else the decimal text of the
/// number as JSON writes it.
#[derive(Debug, PartialEq, Eq)]
pub enum JNumber {
    PosInt(u64),
    NegInt(i64),
    Float(String),
}

/// A JSON value. The entries of an object keep the order they were written in.
#[derive(Debug, PartialEq, Eq)]
pub enum JValue {
    Null,
    Bool(bool),
    Number(JNumber),
    String(String),
    Array(Vec<JValue>),
    Object(Vec<(String, JValue)>),
}

/// The mathematical value of a [`JNumber`].
pub enum JNumberView {
    PosInt(u64),
    NegInt(i64),
    Float(Seq<char>),
}

/// The mathematical value of a [`JValue`].
pub enum JValueView {
    Null,
    Bool(bool),
    Number(JNumberView),
    String(Seq<char>),
    Array(Seq<JValueView>),
    Object(Seq<(Seq<char>, JValueView)>),
}

impl View for JNumber {
    type V = JNumberView;

    open spec fn view(&self) -> JNumberView {
        match self {
            JNumber::PosInt(n) => JNumberView::PosInt(*n),
            JNumber::NegInt(n) => JNumberView::NegInt(*n),
            JNumber::Float(text) => JNumberView::Float(text@),
        }
    }
}

/// The value of `v`; [`JValue`]'s view.
pub open spec fn value_view(v: JValue) -> JValueView
    decreases v,
{
    match v {
        JValue::Null => JValueView::Null,
        JValue::Bool(b) => JValueView::Bool(b),
        JValue::Number(n) => JValueView::Number(n@),
        JValue::String(s) => JValueView::String(s@),
        JValue::Array(items) => JValueView::Array(values_view(items@)),
        JValue::Object(entries) => JValueView::Object(entries_view(entries@)),
    }
}

/// The values of a list of items, in order.
pub open spec fn values_view(items: Seq<JValue>) -> Seq<JValueView>
    decreases items,
{
    Seq::new(
        items.len(),
        |i: int|
            if 0 <= i < items.len() {
                value_view(items[i])
            } else {
                JValueView::Null
            },
    )
}

/// The keys and values of an object's entries, in order.
pub open spec fn entries_view(entries: Seq<(String, JValue)>) -> Seq<(Seq<char>, JValueView)>
    decreases entries,
{
    Seq::new(
        entries.len(),
        |i: int|
            if 0 <= i < entries.len() {
                (entries[i].0@, value_view(entries[i].1))
            } else {
                (Seq::empty(), JValueView::Null)
            },
    )
}

impl View for JValue {
    type V = JValueView;

    open spec fn view(&self) -> JValueView {
        value_view(*self)
    }
}

impl Clone for JNumber {
    fn clone(&self) -> (r: JNumber)
        ensures
            r@ == self@,
    {
        match self {
            JNumber::PosInt(n) => JNumber::PosInt(*n),
            JNumber::NegInt(n) => JNumber::NegInt(*n),
            JNumber::Float(text) => JNumber::Float(text.clone()),
        }
    }
}

/// A copy of a list of values.
pub fn clone_values(items: &Vec<JValue>) -> (r: Vec<JValue>)
    ensures
        values_view(r@) == values_view(items@),
    decreases items,
{
    let mut copy: Vec<JValue> = Vec::new();
    let mut i: usize = 0;
    while i < items.len()
        invariant
            i <= items.len(),
            copy.len() == i,
            forall|k: int| 0 <= k < i ==> copy[k]@ == items[k]@,
        decreases items.len() - i,
    {
        copy.push(items[i].clone());
        i += 1;
    }
    assert(values_view(copy@) =~= values_view(items@));
    copy
}

/// A copy of a list of entries.
pub fn clone_entries(entries: &Vec<(String, JValue)>) -> (r: Vec<(String, JValue)>)
    ensures
        entries_view(r@) == entries_view(entries@),
    decreases entries,
{
    let mut copy: Vec<(String, JValue)> = Vec::new();
    let mut i: usize = 0;
    while i < entries.len()
        invariant
            i <= entries.len(),
            copy.len() == i,
            forall|k: int|
                0 <= k < i ==> copy[k].0@ == entries[k].0@ && copy[k].1@ == entries[k].1@,
        decreases entries.len() - i,
    {
        copy.push((entries[i].0.clone(), entries[i].1.clone()));
        i += 1;
    }
    assert(entries_view(copy@) =~= entries_view(entries@));
    copy
}

impl Clone for JValue {
    fn clone(&self) -> (r: JValue)
        ensures
            r@ == self@,
        decreases self,
    {
        match self {
            JValue::Null => JValue::Null,
            JValue::Bool(b) => JValue::Bool(*b),
            JValue::Number(n) => JValue::Number(n.clone()),
            JValue::String(s) => JValue::String(s.clone()),
            JValue::Array(items) => JValue::Array(clone_values(items)),
            JValue::Object(entries) => JValue::Object(clone_entries(entries)),
        }
    }
}

/// The characters a path may be made of: `$ . [ ] * _ -`, ASCII letters and
/// digits. A path of these holds no filter, no range and no union.
pub open spec fn plain_path_char(c: char) -> bool {
    c == '$' || c == '.' || c == '[' || c == ']' || c == '*' || c == '_' || c == '-' || ('a' <= c
        && c <= 'z') || ('A' <= c && c <= 'Z') || ('0' <= c && c <= '9')
}

/// Whether every character of `path` is a [`plain_path_char`].
pub open spec fn plain_path(path: Seq<char>) -> bool {
    forall|i: int| 0 <= i < path.len() ==> plain_path_char(#[trigger] path[i])
}

/// Tests one character against [`plain_path_char`].
pub fn is_plain_path_char(c: char) -> (r: bool)
    ensures
        r == plain_path_char(c),
{
    c == '$' || c == '.' || c == '[' || c == ']' || c == '*' || c == '_' || c == '-' || ('a' <= c
        && c <= 'z') || ('A' <= c && c <= 'Z') || ('0' <= c && c <= '9')
}

/// Tests a path against [`plain_path`].
pub fn is_plain_path(path: &str) -> (r: bool)
    ensures
        r == plain_path(path@),
{
    let chars = chars_of(path);
    let mut i: usize = 0;
    while i < chars.len()
        invariant
            i <= chars.len(),
            chars@ == path@,
            forall|k: int| 0 <= k < i ==> plain_path_char(#[trigger] path@[k]),
        decreases chars.len() - i,
    {
        if !is_plain_path_char(chars[i]) {
            return false;
        }
        i += 1;
    }
    true
}

/// What `serde_json` reads from a JSON text: the value, or nothing where
/// the text is no JSON.
pub uninterp spec fn json_parse(text: Seq<char>) -> Option<JValueView>;

/// The compact JSON text that `serde_json` writes for a value.
pub uninterp spec fn json_text(value: JValueView) -> Seq<char>;

/// What `jsonpath_lib` selects from a value by a path: the values found, in
/// the order it finds them, or its message where it rejects the path.
pub uninterp spec fn json_select(value: JValueView, path: Seq<char>) -> Result<
    Seq<JValueView>,
    Seq<char>,
>;

/// Whether `serde_json` holds two values equal: the entries of an object
/// are compared as a map, whatever their order, and numbers by their value
/// within one kind.
pub uninterp spec fn json_same(a: JValueView, b: JValueView) -> bool;

/// Equality of JSON values: two values are equal where they are one value,
/// or where `serde_json` holds them equal, asked either way round.
pub open spec fn json_equal(a: JValueView, b: JValueView) -> bool {
    a == b || json_same(a, b) || json_same(b, a)
}

/// The view of an optional value.
pub open spec fn option_view(r: Option<JValue>) -> Option<JValueView> {
    match r {
        Some(v) => Some(v@),
        None => None,
    }
}

/// The view of a selection's outcome.
pub open spec fn selection_view(r: Result<Vec<JValue>, String>) -> Result<
    Seq<JValueView>,
    Seq<char>,
> {
    match r {
        Ok(found) => Ok(values_view(found@)),
        Err(message) => Err(message@),
    }
}

/// `serde_json::Value`, the tree that `serde_json` and `jsonpath_lib` work on.
#[verifier::external_type_specification]
#[verifier::external_body]
pub struct ExSerdeValue(serde_json::Value);

/// `serde_json::Number`, a JSON number as `serde_json` holds it.
#[verifier::external_type_specification]
#[verifier::external_body]
pub struct ExSerdeNumber(serde_json::Number);

/// Rebuilds a `serde_json::Number` as a [`JNumber`]: what `Number::as_u64`
/// gives where it gives something, else what `Number::as_i64` gives, else
/// the `Display` text. Nothing is claimed of the result here.
#[verifier::external_body]
fn number_from_serde(n: &serde_json::Number) -> JNumber {
    match (n.as_u64(), n.as_i64()) {
        (Some(u), _) => JNumber::PosInt(u),
        (None, Some(i)) => JNumber::NegInt(i),
        (None, None) => JNumber::Float(n.to_string()),
    }
}

/// Rebuilds a `serde_json::Value` as a [`JValue`], variant by variant.
/// Nothing is claimed of the result here: the callers below name it.
#[verifier::external_body]
fn from_serde(value: &serde_json::Value) -> JValue {
    match value {
        serde_json::Value::Null => JValue::Null,
        serde_json::Value::Bool(b) => JValue::Bool(*b),
        serde_json::Value::Number(n) => JValue::Number(number_from_serde(n)),
        serde_json::Value::String(s) => JValue::String(s.clone()),
        serde_json::Value::Array(a) => JValue::Array(a.iter().map(from_serde).collect()),
        serde_json::Value::Object(o) => JValue::Object(
            o.iter().map(|(k, v)| (k.clone(), from_serde(v))).collect(),
        ),
    }
}

/// Rebuilds a [`JValue`] as a `serde_json::Value`, variant by variant; the
/// text of a [`JNumber::Float`] is read back by `serde_json::from_str`, and
/// stands for `null` where that fails. Nothing is claimed of the result here.
#[verifier::external_body]
fn to_serde(value: &JValue) -> serde_json::Value {
    match value {
        JValue::Null => serde_json::Value::Null,
        JValue::Bool(b) => serde_json::Value::Bool(*b),
        JValue::Number(JNumber::PosInt(u)) => serde_json::Value::from(*u),
        JValue::Number(JNumber::NegInt(i)) => serde_json::Value::from(*i),
        JValue::Number(JNumber::Float(t)) => serde_json::from_str(t).unwrap_or_default(),
        JValue::String(s) => serde_json::Value::String(s.clone()),
        JValue::Array(a) => serde_json::Value::Array(a.iter().map(to_serde).collect()),
        JValue::Object(o) => serde_json::Value::Object(
            o.iter().map(|(k, v)| (k.clone(), to_serde(v))).collect(),
        ),
    }
}

/// `serde_json::from_str`, read as a `serde_json::Value` and rebuilt as a
/// [`JValue`]. The result is a function of the text alone and is named
/// [`json_parse`]; `None` stands for every error of the parser.
#[verifier::external_body]
fn parse_text(text: &str) -> (r: Option<JValue>)
    ensures
        option_view(r) == json_parse(text@),
{
    match serde_json::from_str::<serde_json::Value>(text) {
        Ok(value) => Some(from_serde(&value)),
        Err(_) => None,
    }
}

/// `serde_json::to_string` on the value rebuilt as a `serde_json::Value`.
/// Writing such a value cannot fail; the text is a function of the value
/// alone and is named [`json_text`].
#[verifier::external_body]
fn write_text(value: &JValue) -> (r: String)
    ensures
        r@ == json_text(value@),
{
    serde_json::to_string(&to_serde(value)).unwrap_or_default()
}

/// `jsonpath_lib::select` on the value rebuilt as a `serde_json::Value`, the
/// values found rebuilt as [`JValue`]s and an error given as its `Display`
/// text. The paths admitted hold no `?` and no `:`, so none of the filter and
/// range code of `jsonpath_lib` runs, which is where it can panic. The
/// outcome is a function of value and path alone and is named [`json_select`].
#[verifier::external_body]
fn select_plain(value: &JValue, path: &str) -> (r: Result<Vec<JValue>, String>)
    requires
        plain_path(path@),
    ensures
        selection_view(r) == json_select(value@, path@),
{
    match jsonpath_lib::select(&to_serde(value), path) {
        Ok(found) => Ok(found.into_iter().map(from_serde).collect()),
        Err(error) => Err(error.to_string()),
    }
}

/// `==` of `serde_json::Value` on the two values rebuilt as
/// `serde_json::Value`s. What it tells depends on the two values alone and
/// is named [`json_same`]. It is an equivalence: a value is equal to
/// itself, the answer is the same either way round, and what is equal to
/// the second value is equal to the first where the two are equal.
#[verifier::external_body]
fn same_values(a: &JValue, b: &JValue) -> (r: bool)
    ensures
        r == json_same(a@, b@),
        r == json_same(b@, a@),
        a@ == b@ ==> r,
        forall|c: JValueView| r && #[trigger] json_same(b@, c) ==> json_same(a@, c),
{
    to_serde(a) == to_serde(b)
}

impl JValue {
    /// Whether two values are equal as JSON values; see [`json_equal`].
    pub fn equals(&self, other: &JValue) -> (r: bool)
        ensures
            r == json_equal(self@, other@),
    {
        same_values(self, other)
    }

    /// Reads a JSON text.
    pub fn parse(text: &str) -> (r: Option<JValue>)
        ensures
            option_view(r) == json_parse(text@),
    {
        parse_text(text)
    }

    /// Writes the value as compact JSON text.
    pub fn to_text(&self) -> (r: String)
        ensures
            r@ == json_text(self@),
    {
        write_text(self)
    }

    /// Selects from the value by a JSON path. A path that is not plain (see
    /// [`plain_path`]) is rejected with `None`; for a plain one the outcome
    /// is that of the path engine.
    pub fn select(&self, path: &str) -> (r: Option<Result<Vec<JValue>, String>>)
        ensures
            r.is_some() == plain_path(path@),
            r.is_some() ==> selection_view(r.unwrap()) == json_select(self@, path@),
    {
        if is_plain_path(path) {
            Some(select_plain(self, path))
        } else {
            None
        }
    }
}

} // verus!
