use vstd::prelude::*;
use vstd::string::*;

use crate::num::i64_to_string;
use crate::num::parse_i64;
use crate::num::spec_i64_to_string;
use crate::num::spec_parse_i64;

verus! {

/// The numeric payload of a value: exactly one of the two sub-forms is
/// active.  A float is carried as its already-rendered decimal text, since
/// floating point stays outside the verified core; the text is produced by
/// the platform formatter before the value is built.
#[derive(Debug)]
pub enum Number {
    Integer(i64),
    Float(String),
}

/// The json value Number.
#[derive(Debug)]
pub struct JNumber {
    pub value: Number,
}

/// The json value String: unescaped text, wrapped in quotes on output.
pub struct JString {
    pub value: String,
}

/// The json value Array: an ordered sequence of values, order preserved.
pub struct JArray {
    pub value: Vec<JsonValue>,
}

/// The json value Object: a mapping from string keys to values with unique
/// keys.  Entries keep their insertion order, which makes rendering
/// deterministic; inserting a key that is already present overwrites the
/// value in place.
pub struct JObject {
    entries: Vec<(JString, JsonValue)>,
}

/// A json value: one of seven closed variants.  These structures can be
/// nested; a value owns its children, so no tree contains a cycle.
pub enum JsonValue {
    JNull,
    JTrue,
    JFalse,
    JString(JString),
    JNumber(JNumber),
    JArray(JArray),
    JObject(JObject),
}

/// The root container: holds exactly one top-level value, an empty object by
/// default, and supports wholesale replacement of that value.
pub struct Json {
    pub element: JsonValue,
}

/// The single error of the library: a numeric literal that is neither a
/// 64-bit signed integer nor a 64-bit float.
#[derive(Debug)]
pub struct ParseError;

impl ParseError {
    /// The fixed diagnostic text carried by every parse failure.
    pub fn message(&self) -> (r: &'static str)
        ensures
            r@ == "Unable to parse input"@,
    {
        "Unable to parse input"
    }
}

/// The rendering of a string payload: the text wrapped in double quotes,
/// with no escaping of embedded quotes or control characters.
pub open spec fn spec_quoted(s: Seq<char>) -> Seq<char> {
    "\""@ + s + "\""@
}

/// The rendering of a number: the decimal form of an integer, or the carried
/// text of a float.
pub open spec fn spec_number_to_string(n: JNumber) -> Seq<char> {
    match n.value {
        Number::Integer(i) => spec_i64_to_string(i as int),
        Number::Float(t) => t@,
    }
}

/// The rendering of one object entry: a tab, the quoted key, ` : `, and the
/// rendered value.  The one-tab indentation is fixed and is not increased
/// for nested values.
pub open spec fn spec_entry_to_string(e: (JString, JsonValue)) -> Seq<char>
    decreases e, 0int,
{
    "\t\""@ + e.0.value@ + "\" : "@ + spec_to_string(e.1)
}

/// The canonical rendering of a value tree.
pub open spec fn spec_to_string(v: JsonValue) -> Seq<char>
    decreases v, 0int,
{
    match v {
        JsonValue::JNull => "Null"@,
        JsonValue::JTrue => "True"@,
        JsonValue::JFalse => "False"@,
        JsonValue::JString(s) => spec_quoted(s.value@),
        JsonValue::JNumber(n) => spec_number_to_string(n),
        JsonValue::JArray(a) => spec_array_to_string(a.value@),
        JsonValue::JObject(o) => spec_object_to_string(o.spec_entries()),
    }
}

/// The rendering of an array: `[]` when empty, otherwise the elements joined
/// by comma-space inside brackets.
pub open spec fn spec_array_to_string(elems: Seq<JsonValue>) -> Seq<char>
    decreases elems, 1int,
{
    if elems.len() == 0 {
        "[]"@
    } else {
        "["@ + spec_array_items(elems) + "]"@
    }
}

/// The elements of a non-empty array joined by `, `, without the brackets.
pub open spec fn spec_array_items(elems: Seq<JsonValue>) -> Seq<char>
    decreases elems, 0int,
{
    if elems.len() == 0 {
        Seq::empty()
    } else if elems.len() == 1 {
        spec_to_string(elems[0])
    } else {
        spec_array_items(elems.drop_last()) + ", "@ + spec_to_string(elems.last())
    }
}

/// The rendering of an object: `{}` when empty, otherwise the entry lines
/// joined by `,\n` between `{\n` and `\n}`.
pub open spec fn spec_object_to_string(entries: Seq<(JString, JsonValue)>) -> Seq<char>
    decreases entries, 2int,
{
    if entries.len() == 0 {
        "{}"@
    } else {
        "{\n"@ + spec_object_items(entries) + "\n}"@
    }
}

/// The entry lines of a non-empty object joined by `,\n`, without the braces.
pub open spec fn spec_object_items(entries: Seq<(JString, JsonValue)>) -> Seq<char>
    decreases entries, 1int,
{
    if entries.len() == 0 {
        Seq::empty()
    } else if entries.len() == 1 {
        spec_entry_to_string(entries[0])
    } else {
        spec_object_items(entries.drop_last()) + ",\n"@ + spec_entry_to_string(entries.last())
    }
}

/// Whether some entry carries the key `k`.
pub open spec fn spec_entries_contain_key(entries: Seq<(JString, JsonValue)>, k: Seq<char>) -> bool {
    exists|i: int| 0 <= i < entries.len() && (#[trigger] entries[i]).0.value@ == k
}

/// The value stored under the first entry whose key is `k`, if any.
pub open spec fn spec_lookup(entries: Seq<(JString, JsonValue)>, k: Seq<char>) -> Option<JsonValue>
    decreases entries.len(),
{
    if entries.len() == 0 {
        None
    } else if entries[0].0.value@ == k {
        Some(entries[0].1)
    } else {
        spec_lookup(entries.drop_first(), k)
    }
}

/// The entry list after a keyed insert: the first entry whose key matches
/// keeps its place and its key and takes the new value; a fresh key is
/// appended at the end.
pub open spec fn spec_entries_insert(
    entries: Seq<(JString, JsonValue)>,
    key: JString,
    value: JsonValue,
) -> Seq<(JString, JsonValue)>
    decreases entries.len(),
{
    if entries.len() == 0 {
        seq![(key, value)]
    } else if entries[0].0.value@ == key.value@ {
        seq![(entries[0].0, value)] + entries.drop_first()
    } else {
        seq![entries[0]] + spec_entries_insert(entries.drop_first(), key, value)
    }
}

/// An insert whose key matches the entry at index `j`, and no earlier one,
/// updates exactly that entry's value.
proof fn lemma_entries_insert_found(
    entries: Seq<(JString, JsonValue)>,
    key: JString,
    value: JsonValue,
    j: int,
)
    requires
        0 <= j < entries.len(),
        entries[j].0.value@ == key.value@,
        forall|i: int| 0 <= i < j ==> (#[trigger] entries[i]).0.value@ != key.value@,
    ensures
        spec_entries_insert(entries, key, value) == entries.update(j, ((entries[j].0, value))),
    decreases entries.len(),
{
    if j == 0 {
        assert(spec_entries_insert(entries, key, value) =~= entries.update(
            0,
            ((entries[0].0, value)),
        ));
    } else {
        let rest = entries.drop_first();
        assert(rest[j - 1] == entries[j]);
        assert(forall|i: int| 0 <= i < j - 1 ==> (#[trigger] rest[i]).0.value@ != key.value@);
        lemma_entries_insert_found(rest, key, value, j - 1);
        assert(spec_entries_insert(entries, key, value) =~= entries.update(
            j,
            ((entries[j].0, value)),
        ));
    }
}

/// An insert whose key matches no entry appends the pair at the end.
proof fn lemma_entries_insert_absent(
    entries: Seq<(JString, JsonValue)>,
    key: JString,
    value: JsonValue,
)
    requires
        forall|i: int|
            0 <= i < entries.len() ==> (#[trigger] entries[i]).0.value@ != key.value@,
    ensures
        spec_entries_insert(entries, key, value) == entries.push((key, value)),
    decreases entries.len(),
{
    if entries.len() == 0 {
        assert(spec_entries_insert(entries, key, value) =~= entries.push((key, value)));
    } else {
        let rest = entries.drop_first();
        lemma_entries_insert_absent(rest, key, value);
        assert(spec_entries_insert(entries, key, value) =~= entries.push((key, value)));
    }
}

/// Overwrite law: inserting a key that is already present replaces the value
/// stored under it and does not grow the entry list.
pub proof fn lemma_insert_overwrite(
    entries: Seq<(JString, JsonValue)>,
    key: JString,
    value: JsonValue,
)
    requires
        spec_entries_contain_key(entries, key.value@),
    ensures
        spec_entries_insert(entries, key, value).len() == entries.len(),
        spec_lookup(spec_entries_insert(entries, key, value), key.value@) == Some(value),
    decreases entries.len(),
{
    if entries.len() > 0 {
        if entries[0].0.value@ != key.value@ {
            let rest = entries.drop_first();
            assert(spec_entries_contain_key(rest, key.value@)) by {
                let w = choose|i: int|
                    0 <= i < entries.len() && (#[trigger] entries[i]).0.value@ == key.value@;
                assert(rest[w - 1] == entries[w]);
            }
            lemma_insert_overwrite(rest, key, value);
            let after = spec_entries_insert(entries, key, value);
            assert(after.drop_first() =~= spec_entries_insert(rest, key, value));
        }
    }
}

/// Inserting a fresh key appends one entry holding the given value.
pub proof fn lemma_insert_fresh(
    entries: Seq<(JString, JsonValue)>,
    key: JString,
    value: JsonValue,
)
    requires
        !spec_entries_contain_key(entries, key.value@),
    ensures
        spec_entries_insert(entries, key, value).len() == entries.len() + 1,
        spec_lookup(spec_entries_insert(entries, key, value), key.value@) == Some(value),
    decreases entries.len(),
{
    if entries.len() > 0 {
        assert(entries[0].0.value@ != key.value@);
        let rest = entries.drop_first();
        assert(forall|i: int|
            0 <= i < rest.len() ==> (#[trigger] rest[i]) == entries[i + 1]);
        lemma_insert_fresh(rest, key, value);
        let after = spec_entries_insert(entries, key, value);
        assert(after.drop_first() =~= spec_entries_insert(rest, key, value));
    }
}

/// An insert leaves the value stored under every other key unchanged.
pub proof fn lemma_insert_preserves_other_keys(
    entries: Seq<(JString, JsonValue)>,
    key: JString,
    value: JsonValue,
    k: Seq<char>,
)
    requires
        k != key.value@,
    ensures
        spec_lookup(spec_entries_insert(entries, key, value), k) == spec_lookup(entries, k),
    decreases entries.len(),
{
    let after = spec_entries_insert(entries, key, value);
    if entries.len() == 0 {
        assert(after == seq![(key, value)]);
        assert(after[0] == (key, value));
        assert(after.drop_first() =~= Seq::<(JString, JsonValue)>::empty());
        assert(after.len() == 1);
        assert(spec_lookup(after.drop_first(), k) == None::<JsonValue>);
        assert(spec_lookup(after, k) == None::<JsonValue>);
    } else {
        let rest = entries.drop_first();
        if entries[0].0.value@ == key.value@ {
            assert(after == seq![(entries[0].0, value)] + rest);
            assert(after[0] == ((entries[0].0, value)));
            assert(after.drop_first() =~= rest);
        } else {
            lemma_insert_preserves_other_keys(rest, key, value, k);
            assert(after == seq![entries[0]] + spec_entries_insert(rest, key, value));
            assert(after[0] == entries[0]);
            assert(after.drop_first() =~= spec_entries_insert(rest, key, value));
        }
    }
}

impl JString {
    /// Renders the string payload wrapped in double quotes, with no escaping.
    pub fn to_string(&self) -> (r: String)
        ensures
            r@ == spec_quoted(self.value@),
    {
        let mut s = "\"".to_owned();
        s.append(self.value.as_str());
        s.append("\"");
        s
    }
}

impl JNumber {
    /// Renders an integer in base 10, or hands back the carried float text.
    pub fn to_string(&self) -> (r: String)
        ensures
            r@ == spec_number_to_string(*self),
    {
        match &self.value {
            Number::Integer(i) => i64_to_string(*i),
            Number::Float(t) => t.clone(),
        }
    }

    /// Parses a numeric literal: a 64-bit signed integer when the text is a
    /// well-formed integer literal, the supplied float rendering otherwise,
    /// and a `ParseError` when neither exists.
    ///
    /// `float_rendering` stands for the outcome of the platform's
    /// floating-point parse of `string`: the rendered decimal text of the
    /// parsed 64-bit float, or `None` when that parse fails too.  Floating
    /// point stays outside the verified core, so the fallback is handed in
    /// as data; the integer attempt always comes first, so `3` becomes an
    /// integer while `3.0` becomes a float.
    pub fn form_string(string: &str, float_rendering: Option<String>) -> (r: Result<
        JNumber,
        ParseError,
    >)
        ensures
            ({
                match spec_parse_i64(string@) {
                    Some(i) => r == Ok::<JNumber, ParseError>(
                        (JNumber { value: Number::Integer(i) }),
                    ),
                    None => match float_rendering {
                        Some(t) => r == Ok::<JNumber, ParseError>(
                            (JNumber { value: Number::Float(t) }),
                        ),
                        None => r == Err::<JNumber, ParseError>(ParseError),
                    },
                }
            }),
    {
        match parse_i64(string) {
            Some(i) => Ok(JNumber { value: Number::Integer(i) }),
            None => match float_rendering {
                Some(t) => Ok(JNumber { value: Number::Float(t) }),
                None => Err(ParseError),
            },
        }
    }
}

impl JArray {
    /// Renders the array.
    pub fn to_string(&self) -> (r: String)
        ensures
            r@ == spec_array_to_string(self.value@),
        decreases *self, 0int,
    {
        array_to_string(&self.value)
    }
}

impl JObject {
    /// The entries of the object, in insertion order.
    pub closed spec fn spec_entries(&self) -> Seq<(JString, JsonValue)> {
        self.entries@
    }

    /// Well-formedness: all keys are distinct.
    pub open spec fn wf(&self) -> bool {
        forall|i: int, j: int|
            0 <= i < j < self.spec_entries().len() ==> (#[trigger] self.spec_entries()[i]).0.value@
                != (#[trigger] self.spec_entries()[j]).0.value@
    }

    /// Creates an empty object.
    pub fn new() -> (r: JObject)
        ensures
            r.spec_entries() == Seq::<(JString, JsonValue)>::empty(),
            r.wf(),
    {
        JObject { entries: Vec::new() }
    }

    /// The number of entries.
    pub fn len(&self) -> (r: usize)
        ensures
            r == self.spec_entries().len(),
    {
        self.entries.len()
    }

    /// Inserts `value` under `key`: overwrites the value in place when the
    /// key is already present, appends a new entry otherwise.
    pub fn insert(&mut self, key: JString, value: JsonValue)
        requires
            old(self).wf(),
        ensures
            final(self).wf(),
            final(self).spec_entries() == spec_entries_insert(
                old(self).spec_entries(),
                key,
                value,
            ),
    {
        let n = self.entries.len();
        let mut j: usize = 0;
        while j < n
            invariant
                *self == *old(self),
                old(self).wf(),
                n == self.entries@.len(),
                j <= n,
                forall|i: int|
                    0 <= i < j ==> (#[trigger] self.entries@[i]).0.value@ != key.value@,
            decreases n - j,
        {
            if self.entries[j].0.value == key.value {
                let pair = self.entries.remove(j);
                self.entries.insert(j, (pair.0, value));
                proof {
                    let olde = old(self).spec_entries();
                    assert(self.entries@ =~= olde.update(j as int, ((olde[j as int].0, value))));
                    lemma_entries_insert_found(olde, key, value, j as int);
                    assert forall|a: int, b: int|
                        0 <= a < b < self.entries@.len() implies (#[trigger] self.entries@[a]).0.value@
                        != (#[trigger] self.entries@[b]).0.value@ by {
                        assert(self.entries@[a].0 == olde[a].0);
                        assert(self.entries@[b].0 == olde[b].0);
                        assert(olde[a].0.value@ != olde[b].0.value@);
                    }
                }
                return;
            }
            j = j + 1;
        }
        self.entries.push((key, value));
        proof {
            let olde = old(self).spec_entries();
            lemma_entries_insert_absent(olde, key, value);
            assert(self.entries@ =~= olde.push((key, value)));
            assert forall|a: int, b: int|
                0 <= a < b < self.entries@.len() implies (#[trigger] self.entries@[a]).0.value@
                != (#[trigger] self.entries@[b]).0.value@ by {
                if b < olde.len() {
                    assert(olde[a].0.value@ != olde[b].0.value@);
                } else {
                    assert(self.entries@[b] == (key, value));
                    assert(self.entries@[a] == olde[a]);
                }
            }
        }
    }

    /// Renders the object.
    pub fn to_string(&self) -> (r: String)
        ensures
            r@ == spec_object_to_string(self.spec_entries()),
        decreases *self, 0int,
    {
        hashmap_to_string(self)
    }
}

impl JsonValue {
    /// Renders a value tree to its canonical string form.  Pure, total and
    /// deterministic: the result is pinned to `spec_to_string`.
    pub fn to_string(&self) -> (r: String)
        ensures
            r@ == spec_to_string(*self),
        decreases *self, 1int,
    {
        match self {
            JsonValue::JNull => "Null".to_owned(),
            JsonValue::JTrue => "True".to_owned(),
            JsonValue::JFalse => "False".to_owned(),
            JsonValue::JString(s) => s.to_string(),
            JsonValue::JNumber(n) => n.to_string(),
            JsonValue::JArray(a) => a.to_string(),
            JsonValue::JObject(o) => o.to_string(),
        }
    }
}

/// Renders the elements of an array joined by `, ` inside brackets, or `[]`
/// when there are none.
pub fn array_to_string(vector: &Vec<JsonValue>) -> (r: String)
    ensures
        r@ == spec_array_to_string(vector@),
    decreases vector@, 2int,
{
    if vector.len() == 0 {
        return "[]".to_owned();
    }
    let mut result = "[".to_owned();
    let mut i: usize = 0;
    proof {
        assert(vector@.subrange(0, 0) =~= Seq::<JsonValue>::empty());
        assert(result@ + spec_array_items(vector@.subrange(0, 0)) =~= result@);
    }
    while i < vector.len()
        invariant
            i <= vector@.len(),
            0 < vector@.len(),
            result@ == "["@ + spec_array_items(vector@.subrange(0, i as int)),
        decreases vector@.len() - i,
    {
        if i > 0 {
            result.append(", ");
        }
        let item = vector[i].to_string();
        result.append(item.as_str());
        proof {
            let s = vector@;
            let pre = s.subrange(0, i as int);
            let cur = s.subrange(0, i as int + 1);
            assert(cur.last() == s[i as int]);
            if i == 0 {
                assert(cur.len() == 1);
                assert(cur[0] == s[0]);
                assert(result@ =~= "["@ + spec_array_items(cur));
            } else {
                assert(cur.drop_last() =~= pre);
                assert(result@ =~= "["@ + spec_array_items(cur));
            }
        }
        i = i + 1;
    }
    proof {
        assert(vector@.subrange(0, vector@.len() as int) =~= vector@);
    }
    result.append("]");
    result
}

/// Renders one object entry as a tab-indented `"key" : value` line.
fn entry_to_string(e: &(JString, JsonValue)) -> (r: String)
    ensures
        r@ == spec_entry_to_string(*e),
    decreases *e, 1int,
{
    let mut line = "\t\"".to_owned();
    line.append(e.0.value.as_str());
    line.append("\" : ");
    let item = e.1.to_string();
    line.append(item.as_str());
    line
}

/// Renders the entries of an object as tab-indented `"key" : value` lines
/// joined by `,\n` between braces, or `{}` when there are none.
pub fn hashmap_to_string(hashmap: &JObject) -> (r: String)
    ensures
        r@ == spec_object_to_string(hashmap.spec_entries()),
    decreases hashmap.spec_entries(), 2int,
{
    if hashmap.entries.len() == 0 {
        return "{}".to_owned();
    }
    let mut result = "{\n".to_owned();
    let mut i: usize = 0;
    proof {
        assert(hashmap.entries@.subrange(0, 0) =~= Seq::<(JString, JsonValue)>::empty());
        assert(result@ + spec_object_items(hashmap.entries@.subrange(0, 0)) =~= result@);
    }
    while i < hashmap.entries.len()
        invariant
            i <= hashmap.entries@.len(),
            0 < hashmap.entries@.len(),
            result@ == "{\n"@ + spec_object_items(hashmap.entries@.subrange(0, i as int)),
        decreases hashmap.entries@.len() - i,
    {
        if i > 0 {
            result.append(",\n");
        }
        let line = entry_to_string(&hashmap.entries[i]);
        result.append(line.as_str());
        proof {
            let s = hashmap.entries@;
            let pre = s.subrange(0, i as int);
            let cur = s.subrange(0, i as int + 1);
            assert(cur.last() == s[i as int]);
            if i == 0 {
                assert(cur.len() == 1);
                assert(cur[0] == s[0]);
                assert(result@ =~= "{\n"@ + spec_object_items(cur));
            } else {
                assert(cur.drop_last() =~= pre);
                assert(spec_object_items(cur) == spec_object_items(pre) + ",\n"@
                    + spec_entry_to_string(cur.last()));
                assert(result@ =~= "{\n"@ + spec_object_items(cur));
            }
        }
        i = i + 1;
    }
    proof {
        assert(hashmap.entries@.subrange(0, hashmap.entries@.len() as int) =~= hashmap.entries@);
    }
    result.append("\n}");
    result
}

impl Json {
    /// Creates a `Json` that contains an empty object.
    pub fn new() -> (r: Json)
        ensures
            (r.element matches JsonValue::JObject(o) && o.spec_entries().len() == 0 && o.wf()),
            spec_to_string(r.element) == "{}"@,
    {
        Json { element: JsonValue::JObject(JObject::new()) }
    }

    /// Returns the canonical string form of the contained value.
    pub fn to_string(&self) -> (r: String)
        ensures
            r@ == spec_to_string(self.element),
    {
        self.element.to_string()
    }

    /// Replaces the contained value wholesale.
    pub fn replace_element(&mut self, value: JsonValue)
        ensures
            final(self).element == value,
    {
        self.element = value;
    }
}

/// Serialization is deterministic: the rendering of a value is a function of
/// the value alone, so repeated renderings of the same unmutated tree are
/// identical.
pub proof fn lemma_serialize_deterministic(v: JsonValue, r1: Seq<char>, r2: Seq<char>)
    requires
        r1 == spec_to_string(v),
        r2 == spec_to_string(v),
    ensures
        r1 == r2,
{
}

} // verus!
