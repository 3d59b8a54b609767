//! JSON: values that came in, and objects that go out.

use serde_json::Value;
use vstd::prelude::*;

use crate::ids::hex_digit;
use crate::text::{decimal, decimal_text, same_text};

verus! {

/// A JSON value. A member name comes once in an object.
#[derive(Debug)]
pub enum Json {
    Null,
    Bool(bool),
    Int(i128),
    /// A number that is not whole, as it is written.
    Decimal(String),
    Text(String),
    List(Vec<Json>),
    Object(Vec<(String, Json)>),
}

/// The first member with a name.
pub open spec fn find_member(members: Seq<(String, Json)>, name: Seq<char>) -> Option<Json>
    decreases members.len(),
{
    if members.len() == 0 {
        None
    } else if members[0].0@ == name {
        Some(members[0].1)
    } else {
        find_member(members.skip(1), name)
    }
}

impl Json {
    /// The member of an object with a name; no other value has members.
    pub open spec fn member(self, name: Seq<char>) -> Option<Json> {
        match self {
            Json::Object(members) => find_member(members@, name),
            _ => None,
        }
    }

    /// The text that a value is.
    pub open spec fn text(self) -> Option<Seq<char>> {
        match self {
            Json::Text(t) => Some(t@),
            _ => None,
        }
    }

    /// The signed 64-bit number that a value is.
    pub open spec fn whole(self) -> Option<i64> {
        match self {
            Json::Int(n) => if i64::MIN <= n <= i64::MAX {
                Some(n as i64)
            } else {
                None
            },
            _ => None,
        }
    }

    /// The elements of a list; any other value has none.
    pub open spec fn items(self) -> Seq<Json> {
        match self {
            Json::List(list) => list@,
            _ => Seq::empty(),
        }
    }

    /// The text of a member.
    pub open spec fn member_text(self, name: Seq<char>) -> Option<Seq<char>> {
        match self.member(name) {
            Some(value) => value.text(),
            None => None,
        }
    }

    /// The member of an object with a name.
    pub fn get(&self, name: &str) -> (found: Option<&Json>)
        ensures
            match found {
                Some(value) => self.member(name@) == Some(*value),
                None => self.member(name@) is None,
            },
    {
        match self {
            Json::Object(members) => {
                let count: usize = members.len();
                let mut i: usize = 0;
                proof {
                    assert(members@.skip(0) =~= members@);
                }
                while i < count
                    invariant
                        *self == Json::Object(*members),
                        count == members@.len(),
                        i <= count,
                        find_member(members@, name@) == find_member(members@.skip(i as int), name@),
                    decreases count - i,
                {
                    proof {
                        assert(members@.skip(i as int)[0] == members@[i as int]);
                        assert(members@.skip(i as int).skip(1) =~= members@.skip(i + 1));
                    }
                    if same_text(members[i].0.as_str(), name) {
                        return Some(&members[i].1);
                    }
                    i += 1;
                }
                None
            },
            _ => None,
        }
    }

    /// The text that a value is.
    pub fn as_text(&self) -> (text: Option<&str>)
        ensures
            match text {
                Some(t) => self.text() == Some(t@),
                None => self.text() is None,
            },
    {
        match self {
            Json::Text(t) => Some(t.as_str()),
            _ => None,
        }
    }

    /// The signed 64-bit number that a value is.
    pub fn as_i64(&self) -> (number: Option<i64>)
        ensures
            number == self.whole(),
    {
        match self {
            Json::Int(n) => {
                if i64::MIN as i128 <= *n && *n <= i64::MAX as i128 {
                    Some(*n as i64)
                } else {
                    None
                }
            },
            _ => None,
        }
    }

    /// The text of a member.
    pub fn get_text(&self, name: &str) -> (text: Option<&str>)
        ensures
            match text {
                Some(t) => self.member_text(name@) == Some(t@),
                None => self.member_text(name@) is None,
            },
    {
        match self.get(name) {
            Some(value) => value.as_text(),
            None => None,
        }
    }
}

/// What a JSON value is.
#[verifier::ext_equal]
pub enum JsonModel {
    Null,
    Bool(bool),
    Int(int),
    Decimal(Seq<char>),
    Text(Seq<char>),
    List(Seq<JsonModel>),
    Object(Seq<(Seq<char>, JsonModel)>),
}

/// What a JSON value is.
pub open spec fn model_of(value: Json) -> JsonModel
    decreases value,
{
    match value {
        Json::Null => JsonModel::Null,
        Json::Bool(b) => JsonModel::Bool(b),
        Json::Int(n) => JsonModel::Int(n as int),
        Json::Decimal(t) => JsonModel::Decimal(t@),
        Json::Text(t) => JsonModel::Text(t@),
        Json::List(list) => JsonModel::List(
            Seq::new(
                list@.len(),
                |i: int|
                    if 0 <= i < list@.len() {
                        model_of(list@[i])
                    } else {
                        JsonModel::Null
                    },
            ),
        ),
        Json::Object(members) => JsonModel::Object(
            Seq::new(
                members@.len(),
                |i: int|
                    if 0 <= i < members@.len() {
                        (members@[i].0@, model_of(members@[i].1))
                    } else {
                        (Seq::empty(), JsonModel::Null)
                    },
            ),
        ),
    }
}

#[verifier::external_type_specification]
#[verifier::external_body]
pub struct ExJsonValue(serde_json::Value);

/// What a `serde_json::Value` holds.
pub uninterp spec fn value_model(value: serde_json::Value) -> JsonModel;

/// What `serde_json::from_str` reads from a text as a `serde_json::Value`; `None` where it
/// rejects the text.
pub uninterp spec fn json_document(text: Seq<char>) -> Option<JsonModel>;

/// The first member with a name.
pub open spec fn find_model(members: Seq<(Seq<char>, JsonModel)>, name: Seq<char>) -> Option<
    JsonModel,
>
    decreases members.len(),
{
    if members.len() == 0 {
        None
    } else if members[0].0 == name {
        Some(members[0].1)
    } else {
        find_model(members.skip(1), name)
    }
}

/// The member of an object with a name; no other value has members.
pub open spec fn member_model(value: JsonModel, name: Seq<char>) -> Option<JsonModel> {
    match value {
        JsonModel::Object(members) => find_model(members, name),
        _ => None,
    }
}

/// Whether a JSON text is that of a text, of a whole number that is not negative and fits 64
/// bits, or of a truth value.
pub open spec fn is_plain_text_of(text: Seq<char>, value: JsonModel) -> bool {
    match value {
        JsonModel::Text(t) => text == json_string(t),
        JsonModel::Int(n) => 0 <= n <= u64::MAX && text == decimal_text(n as nat),
        JsonModel::Bool(b) => text == json_bool(b),
        _ => false,
    }
}

/// Reads a JSON text with `serde_json::from_str`. Claimed too: texts, whole numbers and truth
/// values are read for what they are, and so is each member of an object of plain members
/// with different names.
#[verifier::external_body]
fn serde_json_parse(text: &str) -> (read: Option<serde_json::Value>)
    ensures
        read is Some <==> json_document(text@) is Some,
        read is Some ==> json_document(text@) == Some(value_model(read->0)),
        forall|value: JsonModel|
            #[trigger] is_plain_text_of(text@, value) ==> read is Some && value_model(read->0)
                == value,
        forall|members: Seq<Member>, i: int, value: JsonModel|
            text@ == #[trigger] json_object(members) && plain(members) && 0 <= i < members.len()
                && #[trigger] is_plain_text_of(members[i].1, value) ==> read is Some
                && member_model(value_model(read->0), members[i].0) == Some(value),
{
    serde_json::from_str(text).ok()
}

/// Turns a `serde_json::Value` into a value of the library, arm by arm. Claimed: it holds the
/// same. The members of an object are in the order in which `serde_json::Map` gives them,
/// that of their names.
#[verifier::external_body]
fn serde_json_convert(value: &serde_json::Value) -> (json: Json)
    ensures
        model_of(json) == value_model(*value),
{
    match value {
        Value::Null => Json::Null,
        Value::Bool(flag) => Json::Bool(*flag),
        Value::Number(n) => n.as_i128().map_or(Json::Decimal(n.to_string()), Json::Int),
        Value::String(text) => Json::Text(text.clone()),
        Value::Array(list) => Json::List(list.iter().map(serde_json_convert).collect()),
        Value::Object(map) => Json::Object(
            map.iter().map(|(name, part)| (name.clone(), serde_json_convert(part))).collect(),
        ),
    }
}

/// Reads a JSON text.
pub fn document(text: &str) -> (value: Option<Json>)
    ensures
        value is Some <==> json_document(text@) is Some,
        value matches Some(v) ==> json_document(text@) == Some(model_of(v)),
        forall|known: JsonModel|
            #[trigger] is_plain_text_of(text@, known) ==> json_document(text@) == Some(known),
        forall|members: Seq<Member>, i: int, known: JsonModel|
            text@ == #[trigger] json_object(members) && plain(members) && 0 <= i < members.len()
                && #[trigger] is_plain_text_of(members[i].1, known) ==> json_document(text@) is Some
                && member_model(json_document(text@)->0, members[i].0) == Some(known),
{
    match serde_json_parse(text) {
        Some(value) => Some(serde_json_convert(&value)),
        None => None,
    }
}

/// A character as it stands in a JSON string.
pub open spec fn escaped(c: char) -> Seq<char> {
    let v = c as int;
    if c == '"' || c == '\\' {
        seq!['\\', c]
    } else if v == 8 {
        seq!['\\', 'b']
    } else if v == 9 {
        seq!['\\', 't']
    } else if v == 10 {
        seq!['\\', 'n']
    } else if v == 12 {
        seq!['\\', 'f']
    } else if v == 13 {
        seq!['\\', 'r']
    } else if v < 32 {
        seq!['\\', 'u', '0', '0', hex_digit(v / 16), hex_digit(v % 16)]
    } else {
        seq![c]
    }
}

/// The characters of a text as they stand in a JSON string.
pub open spec fn escaped_all(text: Seq<char>) -> Seq<char>
    decreases text.len(),
{
    if text.len() == 0 {
        Seq::empty()
    } else {
        escaped_all(text.drop_last()) + escaped(text.last())
    }
}

/// A text as a JSON string.
pub open spec fn json_string(text: Seq<char>) -> Seq<char> {
    seq!['"'] + escaped_all(text) + seq!['"']
}

/// Writes a text as a JSON string, with the `Display` form of `serde_json::Value`.
/// Claimed: the quotation mark, the backslash and the control characters are escaped,
/// all others stand as they are.
#[verifier::external_body]
fn serde_json_string(text: &str) -> (quoted: String)
    ensures
        quoted@ == json_string(text@),
{
    serde_json::Value::from(text).to_string()
}

/// A text as a JSON string.
pub fn quote(text: &str) -> (quoted: String)
    ensures
        quoted@ == json_string(text@),
{
    serde_json_string(text)
}

/// A truth value in JSON.
pub open spec fn json_bool(value: bool) -> Seq<char> {
    if value {
        "true"@
    } else {
        "false"@
    }
}

/// A member: its name and its value as JSON text.
pub type Member = (Seq<char>, Seq<char>);

/// Members separated by commas.
pub open spec fn json_members(members: Seq<Member>) -> Seq<char>
    decreases members.len(),
{
    if members.len() == 0 {
        Seq::empty()
    } else {
        let before = json_members(members.drop_last());
        let comma = if members.len() == 1 {
            Seq::empty()
        } else {
            seq![',']
        };
        before + comma + json_string(members.last().0) + seq![':'] + members.last().1
    }
}

/// An object in JSON, without white space.
pub open spec fn json_object(members: Seq<Member>) -> Seq<char> {
    seq!['{'] + json_members(members) + seq!['}']
}

/// Two blanks for every step of depth.
pub open spec fn indent(depth: nat) -> Seq<char> {
    Seq::new(2 * depth, |i: int| ' ')
}

/// What stands before a part of an indented object or list: a line break, and a comma where
/// it is not the first.
pub open spec fn part_break(first: bool) -> Seq<char> {
    if first {
        "\n"@
    } else {
        ",\n"@
    }
}

/// The members of an object, each on a line of its own.
pub open spec fn indented_members(members: Seq<Member>, depth: nat) -> Seq<char>
    decreases members.len(),
{
    if members.len() == 0 {
        Seq::empty()
    } else {
        indented_members(members.drop_last(), depth) + part_break(members.len() == 1) + indent(
            depth + 1,
        ) + json_string(members.last().0) + ": "@ + members.last().1
    }
}

/// An object in JSON at some depth, each member on a line of its own.
pub open spec fn indented_object(members: Seq<Member>, depth: nat) -> Seq<char> {
    if members.len() == 0 {
        "{}"@
    } else {
        "{"@ + indented_members(members, depth) + "\n"@ + indent(depth) + "}"@
    }
}

/// The elements of a list, each on a line of its own.
pub open spec fn indented_items(items: Seq<Seq<char>>, depth: nat) -> Seq<char>
    decreases items.len(),
{
    if items.len() == 0 {
        Seq::empty()
    } else {
        indented_items(items.drop_last(), depth) + part_break(items.len() == 1) + indent(depth + 1)
            + items.last()
    }
}

/// A list in JSON at some depth, each element on a line of its own.
pub open spec fn indented_list(items: Seq<Seq<char>>, depth: nat) -> Seq<char> {
    if items.len() == 0 {
        "[]"@
    } else {
        "["@ + indented_items(items, depth) + "\n"@ + indent(depth) + "]"@
    }
}

/// Appends two blanks for every step of depth.
fn push_indent(text: &mut String, depth: u8)
    ensures
        final(text)@ == old(text)@ + indent(depth as nat),
{
    let ghost before = text@;
    let mut i: u8 = 0;
    assert(text@ =~= before + indent(0));
    while i < depth
        invariant
            i <= depth,
            text@ == before + indent(i as nat),
        decreases depth - i,
    {
        text.push(' ');
        text.push(' ');
        assert(text@ =~= before + indent((i + 1) as nat));
        i += 1;
    }
}

/// A list in JSON at some depth, of values that are given as JSON text.
pub fn list_text(items: &Vec<String>, depth: u8) -> (text: String)
    requires
        depth < 255,
    ensures
        text@ == indented_list(texts_of(items@), depth as nat),
{
    let ghost all = texts_of(items@);
    let count: usize = items.len();
    if count == 0 {
        return "[]".to_owned();
    }
    let mut text = "[".to_owned();
    let mut i: usize = 0;
    assert(text@ =~= "["@ + indented_items(all.take(0), depth as nat));
    while i < count
        invariant
            depth < 255,
            all == texts_of(items@),
            count == items@.len(),
            i <= count,
            text@ == "["@ + indented_items(all.take(i as int), depth as nat),
        decreases count - i,
    {
        let ghost before = text@;
        if i == 0 {
            text.append("\n");
        } else {
            text.append(",\n");
        }
        push_indent(&mut text, depth + 1);
        text.append(items[i].as_str());
        proof {
            assert(all.take(i + 1).drop_last() =~= all.take(i as int));
            assert(all.take(i + 1).last() == items@[i as int]@);
            assert(text@ =~= "["@ + indented_items(all.take(i + 1), depth as nat));
        }
        i += 1;
    }
    assert(all.take(count as int) =~= all);
    text.append("\n");
    push_indent(&mut text, depth);
    text.append("]");
    text
}

/// Whether a JSON text is a string, a whole number that is not negative, or a truth value.
pub open spec fn plain_value(value: Seq<char>) -> bool {
    ||| exists|text: Seq<char>| value == #[trigger] json_string(text)
    ||| exists|n: u64| value == #[trigger] decimal_text(n as nat)
    ||| value == "true"@
    ||| value == "false"@
}

/// Whether members have different names and plain values. The first is not named like
/// `serde_json`'s private mark of a raw value, behind which a text is read as a value.
pub open spec fn plain(members: Seq<Member>) -> bool {
    &&& members.len() > 0 ==> members[0].0 != "$serde_json::private::RawValue"@
    &&& forall|i: int| 0 <= i < members.len() ==> plain_value((#[trigger] members[i]).1)
    &&& forall|i: int, j: int|
        0 <= i < j < members.len() ==> (#[trigger] members[i]).0 != (#[trigger] members[j]).0
}

/// Whether the values of members are plain or objects of plain members.
pub open spec fn nested(members: Seq<Member>) -> bool {
    forall|i: int|
        0 <= i < members.len() ==> plain_value((#[trigger] members[i]).1) || exists|
            inner: Seq<Member>,
        |
            plain(inner) && members[i].1 == #[trigger] json_object(inner)
}

/// What is found under a name in a JSON text.
#[verifier::ext_equal]
pub enum Found {
    /// No object, or no such member.
    Nothing,
    Text(Seq<char>),
    /// A whole number that is not negative and fits 64 bits.
    Whole(u64),
    /// A list of nothing but texts.
    Texts(Seq<Seq<char>>),
    Other,
}

/// What is found under a name in a JSON text.
#[derive(Debug)]
pub enum FoundMember {
    Nothing,
    Text(String),
    Whole(u64),
    Texts(Vec<String>),
    Other,
}

/// What a list of texts holds.
pub open spec fn texts_of(list: Seq<String>) -> Seq<Seq<char>> {
    list.map_values(|t: String| t@)
}

impl View for FoundMember {
    type V = Found;

    open spec fn view(&self) -> Found {
        match self {
            FoundMember::Nothing => Found::Nothing,
            FoundMember::Text(t) => Found::Text(t@),
            FoundMember::Whole(n) => Found::Whole(*n),
            FoundMember::Texts(list) => Found::Texts(texts_of(list@)),
            FoundMember::Other => Found::Other,
        }
    }
}

/// What a value is to whoever looks it up.
pub open spec fn found_in(value: JsonModel) -> Found {
    match value {
        JsonModel::Text(t) => Found::Text(t),
        JsonModel::Int(n) => if 0 <= n <= u64::MAX {
            Found::Whole(n as u64)
        } else {
            Found::Other
        },
        JsonModel::List(items) => if all_texts(items) {
            Found::Texts(items.map_values(|item: JsonModel| item->Text_0))
        } else {
            Found::Other
        },
        _ => Found::Other,
    }
}

/// Whether values are nothing but texts.
pub open spec fn all_texts(items: Seq<JsonModel>) -> bool {
    forall|i: int| 0 <= i < items.len() ==> (#[trigger] items[i]) is Text
}

/// What a value is to whoever looks it up.
pub fn found_of(value: &Json) -> (found: FoundMember)
    ensures
        found@ == found_in(model_of(*value)),
{
    match value {
        Json::Text(t) => FoundMember::Text(t.clone()),
        Json::Int(n) => {
            if 0 <= *n && *n <= u64::MAX as i128 {
                FoundMember::Whole(*n as u64)
            } else {
                FoundMember::Other
            }
        },
        Json::List(list) => {
            let ghost items = model_of(*value)->List_0;
            let count: usize = list.len();
            let mut texts: Vec<String> = Vec::new();
            let mut i: usize = 0;
            while i < count
                invariant
                    *value == Json::List(*list),
                    items == model_of(*value)->List_0,
                    count == list@.len(),
                    count == items.len(),
                    i <= count,
                    texts@.len() == i,
                    forall|k: int|
                        0 <= k < i ==> #[trigger] items[k] == JsonModel::Text(texts@[k]@),
                decreases count - i,
            {
                assert(items[i as int] == model_of(list@[i as int]));
                match &list[i] {
                    Json::Text(t) => {
                        texts.push(t.clone());
                    },
                    _ => {
                        assert(!(items[i as int] is Text));
                        return FoundMember::Other;
                    },
                }
                i += 1;
            }
            proof {
                assert(all_texts(items));
                assert(texts_of(texts@) =~= items.map_values(|item: JsonModel| item->Text_0));
            }
            FoundMember::Texts(texts)
        },
        _ => FoundMember::Other,
    }
}

/// What is found under a name in a JSON text.
pub open spec fn json_lookup(text: Seq<char>, name: Seq<char>) -> Found {
    match json_document(text) {
        Some(value) => match member_model(value, name) {
            Some(member) => found_in(member),
            None => Found::Nothing,
        },
        None => Found::Nothing,
    }
}

/// Whether a JSON text is this finding.
pub open spec fn is_found(value: Seq<char>, found: Found) -> bool {
    match found {
        Found::Nothing => false,
        Found::Text(text) => value == json_string(text),
        Found::Whole(n) => value == decimal_text(n as nat),
        Found::Texts(_) => false,
        Found::Other => value == "true"@ || value == "false"@,
    }
}

/// The value that a finding was made of.
pub open spec fn value_found(value: Seq<char>, found: Found) -> JsonModel {
    match found {
        Found::Text(text) => JsonModel::Text(text),
        Found::Whole(n) => JsonModel::Int(n as int),
        _ => JsonModel::Bool(value == "true"@),
    }
}

/// A finding is what a JSON text is read for.
pub proof fn lemma_value_found(value: Seq<char>, found: Found)
    requires
        is_found(value, found),
    ensures
        is_plain_text_of(value, value_found(value, found)),
        found_in(value_found(value, found)) == found,
{
}

proof fn lemma_find_model(members: Seq<(String, Json)>, name: Seq<char>)
    ensures
        find_model(
            members.map_values(|m: (String, Json)| (m.0@, model_of(m.1))),
            name,
        ) == match find_member(members, name) {
            Some(value) => Some(model_of(value)),
            None => None,
        },
    decreases members.len(),
{
    let models = members.map_values(|m: (String, Json)| (m.0@, model_of(m.1)));
    if members.len() > 0 {
        lemma_find_model(members.skip(1), name);
        assert(models.skip(1) =~= members.skip(1).map_values(
            |m: (String, Json)| (m.0@, model_of(m.1)),
        ));
    }
}

/// The members of a value are those of its model.
pub proof fn lemma_member_model(value: Json, name: Seq<char>)
    ensures
        member_model(model_of(value), name) == match value.member(name) {
            Some(member) => Some(model_of(member)),
            None => None,
        },
{
    if let Json::Object(members) = value {
        lemma_find_model(members@, name);
        assert(model_of(value)->Object_0 =~= members@.map_values(
            |m: (String, Json)| (m.0@, model_of(m.1)),
        ));
    }
}

/// Looks a member up in a JSON text.
pub fn lookup(text: &str, name: &str) -> (found: FoundMember)
    ensures
        found@ == json_lookup(text@, name@),
        forall|members: Seq<Member>, i: int, value: Found|
            text@ == #[trigger] json_object(members) && plain(members) && 0 <= i < members.len()
                && (#[trigger] members[i]).0 == name@ && #[trigger] is_found(members[i].1, value)
                ==> found@ == value,
{
    let read = document(text);
    proof {
        assert forall|members: Seq<Member>, i: int, value: Found|
            text@ == #[trigger] json_object(members) && plain(members) && 0 <= i < members.len()
                && (#[trigger] members[i]).0 == name@ && #[trigger] is_found(
                members[i].1,
                value,
            ) implies json_lookup(text@, name@) == value by {
            lemma_value_found(members[i].1, value);
            assert(is_plain_text_of(members[i].1, value_found(members[i].1, value)));
        }
    }
    match read {
        Some(value) => {
            proof {
                lemma_member_model(value, name@);
            }
            match value.get(name) {
                Some(member) => found_of(member),
                None => FoundMember::Nothing,
            }
        },
        None => FoundMember::Nothing,
    }
}

/// An object that is being written, member by member.
pub struct ObjectWriter {
    text: String,
    started: bool,
    members: Ghost<Seq<Member>>,
}

impl View for ObjectWriter {
    type V = Seq<Member>;

    closed spec fn view(&self) -> Seq<Member> {
        self.members@
    }
}

impl ObjectWriter {
    /// The text holds the members so far.
    pub closed spec fn wf(&self) -> bool {
        &&& self.text@ == seq!['{'] + json_members(self.members@)
        &&& self.started == (self.members@.len() > 0)
    }

    /// An object without members.
    pub fn new() -> (writer: ObjectWriter)
        ensures
            writer.wf(),
            writer@ == Seq::<Member>::empty(),
    {
        let mut text = String::new();
        text.push('{');
        let writer = ObjectWriter { text, started: false, members: Ghost(Seq::empty()) };
        assert(writer.text@ =~= seq!['{'] + json_members(writer.members@));
        writer
    }

    /// Adds a member whose value is given as JSON text.
    pub fn raw(&mut self, name: &str, value: &str)
        requires
            old(self).wf(),
        ensures
            final(self).wf(),
            final(self)@ == old(self)@.push((name@, value@)),
    {
        let ghost before = self.members@;
        if self.started {
            self.text.push(',');
        }
        let quoted = quote(name);
        self.text.append(quoted.as_str());
        self.text.push(':');
        self.text.append(value);
        self.started = true;
        self.members = Ghost(before.push((name@, value@)));
        proof {
            assert(self.members@.drop_last() =~= before);
            assert(self.text@ =~= seq!['{'] + json_members(self.members@));
        }
    }

    /// Adds a member that is a text.
    pub fn text(&mut self, name: &str, value: &str)
        requires
            old(self).wf(),
        ensures
            final(self).wf(),
            final(self)@ == old(self)@.push((name@, json_string(value@))),
    {
        let quoted = quote(value);
        self.raw(name, quoted.as_str());
    }

    /// Adds a member that is a whole number.
    pub fn number(&mut self, name: &str, value: u64)
        requires
            old(self).wf(),
        ensures
            final(self).wf(),
            final(self)@ == old(self)@.push((name@, decimal_text(value as nat))),
    {
        let digits = decimal(value);
        self.raw(name, digits.as_str());
    }

    /// Adds a member that is a truth value.
    pub fn flag(&mut self, name: &str, value: bool)
        requires
            old(self).wf(),
        ensures
            final(self).wf(),
            final(self)@ == old(self)@.push((name@, json_bool(value))),
    {
        if value {
            self.raw(name, "true");
        } else {
            self.raw(name, "false");
        }
    }

    /// The finished object.
    pub fn finish(self) -> (text: String)
        requires
            self.wf(),
        ensures
            text@ == json_object(self@),
    {
        let mut text = self.text;
        text.push('}');
        assert(text@ =~= json_object(self@));
        text
    }
}

/// An object that is being written at some depth, each member on a line of its own.
pub struct IndentedWriter {
    text: String,
    started: bool,
    depth: u8,
    members: Ghost<Seq<Member>>,
}

impl View for IndentedWriter {
    type V = Seq<Member>;

    closed spec fn view(&self) -> Seq<Member> {
        self.members@
    }
}

impl IndentedWriter {
    /// How deep the object lies.
    pub closed spec fn depth(&self) -> nat {
        self.depth as nat
    }

    /// The text holds the members so far.
    pub closed spec fn wf(&self) -> bool {
        &&& self.depth < 255
        &&& self.text@ == "{"@ + indented_members(self.members@, self.depth as nat)
        &&& self.started == (self.members@.len() > 0)
    }

    /// An object without members.
    pub fn new(depth: u8) -> (writer: IndentedWriter)
        requires
            depth < 255,
        ensures
            writer.wf(),
            writer.depth() == depth,
            writer@ == Seq::<Member>::empty(),
    {
        let writer = IndentedWriter {
            text: "{".to_owned(),
            started: false,
            depth,
            members: Ghost(Seq::empty()),
        };
        assert(writer.text@ =~= "{"@ + indented_members(writer.members@, depth as nat));
        writer
    }

    /// Adds a member whose value is given as JSON text.
    pub fn raw(&mut self, name: &str, value: &str)
        requires
            old(self).wf(),
        ensures
            final(self).wf(),
            final(self).depth() == old(self).depth(),
            final(self)@ == old(self)@.push((name@, value@)),
    {
        let ghost before = self.members@;
        if self.started {
            self.text.append(",\n");
        } else {
            self.text.append("\n");
        }
        push_indent(&mut self.text, self.depth + 1);
        let quoted = quote(name);
        self.text.append(quoted.as_str());
        self.text.append(": ");
        self.text.append(value);
        self.started = true;
        self.members = Ghost(before.push((name@, value@)));
        proof {
            assert(self.members@.drop_last() =~= before);
            assert(self.text@ =~= "{"@ + indented_members(self.members@, self.depth as nat));
        }
    }

    /// Adds a member that is a text.
    pub fn text(&mut self, name: &str, value: &str)
        requires
            old(self).wf(),
        ensures
            final(self).wf(),
            final(self).depth() == old(self).depth(),
            final(self)@ == old(self)@.push((name@, json_string(value@))),
    {
        let quoted = quote(value);
        self.raw(name, quoted.as_str());
    }

    /// Adds a member that is a whole number.
    pub fn number(&mut self, name: &str, value: u64)
        requires
            old(self).wf(),
        ensures
            final(self).wf(),
            final(self).depth() == old(self).depth(),
            final(self)@ == old(self)@.push((name@, decimal_text(value as nat))),
    {
        let digits = decimal(value);
        self.raw(name, digits.as_str());
    }

    /// The finished object.
    pub fn finish(self) -> (text: String)
        requires
            self.wf(),
        ensures
            text@ == indented_object(self@, self.depth()),
    {
        if !self.started {
            return "{}".to_owned();
        }
        let depth = self.depth;
        let mut text = self.text;
        text.append("\n");
        push_indent(&mut text, depth);
        text.append("}");
        text
    }
}

/// The member of an object under a name is the first that has the name; an object without one,
/// and every other value, has no such member.
pub proof fn law_member_is_the_first_of_its_name(value: Json, name: Seq<char>, at: int)
    ensures
        !(value is Object) ==> value.member(name) is None,
        value is Object && 0 <= at < value->Object_0@.len() && value->Object_0@[at].0@ == name && (
        forall|i: int| 0 <= i < at ==> (#[trigger] value->Object_0@[i]).0@ != name) ==> value.member(
            name,
        ) == Some(value->Object_0@[at].1),
        value is Object && (forall|i: int|
            0 <= i < value->Object_0@.len() ==> (#[trigger] value->Object_0@[i]).0@ != name)
            ==> value.member(name) is None,
{
    if value is Object {
        lemma_find_first(value->Object_0@, name, at);
    }
}

proof fn lemma_find_first(members: Seq<(String, Json)>, name: Seq<char>, at: int)
    ensures
        0 <= at < members.len() && members[at].0@ == name && (forall|i: int|
            0 <= i < at ==> (#[trigger] members[i]).0@ != name) ==> find_member(members, name)
            == Some(members[at].1),
        (forall|i: int| 0 <= i < members.len() ==> (#[trigger] members[i]).0@ != name)
            ==> find_member(members, name) is None,
    decreases members.len(),
{
    if members.len() > 0 {
        let rest = members.skip(1);
        assert forall|i: int| 0 <= i < rest.len() implies #[trigger] rest[i] == members[i + 1] by {}
        if members[0].0@ != name {
            lemma_find_first(rest, name, at - 1);
            if 0 < at < members.len() {
                assert(rest[at - 1] == members[at]);
            }
            if forall|i: int| 0 <= i < members.len() ==> (#[trigger] members[i]).0@ != name {
                assert forall|i: int| 0 <= i < rest.len() implies (#[trigger] rest[i]).0@
                    != name by {
                    assert(members[i + 1].0@ != name);
                }
            }
        }
    }
}

/// What a value is to whoever looks it up: a text is that text, a whole number from 0 on that
/// fits 64 bits is that number, a list of texts is those texts in their order, and nothing
/// else is of any use.
pub proof fn law_what_a_value_is(value: JsonModel)
    ensures
        found_in(value) is Text <==> value is Text,
        value is Text ==> found_in(value)->Text_0 == value->Text_0,
        found_in(value) is Whole <==> value is Int && 0 <= value->Int_0 <= 18_446_744_073_709_551_615,
        found_in(value) is Whole ==> found_in(value)->Whole_0 == value->Int_0,
        found_in(value) is Texts <==> value is List && forall|i: int|
            0 <= i < value->List_0.len() ==> (#[trigger] value->List_0[i]) is Text,
        found_in(value) is Texts ==> {
            &&& found_in(value)->Texts_0.len() == value->List_0.len()
            &&& forall|i: int|
                0 <= i < value->List_0.len() ==> value->List_0[i] == JsonModel::Text(
                    #[trigger] found_in(value)->Texts_0[i],
                )
        },
        !(found_in(value) is Nothing),
{
}

/// What is found under a name in a JSON text is what the first member of that name is; nothing
/// is found in what is no object, or where no member has the name.
pub proof fn law_lookup_finds_the_first_member(
    text: Seq<char>,
    members: Seq<(Seq<char>, JsonModel)>,
    name: Seq<char>,
    at: int,
)
    requires
        0 <= at <= members.len(),
        forall|j: int| 0 <= j < at ==> (#[trigger] members[j]).0 != name,
        at < members.len() ==> members[at].0 == name,
    ensures
        json_document(text) == Some(JsonModel::Object(members)) ==> json_lookup(text, name) == if at
            < members.len() {
            found_in(members[at].1)
        } else {
            Found::Nothing
        },
        json_document(text) is None || !(json_document(text)->0 is Object) ==> json_lookup(
            text,
            name,
        ) is Nothing,
{
    lemma_find_first_model(members, name, at);
}

proof fn lemma_find_first_model(
    members: Seq<(Seq<char>, JsonModel)>,
    name: Seq<char>,
    at: int,
)
    requires
        0 <= at <= members.len(),
        forall|j: int| 0 <= j < at ==> (#[trigger] members[j]).0 != name,
        at < members.len() ==> members[at].0 == name,
    ensures
        find_model(members, name) == if at < members.len() {
            Some(members[at].1)
        } else {
            None
        },
    decreases members.len(),
{
    if at > 0 {
        let rest = members.skip(1);
        assert(members[0].0 != name);
        assert forall|j: int| 0 <= j < rest.len() implies #[trigger] rest[j] == members[j + 1] by {}
        lemma_find_first_model(rest, name, at - 1);
    }
}

/// How objects are written: a member comes behind those before it and a comma, as its name, a
/// colon and its value, and nothing stands between them.
pub proof fn law_how_objects_are_written(members: Seq<Member>, name: Seq<char>, value: Seq<char>)
    ensures
        json_object(Seq::empty()) == seq!['{', '}'],
        json_object(seq![(name, value)]) == seq!['{'] + json_string(name) + seq![':'] + value
            + seq!['}'],
        members.len() > 0 ==> json_object(members.push((name, value))) == json_object(
            members,
        ).drop_last() + seq![','] + json_string(name) + seq![':'] + value + seq!['}'],
{
    let one = seq![(name, value)];
    assert(one.drop_last() =~= Seq::empty());
    assert(json_members(one.drop_last()) =~= Seq::empty());
    assert(json_members(one) == json_members(one.drop_last()) + Seq::<char>::empty() + json_string(
        name,
    ) + seq![':'] + value);
    assert(json_object(one) =~= seq!['{'] + json_string(name) + seq![':'] + value + seq!['}']);
    assert(json_object(Seq::empty()) =~= seq!['{', '}']);
    let more = members.push((name, value));
    assert(more.drop_last() =~= members);
    if members.len() > 0 {
        assert(json_object(members).drop_last() =~= seq!['{'] + json_members(members));
        assert(json_object(more) =~= json_object(members).drop_last() + seq![','] + json_string(
            name,
        ) + seq![':'] + value + seq!['}']);
    }
}

/// How objects and lists are written on lines of their own: each part on a line, two blanks
/// deeper than the whole, with a comma behind each but the last.
pub proof fn law_how_lines_are_indented(
    members: Seq<Member>,
    name: Seq<char>,
    value: Seq<char>,
    items: Seq<Seq<char>>,
    depth: nat,
)
    ensures
        indented_object(Seq::empty(), depth) == "{}"@,
        indented_list(Seq::empty(), depth) == "[]"@,
        indented_object(members.push((name, value)), depth) == "{"@ + indented_members(
            members,
            depth,
        ) + (if members.len() == 0 {
            "\n"@
        } else {
            ",\n"@
        }) + Seq::new(2 * depth + 2, |i: int| ' ') + json_string(name) + ": "@ + value + "\n"@
            + Seq::new(2 * depth, |i: int| ' ') + "}"@,
        indented_list(items.push(value), depth) == "["@ + indented_items(items, depth) + (
        if items.len() == 0 {
            "\n"@
        } else {
            ",\n"@
        }) + Seq::new(2 * depth + 2, |i: int| ' ') + value + "\n"@ + Seq::new(
            2 * depth,
            |i: int| ' ',
        ) + "]"@,
{
    let more = members.push((name, value));
    assert(more.drop_last() =~= members);
    assert(indent(depth + 1) =~= Seq::new(2 * depth + 2, |i: int| ' '));
    assert(indent(depth) =~= Seq::new(2 * depth, |i: int| ' '));
    assert(indented_object(more, depth) =~= "{"@ + indented_members(members, depth) + (
    if members.len() == 0 {
        "\n"@
    } else {
        ",\n"@
    }) + Seq::new(2 * depth + 2, |i: int| ' ') + json_string(name) + ": "@ + value + "\n"@
        + Seq::new(2 * depth, |i: int| ' ') + "}"@);
    let longer = items.push(value);
    assert(longer.drop_last() =~= items);
    assert(indented_list(longer, depth) =~= "["@ + indented_items(items, depth) + (if items.len()
        == 0 {
        "\n"@
    } else {
        ",\n"@
    }) + Seq::new(2 * depth + 2, |i: int| ' ') + value + "\n"@ + Seq::new(
        2 * depth,
        |i: int| ' ',
    ) + "]"@);
}

} // verus!
