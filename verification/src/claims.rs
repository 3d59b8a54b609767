//! The claims of a token, field by field. A record is read from them as a deserializer for
//! that record reads it: members that are no field of it do not matter, whatever they hold,
//! and a field that comes twice is refused.

use serde_json::value::RawValue;
use vstd::prelude::*;

use crate::json::{
    document, found_in, found_of, is_found, is_plain_text_of, json_document, json_members,
    json_object, json_string, lemma_value_found, plain, plain_value, value_found, Found,
    FoundMember, Json, JsonModel, Member,
};
use crate::text::{after_space, json_space, same_text, skip_space};

verus! {

/// The first JSON value in a text as it stands there, and what follows it, as
/// `serde_json::StreamDeserializer` finds them; `None` where there is none.
pub uninterp spec fn json_prefix(text: Seq<char>) -> Option<(Seq<char>, Seq<char>)>;

/// Whether a text can follow a value in an object.
pub open spec fn ends_a_value(rest: Seq<char>) -> bool {
    rest.len() > 0 && (rest[0] == ':' || rest[0] == ',' || rest[0] == '}')
}

/// Reads the first JSON value in a text with `serde_json::StreamDeserializer` over
/// `serde_json::value::RawValue`, which takes the value as it stands, however deep it is
/// nested. Claimed too: what follows is shorter than the text, and a plain value before a
/// colon, a comma or a closing brace is found.
#[verifier::external_body]
fn serde_json_prefix(text: &str) -> (found: Option<(String, String)>)
    ensures
        match found {
            Some((value, rest)) => {
                &&& json_prefix(text@) == Some((value@, rest@))
                &&& rest@.len() < text@.len()
            },
            None => json_prefix(text@) is None,
        },
        forall|value: Seq<char>, rest: Seq<char>|
            text@ == #[trigger] (value + rest) && plain_value(value) && ends_a_value(rest)
                ==> found is Some && (found->0).0@ == value && (found->0).1@ == rest,
{
    let mut stream = serde_json::Deserializer::from_str(text).into_iter::<&RawValue>();
    let value = stream.next()?.ok()?;
    let end = stream.byte_offset();
    Some((value.get().to_owned(), text[end..].to_owned()))
}

/// A member as it stands in a text: its name and its value, both JSON.
pub type RawMember = (Seq<char>, Seq<char>);

/// The members of an object, from the name of one of them to the end of the text.
pub open spec fn members_from(text: Seq<char>) -> Option<Seq<RawMember>>
    decreases text.len(),
{
    match json_prefix(text) {
        None => None,
        Some((name, behind_name)) => {
            let colon = after_space(behind_name);
            if colon.len() == 0 || colon[0] != ':' {
                None
            } else {
                match json_prefix(colon.skip(1)) {
                    None => None,
                    Some((value, behind_value)) => {
                        let end = after_space(behind_value);
                        if end.len() == 0 || end.len() > text.len() {
                            None
                        } else if end[0] == ',' {
                            match members_from(end.skip(1)) {
                                Some(more) => Some(seq![(name, value)] + more),
                                None => None,
                            }
                        } else if end[0] == '}' && after_space(end.skip(1)).len() == 0 {
                            Some(seq![(name, value)])
                        } else {
                            None
                        }
                    },
                }
            }
        },
    }
}

/// The members of an object; `None` where the text is no object.
pub open spec fn object_members(text: Seq<char>) -> Option<Seq<RawMember>> {
    let start = after_space(text);
    if start.len() == 0 || start[0] != '{' {
        None
    } else {
        let first = after_space(start.skip(1));
        if first.len() > 0 && first[0] == '}' {
            if after_space(first.skip(1)).len() == 0 {
                Some(Seq::empty())
            } else {
                None
            }
        } else {
            members_from(first)
        }
    }
}

/// What a list of pairs of texts holds.
pub open spec fn pairs_of(list: Seq<(String, String)>) -> Seq<(Seq<char>, Seq<char>)> {
    list.map_values(|p: (String, String)| (p.0@, p.1@))
}

/// Members as they stand in a text.
pub open spec fn raw_members(members: Seq<Member>) -> Seq<RawMember> {
    members.map_values(|m: Member| (json_string(m.0), m.1))
}

/// The text of an object from the name of a member to the end.
spec fn text_from(members: Seq<Member>, k: int) -> Seq<char>
    decreases members.len() - k,
{
    if 0 <= k < members.len() {
        json_string(members[k].0) + (seq![':'] + (members[k].1 + text_behind(members, k)))
    } else {
        Seq::empty()
    }
}

/// The text of an object behind a member.
spec fn text_behind(members: Seq<Member>, k: int) -> Seq<char>
    decreases members.len() - k, 0int,
    when k >= 0
{
    if k + 1 < members.len() {
        seq![','] + text_from(members, k + 1)
    } else {
        seq!['}']
    }
}

/// The text of an object is that of its first members and that from the next one on.
proof fn lemma_text_from(members: Seq<Member>, k: int)
    requires
        0 <= k < members.len(),
    ensures
        json_members(members) + seq!['}'] == json_members(members.take(k)) + if k == 0 {
            Seq::<char>::empty()
        } else {
            seq![',']
        } + text_from(members, k),
    decreases members.len() - k,
{
    let upto = members.take(k);
    let one_more = members.take(k + 1);
    assert(one_more.drop_last() =~= upto);
    assert(one_more.last() == members[k]);
    let comma = if k == 0 {
        Seq::<char>::empty()
    } else {
        seq![',']
    };
    let member = json_string(members[k].0) + seq![':'] + members[k].1;
    assert(json_members(one_more) =~= json_members(upto) + comma + member);
    if k + 1 < members.len() {
        lemma_text_from(members, k + 1);
        assert(json_members(members) + seq!['}'] =~= json_members(upto) + comma + text_from(
            members,
            k,
        ));
    } else {
        assert(one_more =~= members);
        assert(json_members(members) + seq!['}'] =~= json_members(upto) + comma + text_from(
            members,
            k,
        ));
    }
}

/// Whether a walk through the text of an object has come to this member.
spec fn has_come_to(
    text: Seq<char>,
    members: Seq<Member>,
    walked: Seq<RawMember>,
    rest: Seq<char>,
) -> bool {
    text == json_object(members) && plain(members) && members.len() > 0 ==> {
        &&& walked.len() < members.len()
        &&& walked == raw_members(members).take(walked.len() as int)
        &&& rest == text_from(members, walked.len() as int)
    }
}

proof fn lemma_no_space(text: Seq<char>)
    requires
        text.len() > 0,
        !json_space(text[0]),
    ensures
        after_space(text) == text,
{
}

proof fn lemma_space_len(text: Seq<char>)
    ensures
        after_space(text).len() <= text.len(),
    decreases text.len(),
{
    if text.len() > 0 && json_space(text[0]) {
        lemma_space_len(text.skip(1));
    }
}

/// Whether the first character of a text is this one.
fn starts_with(text: &str, mark: char) -> (yes: bool)
    ensures
        yes == (text@.len() > 0 && text@[0] == mark),
{
    text.unicode_len() > 0 && text.get_char(0) == mark
}

/// What stands behind the first character of a text.
fn behind_first<'a>(text: &'a str) -> (rest: &'a str)
    requires
        text@.len() > 0,
    ensures
        rest@ == text@.skip(1),
{
    let len: usize = text.unicode_len();
    assert(text@.subrange(1, len as int) =~= text@.skip(1));
    text.substring_char(1, len)
}

/// The next member of an object, and the comma or the closing brace behind it.
fn next_member(text: &str) -> (found: Option<(String, String, String)>)
    ensures
        match found {
            Some((name, value, end)) => {
                &&& end@.len() > 0
                &&& end@.len() < text@.len()
                &&& members_from(text@) == if end@[0] == ',' {
                    match members_from(end@.skip(1)) {
                        Some(more) => Some(seq![(name@, value@)] + more),
                        None => None,
                    }
                } else if end@[0] == '}' && after_space(end@.skip(1)).len() == 0 {
                    Some(seq![(name@, value@)])
                } else {
                    None
                }
            },
            None => members_from(text@) is None,
        },
        forall|members: Seq<Member>, k: int|
            plain(members) && 0 <= k < members.len() && text@ == #[trigger] text_from(members, k)
                ==> {
                &&& found is Some
                &&& (found->0).0@ == json_string(members[k].0)
                &&& (found->0).1@ == members[k].1
                &&& (found->0).2@ == text_behind(members, k)
            },
{
    let (name, behind_name) = match serde_json_prefix(text) {
        Some(found) => found,
        None => {
            proof {
                assert forall|members: Seq<Member>, k: int|
                    plain(members) && 0 <= k < members.len() && text@ == #[trigger] text_from(
                        members,
                        k,
                    ) implies false by {
                    lemma_name_is_found(members, k);
                }
            }
            return None;
        },
    };
    proof {
        assert forall|members: Seq<Member>, k: int|
            plain(members) && 0 <= k < members.len() && text@ == #[trigger] text_from(
                members,
                k,
            ) implies name@ == json_string(members[k].0) && behind_name@ == seq![':'] + (
        members[k].1 + text_behind(members, k)) by {
            lemma_name_is_found(members, k);
        }
        lemma_space_len(behind_name@);
    }
    let colon = skip_space(behind_name.as_str());
    if !starts_with(colon, ':') {
        return None;
    }
    let behind_colon = behind_first(colon);
    let found = serde_json_prefix(behind_colon);
    proof {
        assert forall|members: Seq<Member>, k: int|
            plain(members) && 0 <= k < members.len() && text@ == #[trigger] text_from(
                members,
                k,
            ) implies found is Some && (found->0).0@ == members[k].1 && (found->0).1@
            == text_behind(members, k) by {
            lemma_no_space(behind_name@);
            assert(behind_colon@ =~= members[k].1 + text_behind(members, k));
            assert(plain_value(members[k].1));
        }
    }
    match found {
        Some((value, behind_value)) => {
            proof {
                lemma_space_len(behind_value@);
                assert forall|members: Seq<Member>, k: int|
                    plain(members) && 0 <= k < members.len() && text@ == #[trigger] text_from(
                        members,
                        k,
                    ) implies after_space(behind_value@) == text_behind(members, k) by {
                    lemma_no_space(text_behind(members, k));
                }
            }
            let end = skip_space(behind_value.as_str());
            if end.unicode_len() == 0 {
                return None;
            }
            Some((name, value, end.to_owned()))
        },
        None => None,
    }
}

proof fn lemma_name_is_found(members: Seq<Member>, k: int)
    requires
        0 <= k < members.len(),
    ensures
        text_from(members, k) == json_string(members[k].0) + (seq![':'] + (members[k].1
            + text_behind(members, k))),
        plain_value(json_string(members[k].0)),
        ends_a_value(seq![':'] + (members[k].1 + text_behind(members, k))),
        ends_a_value(text_behind(members, k)),
{
}

/// The members of an object as they stand in a text; `None` where the text is no object.
fn walk(text: &str) -> (members: Option<Vec<(String, String)>>)
    ensures
        match members {
            Some(list) => object_members(text@) == Some(pairs_of(list@)),
            None => object_members(text@) is None,
        },
        forall|known: Seq<Member>|
            text@ == #[trigger] json_object(known) && plain(known) ==> members is Some && pairs_of(
                members->0@,
            ) == raw_members(known),
{
    let start = skip_space(text);
    proof {
        assert forall|known: Seq<Member>| text@ == #[trigger] json_object(known) implies start@
            == text@ && text@[0] == '{' by {
            lemma_no_space(text@);
        }
    }
    if !starts_with(start, '{') {
        return None;
    }
    let inside = behind_first(start);
    let first = skip_space(inside);
    let mut list: Vec<(String, String)> = Vec::new();
    proof {
        assert(pairs_of(list@) =~= Seq::empty());
        assert forall|known: Seq<Member>|
            text@ == #[trigger] json_object(known) && plain(known) implies if known.len() == 0 {
            first@ == seq!['}']
        } else {
            first@ == text_from(known, 0) && first@[0] == '"'
        } by {
            assert(inside@ =~= json_members(known) + seq!['}']);
            if known.len() == 0 {
                assert(inside@ =~= seq!['}']);
            } else {
                lemma_text_from(known, 0);
                assert(known.take(0) =~= Seq::empty());
                assert(inside@ =~= text_from(known, 0));
            }
            lemma_no_space(inside@);
        }
    }
    if starts_with(first, '}') {
        let behind = skip_space(behind_first(first));
        proof {
            assert forall|known: Seq<Member>|
                text@ == #[trigger] json_object(known) && plain(known) implies known.len() == 0
                && behind@.len() == 0 by {
                assert(first@.skip(1) =~= Seq::<char>::empty());
            }
        }
        if behind.unicode_len() == 0 {
            assert forall|known: Seq<Member>|
                text@ == #[trigger] json_object(known) && plain(known) implies pairs_of(list@)
                == raw_members(known) by {
                assert(raw_members(known) =~= Seq::empty());
            }
            return Some(list);
        }
        return None;
    }
    let ghost whole = members_from(first@);
    let mut rest: String = first.to_owned();
    proof {
        assert forall|known: Seq<Member>|
            text@ == #[trigger] json_object(known) && plain(known) implies known.len() > 0
            && has_come_to(text@, known, pairs_of(list@), rest@) by {
            if known.len() == 0 {
                assert(first@[0] == '}');
            }
            assert(raw_members(known).take(0) =~= Seq::empty());
        }
        match members_from(rest@) {
            Some(more) => {
                assert(pairs_of(list@) + more =~= more);
            },
            None => {},
        }
    }
    loop
        invariant
            object_members(text@) == whole,
            match members_from(rest@) {
                Some(more) => whole == Some(pairs_of(list@) + more),
                None => whole is None,
            },
            forall|known: Seq<Member>|
                text@ == #[trigger] json_object(known) && plain(known) ==> known.len() > 0
                    && has_come_to(text@, known, pairs_of(list@), rest@),
        decreases rest@.len(),
    {
        let found = next_member(rest.as_str());
        proof {
            assert forall|known: Seq<Member>|
                text@ == #[trigger] json_object(known) && plain(known) implies {
                let k = list@.len() as int;
                &&& found is Some
                &&& (found->0).0@ == json_string(known[k].0)
                &&& (found->0).1@ == known[k].1
                &&& (found->0).2@ == text_behind(known, k)
            } by {
                assert(has_come_to(text@, known, pairs_of(list@), rest@));
                assert(pairs_of(list@).len() == list@.len());
                assert(rest@ == text_from(known, list@.len() as int));
            }
        }
        let (name, value, end) = match found {
            Some(found) => found,
            None => {
                return None;
            },
        };
        let ghost before = list@;
        list.push((name, value));
        proof {
            assert(pairs_of(list@) =~= pairs_of(before).push((name@, value@)));
            assert forall|known: Seq<Member>|
                text@ == #[trigger] json_object(known) && plain(known) implies pairs_of(list@)
                == raw_members(known).take(list@.len() as int) && list@.len() <= known.len() by {
                assert(has_come_to(text@, known, pairs_of(before), rest@));
                let k = before.len() as int;
                assert(pairs_of(before).len() == k);
                assert(raw_members(known)[k] == (json_string(known[k].0), known[k].1));
                assert(raw_members(known).take(k + 1) =~= raw_members(known).take(k).push(
                    raw_members(known)[k],
                ));
            }
        }
        if starts_with(end.as_str(), ',') {
            let next = behind_first(end.as_str());
            proof {
                match members_from(next@) {
                    Some(more) => {
                        assert(pairs_of(before) + (seq![(name@, value@)] + more) =~= pairs_of(list@)
                            + more);
                    },
                    None => {},
                }
                assert forall|known: Seq<Member>|
                    text@ == #[trigger] json_object(known) && plain(known) implies known.len() > 0
                    && has_come_to(text@, known, pairs_of(list@), next@) by {
                    let k = before.len() as int;
                    assert(end@ == text_behind(known, k));
                    assert(pairs_of(list@).len() == k + 1);
                    assert(k + 1 < known.len());
                    assert(next@ =~= text_from(known, k + 1));
                }
            }
            rest = next.to_owned();
        } else {
            proof {
                assert forall|known: Seq<Member>|
                    text@ == #[trigger] json_object(known) && plain(known) implies end@ == seq!['}']
                    && pairs_of(list@) == raw_members(known) by {
                    let k = before.len() as int;
                    assert(has_come_to(text@, known, pairs_of(before), rest@));
                    assert(end@ == text_behind(known, k));
                    assert(k + 1 >= known.len());
                    assert(raw_members(known).take(known.len() as int) =~= raw_members(known));
                }
                assert(pairs_of(before) + seq![(name@, value@)] =~= pairs_of(list@));
            }
            if !starts_with(end.as_str(), '}') {
                return None;
            }
            let behind = skip_space(behind_first(end.as_str()));
            proof {
                assert forall|known: Seq<Member>|
                    text@ == #[trigger] json_object(known) && plain(known) implies behind@.len()
                    == 0 by {
                    assert(end@.skip(1) =~= Seq::<char>::empty());
                }
            }
            if behind.unicode_len() == 0 {
                return Some(list);
            }
            return None;
        }
    }
}

/// The name that a JSON text stands for.
pub open spec fn name_in(text: Seq<char>) -> Seq<char> {
    match json_document(text) {
        Some(JsonModel::Text(name)) => name,
        _ => text,
    }
}

/// The fields of claims, each with its name and its value as JSON text, in the order in which
/// they stand there; `None` where the claims are no object.
pub open spec fn fields_in(claims: Seq<char>) -> Option<Seq<Member>> {
    match object_members(claims) {
        Some(members) => Some(members.map_values(|m: RawMember| (name_in(m.0), m.1))),
        None => None,
    }
}

/// The name that a JSON text stands for.
fn read_name(text: &str) -> (name: String)
    ensures
        name@ == name_in(text@),
        forall|known: Seq<char>| text@ == #[trigger] json_string(known) ==> name@ == known,
{
    let read = document(text);
    proof {
        assert forall|known: Seq<char>| text@ == #[trigger] json_string(known) implies name_in(
            text@,
        ) == known by {
            assert(is_plain_text_of(text@, JsonModel::Text(known)));
        }
    }
    match read {
        Some(Json::Text(name)) => name,
        _ => text.to_owned(),
    }
}

/// The fields of claims. Those of an object of plain members are its members.
pub fn claim_fields(claims: &str) -> (fields: Option<Vec<(String, String)>>)
    ensures
        match fields {
            Some(list) => fields_in(claims@) == Some(pairs_of(list@)),
            None => fields_in(claims@) is None,
        },
        forall|known: Seq<Member>|
            claims@ == #[trigger] json_object(known) && plain(known) ==> fields is Some && pairs_of(
                fields->0@,
            ) == known,
{
    let members = match walk(claims) {
        Some(members) => members,
        None => {
            return None;
        },
    };
    let ghost raw = pairs_of(members@);
    let ghost named = raw.map_values(|m: RawMember| (name_in(m.0), m.1));
    let count: usize = members.len();
    let mut list: Vec<(String, String)> = Vec::new();
    let mut i: usize = 0;
    assert(pairs_of(list@) =~= named.take(0));
    while i < count
        invariant
            raw == pairs_of(members@),
            named == raw.map_values(|m: RawMember| (name_in(m.0), m.1)),
            count == members@.len(),
            i <= count,
            list@.len() == i,
            pairs_of(list@) == named.take(i as int),
            forall|k: int, known: Seq<char>|
                0 <= k < i && (#[trigger] raw[k]).0 == #[trigger] json_string(known) ==> named[k].0
                    == known,
        decreases count - i,
    {
        let name = read_name(members[i].0.as_str());
        let value = members[i].1.clone();
        let ghost before = list@;
        list.push((name, value));
        proof {
            assert(raw[i as int] == (members@[i as int].0@, members@[i as int].1@));
            assert(named[i as int] == (name@, value@));
            assert(pairs_of(list@) =~= pairs_of(before).push((name@, value@)));
            assert(named.take(i + 1) =~= named.take(i as int).push(named[i as int]));
        }
        i += 1;
    }
    proof {
        assert(named.take(count as int) =~= named);
        assert forall|known: Seq<Member>|
            claims@ == #[trigger] json_object(known) && plain(known) implies pairs_of(list@)
            == known by {
            assert(raw == raw_members(known));
            assert forall|k: int| 0 <= k < known.len() implies named[k] == known[k] by {
                assert(raw[k] == (json_string(known[k].0), known[k].1));
            }
            assert(named =~= known);
        }
    }
    Some(list)
}

/// Whether a name comes twice among some fields.
pub open spec fn repeated(fields: Seq<Member>, name: Seq<char>) -> bool {
    exists|i: int, j: int|
        0 <= i < j < fields.len() && (#[trigger] fields[i]).0 == name && (#[trigger] fields[j]).0
            == name
}

/// Whether a name comes twice among some fields.
pub fn is_repeated(fields: &Vec<(String, String)>, name: &str) -> (yes: bool)
    ensures
        yes == repeated(pairs_of(fields@), name@),
{
    let ghost all = pairs_of(fields@);
    let count: usize = fields.len();
    let mut seen: Option<usize> = None;
    let mut i: usize = 0;
    while i < count
        invariant
            all == pairs_of(fields@),
            count == fields@.len(),
            i <= count,
            match seen {
                Some(k) => k < i && all[k as int].0 == name@ && forall|j: int|
                    0 <= j < i && j != k ==> (#[trigger] all[j]).0 != name@,
                None => forall|j: int| 0 <= j < i ==> (#[trigger] all[j]).0 != name@,
            },
        decreases count - i,
    {
        assert(all[i as int].0 == fields@[i as int].0@);
        if same_text(fields[i].0.as_str(), name) {
            if let Some(k) = seen {
                assert(all[k as int].0 == name@ && all[i as int].0 == name@);
                return true;
            }
            seen = Some(i);
        }
        i += 1;
    }
    false
}

/// What the text of a field's value is to whoever looks it up.
pub open spec fn found_text_of(value: Seq<char>) -> Found {
    match json_document(value) {
        Some(read) => found_in(read),
        None => Found::Other,
    }
}

/// What the first field with a name holds.
pub open spec fn field_in(fields: Seq<Member>, name: Seq<char>) -> Found
    decreases fields.len(),
{
    if fields.len() == 0 {
        Found::Nothing
    } else if fields[0].0 == name {
        found_text_of(fields[0].1)
    } else {
        field_in(fields.skip(1), name)
    }
}

proof fn lemma_field_in(fields: Seq<Member>, name: Seq<char>, at: int)
    requires
        0 <= at <= fields.len(),
        forall|j: int| 0 <= j < at ==> (#[trigger] fields[j]).0 != name,
    ensures
        field_in(fields, name) == field_in(fields.skip(at), name),
    decreases at,
{
    if at > 0 {
        let rest = fields.skip(1);
        assert(fields[0].0 != name);
        assert forall|j: int| 0 <= j < at - 1 implies (#[trigger] rest[j]).0 != name by {
            assert(rest[j] == fields[j + 1]);
        }
        lemma_field_in(rest, name, at - 1);
        assert(rest.skip(at - 1) =~= fields.skip(at));
    } else {
        assert(fields.skip(0) =~= fields);
    }
}

/// What the first field with a name holds.
pub fn read_field(fields: &Vec<(String, String)>, name: &str) -> (found: FoundMember)
    ensures
        found@ == field_in(pairs_of(fields@), name@),
        forall|at: int, value: Found|
            0 <= at < fields@.len() && (#[trigger] pairs_of(fields@)[at]).0 == name@ && (forall|
                j: int,
            |
                0 <= j < at ==> (#[trigger] pairs_of(fields@)[j]).0 != name@)
                && #[trigger] is_found(pairs_of(fields@)[at].1, value) ==> found@ == value,
{
    let ghost all = pairs_of(fields@);
    let count: usize = fields.len();
    let mut i: usize = 0;
    while i < count
        invariant
            all == pairs_of(fields@),
            count == fields@.len(),
            i <= count,
            forall|j: int| 0 <= j < i ==> (#[trigger] all[j]).0 != name@,
        decreases count - i,
    {
        assert(all[i as int] == (fields@[i as int].0@, fields@[i as int].1@));
        if same_text(fields[i].0.as_str(), name) {
            let read = document(fields[i].1.as_str());
            proof {
                lemma_field_in(all, name@, i as int);
                assert(all.skip(i as int)[0] == all[i as int]);
                let text = all[i as int].1;
                assert forall|value: Found| #[trigger] is_found(text, value) implies found_text_of(
                    text,
                ) == value by {
                    lemma_value_found(text, value);
                    assert(is_plain_text_of(text, value_found(text, value)));
                }
                assert forall|at: int|
                    0 <= at < fields@.len() && (#[trigger] all[at]).0 == name@ && (forall|j: int|
                        0 <= j < at ==> (#[trigger] all[j]).0 != name@) implies at == i by {
                    if i < at {
                        assert(all[i as int].0 != name@);
                    }
                }
            }
            return match read {
                Some(value) => found_of(&value),
                None => FoundMember::Other,
            };
        }
        i += 1;
    }
    proof {
        lemma_field_in(all, name@, count as int);
        assert(all.skip(count as int) =~= Seq::empty());
    }
    FoundMember::Nothing
}

/// Fields with other names do not matter: what a field holds, and whether it comes twice, is
/// the same as if they were not there.
pub proof fn law_other_fields_do_not_matter(
    before: Seq<Member>,
    other: Member,
    after: Seq<Member>,
    name: Seq<char>,
)
    requires
        other.0 != name,
    ensures
        field_in(before + seq![other] + after, name) == field_in(before + after, name),
        repeated(before + seq![other] + after, name) == repeated(before + after, name),
    decreases before.len(),
{
    let with = before + seq![other] + after;
    let without = before + after;
    if before.len() == 0 {
        assert(with.skip(1) =~= after);
        assert(without =~= after);
    } else {
        law_other_fields_do_not_matter(before.skip(1), other, after, name);
        assert(with.skip(1) =~= before.skip(1) + seq![other] + after);
        assert(without.skip(1) =~= before.skip(1) + after);
    }
    let n = before.len() as int;
    if repeated(with, name) {
        let (i, j) = choose|i: int, j: int|
            0 <= i < j < with.len() && (#[trigger] with[i]).0 == name && (#[trigger] with[j]).0
                == name;
        let a = if i < n {
            i
        } else {
            i - 1
        };
        let b = if j < n {
            j
        } else {
            j - 1
        };
        assert(with[n] == other);
        assert(without[a] == with[i] && without[b] == with[j]);
    }
    if repeated(without, name) {
        let (i, j) = choose|i: int, j: int|
            0 <= i < j < without.len() && (#[trigger] without[i]).0 == name && (
            #[trigger] without[j]).0 == name;
        let a = if i < n {
            i
        } else {
            i + 1
        };
        let b = if j < n {
            j
        } else {
            j + 1
        };
        assert(with[a] == without[i] && with[b] == without[j]);
    }
}

/// What claims hold under a name is what their first field of that name holds; where no field
/// has the name they hold nothing under it.
pub proof fn law_field_is_the_first_of_its_name(fields: Seq<Member>, name: Seq<char>, at: int)
    requires
        0 <= at <= fields.len(),
        forall|j: int| 0 <= j < at ==> (#[trigger] fields[j]).0 != name,
        at < fields.len() ==> fields[at].0 == name,
    ensures
        field_in(fields, name) == if at < fields.len() {
            match json_document(fields[at].1) {
                Some(read) => found_in(read),
                None => Found::Other,
            }
        } else {
            Found::Nothing
        },
{
    lemma_field_in(fields, name, at);
    if at < fields.len() {
        assert(fields.skip(at)[0] == fields[at]);
    } else {
        assert(fields.skip(at) =~= Seq::empty());
    }
}

/// A field comes twice exactly where it stands at two places.
pub proof fn law_repeated_field_stands_at_two_places(
    fields: Seq<Member>,
    name: Seq<char>,
    i: int,
    j: int,
)
    requires
        0 <= i < fields.len(),
        0 <= j < fields.len(),
        fields[i].0 == name,
        fields[j].0 == name,
        !repeated(fields, name),
    ensures
        i == j,
{
}

/// Claims have fields only where they are an object: where they do not start with a brace,
/// behind white space, they have none to be read, and an empty object has no fields.
pub proof fn law_claims_are_an_object(claims: Seq<char>)
    ensures
        ({
            let start = after_space(claims);
            let inner = after_space(start.skip(1));
            &&& start.len() == 0 || start[0] != '{' ==> fields_in(claims) is None
            &&& start.len() > 0 && start[0] == '{' && inner.len() > 0 && inner[0] == '}' ==> (
            fields_in(claims) is Some <==> after_space(inner.skip(1)).len() == 0)
            &&& start.len() > 0 && start[0] == '{' && inner.len() > 0 && inner[0] == '}'
                && fields_in(claims) is Some ==> fields_in(claims)->0.len() == 0
        }),
{
}

/// The fields of claims from some place on are the field that stands there and those behind its
/// comma; a closing brace ends them, and white space may follow it and nothing else.
pub proof fn law_fields_follow_each_other(
    text: Seq<char>,
    name: Seq<char>,
    behind_name: Seq<char>,
    value: Seq<char>,
    behind_value: Seq<char>,
)
    requires
        json_prefix(text) == Some((name, behind_name)),
        after_space(behind_name).len() > 0,
        after_space(behind_name)[0] == ':',
        json_prefix(after_space(behind_name).skip(1)) == Some((value, behind_value)),
        0 < after_space(behind_value).len() <= text.len(),
    ensures
        ({
            let end = after_space(behind_value);
            let read = members_from(text);
            &&& end[0] == ',' ==> (read is Some <==> members_from(end.skip(1)) is Some)
            &&& end[0] == ',' && read is Some ==> read->0 == seq![(name, value)] + members_from(
                end.skip(1),
            )->0
            &&& end[0] == '}' ==> (read is Some <==> after_space(end.skip(1)).len() == 0)
            &&& end[0] == '}' && read is Some ==> read->0 == seq![(name, value)]
            &&& end[0] != ',' && end[0] != '}' ==> read is None
        }),
{
}

} // verus!
