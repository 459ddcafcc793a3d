//! JSON as a tree: its compact text, and the fields of records in it.

use vstd::prelude::*;
use vstd::string::*;

use crate::node_id::hex_digit;
use crate::text::{decimal_text, opt_text, push_decimal, same_text};

verus! {

/// A JSON document as a tree. Object members keep their order, and a repeated
/// key is kept as often as it is written.
#[derive(Debug, PartialEq, Eq)]
pub enum Json {
    /// `null`.
    Null,
    /// `true` or `false`.
    Bool(bool),
    /// A number without sign, fraction or exponent that fits in 64 bits.
    Number(u64),
    /// Any other number, as it is written.
    OtherNumber(String),
    /// A string.
    Text(String),
    /// An array.
    List(Vec<Json>),
    /// An object.
    Object(Vec<(String, Json)>),
}

/// What a [`Json`] tree holds, as a mathematical value.
pub enum JsonView {
    Null,
    Bool(bool),
    Number(u64),
    OtherNumber(Seq<char>),
    Text(Seq<char>),
    List(Seq<JsonView>),
    Object(Seq<(Seq<char>, JsonView)>),
}

impl View for Json {
    type V = JsonView;

    open spec fn view(&self) -> JsonView {
        self.tree()
    }
}

impl Json {
    /// The tree as a mathematical value.
    pub open spec fn tree(self) -> JsonView
        decreases self,
    {
        match self {
            Json::Null => JsonView::Null,
            Json::Bool(b) => JsonView::Bool(b),
            Json::Number(n) => JsonView::Number(n),
            Json::OtherNumber(s) => JsonView::OtherNumber(s@),
            Json::Text(s) => JsonView::Text(s@),
            Json::List(items) => JsonView::List(
                Seq::new(
                    items@.len(),
                    |i: int|
                        if 0 <= i < items@.len() {
                            items@[i].tree()
                        } else {
                            JsonView::Null
                        },
                ),
            ),
            Json::Object(members) => JsonView::Object(
                Seq::new(
                    members@.len(),
                    |i: int|
                        if 0 <= i < members@.len() {
                            (members@[i].0@, members@[i].1.tree())
                        } else {
                            (Seq::empty(), JsonView::Null)
                        },
                ),
            ),
        }
    }
}

/// How a JSON string writes the character `c`: a quote, a backslash and the
/// control characters are escaped, anything else stands for itself.
pub open spec fn json_char(c: char) -> Seq<char> {
    if c == '"' || c == '\\' {
        seq!['\\', c]
    } else if c as int == 8 {
        seq!['\\', 'b']
    } else if c as int == 9 {
        seq!['\\', 't']
    } else if c as int == 10 {
        seq!['\\', 'n']
    } else if c as int == 12 {
        seq!['\\', 'f']
    } else if c as int == 13 {
        seq!['\\', 'r']
    } else if c as nat <= 31 {
        seq!['\\', 'u', '0', '0', hex_digit(c as int / 16), hex_digit(c as int % 16)]
    } else {
        seq![c]
    }
}

/// How a JSON string writes `text` between its quotes.
pub open spec fn json_chars(text: Seq<char>) -> Seq<char>
    decreases text.len(),
{
    if text.len() == 0 {
        Seq::empty()
    } else {
        json_char(text[0]) + json_chars(text.skip(1))
    }
}

/// The JSON string literal that writes `text`.
pub open spec fn json_string(text: Seq<char>) -> Seq<char> {
    seq!['"'] + json_chars(text) + seq!['"']
}

/// Calls `serde_json::to_string` on a string. What it claims: the result is the
/// text between two quotes, with a backslash before a quote and before a
/// backslash, the short escapes for backspace, tab, line feed, form feed and
/// carriage return, and a four-digit escape in lowercase hex for the other
/// characters below the space. No string is refused.
#[verifier::external_body]
fn quote(text: &str) -> (r: String)
    ensures
        r@ == json_string(text@),
{
    serde_json::to_string(text).expect("a string is valid JSON")
}

/// The compact JSON text of a tree: no white space, members in order.
pub open spec fn json_text(tree: JsonView) -> Seq<char>
    decreases tree, 0nat,
{
    match tree {
        JsonView::Null => "null"@,
        JsonView::Bool(b) => if b { "true"@ } else { "false"@ },
        JsonView::Number(n) => decimal_text(n as nat),
        JsonView::OtherNumber(s) => s,
        JsonView::Text(s) => json_string(s),
        JsonView::List(items) => "["@ + items_text(items, items.len()) + "]"@,
        JsonView::Object(members) => "{"@ + members_text(members, members.len()) + "}"@,
    }
}

/// The first `n` items of an array, separated by commas.
pub open spec fn items_text(items: Seq<JsonView>, n: nat) -> Seq<char>
    decreases items, n,
{
    if n == 0 || n > items.len() {
        Seq::empty()
    } else {
        items_text(items, (n - 1) as nat) + (if n > 1 { ","@ } else { Seq::empty() }) + json_text(items[n - 1])
    }
}

/// The first `n` members of an object, separated by commas.
pub open spec fn members_text(members: Seq<(Seq<char>, JsonView)>, n: nat) -> Seq<char>
    decreases members, n,
{
    if n == 0 || n > members.len() {
        Seq::empty()
    } else {
        members_text(members, (n - 1) as nat) + (if n > 1 { ","@ } else { Seq::empty() })
            + json_string(members[n - 1].0) + ":"@ + json_text(members[n - 1].1)
    }
}

/// Write the compact JSON text of `value` at the end of `out`.
fn write_json(out: &mut String, value: &Json)
    ensures
        final(out)@ == old(out)@ + json_text(value@),
    decreases value,
{
    let ghost start = out@;
    match value {
        Json::Null => out.append("null"),
        Json::Bool(b) => if *b {
            out.append("true")
        } else {
            out.append("false")
        },
        Json::Number(n) => push_decimal(out, *n),
        Json::OtherNumber(s) => out.append(s.as_str()),
        Json::Text(s) => out.append(quote(s.as_str()).as_str()),
        Json::List(items) => {
            out.append("[");
            let ghost tree = value@->List_0;
            let mut i: usize = 0;
            while i < items.len()
                invariant
                    i <= items.len(),
                    value matches Json::List(v) && v == items,
                    tree.len() == items.len(),
                    forall|j: int| 0 <= j < items.len() ==> #[trigger] tree[j] == items[j]@,
                    out@ == start + "["@ + items_text(tree, i as nat),
                decreases items.len() - i,
            {
                if i > 0 {
                    out.append(",");
                }
                write_json(out, &items[i]);
                i += 1;
                assert(out@ =~= start + "["@ + items_text(tree, i as nat));
            }
            out.append("]");
            assert(out@ =~= start + json_text(value@));
        },
        Json::Object(members) => {
            out.append("{");
            let ghost tree = value@->Object_0;
            let mut i: usize = 0;
            while i < members.len()
                invariant
                    i <= members.len(),
                    value matches Json::Object(v) && v == members,
                    tree.len() == members.len(),
                    forall|j: int| 0 <= j < members.len() ==> #[trigger] tree[j] == (members[j].0@, members[j].1@),
                    out@ == start + "{"@ + members_text(tree, i as nat),
                decreases members.len() - i,
            {
                if i > 0 {
                    out.append(",");
                }
                out.append(quote(members[i].0.as_str()).as_str());
                out.append(":");
                write_json(out, &members[i].1);
                i += 1;
                assert(out@ =~= start + "{"@ + members_text(tree, i as nat));
            }
            out.append("}");
            assert(out@ =~= start + json_text(value@));
        },
    }
}

impl Json {
    /// The compact JSON text of the tree.
    pub fn to_text(&self) -> (r: String)
        ensures
            r@ == json_text(self@),
    {
        let mut out = String::new();
        write_json(&mut out, self);
        assert(out@ =~= json_text(self@));
        out
    }
}

/// What an object or an array gives for one field of a record.
pub enum SlotView {
    /// The field is not written.
    Absent,
    /// The field is written once.
    Value(JsonView),
    /// The field is written more than once.
    Repeated,
}

/// [`SlotView`] with the tree borrowed.
pub enum Slot<'a> {
    Absent,
    Value(&'a Json),
    Repeated,
}

impl<'a> View for Slot<'a> {
    type V = SlotView;

    open spec fn view(&self) -> SlotView {
        match *self {
            Slot::Absent => SlotView::Absent,
            Slot::Value(v) => SlotView::Value(v@),
            Slot::Repeated => SlotView::Repeated,
        }
    }
}

/// What the members of an object give for `key`.
pub open spec fn slot(members: Seq<(Seq<char>, JsonView)>, key: Seq<char>) -> SlotView
    decreases members.len(),
{
    if members.len() == 0 {
        SlotView::Absent
    } else if members.last().0 != key {
        slot(members.drop_last(), key)
    } else {
        match slot(members.drop_last(), key) {
            SlotView::Absent => SlotView::Value(members.last().1),
            _ => SlotView::Repeated,
        }
    }
}

/// What a record gives for a field: by name in an object, by position in an
/// array.
pub open spec fn record_slot(tree: JsonView, index: int, key: Seq<char>) -> SlotView {
    match tree {
        JsonView::Object(members) => slot(members, key),
        JsonView::List(items) => if 0 <= index < items.len() {
            SlotView::Value(items[index])
        } else {
            SlotView::Absent
        },
        _ => SlotView::Absent,
    }
}

/// Whether a tree can be a record of `n` fields: an object, or an array that
/// is not longer than that.
pub open spec fn is_record(tree: JsonView, n: nat) -> bool {
    match tree {
        JsonView::Object(_) => true,
        JsonView::List(items) => items.len() <= n,
        _ => false,
    }
}

/// A required string field.
pub open spec fn text_field(slot: SlotView) -> Option<Seq<char>> {
    match slot {
        SlotView::Value(JsonView::Text(s)) => Some(s),
        _ => None,
    }
}

/// A string field that may be absent or `null`.
pub open spec fn optional_text_field(slot: SlotView) -> Option<Option<Seq<char>>> {
    match slot {
        SlotView::Absent => Some(None),
        SlotView::Value(JsonView::Null) => Some(None),
        SlotView::Value(JsonView::Text(s)) => Some(Some(s)),
        _ => None,
    }
}

/// A required number field, at most `max`.
pub open spec fn number_field(slot: SlotView, max: u64) -> Option<u64> {
    match slot {
        SlotView::Value(JsonView::Number(n)) => if n <= max {
            Some(n)
        } else {
            None
        },
        _ => None,
    }
}

/// A number field, at most `max`, that is `default` where it is absent.
pub open spec fn number_field_or(slot: SlotView, max: u64, default: u64) -> Option<u64> {
    match slot {
        SlotView::Absent => Some(default),
        _ => number_field(slot, max),
    }
}

/// A number field that may be absent or `null`.
pub open spec fn optional_number_field(slot: SlotView) -> Option<Option<u64>> {
    match slot {
        SlotView::Absent => Some(None),
        SlotView::Value(JsonView::Null) => Some(None),
        SlotView::Value(JsonView::Number(n)) => Some(Some(n)),
        _ => None,
    }
}

impl<'a> Slot<'a> {
    /// A required string field.
    pub fn text(self) -> (r: Option<String>)
        ensures
            opt_text(r) == text_field(self@),
    {
        match self {
            Slot::Value(Json::Text(s)) => Some(s.clone()),
            _ => None,
        }
    }

    /// A string field that may be absent or `null`.
    pub fn optional_text(self) -> (r: Option<Option<String>>)
        ensures
            (match r {
                Some(o) => Some(opt_text(o)),
                None => None,
            }) == optional_text_field(self@),
    {
        match self {
            Slot::Absent => Some(None),
            Slot::Value(Json::Null) => Some(None),
            Slot::Value(Json::Text(s)) => Some(Some(s.clone())),
            _ => None,
        }
    }

    /// A required number field, at most `max`.
    pub fn number(self, max: u64) -> (r: Option<u64>)
        ensures
            r == number_field(self@, max),
    {
        match self {
            Slot::Value(Json::Number(n)) => if *n <= max {
                Some(*n)
            } else {
                None
            },
            _ => None,
        }
    }

    /// A number field, at most `max`, that is `default` where it is absent.
    pub fn number_or(self, max: u64, default: u64) -> (r: Option<u64>)
        ensures
            r == number_field_or(self@, max, default),
    {
        match self {
            Slot::Absent => Some(default),
            _ => self.number(max),
        }
    }

    /// A number field that may be absent or `null`.
    pub fn optional_number(self) -> (r: Option<Option<u64>>)
        ensures
            r == optional_number_field(self@),
    {
        match self {
            Slot::Absent => Some(None),
            Slot::Value(Json::Null) => Some(None),
            Slot::Value(Json::Number(n)) => Some(Some(*n)),
            _ => None,
        }
    }
}

impl Json {
    /// The field `key` of an object, or the item at `index` of an array.
    pub fn field(&self, index: usize, key: &str) -> (r: Slot<'_>)
        ensures
            r@ == record_slot(self@, index as int, key@),
    {
        match self {
            Json::Object(members) => {
                let mut found = Slot::Absent;
                let ghost tree = self@->Object_0;
                let mut i: usize = 0;
                while i < members.len()
                    invariant
                        i <= members.len(),
                        tree.len() == members.len(),
                        forall|j: int| 0 <= j < members.len() ==> #[trigger] tree[j] == (members[j].0@, members[j].1@),
                        found@ == slot(tree.take(i as int), key@),
                    decreases members.len() - i,
                {
                    proof {
                        assert(tree.take(i + 1).drop_last() =~= tree.take(i as int));
                    }
                    if same_text(members[i].0.as_str(), key) {
                        found = match found {
                            Slot::Absent => Slot::Value(&members[i].1),
                            _ => Slot::Repeated,
                        };
                    }
                    i += 1;
                }
                assert(tree.take(i as int) =~= tree);
                found
            },
            Json::List(items) => if index < items.len() {
                Slot::Value(&items[index])
            } else {
                Slot::Absent
            },
            _ => Slot::Absent,
        }
    }

    /// Whether the tree can be a record of `n` fields.
    pub fn record_of(&self, n: usize) -> (r: bool)
        ensures
            r == is_record(self@, n as nat),
    {
        match self {
            Json::Object(_) => true,
            Json::List(items) => items.len() <= n,
            _ => false,
        }
    }
}

/// `members`, and one more field of the object where it has a value.
pub open spec fn with_field(members: Seq<(Seq<char>, JsonView)>, field: (Seq<char>, Option<JsonView>)) -> Seq<(Seq<char>, JsonView)> {
    match field.1 {
        Some(value) => members.push((field.0, value)),
        None => members,
    }
}

/// The members of an object that writes `fields` in order and leaves out those
/// without a value.
pub open spec fn written(fields: Seq<(Seq<char>, Option<JsonView>)>) -> Seq<(Seq<char>, JsonView)>
    decreases fields.len(),
{
    if fields.len() == 0 {
        Seq::empty()
    } else {
        with_field(written(fields.drop_last()), fields.last())
    }
}

/// What an object that writes `fields` gives for `key`, where no key occurs
/// twice among them.
pub(crate) proof fn lemma_written_slot(fields: Seq<(Seq<char>, Option<JsonView>)>, key: Seq<char>)
    requires
        forall|i: int, j: int| 0 <= i < j < fields.len() ==> fields[i].0 != fields[j].0,
    ensures
        forall|i: int| 0 <= i < fields.len() && (#[trigger] fields[i]).0 == key ==> slot(written(fields), key) == (match fields[i].1 {
            Some(value) => SlotView::Value(value),
            None => SlotView::Absent,
        }),
        (forall|i: int| 0 <= i < fields.len() ==> (#[trigger] fields[i]).0 != key) ==> slot(written(fields), key) == SlotView::Absent,
    decreases fields.len(),
{
    if fields.len() > 0 {
        let rest = fields.drop_last();
        lemma_written_slot(rest, key);
        assert forall|i: int| 0 <= i < rest.len() implies #[trigger] rest[i] == fields[i] by {}
        let last = fields.last();
        if last.1 is Some {
            let all = written(rest).push((last.0, last.1->0));
            assert(all.drop_last() =~= written(rest));
            assert(all.last() == (last.0, last.1->0));
            assert(slot(all, key) == (if last.0 != key {
                slot(written(rest), key)
            } else {
                match slot(written(rest), key) {
                    SlotView::Absent => SlotView::Value(last.1->0),
                    _ => SlotView::Repeated,
                }
            }));
        }
        if last.0 == key {
            assert(forall|i: int| 0 <= i < rest.len() ==> (#[trigger] rest[i]).0 != key);
        }
        assert forall|i: int| 0 <= i < fields.len() && (#[trigger] fields[i]).0 == key implies slot(written(fields), key) == (match fields[i].1 {
            Some(value) => SlotView::Value(value),
            None => SlotView::Absent,
        }) by {
            if i < rest.len() {
                assert(rest[i] == fields[i]);
            }
        }
    }
}

/// What a list of members holds.
pub open spec fn members_view(members: Seq<(String, Json)>) -> Seq<(Seq<char>, JsonView)> {
    Seq::new(members.len(), |i: int| (members[i].0@, members[i].1@))
}

/// What an optional tree holds.
pub open spec fn opt_tree(o: Option<Json>) -> Option<JsonView> {
    match o {
        Some(v) => Some(v@),
        None => None,
    }
}

/// Write one more field of an object, if it has a value.
pub(crate) fn put(members: &mut Vec<(String, Json)>, key: &str, value: Option<Json>)
    ensures
        members_view(final(members)@) == with_field(members_view(old(members)@), (key@, opt_tree(value))),
{
    let ghost start = members@;
    if let Some(tree) = value {
        members.push((key.to_string(), tree));
        assert(members_view(members@) =~= members_view(start).push((key@, tree@)));
    }
}

} // verus!
