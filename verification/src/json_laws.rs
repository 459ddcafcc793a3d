//! That a JSON text says all there is to say of its tree.

use vstd::prelude::*;

use crate::json::{items_text, json_char, json_chars, json_string, json_text, members_text, Json, JsonView};
use crate::text::{decimal_digit, decimal_text};

verus! {

/// Whether every number in a tree is one without sign, fraction or exponent
/// that fits in 64 bits. Any other number holds its text as it is, which need
/// not be the text of a number.
pub open spec fn is_plain(tree: JsonView) -> bool
    decreases tree,
{
    match tree {
        JsonView::OtherNumber(_) => false,
        JsonView::List(items) => forall|i: int| 0 <= i < items.len() ==> is_plain(#[trigger] items[i]),
        JsonView::Object(members) => forall|i: int| 0 <= i < members.len() ==> is_plain((#[trigger] members[i]).1),
        _ => true,
    }
}

/// The items of a plain array are plain.
proof fn lemma_plain_item(items: Seq<JsonView>, i: int)
    requires
        is_plain(JsonView::List(items)),
        0 <= i < items.len(),
    ensures
        is_plain(items[i]),
{
    let tree = JsonView::List(items);
    assert(forall|j: int| 0 <= j < tree->List_0.len() ==> is_plain(#[trigger] tree->List_0[j]));
}

/// The members of a plain object are plain.
pub(crate) proof fn lemma_plain_member(members: Seq<(Seq<char>, JsonView)>, i: int)
    requires
        is_plain(JsonView::Object(members)),
        0 <= i < members.len(),
    ensures
        is_plain(members[i].1),
{
    let tree = JsonView::Object(members);
    assert(forall|j: int| 0 <= j < tree->Object_0.len() ==> is_plain((#[trigger] tree->Object_0[j]).1));
    assert(is_plain(tree->Object_0[i].1));
}

/// The character that a text starts with; a space for an empty text.
spec fn head(text: Seq<char>) -> char {
    if text.len() > 0 {
        text[0]
    } else {
        ' '
    }
}

/// Whether `c` is a decimal digit.
spec fn is_digit(c: char) -> bool {
    '0' <= c <= '9'
}

/// Two texts that are the same have the same rest after a prefix that is the
/// same.
proof fn lemma_cancel(prefix: Seq<char>, a: Seq<char>, b: Seq<char>)
    requires
        prefix + a == prefix + b,
    ensures
        a == b,
{
    assert((prefix + a).skip(prefix.len() as int) =~= a);
    assert((prefix + b).skip(prefix.len() as int) =~= b);
}

/// A written character can be told from what follows it.
proof fn lemma_char_unique(c: char, rest: Seq<char>, d: char, other: Seq<char>)
    requires
        json_char(c) + rest == json_char(d) + other,
    ensures
        c == d,
        rest == other,
{
    let text = json_char(c) + rest;
    assert(text == json_char(d) + other);
    assert(text[0] == json_char(c)[0]);
    assert(text[0] == json_char(d)[0]);
    if json_char(c).len() > 1 {
        assert(text[1] == json_char(c)[1]);
    }
    if json_char(d).len() > 1 {
        assert(text[1] == json_char(d)[1]);
    }
    if json_char(c).len() > 2 {
        assert(text[4] == json_char(c)[4]);
        assert(text[5] == json_char(c)[5]);
    }
    if json_char(d).len() > 2 {
        assert(text[4] == json_char(d)[4]);
        assert(text[5] == json_char(d)[5]);
    }
    assert(c == d);
    lemma_cancel(json_char(c), rest, other);
}

/// A written string can be told from what follows it.
proof fn lemma_chars_unique(a: Seq<char>, rest: Seq<char>, b: Seq<char>, other: Seq<char>)
    requires
        json_chars(a) + (seq!['"'] + rest) == json_chars(b) + (seq!['"'] + other),
    ensures
        a == b,
        rest == other,
    decreases a.len(),
{
    let quoted = seq!['"'] + rest;
    let other_quoted = seq!['"'] + other;
    let text = json_chars(a) + quoted;
    assert(text == json_chars(b) + other_quoted);
    if a.len() == 0 && b.len() == 0 {
        assert(text =~= quoted);
        assert(text =~= other_quoted);
        lemma_cancel(seq!['"'], rest, other);
        assert(a =~= b);
    } else if a.len() == 0 {
        assert(text[0] == '"');
        assert(text[0] == json_char(b[0])[0]);
    } else if b.len() == 0 {
        assert(text[0] == '"');
        assert(text[0] == json_char(a[0])[0]);
    } else {
        assert(text =~= json_char(a[0]) + (json_chars(a.skip(1)) + quoted));
        assert(text =~= json_char(b[0]) + (json_chars(b.skip(1)) + other_quoted));
        lemma_char_unique(a[0], json_chars(a.skip(1)) + quoted, b[0], json_chars(b.skip(1)) + other_quoted);
        lemma_chars_unique(a.skip(1), rest, b.skip(1), other);
        assert(a =~= seq![a[0]] + a.skip(1));
        assert(b =~= seq![b[0]] + b.skip(1));
    }
}

/// A written string literal can be told from what follows it.
proof fn lemma_string_unique(a: Seq<char>, rest: Seq<char>, b: Seq<char>, other: Seq<char>)
    requires
        json_string(a) + rest == json_string(b) + other,
    ensures
        a == b,
        rest == other,
{
    let inner = json_chars(a) + (seq!['"'] + rest);
    let other_inner = json_chars(b) + (seq!['"'] + other);
    assert(json_string(a) + rest =~= seq!['"'] + inner);
    assert(json_string(b) + other =~= seq!['"'] + other_inner);
    lemma_cancel(seq!['"'], inner, other_inner);
    lemma_chars_unique(a, rest, b, other);
}

/// Different texts have different JSON strings.
pub proof fn law_json_string_is_injective(a: Seq<char>, b: Seq<char>)
    ensures
        json_string(a) == json_string(b) ==> a == b,
{
    if json_string(a) == json_string(b) {
        lemma_string_unique(a, Seq::empty(), b, Seq::empty());
    }
}

/// A number is written in digits.
proof fn lemma_decimal_digits(n: nat)
    ensures
        decimal_text(n).len() > 0,
        forall|i: int| 0 <= i < decimal_text(n).len() ==> is_digit(#[trigger] decimal_text(n)[i]),
    decreases n,
{
    if n >= 10 {
        lemma_decimal_digits(n / 10);
    }
}

/// Different numbers are written differently.
proof fn lemma_decimal_injective(n: nat, m: nat)
    requires
        decimal_text(n) == decimal_text(m),
    ensures
        n == m,
    decreases n,
{
    let text = decimal_text(n);
    let other = decimal_text(m);
    if n >= 10 {
        lemma_decimal_digits(n / 10);
        assert(text.drop_last() =~= decimal_text(n / 10));
        assert(text.last() == decimal_digit((n % 10) as int));
    }
    if m >= 10 {
        lemma_decimal_digits(m / 10);
        assert(other.drop_last() =~= decimal_text(m / 10));
        assert(other.last() == decimal_digit((m % 10) as int));
    }
    if n >= 10 && m >= 10 {
        lemma_decimal_injective(n / 10, m / 10);
        assert(decimal_digit((n % 10) as int) as int == '0' as int + n % 10);
        assert(decimal_digit((m % 10) as int) as int == '0' as int + m % 10);
    } else if n < 10 && m < 10 {
        assert(text[0] == other[0]);
        assert(text[0] as int == '0' as int + n);
        assert(other[0] as int == '0' as int + m);
    } else {
        assert(text.len() != other.len());
    }
}

/// A written number can be told from what follows it, unless that is a digit.
proof fn lemma_decimal_unique(n: nat, rest: Seq<char>, m: nat, other: Seq<char>)
    requires
        decimal_text(n) + rest == decimal_text(m) + other,
        !is_digit(head(rest)),
        !is_digit(head(other)),
    ensures
        n == m,
        rest == other,
{
    lemma_decimal_digits(n);
    lemma_decimal_digits(m);
    let a = decimal_text(n);
    let b = decimal_text(m);
    let text = a + rest;
    assert(text == b + other);
    if a.len() < b.len() {
        assert(text[a.len() as int] == b[a.len() as int]);
        assert(text[a.len() as int] == rest[0]);
    } else if b.len() < a.len() {
        assert(text[b.len() as int] == a[b.len() as int]);
        assert(text[b.len() as int] == other[0]);
    }
    assert(a =~= text.take(a.len() as int));
    assert(b =~= text.take(b.len() as int));
    lemma_decimal_injective(n, m);
    lemma_cancel(a, rest, other);
}

/// The items of an array from the `k`th on, each after a comma but the first.
spec fn items_from(items: Seq<JsonView>, k: nat) -> Seq<char>
    decreases items.len() - k,
{
    if k >= items.len() {
        Seq::empty()
    } else {
        (if k > 0 { ","@ } else { Seq::empty() }) + json_text(items[k as int]) + items_from(items, k + 1)
    }
}

/// The members of an object from the `k`th on, each after a comma but the
/// first.
spec fn members_from(members: Seq<(Seq<char>, JsonView)>, k: nat) -> Seq<char>
    decreases members.len() - k,
{
    if k >= members.len() {
        Seq::empty()
    } else {
        (if k > 0 { ","@ } else { Seq::empty() }) + json_string(members[k as int].0) + ":"@ + json_text(members[k as int].1)
            + members_from(members, k + 1)
    }
}

/// What stands before the `k`th of several parts.
spec fn comma(k: nat) -> Seq<char> {
    if k > 0 {
        seq![',']
    } else {
        Seq::empty()
    }
}

/// The text of a member, and then `rest`.
spec fn member_and(member: (Seq<char>, JsonView), rest: Seq<char>) -> Seq<char> {
    json_string(member.0) + (seq![':'] + (json_text(member.1) + rest))
}

/// The items from the `k`th on start with the `k`th.
proof fn lemma_items_step(items: Seq<JsonView>, k: nat, rest: Seq<char>)
    requires
        k < items.len(),
    ensures
        items_from(items, k) + rest == comma(k) + (json_text(items[k as int]) + (items_from(items, k + 1) + rest)),
{
    lemma_marks();
    assert(items_from(items, k) + rest =~= comma(k) + (json_text(items[k as int]) + (items_from(items, k + 1) + rest)));
}

/// The members from the `k`th on start with the `k`th.
proof fn lemma_members_step(members: Seq<(Seq<char>, JsonView)>, k: nat, rest: Seq<char>)
    requires
        k < members.len(),
    ensures
        members_from(members, k) + rest == comma(k) + member_and(members[k as int], members_from(members, k + 1) + rest),
{
    lemma_marks();
    assert(members_from(members, k) + rest =~= comma(k) + member_and(
        members[k as int],
        members_from(members, k + 1) + rest,
    ));
}

/// What comes after an item: a comma, or what closes the array.
proof fn lemma_items_head(items: Seq<JsonView>, k: nat, rest: Seq<char>)
    requires
        0 < k,
        rest.len() > 0,
    ensures
        (items_from(items, k) + rest).len() > 0,
        head(items_from(items, k) + rest) == (if k < items.len() { ',' } else { rest[0] }),
{
    if k < items.len() {
        lemma_items_step(items, k, rest);
    } else {
        assert(items_from(items, k) + rest =~= rest);
    }
}

/// What comes after a member: a comma, or what closes the object.
proof fn lemma_members_head(members: Seq<(Seq<char>, JsonView)>, k: nat, rest: Seq<char>)
    requires
        0 < k,
        rest.len() > 0,
    ensures
        (members_from(members, k) + rest).len() > 0,
        head(members_from(members, k) + rest) == (if k < members.len() { ',' } else { rest[0] }),
{
    if k < members.len() {
        lemma_members_step(members, k, rest);
    } else {
        assert(members_from(members, k) + rest =~= rest);
    }
}

/// The text of an array is that of its first items and that of the others.
proof fn lemma_items_split(items: Seq<JsonView>, k: nat)
    requires
        k <= items.len(),
    ensures
        items_text(items, items.len()) == items_text(items, k) + items_from(items, k),
    decreases items.len() - k,
{
    if k < items.len() {
        lemma_items_split(items, k + 1);
    }
    assert(items_text(items, items.len()) =~= items_text(items, k) + items_from(items, k));
}

/// The text of an object is that of its first members and that of the others.
proof fn lemma_members_split(members: Seq<(Seq<char>, JsonView)>, k: nat)
    requires
        k <= members.len(),
    ensures
        members_text(members, members.len()) == members_text(members, k) + members_from(members, k),
    decreases members.len() - k,
{
    if k < members.len() {
        lemma_members_split(members, k + 1);
    }
    assert(members_text(members, members.len()) =~= members_text(members, k) + members_from(members, k));
}

/// What the marks of JSON look like.
proof fn lemma_marks()
    ensures
        "null"@ == seq!['n', 'u', 'l', 'l'],
        "true"@ == seq!['t', 'r', 'u', 'e'],
        "false"@ == seq!['f', 'a', 'l', 's', 'e'],
        "["@ == seq!['['],
        "]"@ == seq![']'],
        "{"@ == seq!['{'],
        "}"@ == seq!['}'],
        ","@ == seq![','],
        ":"@ == seq![':'],
{
    reveal_strlit("null");
    reveal_strlit("true");
    reveal_strlit("false");
    reveal_strlit("[");
    reveal_strlit("]");
    reveal_strlit("{");
    reveal_strlit("}");
    reveal_strlit(",");
    reveal_strlit(":");
    assert("null"@ =~= seq!['n', 'u', 'l', 'l']);
    assert("true"@ =~= seq!['t', 'r', 'u', 'e']);
    assert("false"@ =~= seq!['f', 'a', 'l', 's', 'e']);
    assert("["@ =~= seq!['[']);
    assert("]"@ =~= seq![']']);
    assert("{"@ =~= seq!['{']);
    assert("}"@ =~= seq!['}']);
    assert(","@ =~= seq![',']);
    assert(":"@ =~= seq![':']);
}

/// What kind of tree a text is of shows at its first character.
proof fn lemma_head(tree: JsonView, rest: Seq<char>)
    requires
        is_plain(tree),
    ensures
        (json_text(tree) + rest).len() > 0,
        (match tree {
            JsonView::Null => (json_text(tree) + rest)[0] == 'n',
            JsonView::Bool(b) => (json_text(tree) + rest)[0] == (if b { 't' } else { 'f' }),
            JsonView::Number(_) => is_digit((json_text(tree) + rest)[0]),
            JsonView::OtherNumber(_) => false,
            JsonView::Text(_) => (json_text(tree) + rest)[0] == '"',
            JsonView::List(_) => (json_text(tree) + rest)[0] == '[',
            JsonView::Object(_) => (json_text(tree) + rest)[0] == '{',
        }),
{
    lemma_marks();
    if let JsonView::Number(n) = tree {
        lemma_decimal_digits(n as nat);
    }
}

/// A written tree can be told from what follows it, unless that is a digit.
proof fn lemma_tree_unique(a: JsonView, rest: Seq<char>, b: JsonView, other: Seq<char>)
    requires
        is_plain(a),
        is_plain(b),
        !is_digit(head(rest)),
        !is_digit(head(other)),
        json_text(a) + rest == json_text(b) + other,
    ensures
        a == b,
        rest == other,
    decreases a, 0nat,
{
    lemma_marks();
    lemma_head(a, rest);
    lemma_head(b, other);
    match (a, b) {
        (JsonView::Number(n), JsonView::Number(m)) => {
            lemma_decimal_unique(n as nat, rest, m as nat, other);
        },
        (JsonView::Text(s), JsonView::Text(t)) => {
            lemma_string_unique(s, rest, t, other);
        },
        (JsonView::List(items), JsonView::List(others)) => {
            lemma_items_split(items, 0);
            lemma_items_split(others, 0);
            let inner = items_from(items, 0) + (seq![']'] + rest);
            let other_inner = items_from(others, 0) + (seq![']'] + other);
            assert(json_text(a) + rest =~= seq!['['] + inner);
            assert(json_text(b) + other =~= seq!['['] + other_inner);
            lemma_cancel(seq!['['], inner, other_inner);
            assert(items.take(0) =~= others.take(0));
            lemma_items_unique(items, rest, others, other, 0);
        },
        (JsonView::Object(members), JsonView::Object(others)) => {
            lemma_members_split(members, 0);
            lemma_members_split(others, 0);
            let inner = members_from(members, 0) + (seq!['}'] + rest);
            let other_inner = members_from(others, 0) + (seq!['}'] + other);
            assert(json_text(a) + rest =~= seq!['{'] + inner);
            assert(json_text(b) + other =~= seq!['{'] + other_inner);
            lemma_cancel(seq!['{'], inner, other_inner);
            assert(members.take(0) =~= others.take(0));
            lemma_members_unique(members, rest, others, other, 0);
        },
        _ => {
            assert(a == b);
            lemma_cancel(json_text(a), rest, other);
        },
    }
}

/// The items of a written array can be told from each other.
proof fn lemma_items_unique(a: Seq<JsonView>, rest: Seq<char>, b: Seq<JsonView>, other: Seq<char>, k: nat)
    requires
        is_plain(JsonView::List(a)),
        is_plain(JsonView::List(b)),
        k <= a.len(),
        k <= b.len(),
        a.take(k as int) == b.take(k as int),
        items_from(a, k) + (seq![']'] + rest) == items_from(b, k) + (seq![']'] + other),
    ensures
        a == b,
        rest == other,
    decreases a, a.len() - k,
{
    let close = seq![']'] + rest;
    let other_close = seq![']'] + other;
    let tail = items_from(a, k + 1) + close;
    let other_tail = items_from(b, k + 1) + other_close;
    if k < a.len() {
        lemma_plain_item(a, k as int);
        lemma_items_step(a, k, close);
        lemma_head(a[k as int], tail);
    } else {
        assert(items_from(a, k) + close =~= close);
    }
    if k < b.len() {
        lemma_plain_item(b, k as int);
        lemma_items_step(b, k, other_close);
        lemma_head(b[k as int], other_tail);
    } else {
        assert(items_from(b, k) + other_close =~= other_close);
    }
    if k < a.len() && k < b.len() {
        lemma_cancel(comma(k), json_text(a[k as int]) + tail, json_text(b[k as int]) + other_tail);
        lemma_items_head(a, k + 1, close);
        lemma_items_head(b, k + 1, other_close);
        lemma_tree_unique(a[k as int], tail, b[k as int], other_tail);
        assert(a.take((k + 1) as int) =~= a.take(k as int).push(a[k as int]));
        assert(b.take((k + 1) as int) =~= b.take(k as int).push(b[k as int]));
        lemma_items_unique(a, rest, b, other, k + 1);
    } else if k == a.len() && k == b.len() {
        lemma_cancel(seq![']'], rest, other);
        assert(a =~= a.take(k as int));
        assert(b =~= b.take(k as int));
    } else {
        assert((items_from(a, k) + close)[0] == ']');
        assert(false);
    }
}

/// The members of a written object can be told from each other.
proof fn lemma_members_unique(
    a: Seq<(Seq<char>, JsonView)>,
    rest: Seq<char>,
    b: Seq<(Seq<char>, JsonView)>,
    other: Seq<char>,
    k: nat,
)
    requires
        is_plain(JsonView::Object(a)),
        is_plain(JsonView::Object(b)),
        k <= a.len(),
        k <= b.len(),
        a.take(k as int) == b.take(k as int),
        members_from(a, k) + (seq!['}'] + rest) == members_from(b, k) + (seq!['}'] + other),
    ensures
        a == b,
        rest == other,
    decreases a, a.len() - k,
{
    let close = seq!['}'] + rest;
    let other_close = seq!['}'] + other;
    let tail = members_from(a, k + 1) + close;
    let other_tail = members_from(b, k + 1) + other_close;
    if k < a.len() {
        lemma_plain_member(a, k as int);
        lemma_members_step(a, k, close);
    } else {
        assert(members_from(a, k) + close =~= close);
    }
    if k < b.len() {
        lemma_plain_member(b, k as int);
        lemma_members_step(b, k, other_close);
    } else {
        assert(members_from(b, k) + other_close =~= other_close);
    }
    if k < a.len() && k < b.len() {
        let value = json_text(a[k as int].1) + tail;
        let other_value = json_text(b[k as int].1) + other_tail;
        lemma_cancel(comma(k), member_and(a[k as int], tail), member_and(b[k as int], other_tail));
        lemma_string_unique(a[k as int].0, seq![':'] + value, b[k as int].0, seq![':'] + other_value);
        lemma_cancel(seq![':'], value, other_value);
        lemma_members_head(a, k + 1, close);
        lemma_members_head(b, k + 1, other_close);
        lemma_tree_unique(a[k as int].1, tail, b[k as int].1, other_tail);
        assert(a.take((k + 1) as int) =~= a.take(k as int).push(a[k as int]));
        assert(b.take((k + 1) as int) =~= b.take(k as int).push(b[k as int]));
        lemma_members_unique(a, rest, b, other, k + 1);
    } else if k == a.len() && k == b.len() {
        lemma_cancel(seq!['}'], rest, other);
        assert(a =~= a.take(k as int));
        assert(b =~= b.take(k as int));
    } else {
        assert((members_from(a, k) + close)[0] == '}');
        assert(false);
    }
}

/// Different trees have different texts: what was written can be told from the
/// text alone.
pub proof fn law_json_text_is_injective(a: JsonView, b: JsonView)
    requires
        is_plain(a),
        is_plain(b),
    ensures
        json_text(a) == json_text(b) ==> a == b,
{
    if json_text(a) == json_text(b) {
        lemma_tree_unique(a, Seq::empty(), b, Seq::empty());
    }
}

/// Text of which no character is a quote, a backslash or a control character
/// is written as it is, between quotes.
pub proof fn law_plain_text_is_written_as_it_is(text: Seq<char>)
    requires
        forall|i: int| 0 <= i < text.len() ==> 32 <= (#[trigger] text[i]) as nat && text[i] != '"' && text[i] != '\\',
    ensures
        json_string(text) == seq!['"'] + text + seq!['"'],
    decreases text.len(),
{
    if text.len() > 0 {
        law_plain_text_is_written_as_it_is(text.skip(1));
        assert(json_chars(text.skip(1)) =~= json_string(text.skip(1)).subrange(1, text.len() as int));
        assert(json_chars(text.skip(1)) =~= text.skip(1));
        assert(text[0] as nat >= 32);
        assert(json_chars(text) =~= text);
    }
}

/// A text is written part by part.
pub proof fn law_string_is_written_in_parts(a: Seq<char>, b: Seq<char>)
    ensures
        json_chars(a + b) == json_chars(a) + json_chars(b),
        json_string(a) == seq!['"'] + json_chars(a) + seq!['"'],
    decreases a.len(),
{
    if a.len() == 0 {
        assert(a + b =~= b);
        assert(json_chars(a) + json_chars(b) =~= json_chars(b));
    } else {
        law_string_is_written_in_parts(a.skip(1), b);
        assert((a + b).skip(1) =~= a.skip(1) + b);
        assert(json_chars(a + b) =~= json_chars(a) + json_chars(b));
    }
}

/// How the characters that cannot stand for themselves are written.
pub proof fn law_escapes(c: char)
    ensures
        c == '"' || c == '\\' ==> json_chars(seq![c]) == seq!['\\', c],
        c as nat == 8 ==> json_chars(seq![c]) == seq!['\\', 'b'],
        c as nat == 9 ==> json_chars(seq![c]) == seq!['\\', 't'],
        c as nat == 10 ==> json_chars(seq![c]) == seq!['\\', 'n'],
        c as nat == 12 ==> json_chars(seq![c]) == seq!['\\', 'f'],
        c as nat == 13 ==> json_chars(seq![c]) == seq!['\\', 'r'],
        c as nat <= 7 || c as nat == 11 || 14 <= c as nat <= 31 ==> json_chars(seq![c]) == "\\u00"@
            + seq!["0123456789abcdef"@[c as int / 16], "0123456789abcdef"@[c as int % 16]],
{
    reveal_strlit("\\u00");
    reveal_strlit("0123456789abcdef");
    assert(seq![c].skip(1) =~= Seq::empty());
    reveal_with_fuel(json_chars, 2);
    assert(json_chars(seq![c]) =~= json_char(c));
    if c as nat <= 7 || c as nat == 11 || 14 <= c as nat <= 31 {
        assert(json_chars(seq![c]) =~= "\\u00"@ + seq![
            "0123456789abcdef"@[c as int / 16],
            "0123456789abcdef"@[c as int % 16],
        ]);
    }
}

/// How a tree that holds no other is written.
pub proof fn law_scalars_are_written(n: u64, text: Seq<char>)
    ensures
        json_text(JsonView::Null) == "null"@,
        json_text(JsonView::Bool(true)) == "true"@,
        json_text(JsonView::Bool(false)) == "false"@,
        json_text(JsonView::Number(n)) == decimal_text(n as nat),
        json_text(JsonView::OtherNumber(text)) == text,
        json_text(JsonView::Text(text)) == json_string(text),
{
}

/// An array is written in its order between brackets: one more item goes
/// behind the others, after a comma where there are others.
pub proof fn law_array_is_written_in_order(items: Seq<JsonView>, item: JsonView)
    ensures
        json_text(JsonView::List(Seq::empty())) == "[]"@,
        json_text(JsonView::List(items.push(item))) == json_text(JsonView::List(items)).drop_last() + (if items.len() > 0 {
            ","@
        } else {
            Seq::empty()
        }) + json_text(item) + "]"@,
{
    lemma_marks();
    reveal_strlit("[]");
    assert(json_text(JsonView::List(Seq::empty())) =~= "[]"@);
    let more = items.push(item);
    lemma_items_prefix(items, item, items.len());
    assert(json_text(JsonView::List(items)).drop_last() =~= "["@ + items_text(items, items.len()));
    assert(json_text(JsonView::List(more)) =~= json_text(JsonView::List(items)).drop_last() + (if items.len() > 0 {
        ","@
    } else {
        Seq::empty()
    }) + json_text(item) + "]"@);
}

/// The first items are written alike whatever comes after them.
proof fn lemma_items_prefix(items: Seq<JsonView>, item: JsonView, n: nat)
    requires
        n <= items.len(),
    ensures
        items_text(items.push(item), n) == items_text(items, n),
    decreases n,
{
    if n > 0 {
        lemma_items_prefix(items, item, (n - 1) as nat);
    }
}

/// An object is written in its order between braces: one more member goes
/// behind the others, after a comma where there are others, as its key, a
/// colon and its value.
pub proof fn law_object_is_written_in_order(members: Seq<(Seq<char>, JsonView)>, key: Seq<char>, value: JsonView)
    ensures
        json_text(JsonView::Object(Seq::empty())) == "{}"@,
        json_text(JsonView::Object(members.push((key, value)))) == json_text(JsonView::Object(members)).drop_last() + (
        if members.len() > 0 {
            ","@
        } else {
            Seq::empty()
        }) + json_string(key) + ":"@ + json_text(value) + "}"@,
{
    lemma_marks();
    reveal_strlit("{}");
    assert(json_text(JsonView::Object(Seq::empty())) =~= "{}"@);
    let more = members.push((key, value));
    lemma_members_prefix(members, (key, value), members.len());
    assert(json_text(JsonView::Object(members)).drop_last() =~= "{"@ + members_text(members, members.len()));
    assert(json_text(JsonView::Object(more)) =~= json_text(JsonView::Object(members)).drop_last() + (if members.len() > 0 {
        ","@
    } else {
        Seq::empty()
    }) + json_string(key) + ":"@ + json_text(value) + "}"@);
}

/// The first members are written alike whatever comes after them.
proof fn lemma_members_prefix(members: Seq<(Seq<char>, JsonView)>, member: (Seq<char>, JsonView), n: nat)
    requires
        n <= members.len(),
    ensures
        members_text(members.push(member), n) == members_text(members, n),
    decreases n,
{
    if n > 0 {
        lemma_members_prefix(members, member, (n - 1) as nat);
    }
}

/// A tree is viewed as what it holds, part by part.
pub proof fn law_tree_view(b: bool, n: u64, text: String, items: Vec<Json>, members: Vec<(String, Json)>, i: int)
    ensures
        Json::Null@ == JsonView::Null,
        Json::Bool(b)@ == JsonView::Bool(b),
        Json::Number(n)@ == JsonView::Number(n),
        Json::OtherNumber(text)@ == JsonView::OtherNumber(text@),
        Json::Text(text)@ == JsonView::Text(text@),
        Json::List(items)@ matches JsonView::List(views) && views.len() == items@.len() && (0 <= i < items@.len() ==> views[i]
            == items@[i]@),
        Json::Object(members)@ matches JsonView::Object(views) && views.len() == members@.len() && (0 <= i < members@.len()
            ==> views[i] == (members@[i].0@, members@[i].1@)),
{
}

} // verus!
