//! JSON values: what a file holds, and what a trainer says of itself.

use vstd::prelude::*;

use crate::text::{decimal, decimal_text, same_text, text_below, text_less};

verus! {

/// A JSON value. A number is held as the text it is written with.
#[derive(Debug)]
pub enum Json {
    Null,
    Bool(bool),
    Number(String),
    Text(String),
    Array(Vec<Json>),
    Object(Vec<Member>),
}

/// A member of an object.
#[derive(Debug)]
pub struct Member {
    pub key: String,
    pub value: Json,
}

/// What a JSON value says. The members of an object stand in order.
pub enum JsonView {
    Null,
    Bool(bool),
    Number(Seq<char>),
    Text(Seq<char>),
    Array(Seq<JsonView>),
    Object(Seq<(Seq<char>, JsonView)>),
}

// ── What a value says ────────────────────────────────────────────────────

/// The number of parts of a value.
pub open spec fn json_parts(j: Json) -> nat {
    match j {
        Json::Array(items) => items@.len(),
        Json::Object(members) => members@.len(),
        _ => 0,
    }
}

/// What a value says.
pub open spec fn model(j: Json) -> JsonView
    decreases j, json_parts(j) + 1,
{
    match j {
        Json::Null => JsonView::Null,
        Json::Bool(b) => JsonView::Bool(b),
        Json::Number(n) => JsonView::Number(n@),
        Json::Text(s) => JsonView::Text(s@),
        Json::Array(_) => JsonView::Array(first_items(j, json_parts(j))),
        Json::Object(_) => JsonView::Object(first_members(j, json_parts(j))),
    }
}

/// The first `n` items of an array.
pub open spec fn first_items(j: Json, n: nat) -> Seq<JsonView>
    decreases j, n,
{
    match j {
        Json::Array(items) => if n == 0 || n > items@.len() {
            Seq::empty()
        } else {
            first_items(j, (n - 1) as nat).push(model(items@[n - 1]))
        },
        _ => Seq::empty(),
    }
}

/// The first `n` members of an object.
pub open spec fn first_members(j: Json, n: nat) -> Seq<(Seq<char>, JsonView)>
    decreases j, n,
{
    match j {
        Json::Object(members) => if n == 0 || n > members@.len() {
            Seq::empty()
        } else {
            first_members(j, (n - 1) as nat).push(
                (members@[n - 1].key@, model(members@[n - 1].value)),
            )
        },
        _ => Seq::empty(),
    }
}

impl View for Json {
    type V = JsonView;

    open spec fn view(&self) -> JsonView {
        model(*self)
    }
}

/// What the items of a list say.
pub open spec fn values(items: Seq<Json>) -> Seq<JsonView> {
    items.map_values(|j: Json| model(j))
}

/// What the members of a list say.
pub open spec fn pairs(members: Seq<Member>) -> Seq<(Seq<char>, JsonView)> {
    members.map_values(|m: Member| (m.key@, model(m.value)))
}

proof fn items_are_values(j: Json, n: nat)
    requires
        j is Array,
        n <= json_parts(j),
    ensures
        first_items(j, n) == values(j->Array_0@.take(n as int)),
    decreases n,
{
    let items = j->Array_0@;
    if n > 0 {
        items_are_values(j, (n - 1) as nat);
    }
    assert(first_items(j, n) =~= values(items.take(n as int)));
}

proof fn members_are_pairs(j: Json, n: nat)
    requires
        j is Object,
        n <= json_parts(j),
    ensures
        first_members(j, n) == pairs(j->Object_0@.take(n as int)),
    decreases n,
{
    let members = j->Object_0@;
    if n > 0 {
        members_are_pairs(j, (n - 1) as nat);
    }
    assert(first_members(j, n) =~= pairs(members.take(n as int)));
}

/// An array says what its items say.
pub proof fn array_says(items: Vec<Json>)
    ensures
        model(Json::Array(items)) == JsonView::Array(values(items@)),
{
    let j = Json::Array(items);
    items_are_values(j, items@.len());
    assert(items@.take(items@.len() as int) =~= items@);
}

/// An object says what its members say.
pub proof fn object_says(members: Vec<Member>)
    ensures
        model(Json::Object(members)) == JsonView::Object(pairs(members@)),
{
    let j = Json::Object(members);
    members_are_pairs(j, members@.len());
    assert(members@.take(members@.len() as int) =~= members@);
}

// ── Compact text ─────────────────────────────────────────────────────────

/// A hexadecimal digit.
pub open spec fn hex_digit(n: int) -> char {
    if n < 10 {
        ('0' as int + n) as char
    } else {
        ('a' as int + n - 10) as char
    }
}

/// A character as it stands in quotes.
pub open spec fn escaped_char(c: char) -> Seq<char> {
    if c == '"' || c == '\\' {
        seq!['\\', c]
    } else if c == '\u{8}' {
        seq!['\\', 'b']
    } else if c == '\t' {
        seq!['\\', 't']
    } else if c == '\n' {
        seq!['\\', 'n']
    } else if c == '\u{c}' {
        seq!['\\', 'f']
    } else if c == '\r' {
        seq!['\\', 'r']
    } else if c as int <= 31 {
        seq!['\\', 'u', '0', '0', hex_digit(c as int / 16), hex_digit(c as int % 16)]
    } else {
        seq![c]
    }
}

/// A text as it stands in quotes.
pub open spec fn escaped(s: Seq<char>) -> Seq<char>
    decreases s.len(),
{
    if s.len() == 0 {
        Seq::empty()
    } else {
        escaped(s.drop_last()) + escaped_char(s.last())
    }
}

/// A text in quotes.
pub open spec fn quoted_text(s: Seq<char>) -> Seq<char> {
    seq!['"'] + escaped(s) + seq!['"']
}

/// Calls the `Display` of a `serde_json::Value` that holds a string: the text
/// in quotes, with quotes, backslashes and control characters escaped.
#[verifier::external_body]
fn quoted(s: &str) -> (r: String)
    ensures
        r@ == quoted_text(s@),
{
    serde_json::Value::from(s).to_string()
}

/// The number of parts of a value.
pub open spec fn parts(v: JsonView) -> nat {
    match v {
        JsonView::Array(items) => items.len(),
        JsonView::Object(members) => members.len(),
        _ => 0,
    }
}

/// The compact text of a value.
pub open spec fn json_text(v: JsonView) -> Seq<char>
    decreases v, parts(v) + 1,
{
    match v {
        JsonView::Null => "null"@,
        JsonView::Bool(b) => if b {
            "true"@
        } else {
            "false"@
        },
        JsonView::Number(n) => n,
        JsonView::Text(s) => quoted_text(s),
        JsonView::Array(_) => "["@ + parts_text(v, parts(v)) + "]"@,
        JsonView::Object(_) => "{"@ + parts_text(v, parts(v)) + "}"@,
    }
}

/// The text of the first `n` parts, with commas between them.
pub open spec fn parts_text(v: JsonView, n: nat) -> Seq<char>
    decreases v, n,
{
    if n == 0 || n > parts(v) {
        Seq::empty()
    } else {
        let front = parts_text(v, (n - 1) as nat) + (if n == 1 {
            ""@
        } else {
            ","@
        });
        match v {
            JsonView::Array(items) => front + json_text(items[n - 1]),
            JsonView::Object(members) => front + quoted_text(members[n - 1].0) + ":"@ + json_text(
                members[n - 1].1,
            ),
            _ => Seq::empty(),
        }
    }
}

impl Json {
    /// The compact text of this value.
    pub fn text(&self) -> (r: String)
        ensures
            r@ == json_text(self@),
        decreases *self, json_parts(*self) + 1,
    {
        match self {
            Json::Null => String::from_str("null"),
            Json::Bool(b) => if *b {
                String::from_str("true")
            } else {
                String::from_str("false")
            },
            Json::Number(n) => n.clone(),
            Json::Text(s) => quoted(s.as_str()),
            Json::Array(items) => {
                proof {
                    array_says(*items);
                }
                let mut out = String::from_str("[");
                let n: usize = items.len();
                let body = self.front_text(n);
                out.append(body.as_str());
                out.append("]");
                out
            },
            Json::Object(members) => {
                proof {
                    object_says(*members);
                }
                let mut out = String::from_str("{");
                let n: usize = members.len();
                let body = self.front_text(n);
                out.append(body.as_str());
                out.append("}");
                out
            },
        }
    }

    fn front_text(&self, n: usize) -> (r: String)
        requires
            n <= json_parts(*self),
        ensures
            r@ == parts_text(self@, n as nat),
        decreases *self, n as nat,
    {
        if n == 0 {
            return String::new();
        }
        let mut out = self.front_text(n - 1);
        out.append(if n == 1 {
            ""
        } else {
            ","
        });
        match self {
            Json::Array(items) => {
                proof {
                    array_says(*items);
                }
                let last = items[n - 1].text();
                out.append(last.as_str());
            },
            Json::Object(members) => {
                proof {
                    object_says(*members);
                }
                let key = quoted(members[n - 1].key.as_str());
                out.append(key.as_str());
                out.append(":");
                let last = members[n - 1].value.text();
                out.append(last.as_str());
            },
            _ => {},
        }
        out
    }
}

// ── Members of an object ─────────────────────────────────────────────────

/// The place of a key, counted over the first `n` members; `n` if it is not
/// there.
pub open spec fn key_slot(members: Seq<(Seq<char>, JsonView)>, key: Seq<char>, n: nat) -> int
    decreases n,
{
    if n == 0 {
        0
    } else if key_slot(members, key, (n - 1) as nat) < n - 1 {
        key_slot(members, key, (n - 1) as nat)
    } else if members[n - 1].0 == key {
        n - 1
    } else {
        n as int
    }
}

pub open spec fn has_key(members: Seq<(Seq<char>, JsonView)>, key: Seq<char>) -> bool {
    key_slot(members, key, members.len()) < members.len()
}

/// The value of a key that is there.
pub open spec fn value_of(members: Seq<(Seq<char>, JsonView)>, key: Seq<char>) -> JsonView {
    members[key_slot(members, key, members.len())].1
}

/// A key that is found stands where it is found.
pub proof fn slot_has_key(members: Seq<(Seq<char>, JsonView)>, key: Seq<char>, n: nat)
    requires
        n <= members.len(),
    ensures
        0 <= key_slot(members, key, n) <= n,
        key_slot(members, key, n) < n ==> members[key_slot(members, key, n)].0 == key,
    decreases n,
{
    if n > 0 {
        slot_has_key(members, key, (n - 1) as nat);
    }
}

pub(crate) proof fn slot_stays(
    members: Seq<(Seq<char>, JsonView)>,
    key: Seq<char>,
    m: nat,
    n: nat,
)
    requires
        m <= n <= members.len(),
        key_slot(members, key, m) < m,
    ensures
        key_slot(members, key, n) == key_slot(members, key, m),
    decreases n,
{
    if m < n {
        slot_stays(members, key, m, (n - 1) as nat);
    }
}

proof fn no_key_before(members: Seq<(Seq<char>, JsonView)>, key: Seq<char>, n: nat)
    requires
        n <= members.len(),
        forall|k: int| 0 <= k < n ==> (#[trigger] members[k]).0 != key,
    ensures
        key_slot(members, key, n) == n,
    decreases n,
{
    if n > 0 {
        no_key_before(members, key, (n - 1) as nat);
    }
}

/// A key is found at the first place that has it.
pub proof fn key_is_found(members: Seq<(Seq<char>, JsonView)>, key: Seq<char>, at: int)
    requires
        0 <= at < members.len(),
        members[at].0 == key,
        forall|k: int| 0 <= k < at ==> (#[trigger] members[k]).0 != key,
    ensures
        has_key(members, key),
        key_slot(members, key, members.len()) == at,
        value_of(members, key) == members[at].1,
{
    no_key_before(members, key, at as nat);
    slot_stays(members, key, (at + 1) as nat, members.len());
}

/// Finds a key among the members of an object.
pub(crate) fn find_key(members: &Vec<Member>, key: &str) -> (r: Option<usize>)
    ensures
        match r {
            Some(i) => i < members@.len() && key_slot(pairs(members@), key@, members@.len()) == i,
            None => !has_key(pairs(members@), key@),
        },
{
    let mut i: usize = 0;
    let ghost all = pairs(members@);
    while i < members.len()
        invariant
            i <= members@.len(),
            all == pairs(members@),
            key_slot(all, key@, i as nat) == i,
        decreases members@.len() - i,
    {
        if same_text(members[i].key.as_str(), key) {
            proof {
                slot_stays(all, key@, (i + 1) as nat, all.len());
            }
            return Some(i);
        }
        i = i + 1;
    }
    None
}

/// The value of a field; none if the value is no object or lacks it.
pub open spec fn field(v: JsonView, key: Seq<char>) -> Option<JsonView> {
    match v {
        JsonView::Object(members) => if has_key(members, key) {
            Some(value_of(members, key))
        } else {
            None
        },
        _ => None,
    }
}

impl Json {
    /// The value of a field.
    pub fn get<'a>(&'a self, key: &str) -> (r: Option<&'a Json>)
        ensures
            match r {
                Some(x) => field(self@, key@) == Some(x@),
                None => field(self@, key@) is None,
            },
    {
        match self {
            Json::Object(members) => {
                proof {
                    object_says(*members);
                }
                match find_key(members, key) {
                    Some(i) => Some(&members[i].value),
                    None => None,
                }
            },
            _ => None,
        }
    }
}

// ── Numbers ──────────────────────────────────────────────────────────────

/// The value of a decimal digit.
pub open spec fn digit_of(c: char) -> int {
    c as u32 - '0' as u32
}

pub open spec fn is_digit(c: char) -> bool {
    '0' <= c <= '9'
}

/// The number that digits write.
pub open spec fn written(s: Seq<char>) -> int
    decreases s.len(),
{
    if s.len() == 0 {
        0
    } else {
        written(s.drop_last()) * 10 + digit_of(s.last())
    }
}

pub open spec fn all_digits(s: Seq<char>) -> bool {
    forall|i: int| 0 <= i < s.len() ==> is_digit(#[trigger] s[i])
}

/// The whole number a value is, if it is one that fits 64 bits without a sign.
pub open spec fn whole_number(v: JsonView) -> Option<u64> {
    match v {
        JsonView::Number(t) => if t.len() > 0 && all_digits(t) && written(t) <= u64::MAX {
            Some(written(t) as u64)
        } else {
            None
        },
        _ => None,
    }
}

/// The whole number in a field.
pub open spec fn number_field(v: JsonView, key: Seq<char>) -> Option<u64> {
    match field(v, key) {
        Some(x) => whole_number(x),
        None => None,
    }
}

proof fn written_grows(s: Seq<char>, n: int)
    requires
        all_digits(s),
        0 <= n <= s.len(),
    ensures
        0 <= written(s.take(n)) <= written(s),
    decreases s.len(),
{
    if s.len() == 0 {
        assert(s.take(n) =~= s);
    } else {
        let rest = s.drop_last();
        assert(all_digits(rest)) by {
            assert forall|i: int| 0 <= i < rest.len() implies is_digit(#[trigger] rest[i]) by {
                assert(rest[i] == s[i]);
            }
        }
        assert(is_digit(s[s.len() - 1]));
        written_grows(rest, if n < s.len() { n } else { rest.len() as int });
        assert(rest.take(rest.len() as int) =~= rest);
        if n < s.len() {
            assert(s.take(n) =~= rest.take(n));
        } else {
            assert(s.take(n) =~= s);
        }
    }
}

impl Json {
    /// The whole number this value is.
    pub fn as_whole_number(&self) -> (r: Option<u64>)
        ensures
            r == whole_number(self@),
    {
        if let Json::Number(t) = self {
            let n: usize = t.as_str().unicode_len();
            if n == 0 {
                return None;
            }
            let mut value: u64 = 0;
            let mut i: usize = 0;
            assert(t@.take(0) =~= Seq::empty());
            while i < n
                invariant
                    i <= n,
                    n == t@.len(),
                    n > 0,
                    self@ == JsonView::Number(t@),
                    forall|j: int| 0 <= j < i ==> is_digit(#[trigger] t@[j]),
                    value == written(t@.take(i as int)),
                decreases n - i,
            {
                let c = t.as_str().get_char(i);
                if !('0' <= c && c <= '9') {
                    assert(!is_digit(t@[i as int]));
                    return None;
                }
                let d: u64 = (c as u32 - '0' as u32) as u64;
                proof {
                    assert(t@.take(i + 1).drop_last() =~= t@.take(i as int));
                    assert(t@.take(i + 1).last() == c);
                    if all_digits(t@) {
                        written_grows(t@, i + 1);
                    }
                }
                if value > 1_844_674_407_370_955_161 || value * 10 > u64::MAX - d {
                    return None;
                }
                value = value * 10 + d;
                i = i + 1;
            }
            assert(t@.take(n as int) =~= t@);
            Some(value)
        } else {
            None
        }
    }

    /// The whole number in a field.
    pub fn get_number(&self, key: &str) -> (r: Option<u64>)
        ensures
            r == number_field(self@, key@),
    {
        match self.get(key) {
            Some(x) => x.as_whole_number(),
            None => None,
        }
    }
}

/// A number that was written in decimal reads back as itself.
pub proof fn decimal_reads_back(n: nat)
    ensures
        decimal_text(n).len() > 0,
        all_digits(decimal_text(n)),
        written(decimal_text(n)) == n,
    decreases n,
{
    let s = decimal_text(n);
    if n < 10 {
        assert(s.drop_last() =~= Seq::empty());
        assert(written(s.drop_last()) == 0);
        assert(s.last() == crate::text::digit_char(n));
    } else {
        decimal_reads_back(n / 10);
        let front = decimal_text(n / 10);
        assert(s.drop_last() =~= front);
        assert(s.last() == crate::text::digit_char(n % 10));
        assert forall|i: int| 0 <= i < s.len() implies is_digit(#[trigger] s[i]) by {
            if i < front.len() {
                assert(s[i] == front[i]);
            }
        }
    }
}

// ── Making values ────────────────────────────────────────────────────────

/// A whole number as a value.
pub open spec fn number_value(n: nat) -> JsonView {
    JsonView::Number(decimal_text(n))
}

/// A whole number as a value; null if there is none.
pub open spec fn optional_number(n: Option<usize>) -> JsonView {
    match n {
        Some(x) => number_value(x as nat),
        None => JsonView::Null,
    }
}

impl Json {
    /// A whole number.
    pub fn number(n: u64) -> (r: Json)
        ensures
            r@ == number_value(n as nat),
    {
        Json::Number(decimal(n))
    }

    /// A whole number, or null.
    pub fn maybe_number(n: Option<usize>) -> (r: Json)
        ensures
            r@ == optional_number(n),
    {
        match n {
            Some(x) => Json::number(x as u64),
            None => Json::Null,
        }
    }

    /// A text.
    pub fn string(s: &str) -> (r: Json)
        ensures
            r@ == JsonView::Text(s@),
    {
        Json::Text(String::from_str(s))
    }
}

impl Json {
    /// A copy of this value.
    pub fn copy(&self) -> (r: Json)
        ensures
            r@ == self@,
        decreases *self, json_parts(*self) + 1,
    {
        match self {
            Json::Null => Json::Null,
            Json::Bool(b) => Json::Bool(*b),
            Json::Number(n) => Json::Number(n.clone()),
            Json::Text(s) => Json::Text(s.clone()),
            Json::Array(items) => {
                let n: usize = items.len();
                let out = self.copy_items(n);
                proof {
                    array_says(*items);
                    array_says(out);
                    assert(items@.take(n as int) =~= items@);
                }
                Json::Array(out)
            },
            Json::Object(members) => {
                let n: usize = members.len();
                let out = self.copy_members(n);
                proof {
                    object_says(*members);
                    object_says(out);
                    assert(members@.take(n as int) =~= members@);
                }
                Json::Object(out)
            },
        }
    }

    fn copy_items(&self, n: usize) -> (r: Vec<Json>)
        requires
            self is Array,
            n <= json_parts(*self),
        ensures
            values(r@) == values(self->Array_0@.take(n as int)),
        decreases *self, n as nat,
    {
        if n == 0 {
            let out: Vec<Json> = Vec::new();
            assert(values(out@) =~= values(self->Array_0@.take(0)));
            return out;
        }
        let mut out = self.copy_items(n - 1);
        let ghost before = out@;
        if let Json::Array(items) = self {
            out.push(items[n - 1].copy());
            assert(values(out@) =~= values(before).push(items@[n - 1]@));
            assert(values(items@.take(n as int)) =~= values(items@.take(n - 1)).push(
                items@[n - 1]@,
            ));
        }
        out
    }

    fn copy_members(&self, n: usize) -> (r: Vec<Member>)
        requires
            self is Object,
            n <= json_parts(*self),
        ensures
            pairs(r@) == pairs(self->Object_0@.take(n as int)),
        decreases *self, n as nat,
    {
        if n == 0 {
            let out: Vec<Member> = Vec::new();
            assert(pairs(out@) =~= pairs(self->Object_0@.take(0)));
            return out;
        }
        let mut out = self.copy_members(n - 1);
        let ghost before = out@;
        if let Json::Object(members) = self {
            out.push(
                Member { key: members[n - 1].key.clone(), value: members[n - 1].value.copy() },
            );
            assert(pairs(out@) =~= pairs(before).push(
                (members@[n - 1].key@, members@[n - 1].value@),
            ));
            assert(pairs(members@.take(n as int)) =~= pairs(members@.take(n - 1)).push(
                (members@[n - 1].key@, members@[n - 1].value@),
            ));
        }
        out
    }

    /// Whether two values say the same.
    pub fn same(&self, other: &Json) -> (r: bool)
        ensures
            r == (self@ == other@),
        decreases *self, json_parts(*self) + 1,
    {
        match (self, other) {
            (Json::Null, Json::Null) => true,
            (Json::Bool(a), Json::Bool(b)) => *a == *b,
            (Json::Number(a), Json::Number(b)) => same_text(a.as_str(), b.as_str()),
            (Json::Text(a), Json::Text(b)) => same_text(a.as_str(), b.as_str()),
            (Json::Array(a), Json::Array(b)) => {
                proof {
                    array_says(*a);
                    array_says(*b);
                }
                if a.len() != b.len() {
                    assert(values(a@).len() != values(b@).len());
                    return false;
                }
                let n: usize = a.len();
                let r = self.same_items(b, n);
                assert(values(a@).take(n as int) =~= values(a@));
                assert(values(b@).take(n as int) =~= values(b@));
                r
            },
            (Json::Object(a), Json::Object(b)) => {
                proof {
                    object_says(*a);
                    object_says(*b);
                }
                if a.len() != b.len() {
                    assert(pairs(a@).len() != pairs(b@).len());
                    return false;
                }
                let n: usize = a.len();
                let r = self.same_members(b, n);
                assert(pairs(a@).take(n as int) =~= pairs(a@));
                assert(pairs(b@).take(n as int) =~= pairs(b@));
                r
            },
            _ => false,
        }
    }

    fn same_items(&self, other: &Vec<Json>, n: usize) -> (r: bool)
        requires
            self is Array,
            n <= json_parts(*self),
            n <= other@.len(),
        ensures
            r == (values(self->Array_0@).take(n as int) == values(other@).take(n as int)),
        decreases *self, n as nat,
    {
        if n == 0 {
            assert(values(self->Array_0@).take(0) =~= values(other@).take(0));
            return true;
        }
        let front = self.same_items(other, n - 1);
        if let Json::Array(items) = self {
            let last = items[n - 1].same(&other[n - 1]);
            proof {
                let x = values(items@).take(n as int);
                let y = values(other@).take(n as int);
                assert(x =~= values(items@).take(n - 1).push(items@[n - 1]@));
                assert(y =~= values(other@).take(n - 1).push(other@[n - 1]@));
                assert(x.drop_last() =~= values(items@).take(n - 1));
                assert(y.drop_last() =~= values(other@).take(n - 1));
                assert(x.last() == items@[n - 1]@ && y.last() == other@[n - 1]@);
            }
            return front && last;
        }
        front
    }

    fn same_members(&self, other: &Vec<Member>, n: usize) -> (r: bool)
        requires
            self is Object,
            n <= json_parts(*self),
            n <= other@.len(),
        ensures
            r == (pairs(self->Object_0@).take(n as int) == pairs(other@).take(n as int)),
        decreases *self, n as nat,
    {
        if n == 0 {
            assert(pairs(self->Object_0@).take(0) =~= pairs(other@).take(0));
            return true;
        }
        let front = self.same_members(other, n - 1);
        if let Json::Object(members) = self {
            let key = same_text(members[n - 1].key.as_str(), other[n - 1].key.as_str());
            let last = members[n - 1].value.same(&other[n - 1].value);
            proof {
                let x = pairs(members@).take(n as int);
                let y = pairs(other@).take(n as int);
                let a = (members@[n - 1].key@, members@[n - 1].value@);
                let b = (other@[n - 1].key@, other@[n - 1].value@);
                assert(x =~= pairs(members@).take(n - 1).push(a));
                assert(y =~= pairs(other@).take(n - 1).push(b));
                assert(x.drop_last() =~= pairs(members@).take(n - 1));
                assert(y.drop_last() =~= pairs(other@).take(n - 1));
                assert(x.last() == a && y.last() == b);
            }
            return front && key && last;
        }
        front
    }
}

/// Copies a list of values.
pub(crate) fn copy_all(items: &Vec<Json>) -> (r: Vec<Json>)
    ensures
        values(r@) == values(items@),
{
    let mut out: Vec<Json> = Vec::new();
    let mut i: usize = 0;
    while i < items.len()
        invariant
            i <= items@.len(),
            values(out@) =~= values(items@).take(i as int),
        decreases items@.len() - i,
    {
        let ghost before = out@;
        out.push(items[i].copy());
        assert(values(out@) =~= values(before).push(items@[i as int]@));
        i = i + 1;
    }
    assert(values(out@) =~= values(items@));
    out
}

/// Adds a member at the end of a list.
pub(crate) fn put(members: &mut Vec<Member>, key: &str, value: Json)
    ensures
        pairs(final(members)@) == pairs(old(members)@).push((key@, value@)),
{
    members.push(Member { key: String::from_str(key), value });
    assert(pairs(members@) =~= pairs(old(members)@).push((key@, value@)));
}

// ── Reading and writing ──────────────────────────────────────────────────

/// A value of `serde_json`.
#[verifier::external_type_specification]
#[verifier::external_body]
pub struct ExSerdeValue(serde_json::Value);

/// What a `serde_json::Value` holds; a number counts as the text that its
/// `Display` writes.
pub uninterp spec fn held(v: serde_json::Value) -> JsonView;

/// What `serde_json::from_str` makes of a text that is read as a
/// `serde_json::Value`: the value, or the text of the error.
pub uninterp spec fn parsed_json(raw: Seq<char>) -> Result<JsonView, Seq<char>>;

/// What came of reading a text.
pub open spec fn outcome(r: Result<serde_json::Value, String>) -> Result<JsonView, Seq<char>> {
    match r {
        Ok(v) => Ok(held(v)),
        Err(e) => Err(e@),
    }
}

/// A text reads as a value.
pub open spec fn reads_as(raw: Seq<char>, v: JsonView) -> bool {
    parsed_json(raw) == Ok::<JsonView, Seq<char>>(v)
}

/// A text is no JSON, for this reason.
pub open spec fn unreadable(raw: Seq<char>, why: Seq<char>) -> bool {
    parsed_json(raw) == Err::<JsonView, Seq<char>>(why)
}

/// What `serde_json::to_string_pretty` writes for a `serde_json::Value`.
pub uninterp spec fn pretty_text(v: JsonView) -> Seq<char>;

/// How deep a value nests.
pub open spec fn depth(v: JsonView) -> nat
    decreases v, parts(v) + 1,
{
    match v {
        JsonView::Array(_) => 1 + depth_of_parts(v, parts(v)),
        JsonView::Object(_) => 1 + depth_of_parts(v, parts(v)),
        _ => 0,
    }
}

/// How deep the first `n` parts of a value nest.
pub open spec fn depth_of_parts(v: JsonView, n: nat) -> nat
    decreases v, n,
{
    if n == 0 || n > parts(v) {
        0
    } else {
        let rest = depth_of_parts(v, (n - 1) as nat);
        let last = match v {
            JsonView::Array(items) => depth(items[n - 1]),
            JsonView::Object(members) => depth(members[n - 1].1),
            _ => 0,
        };
        if last > rest {
            last
        } else {
            rest
        }
    }
}

/// Every number is a whole one without a sign that fits 64 bits, and the keys
/// of every object ascend.
pub open spec fn plain(v: JsonView) -> bool
    decreases v,
{
    match v {
        JsonView::Number(t) => exists|n: u64| t == #[trigger] decimal_text(n as nat),
        JsonView::Array(items) => forall|i: int| 0 <= i < items.len() ==> plain(#[trigger] items[i]),
        JsonView::Object(members) => {
            &&& forall|i: int, j: int|
                0 <= i < j < members.len() ==> text_below(
                    (#[trigger] members[i]).0,
                    (#[trigger] members[j]).0,
                )
            &&& forall|i: int| 0 <= i < members.len() ==> plain((#[trigger] members[i]).1)
        },
        _ => true,
    }
}

/// The keys of every object ascend.
pub open spec fn ordered(v: JsonView) -> bool
    decreases v,
{
    match v {
        JsonView::Array(items) => forall|i: int|
            0 <= i < items.len() ==> ordered(#[trigger] items[i]),
        JsonView::Object(members) => {
            &&& ascending(members)
            &&& forall|i: int| 0 <= i < members.len() ==> ordered((#[trigger] members[i]).1)
        },
        _ => true,
    }
}

/// The keys of some members ascend.
pub open spec fn ascending(members: Seq<(Seq<char>, JsonView)>) -> bool {
    forall|i: int, j: int|
        0 <= i < j < members.len() ==> text_below(
            (#[trigger] members[i]).0,
            (#[trigger] members[j]).0,
        )
}

/// The number that the text of a number reads as; null for a text that is none.
pub open spec fn number_read(t: Seq<char>) -> JsonView {
    match parsed_json(t) {
        Ok(JsonView::Number(u)) => JsonView::Number(u),
        _ => JsonView::Null,
    }
}

/// A value with every number in it as it reads. (A number of many digits may
/// read as its neighbour.)
pub open spec fn as_read(v: JsonView) -> JsonView
    decreases v,
{
    match v {
        JsonView::Number(t) => number_read(t),
        JsonView::Array(items) => JsonView::Array(
            Seq::new(
                items.len(),
                |i: int|
                    if 0 <= i < items.len() {
                        as_read(items[i])
                    } else {
                        JsonView::Null
                    },
            ),
        ),
        JsonView::Object(members) => JsonView::Object(
            Seq::new(
                members.len(),
                |i: int|
                    (
                        members[i].0,
                        if 0 <= i < members.len() {
                            as_read(members[i].1)
                        } else {
                            JsonView::Null
                        },
                    ),
            ),
        ),
        _ => v,
    }
}

/// A list has its keys in order exactly if each of its items has.
pub proof fn items_are_ordered(items: Seq<JsonView>)
    ensures
        ordered(JsonView::Array(items)) <==> forall|i: int|
            0 <= i < items.len() ==> ordered(#[trigger] items[i]),
{
    let v = JsonView::Array(items);
    assert(v->Array_0 == items);
    if ordered(v) {
        assert forall|i: int| 0 <= i < items.len() implies ordered(#[trigger] items[i]) by {
            assert(ordered(v->Array_0[i]));
        }
    }
}

/// What is plain has its keys in order.
pub proof fn plain_is_ordered(v: JsonView)
    requires
        plain(v),
    ensures
        ordered(v),
    decreases v,
{
    match v {
        JsonView::Array(items) => {
            assert forall|i: int| 0 <= i < items.len() implies ordered(#[trigger] items[i]) by {
                assert(plain(items[i]));
                plain_is_ordered(items[i]);
            }
        },
        JsonView::Object(members) => {
            assert forall|i: int| 0 <= i < members.len() implies ordered(
                (#[trigger] members[i]).1,
            ) by {
                assert(plain(members[i].1));
                plain_is_ordered(members[i].1);
            }
        },
        _ => {},
    }
}

/// Keys ascend if each comes before the next.
pub proof fn neighbours_ascend(members: Seq<(Seq<char>, JsonView)>, i: int, j: int)
    requires
        0 <= i < j < members.len(),
        forall|k: int|
            #![trigger members[k]]
            0 <= k < members.len() - 1 ==> text_below(members[k].0, members[k + 1].0),
    ensures
        text_below(members[i].0, members[j].0),
    decreases j - i,
{
    assert(text_below(members[i].0, members[i + 1].0));
    if i + 1 < j {
        neighbours_ascend(members, i + 1, j);
        crate::text::text_order_is_transitive(members[i].0, members[i + 1].0, members[j].0);
    }
}

/// An object whose keys ascend has them in order exactly if each of its values
/// has.
pub proof fn members_are_ordered(members: Seq<(Seq<char>, JsonView)>)
    requires
        forall|k: int|
            #![trigger members[k]]
            0 <= k < members.len() - 1 ==> text_below(members[k].0, members[k + 1].0),
    ensures
        ascending(members),
        ordered(JsonView::Object(members)) <==> forall|i: int|
            0 <= i < members.len() ==> ordered((#[trigger] members[i]).1),
{
    assert(ascending(members)) by {
        assert forall|a: int, b: int| 0 <= a < b < members.len() implies text_below(
            (#[trigger] members[a]).0,
            (#[trigger] members[b]).0,
        ) by {
            neighbours_ascend(members, a, b);
        }
    }
}

/// A whole number is plain, does not nest, and reads back.
pub proof fn number_is_plain(n: u64)
    ensures
        plain(number_value(n as nat)),
        depth(number_value(n as nat)) == 0,
        whole_number(number_value(n as nat)) == Some(n),
{
    decimal_reads_back(n as nat);
    assert(number_value(n as nat)->Number_0 == decimal_text(n as nat));
}

/// A value nests no deeper than its parts allow.
pub proof fn parts_bound_depth(v: JsonView, n: nat, most: nat)
    requires
        n <= parts(v),
        forall|i: int|
            0 <= i < n ==> part_depth(v, i) <= most,
    ensures
        depth_of_parts(v, n) <= most,
    decreases n,
{
    if n > 0 {
        assert(part_depth(v, n - 1) <= most);
        parts_bound_depth(v, (n - 1) as nat, most);
    }
}

/// How deep part number `i` nests.
pub open spec fn part_depth(v: JsonView, i: int) -> nat {
    match v {
        JsonView::Array(items) => depth(items[i]),
        JsonView::Object(members) => depth(members[i].1),
        _ => 0,
    }
}

/// Calls `serde_json::from_str` on a text, for a `serde_json::Value`. What it
/// accepts is the grammar of JSON, which is not spelled out.
#[verifier::external_body]
fn parse_text(raw: &str) -> (r: Result<serde_json::Value, String>)
    ensures
        outcome(r) == parsed_json(raw@),
{
    match serde_json::from_str::<serde_json::Value>(raw) {
        Ok(v) => Ok(v),
        Err(e) => Err(e.to_string()),
    }
}

/// Takes a `serde_json::Value` apart.
#[verifier::external_body]
fn import(v: serde_json::Value) -> (r: Json)
    ensures
        r@ == held(v),
{
    match v {
        serde_json::Value::Null => Json::Null,
        serde_json::Value::Bool(b) => Json::Bool(b),
        serde_json::Value::Number(n) => Json::Number(n.to_string()),
        serde_json::Value::String(s) => Json::Text(s),
        serde_json::Value::Array(items) => Json::Array(items.into_iter().map(import).collect()),
        serde_json::Value::Object(m) => Json::Object(
            m.into_iter().map(|(key, v)| Member { key, value: import(v) }).collect(),
        ),
    }
}

/// Puts a `serde_json::Value` together. The text of a number is read with
/// `serde_json::from_str`, and an object keeps the order of ascending keys. A
/// whole number without a sign keeps its text.
#[verifier::external_body]
fn export(v: &Json) -> (r: serde_json::Value)
    requires
        ordered(v@),
    ensures
        held(r) == as_read(v@),
        plain(v@) ==> held(r) == v@,
{
    match v {
        Json::Null => serde_json::Value::Null,
        Json::Bool(b) => serde_json::Value::Bool(*b),
        Json::Number(n) => match serde_json::from_str(n) {
            Ok(serde_json::Value::Number(x)) => serde_json::Value::Number(x),
            _ => serde_json::Value::Null,
        },
        Json::Text(s) => serde_json::Value::String(s.clone()),
        Json::Array(items) => serde_json::Value::Array(items.iter().map(export).collect()),
        Json::Object(members) => serde_json::Value::Object(
            members.iter().map(|m| (m.key.clone(), export(&m.value))).collect(),
        ),
    }
}

/// Calls `serde_json::to_string_pretty`, which writes any `serde_json::Value`.
/// The layout is not spelled out. What it writes reads back, if it holds whole
/// numbers only and nests less deep than the reader's limit of 128.
#[verifier::external_body]
fn pretty(v: &serde_json::Value) -> (r: String)
    ensures
        r@ == pretty_text(held(*v)),
        plain(held(*v)) && depth(held(*v)) < 128 ==> reads_as(r@, held(*v)),
{
    match serde_json::to_string_pretty(v) {
        Ok(t) => t,
        Err(e) => e.to_string(),
    }
}

impl Json {
    /// Reads a JSON text.
    pub fn parse(raw: &str) -> (r: Result<Json, String>)
        ensures
            match r {
                Ok(j) => reads_as(raw@, j@),
                Err(e) => unreadable(raw@, e@),
            },
    {
        match parse_text(raw) {
            Ok(v) => Ok(import(v)),
            Err(e) => Err(e),
        }
    }

    /// The text of this value, laid out over several lines.
    pub fn pretty(&self) -> (r: String)
        requires
            plain(self@),
        ensures
            r@ == pretty_text(self@),
            depth(self@) < 128 ==> reads_as(r@, self@),
    {
        proof {
            plain_is_ordered(self@);
        }
        pretty(&export(self))
    }

    /// Whether the keys of every object ascend.
    pub fn is_ordered(&self) -> (r: bool)
        ensures
            r == ordered(self@),
        decreases *self, json_parts(*self) + 1,
    {
        match self {
            Json::Array(items) => {
                proof {
                    array_says(*items);
                    items_are_ordered(values(items@));
                }
                let n: usize = items.len();
                self.front_is_ordered(n)
            },
            Json::Object(members) => {
                proof {
                    object_says(*members);
                }
                let n: usize = members.len();
                keys_ascend(members) && self.front_is_ordered(n)
            },
            _ => true,
        }
    }

    fn front_is_ordered(&self, n: usize) -> (r: bool)
        requires
            n <= json_parts(*self),
        ensures
            match *self {
                Json::Array(items) => r <==> forall|i: int|
                    0 <= i < n ==> ordered(#[trigger] values(items@)[i]),
                Json::Object(members) => r <==> forall|i: int|
                    0 <= i < n ==> ordered((#[trigger] pairs(members@)[i]).1),
                _ => true,
            },
        decreases *self, n as nat,
    {
        if n == 0 {
            return true;
        }
        if !self.front_is_ordered(n - 1) {
            return false;
        }
        match self {
            Json::Array(items) => {
                let last = items[n - 1].is_ordered();
                assert(values(items@)[n - 1] == items@[n - 1]@);
                last
            },
            Json::Object(members) => {
                let last = members[n - 1].value.is_ordered();
                assert(pairs(members@)[n - 1].1 == members@[n - 1].value@);
                last
            },
            _ => true,
        }
    }

    /// The text of this value, laid out over several lines, its numbers as they
    /// read. None if the keys of an object are out of order.
    pub fn to_json(&self) -> (r: Option<String>)
        ensures
            r is Some <==> ordered(self@),
            r matches Some(t) ==> t@ == pretty_text(as_read(self@)),
            r matches Some(t) ==> plain(self@) ==> t@ == pretty_text(self@),
            r matches Some(t) ==> plain(self@) && depth(self@) < 128 ==> reads_as(t@, self@),
    {
        if self.is_ordered() {
            Some(pretty(&export(self)))
        } else {
            None
        }
    }
}

fn keys_ascend(members: &Vec<Member>) -> (r: bool)
    ensures
        r == ascending(pairs(members@)),
{
    let ghost all = pairs(members@);
    let mut i: usize = 0;
    while members.len() > 0 && i < members.len() - 1
        invariant
            i <= members@.len(),
            all == pairs(members@),
            forall|k: int|
                #![trigger all[k]]
                0 <= k < i ==> k + 1 < all.len() && text_below(all[k].0, all[k + 1].0),
        decreases members@.len() - i,
    {
        if !text_less(members[i].key.as_str(), members[i + 1].key.as_str()) {
            assert(!text_below(all[i as int].0, all[i + 1].0));
            return false;
        }
        i = i + 1;
    }
    proof {
        assert forall|a: int, b: int| 0 <= a < b < all.len() implies text_below(
            (#[trigger] all[a]).0,
            (#[trigger] all[b]).0,
        ) by {
            neighbours_ascend(all, a, b);
        }
    }
    true
}

/// A field is the first member with its key; there is none where no member has
/// the key, nor in anything but an object.
pub proof fn a_field_is_the_first_of_its_key(
    members: Seq<(Seq<char>, JsonView)>,
    key: Seq<char>,
    at: int,
    v: JsonView,
)
    ensures
        (forall|k: int| 0 <= k < members.len() ==> (#[trigger] members[k]).0 != key) ==> field(
            JsonView::Object(members),
            key,
        ) is None,
        0 <= at < members.len() && members[at].0 == key && (forall|k: int|
            0 <= k < at ==> (#[trigger] members[k]).0 != key) ==> field(
            JsonView::Object(members),
            key,
        ) == Some(members[at].1),
        !(v is Object) ==> field(v, key) is None,
{
    if forall|k: int| 0 <= k < members.len() ==> (#[trigger] members[k]).0 != key {
        no_key_before(members, key, members.len());
    }
    if 0 <= at < members.len() && members[at].0 == key && (forall|k: int|
        0 <= k < at ==> (#[trigger] members[k]).0 != key) {
        key_is_found(members, key, at);
    }
}

/// The compact texts of the parts of a value; a member is its quoted key, a
/// colon and its value.
pub open spec fn part_texts(v: JsonView) -> Seq<Seq<char>> {
    match v {
        JsonView::Array(items) => items.map_values(|x: JsonView| json_text(x)),
        JsonView::Object(members) => members.map_values(
            |m: (Seq<char>, JsonView)| quoted_text(m.0) + ":"@ + json_text(m.1),
        ),
        _ => Seq::empty(),
    }
}

/// The compact text of a list or an object is that of its parts with commas
/// between them, in square brackets or in curly ones.
pub proof fn compact_text_joins_the_parts(v: JsonView)
    ensures
        v is Array ==> json_text(v) == "["@ + crate::text::joined_text(part_texts(v), ","@) + "]"@,
        v is Object ==> json_text(v) == "{"@ + crate::text::joined_text(part_texts(v), ","@) + "}"@,
{
    parts_are_joined(v, parts(v));
    assert(part_texts(v).take(parts(v) as int) =~= part_texts(v));
}

proof fn parts_are_joined(v: JsonView, n: nat)
    requires
        n <= parts(v),
    ensures
        parts_text(v, n) == crate::text::joined_text(part_texts(v).take(n as int), ","@),
    decreases n,
{
    let texts = part_texts(v);
    let now = texts.take(n as int);
    if n == 0 {
        assert(now =~= Seq::empty());
    } else {
        parts_are_joined(v, (n - 1) as nat);
        assert(now.drop_last() =~= texts.take(n - 1));
        assert(now.last() == texts[n - 1]);
        reveal_strlit("");
        let front = parts_text(v, (n - 1) as nat);
        if n == 1 {
            assert(front =~= Seq::empty());
            assert(front + ""@ =~= Seq::empty());
            assert(parts_text(v, n) =~= texts[0]);
        } else {
            assert(parts_text(v, n) =~= front + ","@ + texts[n - 1]);
        }
    }
}

} // verus!
