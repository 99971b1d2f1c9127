//! JSON text as serde_json writes it: quoted strings, decimal numbers, and the
//! objects and arrays of the agent's messages; reading members of a JSON text.
use vstd::prelude::*;

use crate::utils::common::{lemma_join_front, push_char, seq_join};

verus! {

/// An example record: a person's name, age and phone numbers.
#[derive(Debug, Default)]
pub struct Person {
    pub name: String,
    pub age: u8,
    phones: Vec<String>,
}

/// The outcome of reading a JSON text into a value: nothing, or the value.
#[derive(Debug)]
pub enum Struct<T> {
    Nothing,
    S(T),
}

impl Person {
    /// A person with the given name, age and phone numbers.
    pub fn new(name: String, age: u8, phones: Vec<String>) -> (p: Person)
        ensures
            p.fields() == (name, age, phones),
    {
        Person { name, age, phones }
    }

    /// The name, age and phone numbers.
    pub closed spec fn fields(&self) -> (String, u8, Vec<String>) {
        (self.name, self.age, self.phones)
    }

    /// The phone numbers.
    pub fn get_phones(&self) -> (r: &Vec<String>)
        ensures
            *r == self.fields().2,
    {
        &self.phones
    }
}

/// The error type of serde_json.
#[verifier::external_type_specification]
#[verifier::external_body]
pub struct ExJsonError(serde_json::Error);

/// Lower-case hexadecimal digit of `d` (0 to 15).
pub open spec fn hex_digit(d: int) -> char {
    if d < 10 {
        decimal_digit(d)
    } else if d == 10 {
        'a'
    } else if d == 11 {
        'b'
    } else if d == 12 {
        'c'
    } else if d == 13 {
        'd'
    } else if d == 14 {
        'e'
    } else {
        'f'
    }
}

/// The decimal digit of `d` (0 to 9).
pub open spec fn decimal_digit(d: int) -> char {
    if d == 0 {
        '0'
    } else if d == 1 {
        '1'
    } else if d == 2 {
        '2'
    } else if d == 3 {
        '3'
    } else if d == 4 {
        '4'
    } else if d == 5 {
        '5'
    } else if d == 6 {
        '6'
    } else if d == 7 {
        '7'
    } else if d == 8 {
        '8'
    } else {
        '9'
    }
}

/// How serde_json writes one character inside a JSON string.
pub open spec fn json_escape_char(c: char) -> Seq<char> {
    if c == '"' {
        seq!['\\', '"']
    } else if c == '\\' {
        seq!['\\', '\\']
    } else if c == '\u{8}' {
        seq!['\\', 'b']
    } else if c == '\t' {
        seq!['\\', 't']
    } else if c == '\n' {
        seq!['\\', 'n']
    } else if c == '\u{c}' {
        seq!['\\', 'f']
    } else if c == '\r' {
        seq!['\\', 'r']
    } else if (c as u32) < 0x20 {
        seq!['\\', 'u', '0', '0', hex_digit((c as int) / 16), hex_digit((c as int) % 16)]
    } else {
        seq![c]
    }
}

/// The characters of `s`, each escaped as serde_json does.
pub open spec fn json_escape(s: Seq<char>) -> Seq<char>
    decreases s.len(),
{
    if s.len() == 0 {
        seq![]
    } else {
        json_escape(s.drop_last()) + json_escape_char(s.last())
    }
}

/// A JSON string literal holding `s`.
pub open spec fn json_string(s: Seq<char>) -> Seq<char> {
    seq!['"'] + json_escape(s) + seq!['"']
}

/// `n` in decimal, without leading zeros.
pub open spec fn decimal(n: nat) -> Seq<char>
    decreases n,
{
    if n < 10 {
        seq![decimal_digit(n as int)]
    } else {
        decimal(n / 10) + seq![decimal_digit((n % 10) as int)]
    }
}

/// Law: a string without `"`, `\` and characters below U+0020 is written
/// as itself between quotes.
pub proof fn lemma_json_string_plain(s: Seq<char>)
    requires
        forall|i: int| 0 <= i < s.len() ==> s[i] != '"' && s[i] != '\\' && (s[i] as u32) >= 0x20,
    ensures
        json_string(s) == seq!['"'] + s + seq!['"'],
{
    lemma_json_escape_plain(s);
}

proof fn lemma_json_escape_plain(s: Seq<char>)
    requires
        forall|i: int| 0 <= i < s.len() ==> s[i] != '"' && s[i] != '\\' && (s[i] as u32) >= 0x20,
    ensures
        json_escape(s) == s,
    decreases s.len(),
{
    if s.len() > 0 {
        let init = s.drop_last();
        assert forall|i: int| 0 <= i < init.len() implies init[i] != '"' && init[i] != '\\' && (init[i] as u32)
            >= 0x20 by {
            assert(init[i] == s[i]);
        }
        lemma_json_escape_plain(init);
        let c = s.last();
        assert(c != '\u{8}' && c != '\t' && c != '\n' && c != '\u{c}' && c != '\r') by {
            assert(s[s.len() - 1] == c);
        }
        assert(json_escape_char(c) == seq![c]);
        assert(init.push(c) =~= s);
    }
}

/// Whether serde_json writes `c` as itself inside a string.
pub open spec fn json_plain_char(c: char) -> bool {
    c != '"' && c != '\\' && (c as u32) >= 0x20
}

proof fn lemma_hex_digit_injective(a: int, b: int)
    requires
        0 <= a < 16,
        0 <= b < 16,
        hex_digit(a) == hex_digit(b),
    ensures
        a == b,
{
}

proof fn lemma_escape_char_shape(c: char)
    ensures
        json_escape_char(c).len() >= 1,
        json_escape_char(c)[0] != '"',
        json_plain_char(c) ==> json_escape_char(c) == seq![c],
        !json_plain_char(c) ==> json_escape_char(c)[0] == '\\' && json_escape_char(c).len() >= 2,
{
}

/// The escape of a character is read back unambiguously: where the escapes of
/// `c` and `d` start two equal texts, `c` and `d` are equal, and so are the rests.
proof fn lemma_escape_char_prefix(c: char, d: char, x: Seq<char>, y: Seq<char>)
    requires
        json_escape_char(c) + x == json_escape_char(d) + y,
    ensures
        c == d,
        x == y,
{
    broadcast use vstd::utf8::char_u32_cast;

    let ec = json_escape_char(c);
    let ed = json_escape_char(d);
    lemma_escape_char_shape(c);
    lemma_escape_char_shape(d);
    assert((ec + x)[0] == ec[0]);
    assert((ed + y)[0] == ed[0]);
    if json_plain_char(c) {
        assert(!(ed[0] == '\\'));
        assert(ed == seq![d]);
        assert(c == d);
    } else {
        assert(ed[0] == '\\');
        assert((ec + x)[1] == ec[1]);
        assert((ed + y)[1] == ed[1]);
        assert(ec[1] == ed[1]);
        if ec[1] == 'u' {
            assert(ec.len() == 6 && ed.len() == 6);
            assert((ec + x)[4] == ec[4] && (ed + y)[4] == ed[4]);
            assert((ec + x)[5] == ec[5] && (ed + y)[5] == ed[5]);
            assert((c as int) < 32 && (d as int) < 32);
            lemma_hex_digit_injective((c as int) / 16, (d as int) / 16);
            lemma_hex_digit_injective((c as int) % 16, (d as int) % 16);
            assert((c as int) == (d as int));
            assert((c as u32) == (d as u32));
            assert(((c as u32) as char) == c);
            assert(((d as u32) as char) == d);
        }
        assert(c == d);
    }
    assert(x =~= (ec + x).skip(ec.len() as int));
    assert(y =~= (ed + y).skip(ed.len() as int));
}

proof fn lemma_escape_front(c: char, rest: Seq<char>)
    ensures
        json_escape(seq![c] + rest) == json_escape_char(c) + json_escape(rest),
    decreases rest.len(),
{
    let s = seq![c] + rest;
    if rest.len() == 0 {
        assert(s =~= seq![c]);
        assert(s.drop_last() =~= Seq::<char>::empty());
        assert(s.last() == c);
        assert(json_escape(s.drop_last()) == Seq::<char>::empty());
        assert(json_escape(rest) == Seq::<char>::empty());
        assert(json_escape(s) == json_escape(s.drop_last()) + json_escape_char(s.last()));
        assert(json_escape(s) =~= json_escape_char(c) + json_escape(rest));
    } else {
        assert(s.drop_last() =~= seq![c] + rest.drop_last());
        assert(s.last() == rest.last());
        lemma_escape_front(c, rest.drop_last());
        assert(json_escape(s) =~= json_escape_char(c) + json_escape(rest));
    }
}

proof fn lemma_escape_prefix(a: Seq<char>, b: Seq<char>, x: Seq<char>, y: Seq<char>)
    requires
        json_escape(a) + x == json_escape(b) + y,
        x.len() > 0 && x[0] == '"',
        y.len() > 0 && y[0] == '"',
    ensures
        a == b,
        x == y,
    decreases a.len(),
{
    if a.len() == 0 {
        assert(json_escape(a) =~= Seq::<char>::empty());
        if b.len() > 0 {
            let d = b[0];
            let b2 = b.drop_first();
            assert(b =~= seq![d] + b2);
            lemma_escape_front(d, b2);
            lemma_escape_char_shape(d);
            assert((json_escape(b) + y)[0] == json_escape_char(d)[0]);
            assert(x[0] == (json_escape(a) + x)[0]);
        }
        assert(b =~= Seq::<char>::empty());
        assert(x =~= y);
    } else {
        let c = a[0];
        let a2 = a.drop_first();
        assert(a =~= seq![c] + a2);
        lemma_escape_front(c, a2);
        lemma_escape_char_shape(c);
        if b.len() == 0 {
            assert(json_escape(b) =~= Seq::<char>::empty());
            assert((json_escape(a) + x)[0] == json_escape_char(c)[0]);
            assert(y[0] == (json_escape(b) + y)[0]);
            assert(false);
        }
        let d = b[0];
        let b2 = b.drop_first();
        assert(b =~= seq![d] + b2);
        lemma_escape_front(d, b2);
        assert(json_escape_char(c) + (json_escape(a2) + x) == json_escape_char(d) + (json_escape(b2) + y)) by {
            assert(json_escape(a) + x =~= json_escape_char(c) + (json_escape(a2) + x));
            assert(json_escape(b) + y =~= json_escape_char(d) + (json_escape(b2) + y));
        }
        lemma_escape_char_prefix(c, d, json_escape(a2) + x, json_escape(b2) + y);
        lemma_escape_prefix(a2, b2, x, y);
        assert(a =~= b);
    }
}

/// Law: a JSON string literal is read back unambiguously: where the literals
/// of `a` and `b` start two equal texts, `a` and `b` are equal, and so are the
/// rests.
pub proof fn lemma_json_string_prefix(a: Seq<char>, b: Seq<char>, x: Seq<char>, y: Seq<char>)
    requires
        json_string(a) + x == json_string(b) + y,
    ensures
        a == b,
        x == y,
{
    let q = seq!['"'];
    assert(json_string(a) + x =~= q + (json_escape(a) + (q + x)));
    assert(json_string(b) + y =~= q + (json_escape(b) + (q + y)));
    assert(json_escape(a) + (q + x) =~= (json_string(a) + x).skip(1));
    assert(json_escape(b) + (q + y) =~= (json_string(b) + y).skip(1));
    assert((q + x)[0] == '"' && (q + y)[0] == '"');
    lemma_escape_prefix(a, b, q + x, q + y);
    assert(x =~= (q + x).skip(1));
    assert(y =~= (q + y).skip(1));
}

/// A JSON object member: the quoted name, a colon, the value's JSON text.
pub open spec fn json_member(field: (Seq<char>, Seq<char>)) -> Seq<char> {
    json_string(field.0) + seq![':'] + field.1
}

/// A JSON object with the given (name, value text) members, in order, no spaces.
pub open spec fn json_object(fields: Seq<(Seq<char>, Seq<char>)>) -> Seq<char> {
    seq!['{'] + seq_join(fields.map_values(|f: (Seq<char>, Seq<char>)| json_member(f)), seq![',']) + seq!['}']
}

/// A JSON array of the given item texts, in order, no spaces.
pub open spec fn json_array(items: Seq<Seq<char>>) -> Seq<char> {
    seq!['['] + seq_join(items, seq![',']) + seq![']']
}

/// What serde_json finds under the member `key` of the JSON text `text`:
/// `None` when `text` is not JSON, `Some(None)` when the value there is not a
/// string (or there is none), `Some(Some(s))` when it is the string `s`.
pub uninterp spec fn json_member_str(text: Seq<char>, key: Seq<char>) -> Option<Option<Seq<char>>>;

/// The JSON text that serde_json writes for the value under the member `key`
/// of the JSON text `text` (`null` when there is none); `None` when `text` is not JSON.
pub uninterp spec fn json_member_text(text: Seq<char>, key: Seq<char>) -> Option<Seq<char>>;

/// Whether serde_json reads `text` as a JSON value (`from_str::<Value>` succeeds).
pub uninterp spec fn json_parses(text: Seq<char>) -> bool;

/// `serde_json::from_str` into a `Value`, then `value[key].as_str()`: the
/// result is named by `json_member_str`; it is `None` exactly when the text
/// does not parse (indexing a `Value` by a missing key gives `null`, not a failure).
#[verifier::external_body]
pub(crate) fn json_member_as_str(text: &str, key: &str) -> (r: Option<Option<String>>)
    ensures
        r is None <==> !json_parses(text@),
        r is None <==> json_member_str(text@, key@) is None,
        r matches Some(None) ==> json_member_str(text@, key@) == Some(None::<Seq<char>>),
        r matches Some(Some(s)) ==> json_member_str(text@, key@) == Some(Some(s@)),
{
    match serde_json::from_str::<serde_json::Value>(text) {
        Ok(v) => Some(v[key].as_str().map(String::from)),
        Err(_) => None,
    }
}

/// `serde_json::from_str` into a `Value`, then `value[key].to_string()`: the
/// result is named by `json_member_text`; it is `None` exactly when the text
/// does not parse.
#[verifier::external_body]
pub(crate) fn json_member_to_text(text: &str, key: &str) -> (r: Option<String>)
    ensures
        r is None <==> !json_parses(text@),
        r is None <==> json_member_text(text@, key@) is None,
        r matches Some(s) ==> json_member_text(text@, key@) == Some(s@),
{
    match serde_json::from_str::<serde_json::Value>(text) {
        Ok(v) => Some(v[key].to_string()),
        Err(_) => None,
    }
}

/// `serde_json::to_string` on a string slice. Its source writes the string into
/// a `Vec<u8>`, which cannot fail, escaping `"`, `\` and the characters below
/// U+0020 (`\b`, `\t`, `\n`, `\f`, `\r`, else `\u00` and two lower-case hex
/// digits) and nothing else.
#[verifier::external_body]
fn json_quote(s: &str) -> (r: Result<String, serde_json::Error>)
    ensures
        r is Ok,
        r->Ok_0@ == json_string(s@),
{
    serde_json::to_string(s)
}

/// `serde_json::to_string` on a `u64`. Its source writes the number in decimal
/// (through `itoa`) into a `Vec<u8>`, which cannot fail.
#[verifier::external_body]
fn json_u64(n: u64) -> (r: Result<String, serde_json::Error>)
    ensures
        r is Ok,
        r->Ok_0@ == decimal(n as nat),
{
    serde_json::to_string(&n)
}

/// The JSON string literal of `s`, as serde_json writes it.
pub fn json_string_of(s: &str) -> (r: String)
    ensures
        r@ == json_string(s@),
{
    match json_quote(s) {
        Ok(t) => t,
        Err(_) => String::new(),
    }
}

/// The JSON text of the number `n`, as serde_json writes it.
pub fn json_number_of(n: u64) -> (r: String)
    ensures
        r@ == decimal(n as nat),
{
    match json_u64(n) {
        Ok(t) => t,
        Err(_) => String::new(),
    }
}

/// The JSON object whose members are `fields`: each name with its value's JSON text.
pub fn json_object_of(fields: &Vec<(&str, String)>) -> (r: String)
    ensures
        r@ == json_object(fields@.map_values(|f: (&str, String)| (f.0@, f.1@))),
{
    let ghost fs = fields@.map_values(|f: (&str, String)| (f.0@, f.1@));
    let ghost parts = fs.map_values(|f: (Seq<char>, Seq<char>)| json_member(f));
    let mut r = String::new();
    push_char(&mut r, '{');
    let mut i: usize = 0;
    assert(parts.take(0) =~= Seq::<Seq<char>>::empty());
    while i < fields.len()
        invariant
            i <= fields@.len(),
            fs == fields@.map_values(|f: (&str, String)| (f.0@, f.1@)),
            parts == fs.map_values(|f: (Seq<char>, Seq<char>)| json_member(f)),
            r@ == seq!['{'] + seq_join(parts.take(i as int), seq![',']),
        decreases fields@.len() - i,
    {
        let ghost before = r@;
        if i != 0 {
            push_char(&mut r, ',');
        }
        let name = json_string_of(fields[i].0);
        r.append(name.as_str());
        push_char(&mut r, ':');
        r.append(fields[i].1.as_str());
        proof {
            assert(parts[i as int] == json_member(fs[i as int]));
            assert(parts.take(i + 1).drop_last() =~= parts.take(i as int));
            assert(parts.take(i + 1).last() == parts[i as int]);
            if i == 0 {
                assert(parts.take(1) =~= seq![parts[0]]);
                assert(r@ =~= seq!['{'] + parts[0]);
            } else {
                assert(r@ =~= before + seq![','] + parts[i as int]);
            }
        }
        i = i + 1;
    }
    push_char(&mut r, '}');
    assert(parts.take(fields@.len() as int) =~= parts);
    r
}

/// The JSON array of the given item texts.
pub fn json_array_of(items: &Vec<String>) -> (r: String)
    ensures
        r@ == json_array(items@.map_values(|x: String| x@)),
{
    let ghost parts = items@.map_values(|x: String| x@);
    let mut r = String::new();
    push_char(&mut r, '[');
    let mut i: usize = 0;
    assert(parts.take(0) =~= Seq::<Seq<char>>::empty());
    while i < items.len()
        invariant
            i <= items@.len(),
            parts == items@.map_values(|x: String| x@),
            r@ == seq!['['] + seq_join(parts.take(i as int), seq![',']),
        decreases items@.len() - i,
    {
        let ghost before = r@;
        if i != 0 {
            push_char(&mut r, ',');
        }
        r.append(items[i].as_str());
        proof {
            assert(parts.take(i + 1).drop_last() =~= parts.take(i as int));
            if i == 0 {
                assert(parts.take(1) =~= seq![parts[0]]);
                assert(r@ =~= seq!['['] + parts[0]);
            } else {
                assert(r@ =~= before + seq![','] + parts[i as int]);
            }
        }
        i = i + 1;
    }
    push_char(&mut r, ']');
    assert(parts.take(items@.len() as int) =~= parts);
    r
}

/// A JSON object of two members, written out.
pub proof fn lemma_json_object_two(f1: (Seq<char>, Seq<char>), f2: (Seq<char>, Seq<char>))
    ensures
        json_object(seq![f1, f2]) == seq!['{'] + json_string(f1.0) + seq![':'] + f1.1 + seq![','] + json_string(
            f2.0,
        ) + seq![':'] + f2.1 + seq!['}'],
{
    let ms = seq![f1, f2].map_values(|f: (Seq<char>, Seq<char>)| json_member(f));
    assert(ms =~= seq![json_member(f1), json_member(f2)]);
    assert(ms.drop_last() =~= seq![json_member(f1)]);
    assert(seq_join(ms, seq![',']) == seq_join(ms.drop_last(), seq![',']) + seq![','] + ms.last());
    assert(json_object(seq![f1, f2]) =~= seq!['{'] + json_string(f1.0) + seq![':'] + f1.1 + seq![','] + json_string(
        f2.0,
    ) + seq![':'] + f2.1 + seq!['}']);
}

/// Joining two non-empty lists is joining each, with the separator between.
pub proof fn lemma_join_append(a: Seq<Seq<char>>, b: Seq<Seq<char>>, sep: Seq<char>)
    requires
        a.len() > 0,
        b.len() > 0,
    ensures
        seq_join(a + b, sep) == seq_join(a, sep) + sep + seq_join(b, sep),
    decreases b.len(),
{
    let ab = a + b;
    if b.len() == 1 {
        assert(ab.drop_last() =~= a);
        assert(ab.last() == b[0]);
        assert(seq_join(b, sep) == b[0]);
    } else {
        assert(ab.drop_last() =~= a + b.drop_last());
        assert(ab.last() == b.last());
        lemma_join_append(a, b.drop_last(), sep);
        assert(seq_join(b, sep) == seq_join(b.drop_last(), sep) + sep + b.last());
        assert(seq_join(ab, sep) =~= seq_join(a, sep) + sep + seq_join(b, sep));
    }
}

/// What comes before an item in a joined list: the join of the items before
/// it and a separator, or nothing where it is first.
pub open spec fn join_before(a: Seq<Seq<char>>, sep: Seq<char>) -> Seq<char> {
    if a.len() == 0 {
        Seq::<char>::empty()
    } else {
        seq_join(a, sep) + sep
    }
}

/// What comes after an item in a joined list: a separator and the join of the
/// items after it, or nothing where it is last.
pub open spec fn join_after(b: Seq<Seq<char>>, sep: Seq<char>) -> Seq<char> {
    if b.len() == 0 {
        Seq::<char>::empty()
    } else {
        sep + seq_join(b, sep)
    }
}

/// An item of a joined list stands between what comes before and after it.
pub proof fn lemma_join_around(a: Seq<Seq<char>>, m: Seq<char>, b: Seq<Seq<char>>, sep: Seq<char>)
    ensures
        seq_join(a + seq![m] + b, sep) == join_before(a, sep) + m + join_after(b, sep),
{
    let mb = seq![m] + b;
    assert(a + seq![m] + b =~= a + mb);
    if b.len() == 0 {
        assert(mb =~= seq![m]);
        assert(seq_join(mb, sep) == m);
    } else {
        lemma_join_front(m, b, sep);
    }
    if a.len() == 0 {
        assert(a + mb =~= mb);
        assert(seq_join(a + mb, sep) =~= join_before(a, sep) + m + join_after(b, sep));
    } else {
        lemma_join_append(a, mb, sep);
        assert(seq_join(a + mb, sep) =~= join_before(a, sep) + m + join_after(b, sep));
    }
}

/// Law: each member's value has a place of its own in the text of a JSON
/// object: the text is some `p`, the value, some `s`, and putting another value
/// in that member gives `p`, the other value, `s`.
pub proof fn lemma_json_object_slot(f: Seq<(Seq<char>, Seq<char>)>, i: int, v: Seq<char>)
    requires
        0 <= i < f.len(),
    ensures
        exists|p: Seq<char>, s: Seq<char>|
            json_object(f) == p + f[i].1 + s && json_object(f.update(i, (f[i].0, v))) == p + v + s,
{
    let g = f.update(i, (f[i].0, v));
    let mf = f.map_values(|x: (Seq<char>, Seq<char>)| json_member(x));
    let mg = g.map_values(|x: (Seq<char>, Seq<char>)| json_member(x));
    let a = mf.take(i);
    let b = mf.skip(i + 1);
    assert(mf =~= a + seq![mf[i]] + b);
    assert(mg =~= a + seq![mg[i]] + b);
    let sep = seq![','];
    lemma_join_around(a, mf[i], b, sep);
    lemma_join_around(a, mg[i], b, sep);
    let p = seq!['{'] + join_before(a, sep) + json_string(f[i].0) + seq![':'];
    let s = join_after(b, sep) + seq!['}'];
    assert(mf[i] == json_string(f[i].0) + seq![':'] + f[i].1);
    assert(mg[i] == json_string(f[i].0) + seq![':'] + v);
    assert(json_object(f) =~= p + f[i].1 + s);
    assert(json_object(g) =~= p + v + s);
}

/// Where a text is split off at the front, what stays is what follows it.
pub proof fn lemma_strip_prefix(p: Seq<char>, a: Seq<char>, b: Seq<char>)
    requires
        p + a == p + b,
    ensures
        a == b,
{
    assert(a =~= (p + a).skip(p.len() as int));
    assert(b =~= (p + b).skip(p.len() as int));
}

/// The first item of a joined list comes first: the join is that item, then
/// the separator and the join of the others where there are others.
pub proof fn lemma_join_first(items: Seq<Seq<char>>, sep: Seq<char>)
    requires
        items.len() > 0,
    ensures
        seq_join(items, sep) == items[0] + if items.len() == 1 {
            Seq::<char>::empty()
        } else {
            sep + seq_join(items.drop_first(), sep)
        },
{
    if items.len() == 1 {
        assert(seq_join(items, sep) == items[0]);
        assert(items[0] + Seq::<char>::empty() =~= items[0]);
    } else {
        assert(items =~= seq![items[0]] + items.drop_first());
        lemma_join_front(items[0], items.drop_first(), sep);
        assert(items[0] + sep + seq_join(items.drop_first(), sep) =~= items[0] + (sep + seq_join(
            items.drop_first(),
            sep,
        )));
    }
}

/// A JSON list of items that each start with `{` and are read back
/// unambiguously is read back unambiguously too, up to its closing `]`.
pub proof fn lemma_items_prefix<T>(
    enc: spec_fn(T) -> Seq<char>,
    l1: Seq<T>,
    l2: Seq<T>,
    x: Seq<char>,
    y: Seq<char>,
)
    requires
        forall|t: T| #[trigger] enc(t).len() > 0 && enc(t)[0] == '{',
        forall|t1: T, t2: T, u: Seq<char>, v: Seq<char>|
            #![trigger enc(t1) + u, enc(t2) + v]
            enc(t1) + u == enc(t2) + v ==> t1 == t2 && u == v,
        seq_join(l1.map_values(enc), seq![',']) + seq![']'] + x == seq_join(l2.map_values(enc), seq![','])
            + seq![']'] + y,
    ensures
        l1 == l2,
        x == y,
    decreases l1.len(),
{
    let sep = seq![','];
    let close = seq![']'];
    let i1 = l1.map_values(enc);
    let i2 = l2.map_values(enc);
    if l1.len() == 0 {
        assert(i1 =~= Seq::<Seq<char>>::empty());
        if l2.len() > 0 {
            lemma_join_first(i2, sep);
            assert(enc(l2[0]).len() > 0 && enc(l2[0])[0] == '{');
            assert((seq_join(i2, sep) + close + y)[0] == enc(l2[0])[0]);
            assert((seq_join(i1, sep) + close + x)[0] == ']');
            assert(false);
        }
        assert(l2 =~= l1);
        lemma_strip_prefix(close, x, y);
    } else {
        if l2.len() == 0 {
            assert(i2 =~= Seq::<Seq<char>>::empty());
            lemma_join_first(i1, sep);
            assert(enc(l1[0]).len() > 0 && enc(l1[0])[0] == '{');
            assert((seq_join(i1, sep) + close + x)[0] == enc(l1[0])[0]);
            assert((seq_join(i2, sep) + close + y)[0] == ']');
            assert(false);
        }
        lemma_join_first(i1, sep);
        lemma_join_first(i2, sep);
        let r1 = l1.drop_first();
        let r2 = l2.drop_first();
        assert(i1.drop_first() =~= r1.map_values(enc));
        assert(i2.drop_first() =~= r2.map_values(enc));
        let t1 = (if r1.len() == 0 {
            Seq::<char>::empty()
        } else {
            sep + seq_join(r1.map_values(enc), sep)
        }) + close + x;
        let t2 = (if r2.len() == 0 {
            Seq::<char>::empty()
        } else {
            sep + seq_join(r2.map_values(enc), sep)
        }) + close + y;
        assert(seq_join(i1, sep) + close + x =~= enc(l1[0]) + t1);
        assert(seq_join(i2, sep) + close + y =~= enc(l2[0]) + t2);
        assert(enc(l1[0]) + t1 == enc(l2[0]) + t2);
        assert(l1[0] == l2[0] && t1 == t2);
        if r1.len() == 0 && r2.len() > 0 {
            assert(t1[0] == ']' && t2[0] == ',');
            assert(false);
        }
        if r1.len() > 0 && r2.len() == 0 {
            assert(t1[0] == ',' && t2[0] == ']');
            assert(false);
        }
        if r1.len() == 0 {
            assert(t1 =~= close + x);
            assert(t2 =~= close + y);
            lemma_strip_prefix(close, x, y);
            assert(l1 =~= l2);
        } else {
            assert(t1 =~= sep + (seq_join(r1.map_values(enc), sep) + close + x));
            assert(t2 =~= sep + (seq_join(r2.map_values(enc), sep) + close + y));
            lemma_strip_prefix(sep, seq_join(r1.map_values(enc), sep) + close + x, seq_join(r2.map_values(enc), sep) + close + y);
            lemma_items_prefix(enc, r1, r2, x, y);
            assert(l1 =~= seq![l1[0]] + r1);
            assert(l2 =~= seq![l2[0]] + r2);
        }
    }
}

/// Members named `keys` whose values are the JSON string literals of `vals`.
pub open spec fn string_members(keys: Seq<Seq<char>>, vals: Seq<Seq<char>>) -> Seq<(Seq<char>, Seq<char>)> {
    Seq::new(keys.len(), |i: int| (keys[i], json_string(vals[i])))
}

/// The joined text of a list of members, without the braces.
pub open spec fn members_text(fields: Seq<(Seq<char>, Seq<char>)>) -> Seq<char> {
    seq_join(fields.map_values(|f: (Seq<char>, Seq<char>)| json_member(f)), seq![','])
}

/// Law: members with string values under the same names are read back
/// unambiguously: where their texts start two equal texts, the values are
/// equal, and so are the rests.
pub proof fn lemma_string_members_prefix(
    keys: Seq<Seq<char>>,
    a: Seq<Seq<char>>,
    b: Seq<Seq<char>>,
    x: Seq<char>,
    y: Seq<char>,
)
    requires
        a.len() == keys.len(),
        b.len() == keys.len(),
        members_text(string_members(keys, a)) + x == members_text(string_members(keys, b)) + y,
    ensures
        a == b,
        x == y,
    decreases keys.len(),
{
    let sep = seq![','];
    let ma = string_members(keys, a).map_values(|f: (Seq<char>, Seq<char>)| json_member(f));
    let mb = string_members(keys, b).map_values(|f: (Seq<char>, Seq<char>)| json_member(f));
    if keys.len() == 0 {
        assert(ma =~= Seq::<Seq<char>>::empty());
        assert(mb =~= Seq::<Seq<char>>::empty());
        assert(x =~= seq_join(ma, sep) + x);
        assert(y =~= seq_join(mb, sep) + y);
        assert(a =~= b);
    } else {
        lemma_join_first(ma, sep);
        lemma_join_first(mb, sep);
        let ta = if keys.len() == 1 {
            Seq::<char>::empty()
        } else {
            sep + seq_join(ma.drop_first(), sep)
        };
        let tb = if keys.len() == 1 {
            Seq::<char>::empty()
        } else {
            sep + seq_join(mb.drop_first(), sep)
        };
        let k = json_string(keys[0]) + seq![':'];
        assert(ma[0] == json_string(keys[0]) + seq![':'] + json_string(a[0]));
        assert(mb[0] == json_string(keys[0]) + seq![':'] + json_string(b[0]));
        assert(seq_join(ma, sep) + x =~= k + (json_string(a[0]) + (ta + x)));
        assert(seq_join(mb, sep) + y =~= k + (json_string(b[0]) + (tb + y)));
        lemma_strip_prefix(k, json_string(a[0]) + (ta + x), json_string(b[0]) + (tb + y));
        lemma_json_string_prefix(a[0], b[0], ta + x, tb + y);
        if keys.len() == 1 {
            assert(x =~= ta + x);
            assert(y =~= tb + y);
            assert(a =~= b);
        } else {
            let ks = keys.drop_first();
            let ra = a.drop_first();
            let rb = b.drop_first();
            assert(ma.drop_first() =~= string_members(ks, ra).map_values(
                |f: (Seq<char>, Seq<char>)| json_member(f),
            ));
            assert(mb.drop_first() =~= string_members(ks, rb).map_values(
                |f: (Seq<char>, Seq<char>)| json_member(f),
            ));
            assert(ta + x =~= sep + (members_text(string_members(ks, ra)) + x));
            assert(tb + y =~= sep + (members_text(string_members(ks, rb)) + y));
            lemma_strip_prefix(sep, members_text(string_members(ks, ra)) + x, members_text(string_members(ks, rb)) + y);
            lemma_string_members_prefix(ks, ra, rb, x, y);
            assert forall|i: int| 0 <= i < a.len() implies a[i] == b[i] by {
                if i > 0 {
                    assert(ra[i - 1] == rb[i - 1]);
                }
            }
            assert(a =~= b);
        }
    }
}

/// A JSON object is its members' text between braces.
pub proof fn lemma_json_object_members(f: Seq<(Seq<char>, Seq<char>)>)
    ensures
        json_object(f) == seq!['{'] + (members_text(f) + seq!['}']),
{
    assert(json_object(f) =~= seq!['{'] + (members_text(f) + seq!['}']));
}

/// A decimal is at least one character long, two from 10 on, and has no comma.
proof fn lemma_decimal_shape(n: nat)
    ensures
        decimal(n).len() >= 1,
        n >= 10 ==> decimal(n).len() >= 2,
        forall|i: int| 0 <= i < decimal(n).len() ==> #[trigger] decimal(n)[i] != ',',
    decreases n,
{
    if n >= 10 {
        lemma_decimal_shape(n / 10);
        let d = decimal(n / 10);
        assert forall|i: int| 0 <= i < decimal(n).len() implies #[trigger] decimal(n)[i] != ',' by {
            if i < d.len() {
                assert(decimal(n)[i] == d[i]);
            }
        }
    }
}

/// Different numbers are written differently.
proof fn lemma_decimal_injective(n: nat, m: nat)
    requires
        decimal(n) == decimal(m),
    ensures
        n == m,
    decreases n,
{
    lemma_decimal_shape(n);
    lemma_decimal_shape(m);
    if n >= 10 && m >= 10 {
        let dn = decimal(n);
        let dm = decimal(m);
        assert(dn.drop_last() =~= decimal(n / 10));
        assert(dm.drop_last() =~= decimal(m / 10));
        assert(dn.last() == decimal_digit((n % 10) as int));
        assert(dm.last() == decimal_digit((m % 10) as int));
        lemma_decimal_injective(n / 10, m / 10);
        assert(n % 10 == m % 10);
    } else if n < 10 && m < 10 {
        assert(decimal(n)[0] == decimal_digit(n as int));
        assert(decimal(m)[0] == decimal_digit(m as int));
    }
}

/// Law: a number followed by a comma is read back unambiguously: where two
/// equal texts start with a decimal and then a comma, the numbers are equal,
/// and so are the rests.
pub proof fn lemma_decimal_prefix(n: nat, m: nat, x: Seq<char>, y: Seq<char>)
    requires
        decimal(n) + x == decimal(m) + y,
        x.len() > 0 && x[0] == ',',
        y.len() > 0 && y[0] == ',',
    ensures
        n == m,
        x == y,
{
    lemma_decimal_shape(n);
    lemma_decimal_shape(m);
    let dn = decimal(n);
    let dm = decimal(m);
    let t = decimal(n) + x;
    if dn.len() < dm.len() {
        assert(t[dn.len() as int] == x[0]);
        assert((dm + y)[dn.len() as int] == dm[dn.len() as int]);
        assert(false);
    }
    if dm.len() < dn.len() {
        assert((dm + y)[dm.len() as int] == y[0]);
        assert(t[dm.len() as int] == dn[dm.len() as int]);
        assert(false);
    }
    assert(dn =~= t.take(dn.len() as int));
    assert(dm =~= (dm + y).take(dm.len() as int));
    assert(x =~= t.skip(dn.len() as int));
    assert(y =~= (dm + y).skip(dm.len() as int));
    lemma_decimal_injective(n, m);
}

/// A JSON object whose first two members are followed by others, written out.
pub proof fn lemma_json_object_two_then(
    f0: (Seq<char>, Seq<char>),
    f1: (Seq<char>, Seq<char>),
    r: Seq<(Seq<char>, Seq<char>)>,
)
    requires
        r.len() > 0,
    ensures
        json_object(seq![f0, f1] + r) == seq!['{'] + json_member(f0) + seq![','] + json_member(f1) + seq![',']
            + members_text(r) + seq!['}'],
{
    let sep = seq![','];
    let f = seq![f0, f1] + r;
    let m = f.map_values(|x: (Seq<char>, Seq<char>)| json_member(x));
    let m1 = m.drop_first();
    assert(m[0] == json_member(f0));
    assert(m1[0] == json_member(f1));
    assert(m1.drop_first() =~= r.map_values(|x: (Seq<char>, Seq<char>)| json_member(x)));
    lemma_join_first(m, sep);
    lemma_join_first(m1, sep);
    assert(json_object(f) =~= seq!['{'] + json_member(f0) + seq![','] + json_member(f1) + seq![','] + members_text(r)
        + seq!['}']);
}

} // verus!
