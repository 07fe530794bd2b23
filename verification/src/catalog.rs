//! Translation catalogs: offset-keyed JSON documents whose entries become
//! translation annotations on `TEXT_RENDER` instructions.

use vstd::prelude::*;
use crate::text::chars_of;
use std::collections::BTreeMap;

verus! {

/// Why a catalog key is not a valid hexadecimal offset. The kinds are those
/// of an integer parse: nothing to parse, a character that is not a digit,
/// or a value beyond `u32::MAX`.
#[derive(Clone, Copy, Debug, PartialEq, Eq, Structural)]
pub enum OffsetError {
    Empty,
    InvalidDigit,
    TooLarge,
}

/// The value of a hexadecimal digit, in either case.
pub open spec fn hex_digit_value(c: char) -> Option<nat> {
    if '0' <= c && c <= '9' {
        Some((c as nat - '0' as nat) as nat)
    } else if 'a' <= c && c <= 'f' {
        Some((c as nat - 'a' as nat + 10) as nat)
    } else if 'A' <= c && c <= 'F' {
        Some((c as nat - 'A' as nat + 10) as nat)
    } else {
        None
    }
}

/// `s` with every leading `0x` removed, one after the other.
pub open spec fn without_hex_prefixes(s: Seq<char>) -> Seq<char>
    decreases s.len(),
{
    if s.len() >= 2 && s[0] == '0' && s[1] == 'x' {
        without_hex_prefixes(s.skip(2))
    } else {
        s
    }
}

/// Reads hexadecimal digits from left to right. At each character the
/// digit is checked first, then whether the value still fits in a `u32`.
pub open spec fn hex_digits_value(ds: Seq<char>) -> Result<u32, OffsetError>
    decreases ds.len(),
{
    if ds.len() == 0 {
        Ok(0u32)
    } else {
        match hex_digits_value(ds.drop_last()) {
            Err(e) => Err(e),
            Ok(high) => match hex_digit_value(ds.last()) {
                None => Err(OffsetError::InvalidDigit),
                Some(d) => if high * 16 + d > u32::MAX {
                    Err(OffsetError::TooLarge)
                } else {
                    Ok((high * 16 + d) as u32)
                },
            },
        }
    }
}

/// A `u32` written in base 16 with an optional leading `+`, as
/// `u32::from_str_radix(s, 16)` reads it.
pub open spec fn hex_u32(s: Seq<char>) -> Result<u32, OffsetError> {
    if s.len() == 0 {
        Err(OffsetError::Empty)
    } else if (s[0] == '+' || s[0] == '-') && s.len() == 1 {
        Err(OffsetError::InvalidDigit)
    } else if s[0] == '+' {
        hex_digits_value(s.skip(1))
    } else {
        hex_digits_value(s)
    }
}

/// The script offset that a catalog key names: its leading `0x` prefixes
/// are dropped and the rest is read as a hexadecimal `u32`.
pub open spec fn catalog_offset(key: Seq<char>) -> Result<u32, OffsetError> {
    hex_u32(without_hex_prefixes(key))
}

/// The upper-case hexadecimal digit for `d < 16`.
pub open spec fn upper_hex_char(d: nat) -> char {
    if d < 10 {
        ('0' as nat + d) as char
    } else {
        ('A' as nat + d - 10) as char
    }
}

/// `n` in upper-case hexadecimal, padded with zeros to at least `width`
/// digits, as a script listing writes offsets.
pub open spec fn upper_hex(n: nat, width: nat) -> Seq<char>
    decreases n + width,
{
    if n < 16 && width <= 1 {
        seq![upper_hex_char(n)]
    } else {
        upper_hex(n / 16, if width > 0 { (width - 1) as nat } else { 0 }) + seq![upper_hex_char(n % 16)]
    }
}

proof fn lemma_upper_hex_char(d: nat)
    requires
        d < 16,
    ensures
        hex_digit_value(upper_hex_char(d)) == Some(d),
{
    let c = upper_hex_char(d);
    if d < 10 {
        assert(c as nat == '0' as nat + d);
    } else {
        assert(c as nat == 'A' as nat + d - 10);
    }
}

proof fn lemma_upper_hex_digits(n: nat, width: nat)
    requires
        n <= u32::MAX,
    ensures
        hex_digits_value(upper_hex(n, width)) == Ok::<u32, OffsetError>(n as u32),
        upper_hex(n, width).len() >= 1,
        forall|i: int| 0 <= i < upper_hex(n, width).len() ==> hex_digit_value(#[trigger] upper_hex(n, width)[i]) is Some,
    decreases n + width,
{
    let s = upper_hex(n, width);
    if n < 16 && width <= 1 {
        assert(s.drop_last() =~= Seq::<char>::empty());
        lemma_upper_hex_char(n);
        assert(hex_digits_value(s.drop_last()) == Ok::<u32, OffsetError>(0u32));
        assert(hex_digit_value(s.last()) == Some(n));
    } else {
        let w2: nat = if width > 0 { (width - 1) as nat } else { 0 };
        lemma_upper_hex_digits(n / 16, w2);
        assert(s.drop_last() =~= upper_hex(n / 16, w2));
        assert(s.last() == upper_hex_char(n % 16));
        lemma_upper_hex_char(n % 16);
        assert((n / 16) * 16 + n % 16 == n);
        assert(hex_digits_value(s.drop_last()) == Ok::<u32, OffsetError>((n / 16) as u32));
        assert forall|i: int| 0 <= i < s.len() implies hex_digit_value(#[trigger] s[i]) is Some by {
            if i < s.len() - 1 {
                assert(s[i] == upper_hex(n / 16, w2)[i]);
            }
        }
    }
}

/// A key written as `0x` followed by the upper-case hexadecimal digits of
/// an offset, zero-padded to any width, reads back as that offset.
pub proof fn offset_key_round_trip(n: u32, width: nat)
    ensures
        catalog_offset(seq!['0', 'x'] + upper_hex(n as nat, width)) == Ok::<u32, OffsetError>(n),
{
    let digits = upper_hex(n as nat, width);
    lemma_upper_hex_digits(n as nat, width);
    let key = seq!['0', 'x'] + digits;
    assert(key.skip(2) =~= digits);
    assert(hex_digit_value(digits[0]) is Some);
    if digits.len() >= 2 {
        assert(hex_digit_value(digits[1]) is Some);
    }
    assert(without_hex_prefixes(digits) == digits);
}

proof fn lemma_digits_error_persists(ds: Seq<char>, j: int)
    requires
        0 <= j <= ds.len(),
        hex_digits_value(ds.take(j)) is Err,
    ensures
        hex_digits_value(ds) == hex_digits_value(ds.take(j)),
    decreases ds.len() - j,
{
    if j < ds.len() {
        assert(ds.take(j + 1).drop_last() =~= ds.take(j));
        lemma_digits_error_persists(ds, j + 1);
    } else {
        assert(ds.take(j) =~= ds);
    }
}

fn digit_value(c: char) -> (d: Option<u32>)
    ensures
        match hex_digit_value(c) {
            Some(v) => d == Some(v as u32) && v < 16,
            None => d is None,
        },
{
    if '0' <= c && c <= '9' {
        Some((c as u32) - ('0' as u32))
    } else if 'a' <= c && c <= 'f' {
        Some((c as u32) - ('a' as u32) + 10)
    } else if 'A' <= c && c <= 'F' {
        Some((c as u32) - ('A' as u32) + 10)
    } else {
        None
    }
}

/// Reads the digits `cs[start..]` as a hexadecimal `u32`.
fn parse_hex_digits(cs: &Vec<char>, start: usize) -> (res: Result<u32, OffsetError>)
    requires
        start <= cs.len(),
    ensures
        res == hex_digits_value(cs@.skip(start as int)),
{
    let ghost ds = cs@.skip(start as int);
    let mut value: u32 = 0;
    let mut j: usize = start;
    assert(ds.take(0) =~= Seq::<char>::empty());
    while j < cs.len()
        invariant
            start <= j <= cs.len(),
            ds == cs@.skip(start as int),
            hex_digits_value(ds.take(j - start)) == Ok::<u32, OffsetError>(value),
        decreases cs.len() - j,
    {
        let ghost k = j - start;
        assert(ds.take(k + 1).drop_last() =~= ds.take(k));
        assert(ds.take(k + 1).last() == cs@[j as int]);
        match digit_value(cs[j]) {
            None => {
                proof { lemma_digits_error_persists(ds, k + 1); }
                return Err(OffsetError::InvalidDigit);
            },
            Some(d) => {
                if (value as u64) * 16 + (d as u64) > u32::MAX as u64 {
                    proof { lemma_digits_error_persists(ds, k + 1); }
                    return Err(OffsetError::TooLarge);
                }
                value = value * 16 + d;
            },
        }
        j = j + 1;
    }
    assert(ds.take(j - start) =~= ds);
    Ok(value)
}

/// Reads a catalog key as a script offset: leading `0x` prefixes are
/// stripped, one after the other, and the rest is read as a hexadecimal
/// `u32` with an optional leading `+`.
pub fn parse_catalog_offset(key: &str) -> (res: Result<u32, OffsetError>)
    ensures
        res == catalog_offset(key@),
{
    let cs = chars_of(key);
    let mut p: usize = 0;
    assert(cs@.skip(0) =~= cs@);
    while cs.len() - p >= 2 && cs[p] == '0' && cs[p + 1] == 'x'
        invariant
            p <= cs.len(),
            without_hex_prefixes(cs@) == without_hex_prefixes(cs@.skip(p as int)),
        decreases cs.len() - p,
    {
        assert(cs@.skip(p as int).skip(2) =~= cs@.skip(p + 2));
        p = p + 2;
    }
    let ghost rest = cs@.skip(p as int);
    assert(without_hex_prefixes(rest) == rest);
    if p == cs.len() {
        assert(rest.len() == 0);
        return Err(OffsetError::Empty);
    }
    if (cs[p] == '+' || cs[p] == '-') && p + 1 == cs.len() {
        return Err(OffsetError::InvalidDigit);
    }
    if cs[p] == '+' {
        assert(rest.skip(1) =~= cs@.skip(p + 1));
        parse_hex_digits(&cs, p + 1)
    } else {
        parse_hex_digits(&cs, p)
    }
}

/// A JSON document. An object keeps its fields in the order in which the
/// document's map yields them.
#[derive(Debug)]
pub enum JsonValue {
    Null,
    Bool(bool),
    Number(String),
    Str(String),
    Array(Vec<JsonValue>),
    Object(Vec<(String, JsonValue)>),
}

#[verifier::external_type_specification]
#[verifier::external_body]
pub struct ExJsonError(serde_json::Error);

#[verifier::external_type_specification]
#[verifier::external_body]
pub struct ExJsonValue(serde_json::Value);

/// A text that a JSON string literal holds as it is, without escapes: no
/// quote, no backslash, no control character.
pub open spec fn is_plain_text(s: Seq<char>) -> bool {
    forall|i: int| 0 <= i < s.len() ==> #[trigger] s[i] != '"' && s[i] != '\\' && (s[i] as nat) >= 0x20
}

/// A text between double quotes.
pub open spec fn quoted(s: Seq<char>) -> Seq<char> {
    seq!['"'] + s + seq!['"']
}

/// `a` comes strictly before `b` in the order of their characters' code
/// points, as the keys of a JSON object's map are ordered.
pub open spec fn text_before(a: Seq<char>, b: Seq<char>) -> bool
    decreases a.len(),
{
    if a.len() == 0 {
        b.len() > 0
    } else if b.len() == 0 {
        false
    } else if a[0] != b[0] {
        (a[0] as nat) < (b[0] as nat)
    } else {
        text_before(a.drop_first(), b.drop_first())
    }
}

/// The JSON text of a document written without white space, strings
/// without escapes, and an object's fields in their order.
pub open spec fn json_text(v: JsonValue) -> Seq<char>
    decreases v,
{
    match v {
        JsonValue::Null => seq!['n', 'u', 'l', 'l'],
        JsonValue::Bool(b) => if b { seq!['t', 'r', 'u', 'e'] } else { seq!['f', 'a', 'l', 's', 'e'] },
        JsonValue::Number(n) => n@,
        JsonValue::Str(s) => quoted(s@),
        JsonValue::Array(items) => seq!['['] + items_text(items@) + seq![']'],
        JsonValue::Object(fields) => seq!['{'] + fields_text(fields@) + seq!['}'],
    }
}

/// The items of an array, as JSON text separated by commas.
pub open spec fn items_text(items: Seq<JsonValue>) -> Seq<char>
    decreases items,
{
    if items.len() == 0 {
        Seq::empty()
    } else if items.len() == 1 {
        json_text(items[0])
    } else {
        json_text(items[0]) + seq![','] + items_text(items.drop_first())
    }
}

/// The fields of an object, as `"key":value` separated by commas.
pub open spec fn fields_text(fields: Seq<(String, JsonValue)>) -> Seq<char>
    decreases fields,
{
    if fields.len() == 0 {
        Seq::empty()
    } else if fields.len() == 1 {
        quoted(fields[0].0@) + seq![':'] + json_text(fields[0].1)
    } else {
        quoted(fields[0].0@) + seq![':'] + json_text(fields[0].1) + seq![','] + fields_text(fields.drop_first())
    }
}

/// A document without numbers, whose strings and keys need no escapes,
/// whose objects list their keys in strictly increasing order, and whose
/// arrays and objects nest at most `depth` deep.
pub open spec fn is_plain_json(v: JsonValue, depth: nat) -> bool
    decreases v,
{
    match v {
        JsonValue::Null => true,
        JsonValue::Bool(_) => true,
        JsonValue::Number(_) => false,
        JsonValue::Str(s) => is_plain_text(s@),
        JsonValue::Array(items) => depth > 0 && plain_items(items@, (depth - 1) as nat),
        JsonValue::Object(fields) => depth > 0 && plain_fields(fields@, (depth - 1) as nat),
    }
}

/// Every item is a plain document within `depth`.
pub open spec fn plain_items(items: Seq<JsonValue>, depth: nat) -> bool
    decreases items,
{
    if items.len() == 0 {
        true
    } else {
        is_plain_json(items[0], depth) && plain_items(items.drop_first(), depth)
    }
}

/// Every key is plain text and comes before the next one, and every value
/// is a plain document within `depth`.
pub open spec fn plain_fields(fields: Seq<(String, JsonValue)>, depth: nat) -> bool
    decreases fields,
{
    if fields.len() == 0 {
        true
    } else {
        &&& is_plain_text(fields[0].0@)
        &&& is_plain_json(fields[0].1, depth)
        &&& (fields.len() > 1 ==> text_before(fields[0].0@, fields[1].0@))
        &&& plain_fields(fields.drop_first(), depth)
    }
}

/// The deepest nesting of arrays and objects that `serde_json` reads.
pub open spec fn json_depth_limit() -> nat {
    127
}

/// A text that spells a plain document.
pub open spec fn is_plain_json_text(text: Seq<char>) -> bool {
    exists|v: JsonValue| is_plain_json(v, json_depth_limit()) && #[trigger] json_text(v) == text
}

/// The JSON text of nested single-field objects: `{"k0":{"k1":..."leaf"...}}`.
pub open spec fn path_text(keys: Seq<Seq<char>>, leaf: Seq<char>) -> Seq<char>
    decreases keys.len(),
{
    if keys.len() == 0 {
        quoted(leaf)
    } else {
        seq!['{'] + quoted(keys[0]) + seq![':'] + path_text(keys.drop_first(), leaf) + seq!['}']
    }
}

/// `v` is the document that [`path_text`] spells: single-field objects
/// with the given keys, down to the string `leaf`.
pub open spec fn follows_path(v: JsonValue, keys: Seq<Seq<char>>, leaf: Seq<char>) -> bool
    decreases keys.len(),
{
    if keys.len() == 0 {
        v matches JsonValue::Str(s) && s@ == leaf
    } else {
        v matches JsonValue::Object(fields) && fields@.len() == 1 && fields@[0].0@ == keys[0]
            && follows_path(fields@[0].1, keys.drop_first(), leaf)
    }
}

proof fn lemma_quoted_prefix(a: Seq<char>, b: Seq<char>, x: Seq<char>, y: Seq<char>)
    requires
        is_plain_text(a),
        is_plain_text(b),
        quoted(a) + x == quoted(b) + y,
    ensures
        a == b,
        x == y,
{
    let l = quoted(a) + x;
    let r = quoted(b) + y;
    if a.len() < b.len() {
        assert(l[a.len() as int + 1] == '"');
        assert(r[a.len() as int + 1] == b[a.len() as int]);
    } else if b.len() < a.len() {
        assert(r[b.len() as int + 1] == '"');
        assert(l[b.len() as int + 1] == a[b.len() as int]);
    } else {
        assert(a =~= l.subrange(1, a.len() as int + 1));
        assert(b =~= r.subrange(1, b.len() as int + 1));
        assert(x =~= l.skip(a.len() as int + 2));
        assert(y =~= r.skip(b.len() as int + 2));
    }
}

/// The first character of a plain document's text tells its kind.
proof fn lemma_first_char(v: JsonValue, depth: nat)
    requires
        is_plain_json(v, depth),
    ensures
        json_text(v).len() > 0,
        json_text(v)[0] == '"' <==> v is Str,
        json_text(v)[0] == '{' <==> v is Object,
{
    match v {
        JsonValue::Str(s) => {},
        JsonValue::Array(items) => {},
        JsonValue::Object(fields) => {},
        _ => {},
    }
}

proof fn lemma_path_prefix(v: JsonValue, depth: nat, keys: Seq<Seq<char>>, leaf: Seq<char>, r: Seq<char>, r2: Seq<char>)
    requires
        is_plain_json(v, depth),
        forall|i: int| 0 <= i < keys.len() ==> is_plain_text(#[trigger] keys[i]),
        is_plain_text(leaf),
        json_text(v) + r == path_text(keys, leaf) + r2,
    ensures
        follows_path(v, keys, leaf),
        r == r2,
    decreases keys.len(), 1nat,
{
    lemma_first_char(v, depth);
    let lhs = json_text(v) + r;
    let rhs = path_text(keys, leaf) + r2;
    assert(lhs[0] == json_text(v)[0]);
    if keys.len() == 0 {
        assert(rhs[0] == '"');
        if let JsonValue::Str(x) = v {
            lemma_quoted_prefix(x@, leaf, r, r2);
        }
    } else {
        assert(rhs[0] == '{');
        lemma_object_prefix(v, depth, keys, leaf, r, r2);
    }
}

#[verifier::rlimit(40)]
proof fn lemma_object_prefix(v: JsonValue, depth: nat, keys: Seq<Seq<char>>, leaf: Seq<char>, r: Seq<char>, r2: Seq<char>)
    requires
        v is Object,
        keys.len() > 0,
        is_plain_json(v, depth),
        forall|i: int| 0 <= i < keys.len() ==> is_plain_text(#[trigger] keys[i]),
        is_plain_text(leaf),
        json_text(v) + r == path_text(keys, leaf) + r2,
    ensures
        follows_path(v, keys, leaf),
        r == r2,
    decreases keys.len(), 0nat,
{
    let k = keys[0];
    let rest = keys.drop_first();
    let fs = v->Object_0@;
    let lhs = json_text(v) + r;
    let rhs = path_text(keys, leaf) + r2;
    let inner_l = fields_text(fs) + seq!['}'] + r;
    let inner_r = quoted(k) + seq![':'] + path_text(rest, leaf) + seq!['}'] + r2;
    assert(inner_l =~= lhs.drop_first());
    assert(inner_r =~= rhs.drop_first());
    assert(inner_r[0] == '"');
    if fs.len() == 0 {
        assert(inner_l[0] == '}');
    } else {
        let k0 = fs[0].0@;
        let v0 = fs[0].1;
        let tail = if fs.len() == 1 { Seq::<char>::empty() } else { seq![','] + fields_text(fs.drop_first()) };
        assert(fields_text(fs) =~= quoted(k0) + seq![':'] + json_text(v0) + tail);
        assert(is_plain_text(k0));
        assert(is_plain_json(v0, (depth - 1) as nat));
        let after_l = seq![':'] + json_text(v0) + tail + seq!['}'] + r;
        let after_r = seq![':'] + path_text(rest, leaf) + seq!['}'] + r2;
        assert(inner_l =~= quoted(k0) + after_l);
        assert(inner_r =~= quoted(k) + after_r);
        lemma_quoted_prefix(k0, k, after_l, after_r);
        let t = tail + seq!['}'] + r;
        assert(after_l.drop_first() =~= json_text(v0) + t);
        assert(after_r.drop_first() =~= path_text(rest, leaf) + (seq!['}'] + r2));
        assert forall|i: int| 0 <= i < rest.len() implies is_plain_text(#[trigger] rest[i]) by {
            assert(rest[i] == keys[i + 1]);
        }
        lemma_path_prefix(v0, (depth - 1) as nat, rest, leaf, t, seq!['}'] + r2);
        if fs.len() > 1 {
            assert(t[0] == ',');
        }
        assert(t =~= seq!['}'] + r);
        assert(r =~= t.drop_first());
        assert(r2 =~= (seq!['}'] + r2).drop_first());
    }
}

/// A plain document whose JSON text is the string literal of `s` is the
/// string `s`, with exactly its characters: reading keeps every character,
/// case and white space included.
pub proof fn string_document_keeps_characters(doc: JsonValue, depth: nat, s: Seq<char>)
    requires
        is_plain_json(doc, depth),
        is_plain_text(s),
        json_text(doc) == quoted(s),
    ensures
        doc matches JsonValue::Str(x) && x@ == s,
{
    assert(json_text(doc) + Seq::<char>::empty() =~= path_text(Seq::empty(), s) + Seq::<char>::empty());
    lemma_path_prefix(doc, depth, Seq::empty(), s, Seq::empty(), Seq::empty());
}

/// A plain document whose JSON text is nested single-field objects with
/// the given keys around the string literal of `leaf` is exactly that
/// nesting, and its innermost string holds exactly the characters of `leaf`.
pub proof fn nested_document_keeps_keys_and_text(doc: JsonValue, depth: nat, keys: Seq<Seq<char>>, leaf: Seq<char>)
    requires
        is_plain_json(doc, depth),
        forall|i: int| 0 <= i < keys.len() ==> is_plain_text(#[trigger] keys[i]),
        is_plain_text(leaf),
        json_text(doc) == path_text(keys, leaf),
    ensures
        follows_path(doc, keys, leaf),
{
    assert(json_text(doc) + Seq::<char>::empty() =~= path_text(keys, leaf) + Seq::<char>::empty());
    lemma_path_prefix(doc, depth, keys, leaf, Seq::empty(), Seq::empty());
}

/// A catalog text `{"messages":{"<key>":{"text":"<text>"}}}`, with a key
/// that names an offset and strings that need no escapes, reads as the one
/// message at that offset whose text is exactly `text` and which has no
/// source.
pub proof fn catalog_entry_text_is_kept(doc: JsonValue, depth: nat, key: Seq<char>, text: Seq<char>)
    requires
        is_plain_json(doc, depth),
        is_plain_text(key),
        is_plain_text(text),
        catalog_offset(key) is Ok,
        json_text(doc) == path_text(seq!["messages"@, key, "text"@], text),
    ensures
        catalog_of(doc) matches Ok(m) && m.dom() == set![catalog_offset(key)->Ok_0]
            && m[catalog_offset(key)->Ok_0].text@ == text && m[catalog_offset(key)->Ok_0].source is None,
{
    reveal_strlit("messages");
    reveal_strlit("text");
    reveal_strlit("source");
    let keys = seq!["messages"@, key, "text"@];
    assert forall|i: int| 0 <= i < keys.len() implies is_plain_text(#[trigger] keys[i]) by {}
    nested_document_keeps_keys_and_text(doc, depth, keys, text);
    reveal_with_fuel(follows_path, 4);
    assert(keys.drop_first() =~= seq![key, "text"@]);
    assert(keys.drop_first().drop_first() =~= seq!["text"@]);
    assert(keys.drop_first().drop_first().drop_first() =~= Seq::<Seq<char>>::empty());
    if let JsonValue::Object(fs) = doc {
        let outer = fs@[0].1;
        assert(field_from(fs@, "messages"@, 0) == Some(outer));
        if let JsonValue::Object(gs) = outer {
            let g = gs@;
            let entry = g[0];
            assert(catalog_entries(doc) == g);
            assert(g.drop_last() =~= Seq::<(String, JsonValue)>::empty());
            let offset = catalog_offset(key)->Ok_0;
            assert(entry.0@ == key);
            if let JsonValue::Object(hs) = entry.1 {
                let h = hs@;
                if let JsonValue::Str(x) = h[0].1 {
                    assert(field_from(h, "text"@, 0) == Some(h[0].1));
                    assert(text_field(entry.1, "text"@) == Some(x));
                    assert(h[0].0@ == "text"@);
                    assert("text"@.len() != "source"@.len());
                    assert(h[0].0@ != "source"@);
                    assert(field_from(h, "source"@, 1) is None);
                    assert(field_from(h, "source"@, 0) is None);
                    assert(text_field(entry.1, "source"@) is None);
                    let message = CatalogMessage { source: None, text: x };
                    assert(entry_message(entry.0, entry.1) == Ok::<(u32, CatalogMessage), CatalogError>((offset, message)));
                    assert(g.last() == entry);
                    assert(catalog_from(g.drop_last()) == Ok::<Map<u32, CatalogMessage>, CatalogError>(Map::empty()));
                    assert(catalog_from(g) == Ok::<Map<u32, CatalogMessage>, CatalogError>(Map::empty().insert(offset, message)));
                    assert(Map::<u32, CatalogMessage>::empty().insert(offset, message).dom() =~= set![offset]);
                }
            }
        }
    }
}

/// The document that `serde_json::from_str` reads from a text into
/// `serde_json::Value`, in the library's form; none when the text is not JSON.
pub uninterp spec fn json_document(text: Seq<char>) -> Option<JsonValue>;

/// Calls `serde_json::from_str` to read a text into a `serde_json::Value`
/// and turns that into a [`JsonValue`]. The contract names the document as
/// a function of the text alone, states that the parser's error comes
/// exactly when there is no document, and states what the parser gives for
/// a text that spells a plain document (no white space, no numbers, strings
/// without escapes, keys in increasing order as its `BTreeMap` keeps them,
/// nesting within its recursion limit): a plain document that spells the
/// same text. The rest of the JSON grammar is left unsaid.
#[verifier::external_body]
fn parse_json(text: &str) -> (doc: Result<JsonValue, serde_json::Error>)
    ensures
        doc is Ok <==> json_document(text@) is Some,
        doc matches Ok(d) ==> json_document(text@) == Some(d),
        is_plain_json_text(text@) ==> doc is Ok,
        is_plain_json_text(text@) ==> is_plain_json(doc->Ok_0, json_depth_limit()),
        is_plain_json_text(text@) ==> json_text(doc->Ok_0) == text@,
{
    match serde_json::from_str::<serde_json::Value>(text) {
        Ok(value) => Ok(json_from_value(value)),
        Err(error) => Err(error),
    }
}

/// Part of [`parse_json`]: turns a `serde_json::Value` into a [`JsonValue`]
/// variant by variant, an object's fields in the order its map yields them
/// and a number by its JSON text. Nothing is claimed of it beyond what
/// `parse_json` states.
#[verifier::external_body]
fn json_from_value(value: serde_json::Value) -> JsonValue {
    match value {
        serde_json::Value::Null => JsonValue::Null,
        serde_json::Value::Bool(b) => JsonValue::Bool(b),
        serde_json::Value::Number(n) => JsonValue::Number(n.to_string()),
        serde_json::Value::String(s) => JsonValue::Str(s),
        serde_json::Value::Array(items) => JsonValue::Array(items.into_iter().map(json_from_value).collect()),
        serde_json::Value::Object(fields) => JsonValue::Object(
            fields.into_iter().map(|(key, value)| (key, json_from_value(value))).collect(),
        ),
    }
}

/// The value of the first field named `key` among `fields[i..]`.
pub open spec fn field_from(fields: Seq<(String, JsonValue)>, key: Seq<char>, i: int) -> Option<JsonValue>
    decreases fields.len() - i,
{
    if i < 0 || i >= fields.len() {
        None
    } else if fields[i].0@ == key {
        Some(fields[i].1)
    } else {
        field_from(fields, key, i + 1)
    }
}

/// The field `key` of an object; nothing for any other value.
pub open spec fn field_of(v: JsonValue, key: Seq<char>) -> Option<JsonValue> {
    match v {
        JsonValue::Object(fields) => field_from(fields@, key, 0),
        _ => None,
    }
}

/// The field `key` of an object when it holds a string.
pub open spec fn text_field(v: JsonValue, key: Seq<char>) -> Option<String> {
    match field_of(v, key) {
        Some(JsonValue::Str(s)) => Some(s),
        _ => None,
    }
}

/// Looks up the field `key` of an object.
pub fn lookup_field<'a>(v: &'a JsonValue, key: &String) -> (res: Option<&'a JsonValue>)
    ensures
        match res {
            Some(found) => field_of(*v, key@) == Some(*found),
            None => field_of(*v, key@) is None,
        },
{
    match v {
        JsonValue::Object(fields) => {
            let mut i: usize = 0;
            while i < fields.len()
                invariant
                    i <= fields.len(),
                    *v == JsonValue::Object(*fields),
                    field_from(fields@, key@, 0) == field_from(fields@, key@, i as int),
                decreases fields.len() - i,
            {
                if fields[i].0 == *key {
                    assert(field_from(fields@, key@, i as int) == Some(fields@[i as int].1));
                    return Some(&fields[i].1);
                }
                i = i + 1;
            }
            None
        },
        _ => None,
    }
}

fn lookup_text(v: &JsonValue, key: &String) -> (res: Option<String>)
    ensures
        res == text_field(*v, key@),
{
    match lookup_field(v, key) {
        Some(JsonValue::Str(s)) => Some(s.clone()),
        _ => None,
    }
}

/// One translation: the text shown in place of the original, and the
/// original text when the catalog gives it for context.
#[derive(Debug)]
pub struct CatalogMessage {
    pub source: Option<String>,
    pub text: String,
}

impl CatalogMessage {
    /// A copy of this message.
    pub fn duplicate(&self) -> (copy: CatalogMessage)
        ensures
            copy == *self,
    {
        let source = match &self.source {
            Some(s) => Some(s.clone()),
            None => None,
        };
        CatalogMessage { source, text: self.text.clone() }
    }
}

/// Why a catalog is refused.
#[derive(Debug)]
pub enum CatalogError {
    /// The key of an entry is not a hexadecimal offset.
    BadOffset { key: String, reason: OffsetError },
    /// An entry has no `text` string.
    MissingText { key: String },
    /// The catalog text is not JSON; the parser's error.
    Syntax(serde_json::Error),
}

/// The entries of a catalog: the fields of its `messages` object, or none
/// when there is no such object.
pub open spec fn catalog_entries(root: JsonValue) -> Seq<(String, JsonValue)> {
    match field_of(root, "messages"@) {
        Some(JsonValue::Object(fields)) => fields@,
        _ => Seq::empty(),
    }
}

/// What one catalog entry contributes: its offset and its message.
pub open spec fn entry_message(key: String, value: JsonValue) -> Result<(u32, CatalogMessage), CatalogError> {
    match catalog_offset(key@) {
        Err(reason) => Err(CatalogError::BadOffset { key, reason }),
        Ok(offset) => match text_field(value, "text"@) {
            None => Err(CatalogError::MissingText { key }),
            Some(text) => Ok((offset, CatalogMessage { source: text_field(value, "source"@), text })),
        },
    }
}

/// The messages of `entries` taken in order: the first bad entry refuses
/// the catalog, and a later entry for the same offset replaces an earlier one.
pub open spec fn catalog_from(entries: Seq<(String, JsonValue)>) -> Result<Map<u32, CatalogMessage>, CatalogError>
    decreases entries.len(),
{
    if entries.len() == 0 {
        Ok(Map::empty())
    } else {
        match catalog_from(entries.drop_last()) {
            Err(e) => Err(e),
            Ok(m) => match entry_message(entries.last().0, entries.last().1) {
                Err(e) => Err(e),
                Ok((offset, message)) => Ok(m.insert(offset, message)),
            },
        }
    }
}

/// The messages of a catalog document.
pub open spec fn catalog_of(root: JsonValue) -> Result<Map<u32, CatalogMessage>, CatalogError> {
    catalog_from(catalog_entries(root))
}

proof fn lemma_catalog_error_persists(entries: Seq<(String, JsonValue)>, j: int)
    requires
        0 <= j <= entries.len(),
        catalog_from(entries.take(j)) is Err,
    ensures
        catalog_from(entries) == catalog_from(entries.take(j)),
    decreases entries.len() - j,
{
    if j < entries.len() {
        assert(entries.take(j + 1).drop_last() =~= entries.take(j));
        lemma_catalog_error_persists(entries, j + 1);
    } else {
        assert(entries.take(j) =~= entries);
    }
}

fn read_entry(key: &String, value: &JsonValue) -> (res: Result<(u32, CatalogMessage), CatalogError>)
    ensures
        res == entry_message(*key, *value),
{
    let offset = match parse_catalog_offset(key.as_str()) {
        Ok(offset) => offset,
        Err(reason) => {
            return Err(CatalogError::BadOffset { key: key.clone(), reason });
        },
    };
    let source = lookup_text(value, &String::from_str("source"));
    match lookup_text(value, &String::from_str("text")) {
        Some(text) => Ok((offset, CatalogMessage { source, text })),
        None => Err(CatalogError::MissingText { key: key.clone() }),
    }
}

/// Reads the messages of a catalog document, keyed by script offset.
/// Entries are read in order; the first one whose key is not an offset, or
/// that has no `text` string, refuses the whole catalog.
pub fn read_catalog(root: &JsonValue) -> (res: Result<BTreeMap<u32, CatalogMessage>, CatalogError>)
    ensures
        match (res, catalog_of(*root)) {
            (Ok(found), Ok(expected)) => found@ == expected,
            (Err(found), Err(expected)) => found == expected,
            _ => false,
        },
{
    let mut messages: BTreeMap<u32, CatalogMessage> = BTreeMap::new();
    let ghost entries = catalog_entries(*root);
    let found = lookup_field(root, &String::from_str("messages"));
    let fields: &Vec<(String, JsonValue)> = match found {
        Some(JsonValue::Object(fields)) => fields,
        _ => {
            assert(entries.len() == 0);
            return Ok(messages);
        },
    };
    assert(fields@ == entries);
    assert(entries.take(0) =~= Seq::<(String, JsonValue)>::empty());
    let mut i: usize = 0;
    while i < fields.len()
        invariant
            i <= fields.len(),
            fields@ == entries,
            entries == catalog_entries(*root),
            catalog_from(entries.take(i as int)) == Ok::<Map<u32, CatalogMessage>, CatalogError>(messages@),
        decreases fields.len() - i,
    {
        assert(entries.take(i + 1).drop_last() =~= entries.take(i as int));
        assert(entries.take(i + 1).last() == fields@[i as int]);
        match read_entry(&fields[i].0, &fields[i].1) {
            Err(e) => {
                assert(catalog_from(entries.take(i + 1)) == Err::<Map<u32, CatalogMessage>, CatalogError>(e));
                proof { lemma_catalog_error_persists(entries, i + 1); }
                return Err(e);
            },
            Ok((offset, message)) => {
                messages.insert(offset, message);
            },
        }
        i = i + 1;
    }
    assert(entries.take(i as int) =~= entries);
    Ok(messages)
}

/// Reads a catalog from its text: refused with the parser's error when the
/// text is not JSON; otherwise the messages of the document, as
/// [`read_catalog`] reads them.
pub fn read_catalog_text(text: &str) -> (res: Result<BTreeMap<u32, CatalogMessage>, CatalogError>)
    ensures
        is_plain_json_text(text@) ==> (json_document(text@) matches Some(root)
            && is_plain_json(root, json_depth_limit()) && json_text(root) == text@),
        match json_document(text@) {
            None => res matches Err(CatalogError::Syntax(_)),
            Some(root) => match (res, catalog_of(root)) {
                (Ok(found), Ok(expected)) => found@ == expected,
                (Err(found), Err(expected)) => found == expected,
                _ => false,
            },
        },
{
    match parse_json(text) {
        Ok(root) => read_catalog(&root),
        Err(error) => Err(CatalogError::Syntax(error)),
    }
}

} // verus!
