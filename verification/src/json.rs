//! Flat JSON objects: writing them field by field, and reading the fields back.
use vstd::prelude::*;

use crate::text::{chars_of, decimal, find_char, text_of};
use crate::text::{char_range, concat_assoc, dec, find, lemma_find, lemma_find_is};

verus! {

// ── Escaping ─────────────────────────────────────────────────────────────────

/// The hexadecimal digit of value `d`, in lower case.
pub open spec fn hex_digit(d: int) -> char {
    if d < 10 {
        (48 + d) as char
    } else {
        (87 + d) as char
    }
}

/// How one character stands inside a JSON string.
pub open spec fn escaped_char(c: char) -> Seq<char> {
    if c == '"' {
        seq!['\\', '"']
    } else if c == '\\' {
        seq!['\\', '\\']
    } else if c == '\n' {
        seq!['\\', 'n']
    } else if c == '\r' {
        seq!['\\', 'r']
    } else if c == '\t' {
        seq!['\\', 't']
    } else if ' ' > c {
        seq!['\\', 'u', '0', '0', hex_digit(c as int / 16), hex_digit(c as int % 16)]
    } else {
        seq![c]
    }
}

/// How a text stands inside a JSON string.
pub open spec fn escaped(s: Seq<char>) -> Seq<char>
    decreases s.len(),
{
    if s.len() == 0 {
        Seq::empty()
    } else {
        escaped(s.drop_last()) + escaped_char(s.last())
    }
}

/// Whether `c` stands for itself inside a JSON string.
pub open spec fn plain_char(c: char) -> bool {
    c != '"' && c != '\\' && ' ' <= c
}

/// Text of plain characters stands for itself.
pub proof fn plain_text_is_not_escaped(s: Seq<char>)
    requires
        forall|k: int| 0 <= k < s.len() ==> plain_char(#[trigger] s[k]),
    ensures
        escaped(s) == s,
    decreases s.len(),
{
    if s.len() > 0 {
        assert forall|k: int| 0 <= k < s.drop_last().len() implies plain_char(
            #[trigger] s.drop_last()[k],
        ) by {
            assert(s.drop_last()[k] == s[k]);
        }
        plain_text_is_not_escaped(s.drop_last());
        assert(plain_char(s[s.len() - 1]));
        assert(s == s.drop_last() + seq![s.last()]);
    }
}

/// An escaped text holds no bare control character, and a quote only behind a
/// backslash.
pub proof fn escaped_text_is_a_json_string(s: Seq<char>)
    ensures
        forall|k: int| 0 <= k < escaped(s).len() ==> ' ' <= #[trigger] escaped(s)[k],
        forall|k: int|
            0 <= k < escaped(s).len() && #[trigger] escaped(s)[k] == '"' ==> k > 0 && escaped(s)[k - 1]
                == '\\',
    decreases s.len(),
{
    if s.len() > 0 {
        escaped_text_is_a_json_string(s.drop_last());
        let head = escaped(s.drop_last());
        let tail = escaped_char(s.last());
        let whole = escaped(s);
        char_range(s.last());
        assert(whole == head + tail);
        assert forall|k: int| 0 <= k < whole.len() implies ' ' <= #[trigger] whole[k] by {
            if k < head.len() {
                assert(whole[k] == head[k]);
            } else {
                assert(whole[k] == tail[k - head.len()]);
            }
        }
        assert forall|k: int| 0 <= k < whole.len() && #[trigger] whole[k] == '"' implies k > 0
            && whole[k - 1] == '\\' by {
            if k < head.len() {
                assert(whole[k] == head[k]);
                assert(whole[k - 1] == head[k - 1]);
            } else {
                assert(whole[k] == tail[k - head.len()]);
                assert(k - head.len() == 1);
                assert(whole[k - 1] == tail[0]);
            }
        }
    }
}

/// The value of a hexadecimal digit.
pub open spec fn hex_value(c: char) -> int {
    if '0' <= c <= '9' {
        c as int - 48
    } else {
        c as int - 87
    }
}

/// The text that a JSON string stands for: a backslash and what follows it are one
/// character, any other character stands for itself.
pub open spec fn unescaped(t: Seq<char>) -> Seq<char>
    decreases t.len(),
{
    if t.len() == 0 {
        Seq::empty()
    } else if t[0] != '\\' || t.len() == 1 {
        seq![t[0]] + unescaped(t.skip(1))
    } else if t[1] == 'n' {
        seq!['\n'] + unescaped(t.skip(2))
    } else if t[1] == 'r' {
        seq!['\r'] + unescaped(t.skip(2))
    } else if t[1] == 't' {
        seq!['\t'] + unescaped(t.skip(2))
    } else if t[1] == 'u' && t.len() >= 6 {
        seq![
            (hex_value(t[2]) * 0x1000 + hex_value(t[3]) * 0x100 + hex_value(t[4]) * 0x10 + hex_value(
                t[5],
            )) as char,
        ] + unescaped(t.skip(6))
    } else {
        seq![t[1]] + unescaped(t.skip(2))
    }
}

proof fn lemma_escaped_first(s: Seq<char>)
    requires
        s.len() > 0,
    ensures
        escaped(s) == escaped_char(s[0]) + escaped(s.skip(1)),
    decreases s.len(),
{
    if s.len() > 1 {
        lemma_escaped_first(s.drop_last());
        assert(s.skip(1).drop_last() =~= s.drop_last().skip(1));
        assert(escaped(s) =~= escaped_char(s[0]) + escaped(s.skip(1)));
    } else {
        assert(s.drop_last() =~= Seq::<char>::empty());
        assert(s.skip(1) =~= Seq::<char>::empty());
        assert(escaped(s) =~= escaped_char(s[0]) + escaped(s.skip(1)));
    }
}

proof fn lemma_unescaped_first(c: char, rest: Seq<char>)
    ensures
        unescaped(escaped_char(c) + rest) == seq![c] + unescaped(rest),
{
    let t = escaped_char(c) + rest;
    let n = escaped_char(c).len() as int;
    char_range(c);
    assert(t.skip(n) =~= rest);
    assert(forall|k: int| 0 <= k < n ==> t[k] == escaped_char(c)[k]);
    if n == 6 {
        let (h, l) = (c as int / 16, c as int % 16);
        assert(t[4] == hex_digit(h) && t[5] == hex_digit(l));
        char_range(hex_digit(h));
        char_range(hex_digit(l));
        assert(hex_value(t[2]) == 0 && hex_value(t[3]) == 0);
        assert(hex_value(hex_digit(h)) == h && hex_value(hex_digit(l)) == l);
    }
}

/// A text comes back from the JSON string that it is written as.
pub proof fn escaped_text_is_read_back(s: Seq<char>)
    ensures
        unescaped(escaped(s)) == s,
    decreases s.len(),
{
    if s.len() > 0 {
        lemma_escaped_first(s);
        escaped_text_is_read_back(s.skip(1));
        lemma_unescaped_first(s[0], escaped(s.skip(1)));
        assert(seq![s[0]] + s.skip(1) =~= s);
    }
}

/// A text without quotes stays without quotes.
pub proof fn lemma_escaped_no_quote(s: Seq<char>)
    requires
        !s.contains('"'),
    ensures
        !escaped(s).contains('"'),
    decreases s.len(),
{
    if s.len() > 0 {
        assert forall|k: int| 0 <= k < s.drop_last().len() implies s.drop_last()[k] != '"' by {
            assert(s.drop_last()[k] == s[k]);
        }
        lemma_escaped_no_quote(s.drop_last());
        assert(s[s.len() - 1] != '"');
        char_range(s.last());
        let head = escaped(s.drop_last());
        let tail = escaped_char(s.last());
        assert forall|k: int| 0 <= k < escaped(s).len() implies escaped(s)[k] != '"' by {
            if k < head.len() {
                assert(escaped(s)[k] == head[k]);
            } else {
                assert(escaped(s)[k] == tail[k - head.len()]);
            }
        }
    }
}

fn push_hex_digit(out: &mut String, d: u32)
    requires
        d < 16,
    ensures
        final(out)@ == old(out)@.push(hex_digit(d as int)),
{
    if d < 10 {
        out.push((48u8 + d as u8) as char);
    } else {
        out.push((87u8 + d as u8) as char);
    }
}

/// Appends `s` as it stands inside a JSON string.
pub fn write_escape_json(out: &mut String, s: &str)
    ensures
        final(out)@ == old(out)@ + escaped(s@),
{
    let v = chars_of(s);
    let ghost before = out@;
    let mut i: usize = 0;
    while i < v.len()
        invariant
            i <= v.len(),
            v@ == s@,
            out@ == before + escaped(s@.take(i as int)),
        decreases v.len() - i,
    {
        let c: char = v[i];
        let ghost at = out@;
        proof {
            char_range(c);
        }
        if c == '"' {
            out.push('\\');
            out.push('"');
        } else if c == '\\' {
            out.push('\\');
            out.push('\\');
        } else if c == '\n' {
            out.push('\\');
            out.push('n');
        } else if c == '\r' {
            out.push('\\');
            out.push('r');
        } else if c == '\t' {
            out.push('\\');
            out.push('t');
        } else if ' ' > c {
            out.push('\\');
            out.push('u');
            out.push('0');
            out.push('0');
            push_hex_digit(out, (c as u32) / 16);
            push_hex_digit(out, (c as u32) % 16);
        } else {
            out.push(c);
        }
        proof {
            assert(out@ == at + escaped_char(c));
            assert(s@.take(i + 1).drop_last() == s@.take(i as int));
            assert(out@ == before + (escaped(s@.take(i as int)) + escaped_char(c)));
        }
        i += 1;
    }
    proof {
        assert(s@.take(v.len() as int) == s@);
    }
}

/// `s` as it stands inside a JSON string.
pub fn escape_json(s: &str) -> (r: String)
    ensures
        r@ == escaped(s@),
{
    let mut out: String = String::new();
    write_escape_json(&mut out, s);
    out
}

// ── Writing objects ──────────────────────────────────────────────────────────

/// One field of a flat object: its key, and its value as it stands between the
/// quotes of a string or, for another value, as it stands.
pub struct Field {
    pub key: Seq<char>,
    pub value: Seq<char>,
    pub quoted: bool,
}

/// A field whose value stands in quotes.
pub open spec fn string_field(key: Seq<char>, value: Seq<char>) -> Field {
    Field { key, value, quoted: true }
}

/// A field whose value stands without quotes.
pub open spec fn bare_field(key: Seq<char>, value: Seq<char>) -> Field {
    Field { key, value, quoted: false }
}

/// The text of a field.
pub open spec fn field_text(f: Field) -> Seq<char> {
    if f.quoted {
        "\""@ + f.key + "\":\""@ + f.value + "\""@
    } else {
        "\""@ + f.key + "\":"@ + f.value
    }
}

/// The fields, each with a comma in front.
pub open spec fn tail_text(fs: Seq<Field>) -> Seq<char>
    decreases fs.len(),
{
    if fs.len() == 0 {
        Seq::empty()
    } else {
        ","@ + field_text(fs[0]) + tail_text(fs.skip(1))
    }
}

/// The fields with commas between them.
pub open spec fn fields_text(fs: Seq<Field>) -> Seq<char> {
    if fs.len() == 0 {
        Seq::empty()
    } else {
        field_text(fs[0]) + tail_text(fs.skip(1))
    }
}

/// The object with these fields.
pub open spec fn object_text(fs: Seq<Field>) -> Seq<char> {
    "{"@ + fields_text(fs) + "}"@
}

proof fn lemma_tail_push(fs: Seq<Field>, f: Field)
    ensures
        tail_text(fs.push(f)) == tail_text(fs) + ","@ + field_text(f),
    decreases fs.len(),
{
    if fs.len() == 0 {
        assert(fs.push(f).skip(1) == Seq::<Field>::empty());
        assert(fs.push(f)[0] == f);
        assert(tail_text(fs) == Seq::<char>::empty());
        assert(tail_text(fs.push(f)) == ","@ + field_text(f) + tail_text(Seq::<Field>::empty()));
        assert(tail_text(fs.push(f)) == tail_text(fs) + ","@ + field_text(f));
    } else {
        lemma_tail_push(fs.skip(1), f);
        assert(fs.push(f).skip(1) == fs.skip(1).push(f));
        assert(fs.push(f)[0] == fs[0]);
        assert(tail_text(fs.push(f)) == tail_text(fs) + ","@ + field_text(f));
    }
}

/// A further field follows the others behind a comma.
pub proof fn lemma_fields_push(fs: Seq<Field>, f: Field)
    ensures
        fields_text(fs.push(f)) == fields_text(fs) + (if fs.len() == 0 {
            Seq::empty()
        } else {
            ","@
        }) + field_text(f),
{
    if fs.len() == 0 {
        assert(fs.push(f).skip(1) == Seq::<Field>::empty());
        assert(fields_text(fs.push(f)) == field_text(f));
    } else {
        lemma_tail_push(fs.skip(1), f);
        assert(fs.push(f).skip(1) == fs.skip(1).push(f));
        assert(fs.push(f)[0] == fs[0]);
        assert(fields_text(fs.push(f)) == fields_text(fs) + ","@ + field_text(f));
    }
}

/// An object in the making. Its view is the list of its fields.
pub struct ObjectWriter {
    out: String,
    empty: bool,
    fields: Ghost<Seq<Field>>,
}

impl View for ObjectWriter {
    type V = Seq<Field>;

    closed spec fn view(&self) -> Seq<Field> {
        self.fields@
    }
}

impl ObjectWriter {
    /// Whether what was written is the list of fields.
    pub closed spec fn wf(&self) -> bool {
        &&& self.out@ == "{"@ + fields_text(self.fields@)
        &&& self.empty == (self.fields@.len() == 0)
    }

    /// An object without fields.
    pub fn new() -> (r: Self)
        ensures
            r.wf(),
            r@ == Seq::<Field>::empty(),
    {
        let out: String = "{".to_string();
        assert("{"@ + Seq::<char>::empty() == "{"@);
        ObjectWriter { out, empty: true, fields: Ghost(Seq::empty()) }
    }

    fn separate(&mut self)
        requires
            old(self).wf(),
        ensures
            final(self).out@ == old(self).out@ + (if old(self)@.len() == 0 {
                Seq::empty()
            } else {
                ","@
            }),
            !final(self).empty,
            final(self)@ == old(self)@,
    {
        assert(self.out@ + Seq::<char>::empty() == self.out@);
        if self.empty {
            self.empty = false;
        } else {
            self.out.append(",");
        }
    }

    /// Adds a string. It stands as it is given, so it must not need escaping.
    pub fn raw_string(&mut self, key: &str, value: &str)
        requires
            old(self).wf(),
        ensures
            final(self).wf(),
            final(self)@ == old(self)@.push(string_field(key@, value@)),
    {
        broadcast use concat_assoc;

        self.separate();
        self.out.append("\"");
        self.out.append(key);
        self.out.append("\":\"");
        self.out.append(value);
        self.out.append("\"");
        proof {
            lemma_fields_push(self.fields@, string_field(key@, value@));
            self.fields@ = self.fields@.push(string_field(key@, value@));
        }
    }

    /// Adds a string, escaped.
    pub fn string(&mut self, key: &str, value: &str)
        requires
            old(self).wf(),
        ensures
            final(self).wf(),
            final(self)@ == old(self)@.push(string_field(key@, escaped(value@))),
    {
        let text = escape_json(value);
        self.raw_string(key, &text);
    }

    /// Adds a value that stands without quotes.
    pub fn bare(&mut self, key: &str, value: &str)
        requires
            old(self).wf(),
        ensures
            final(self).wf(),
            final(self)@ == old(self)@.push(bare_field(key@, value@)),
    {
        broadcast use concat_assoc;

        self.separate();
        self.out.append("\"");
        self.out.append(key);
        self.out.append("\":");
        self.out.append(value);
        proof {
            lemma_fields_push(self.fields@, bare_field(key@, value@));
            self.fields@ = self.fields@.push(bare_field(key@, value@));
        }
    }

    /// Adds a number.
    pub fn number(&mut self, key: &str, value: u64)
        requires
            old(self).wf(),
        ensures
            final(self).wf(),
            final(self)@ == old(self)@.push(bare_field(key@, dec(value as nat))),
    {
        let text = decimal(value);
        self.bare(key, &text);
    }

    /// Adds a value that may be absent; then it is `null`.
    pub fn optional(&mut self, key: &str, value: &Option<String>)
        requires
            old(self).wf(),
        ensures
            final(self).wf(),
            final(self)@ == old(self)@.push(bare_field(key@, text_or_null(*value))),
    {
        match value {
            Some(text) => self.bare(key, text),
            None => self.bare(key, "null"),
        }
    }

    /// The finished object.
    pub fn finish(self) -> (r: String)
        requires
            self.wf(),
        ensures
            r@ == object_text(self@),
    {
        let mut out = self.out;
        out.append("}");
        out
    }
}

/// A value, or `null` where there is none.
pub open spec fn text_or_null(value: Option<String>) -> Seq<char> {
    match value {
        Some(text) => text@,
        None => "null"@,
    }
}

// ── Reading objects ──────────────────────────────────────────────────────────

/// Whether a character is white space of JSON: a space, a tab, or an end of line.
pub open spec fn blank(c: char) -> bool {
    c == ' ' || c == '\t' || c == '\r' || c == '\n'
}

/// The first index at or after `i` that holds no white space, or the length.
pub open spec fn skip_blank(s: Seq<char>, i: int) -> int
    decreases s.len() - i,
{
    if i < s.len() && blank(s[i]) {
        skip_blank(s, i + 1)
    } else {
        i
    }
}

/// The characters that end a value without quotes.
pub open spec fn ends_value(c: char) -> bool {
    c == ',' || c == '}' || c == ' ' || c == '\t' || c == '\r' || c == '\n' || c == ']'
}

/// The first index at or after `i` whose character ends a value, or the length.
pub open spec fn value_end(s: Seq<char>, i: int) -> int
    decreases s.len() - i,
{
    if i < s.len() && !ends_value(s[i]) {
        value_end(s, i + 1)
    } else {
        i
    }
}

/// Skipping blanks ends within the text.
pub proof fn lemma_skip_blank(s: Seq<char>, i: int)
    requires
        0 <= i <= s.len(),
    ensures
        i <= skip_blank(s, i) <= s.len(),
    decreases s.len() - i,
{
    if i < s.len() && blank(s[i]) {
        lemma_skip_blank(s, i + 1);
    }
}

/// A value ends within the text.
pub proof fn lemma_value_end(s: Seq<char>, i: int)
    requires
        0 <= i <= s.len(),
    ensures
        i <= value_end(s, i) <= s.len(),
    decreases s.len() - i,
{
    if i < s.len() && !ends_value(s[i]) {
        lemma_value_end(s, i + 1);
    }
}

proof fn lemma_value_end_is(s: Seq<char>, i: int, j: int)
    requires
        0 <= i <= j <= s.len(),
        forall|k: int| i <= k < j ==> !ends_value(#[trigger] s[k]),
        j < s.len() ==> ends_value(s[j]),
    ensures
        value_end(s, i) == j,
    decreases j - i,
{
    if i < j {
        assert(!ends_value(s[i]));
        lemma_value_end_is(s, i + 1, j);
    }
}

/// The fields of an object in the order in which they stand: a quoted key, a
/// colon with white space around it or not, and a value in quotes or up to a
/// character that ends it. A quoted text that no colon follows is passed over.
/// Values are not unescaped.
pub open spec fn walked(s: Seq<char>, i: int) -> Seq<(Seq<char>, Seq<char>)>
    decreases s.len() - i,
{
    if !(0 <= i <= s.len()) {
        Seq::empty()
    } else {
        let key_start = find(s, i, '"') + 1;
        let key_end = find(s, key_start, '"');
        let colon = skip_blank(s, key_end + 1);
        let start = skip_blank(s, colon + 1);
        proof {
            lemma_find(s, i, '"');
            if key_start <= s.len() {
                lemma_find(s, key_start, '"');
                if key_end < s.len() {
                    lemma_skip_blank(s, key_end + 1);
                    if colon < s.len() {
                        lemma_skip_blank(s, colon + 1);
                        if start < s.len() {
                            lemma_find(s, start + 1, '"');
                            lemma_value_end(s, start);
                        }
                    }
                }
            }
        }
        if key_start > s.len() || key_end >= s.len() {
            Seq::empty()
        } else if colon >= s.len() {
            Seq::empty()
        } else if s[colon] != ':' {
            walked(s, colon)
        } else if start >= s.len() {
            Seq::empty()
        } else if s[start] == '"' {
            let end = find(s, start + 1, '"');
            let next = if end < s.len() {
                end + 1
            } else {
                end
            };
            seq![(s.subrange(key_start, key_end), s.subrange(start + 1, end))] + walked(s, next)
        } else {
            let end = value_end(s, start);
            seq![(s.subrange(key_start, key_end), s.subrange(start, end))] + walked(s, end)
        }
    }
}

/// The keys and values of a list of pairs.
pub open spec fn pair_texts(v: Seq<(String, String)>) -> Seq<(Seq<char>, Seq<char>)> {
    v.map_values(|p: (String, String)| (p.0@, p.1@))
}

fn past_blank(v: &Vec<char>, from: usize) -> (r: usize)
    requires
        from <= v.len(),
    ensures
        r == skip_blank(v@, from as int),
        from <= r <= v.len(),
{
    let mut i: usize = from;
    while i < v.len() && (v[i] == ' ' || v[i] == '\t' || v[i] == '\r' || v[i] == '\n')
        invariant
            from <= i <= v.len(),
            skip_blank(v@, from as int) == skip_blank(v@, i as int),
        decreases v.len() - i,
    {
        i += 1;
    }
    i
}

fn past_value(v: &Vec<char>, from: usize) -> (r: usize)
    requires
        from <= v.len(),
    ensures
        r == value_end(v@, from as int),
        from <= r <= v.len(),
{
    let mut i: usize = from;
    while i < v.len() && !(v[i] == ',' || v[i] == '}' || v[i] == ' ' || v[i] == '\t' || v[i] == '\r'
        || v[i] == '\n' || v[i] == ']')
        invariant
            from <= i <= v.len(),
            value_end(v@, from as int) == value_end(v@, i as int),
        decreases v.len() - i,
    {
        i += 1;
    }
    i
}

/// Each `"key":value` pair of a flat object, once, in order. A value is what
/// stands between its quotes, or the text of a number or of `null`.
pub fn walk_flat_object(json: &str) -> (r: Vec<(String, String)>)
    ensures
        pair_texts(r@) == walked(json@, 0),
{
    let v = chars_of(json);
    let n: usize = v.len();
    let mut r: Vec<(String, String)> = Vec::new();
    let mut i: usize = 0;
    while i < n
        invariant
            v@ == json@,
            n == v.len(),
            i <= n,
            pair_texts(r@) + walked(json@, i as int) == walked(json@, 0),
        ensures
            pair_texts(r@) == walked(json@, 0),
        decreases n - i,
    {
        let open: usize = find_char(&v, i, '"');
        if open >= n {
            break;
        }
        let key_end: usize = find_char(&v, open + 1, '"');
        if key_end >= n {
            break;
        }
        let colon: usize = past_blank(&v, key_end + 1);
        if colon >= n {
            break;
        }
        if v[colon] != ':' {
            i = colon;
            continue;
        }
        let start: usize = past_blank(&v, colon + 1);
        if start >= n {
            break;
        }
        let ghost before = pair_texts(r@);
        let key = text_of(&v, open + 1, key_end);
        let value: String;
        if v[start] == '"' {
            let end: usize = find_char(&v, start + 1, '"');
            value = text_of(&v, start + 1, end);
            i = if end < n {
                end + 1
            } else {
                end
            };
        } else {
            let end: usize = past_value(&v, start);
            value = text_of(&v, start, end);
            i = end;
        }
        let ghost pair = (key@, value@);
        r.push((key, value));
        proof {
            assert(pair_texts(r@) == before.push(pair));
            assert(before + (seq![pair] + walked(json@, i as int)) == pair_texts(r@) + walked(
                json@,
                i as int,
            ));
        }
    }
    r
}

// ── Reading back what was written ────────────────────────────────────────────

/// Whether a field can be read back: no quote ends its key or its string value
/// early, and a value without quotes is not empty and holds nothing that ends
/// it.
pub open spec fn readable(f: Field) -> bool {
    &&& !f.key.contains('"')
    &&& if f.quoted {
        !f.value.contains('"')
    } else {
        f.value.len() > 0 && f.value[0] != '"' && forall|k: int|
            0 <= k < f.value.len() ==> !ends_value(#[trigger] f.value[k])
    }
}

/// The keys and values of fields.
pub open spec fn field_pairs(fs: Seq<Field>) -> Seq<(Seq<char>, Seq<char>)> {
    fs.map_values(|f: Field| (f.key, f.value))
}

/// White space inside a field: before its key, behind its key, behind its colon, and
/// behind its value.
pub struct Gaps {
    pub before: Seq<char>,
    pub key: Seq<char>,
    pub colon: Seq<char>,
    pub value: Seq<char>,
}

/// Whether a text is white space.
pub open spec fn all_blank(s: Seq<char>) -> bool {
    forall|k: int| 0 <= k < s.len() ==> blank(#[trigger] s[k])
}

impl Gaps {
    /// Whether every gap is white space.
    pub open spec fn wf(self) -> bool {
        all_blank(self.before) && all_blank(self.key) && all_blank(self.colon) && all_blank(
            self.value,
        )
    }

    /// No white space.
    pub open spec fn closed_up() -> Gaps {
        Gaps {
            before: Seq::empty(),
            key: Seq::empty(),
            colon: Seq::empty(),
            value: Seq::empty(),
        }
    }
}

/// The text of a value.
pub open spec fn value_text(f: Field) -> Seq<char> {
    if f.quoted {
        "\""@ + f.value + "\""@
    } else {
        f.value
    }
}

/// The text of a field with white space in its gaps.
pub open spec fn spaced_field(f: Field, g: Gaps) -> Seq<char> {
    g.before + "\""@ + f.key + "\""@ + g.key + ":"@ + g.colon + value_text(f) + g.value
}

/// The fields with white space in their gaps, each with a comma in front.
pub open spec fn spaced_tail(fs: Seq<Field>, gs: Seq<Gaps>) -> Seq<char>
    decreases fs.len(),
{
    if fs.len() == 0 {
        Seq::empty()
    } else {
        ","@ + spaced_field(fs[0], gs[0]) + spaced_tail(fs.skip(1), gs.skip(1))
    }
}

/// The object with these fields, with white space in their gaps, and before and
/// behind it.
pub open spec fn spaced_object(
    fs: Seq<Field>,
    gs: Seq<Gaps>,
    before: Seq<char>,
    behind: Seq<char>,
) -> Seq<char> {
    before + "{"@ + (if fs.len() == 0 {
        Seq::empty()
    } else {
        spaced_field(fs[0], gs[0]) + spaced_tail(fs.skip(1), gs.skip(1))
    }) + "}"@ + behind
}

/// Whether no quote stands in `s[from..to]`.
spec fn no_quote(s: Seq<char>, from: int, to: int) -> bool {
    forall|k: int| from <= k < to ==> #[trigger] s[k] != '"'
}

/// Whether white space stands in `s[from..to]`, and nothing else.
spec fn blank_between(s: Seq<char>, from: int, to: int) -> bool {
    forall|k: int| from <= k < to ==> blank(#[trigger] s[k])
}

proof fn lemma_skip_blank_is(s: Seq<char>, i: int, j: int)
    requires
        0 <= i <= j <= s.len(),
        blank_between(s, i, j),
        j < s.len() ==> !blank(s[j]),
    ensures
        skip_blank(s, i) == j,
    decreases j - i,
{
    if i < j {
        assert(blank(s[i]));
        lemma_skip_blank_is(s, i + 1, j);
    }
}

/// What holds no quote is passed over.
proof fn lemma_walk_on(s: Seq<char>, i: int, j: int)
    requires
        0 <= i <= j <= s.len(),
        no_quote(s, i, j),
    ensures
        walked(s, i) == walked(s, j),
{
    lemma_find(s, j, '"');
    lemma_find_is(s, i, '"', find(s, j, '"'));
}

/// A quoted value between known quotes is read from between them.
proof fn lemma_walk_quoted(s: Seq<char>, i: int, a: int, b: int, c: int, v: int, e: int)
    requires
        0 <= i <= a < b < c < v < e < s.len(),
        no_quote(s, i, a),
        s[a] == '"',
        no_quote(s, a + 1, b),
        s[b] == '"',
        blank_between(s, b + 1, c),
        s[c] == ':',
        blank_between(s, c + 1, v),
        s[v] == '"',
        no_quote(s, v + 1, e),
        s[e] == '"',
    ensures
        walked(s, i) == seq![(s.subrange(a + 1, b), s.subrange(v + 1, e))] + walked(s, e + 1),
{
    lemma_find_is(s, i, '"', a);
    lemma_find_is(s, a + 1, '"', b);
    lemma_find_is(s, v + 1, '"', e);
    lemma_skip_blank_is(s, b + 1, c);
    lemma_skip_blank_is(s, c + 1, v);
}

/// A value without quotes is read up to what ends it.
proof fn lemma_walk_bare(s: Seq<char>, i: int, a: int, b: int, c: int, v: int, e: int)
    requires
        0 <= i <= a < b < c < v < e < s.len(),
        no_quote(s, i, a),
        s[a] == '"',
        no_quote(s, a + 1, b),
        s[b] == '"',
        blank_between(s, b + 1, c),
        s[c] == ':',
        blank_between(s, c + 1, v),
        s[v] != '"',
        forall|k: int| v <= k < e ==> !ends_value(#[trigger] s[k]),
        ends_value(s[e]),
    ensures
        walked(s, i) == seq![(s.subrange(a + 1, b), s.subrange(v, e))] + walked(s, e),
{
    lemma_find_is(s, i, '"', a);
    lemma_find_is(s, a + 1, '"', b);
    lemma_skip_blank_is(s, b + 1, c);
    assert(!ends_value(s[v]));
    lemma_skip_blank_is(s, c + 1, v);
    lemma_value_end_is(s, v, e);
}

/// Where the first part of a concatenation stands, and what follows it.
proof fn lemma_peel(s: Seq<char>, i: int, part: Seq<char>, rest: Seq<char>)
    requires
        0 <= i <= s.len(),
        s.skip(i) == part + rest,
    ensures
        i + part.len() + rest.len() == s.len(),
        s.subrange(i, i + part.len()) == part,
        forall|k: int| i <= k < i + part.len() ==> #[trigger] s[k] == part[k - i],
        s.skip(i + part.len()) == rest,
{
    assert((part + rest).len() == s.len() - i);
    assert forall|k: int| i <= k < s.len() implies #[trigger] s[k] == (part + rest)[k - i] by {
        assert(s.skip(i)[k - i] == s[k]);
    }
    assert(s.subrange(i, i + part.len()) =~= part);
    assert(s.skip(i + part.len()) =~= rest);
}

/// The parts of a field, from the first on.
proof fn lemma_field_parts(lead: Seq<char>, f: Field, g: Gaps, rest: Seq<char>)
    ensures
        lead + spaced_field(f, g) + rest == lead + (g.before + ("\""@ + (f.key + ("\""@ + (g.key + (
        ":"@ + (g.colon + (value_text(f) + (g.value + rest))))))))),
{
    broadcast use concat_assoc;

}

proof fn lemma_blank_has_no_quote(s: Seq<char>, from: int, to: int)
    requires
        blank_between(s, from, to),
    ensures
        no_quote(s, from, to),
{
    assert forall|k: int| from <= k < to implies #[trigger] s[k] != '"' by {
        assert(blank(s[k]));
    }
}

/// Where white space that is peeled off stands.
proof fn lemma_peel_blank(s: Seq<char>, i: int, part: Seq<char>, rest: Seq<char>)
    requires
        0 <= i <= s.len(),
        s.skip(i) == part + rest,
        all_blank(part),
    ensures
        i + part.len() + rest.len() == s.len(),
        blank_between(s, i, i + part.len()),
        s.skip(i + part.len()) == rest,
{
    lemma_peel(s, i, part, rest);
    assert forall|k: int| i <= k < i + part.len() implies blank(#[trigger] s[k]) by {
        assert(blank(part[k - i]));
    }
}

/// Where text without quotes that is peeled off stands.
proof fn lemma_peel_text(s: Seq<char>, i: int, part: Seq<char>, rest: Seq<char>)
    requires
        0 <= i <= s.len(),
        s.skip(i) == part + rest,
        !part.contains('"'),
    ensures
        i + part.len() + rest.len() == s.len(),
        s.subrange(i, i + part.len()) == part,
        no_quote(s, i, i + part.len()),
        s.skip(i + part.len()) == rest,
{
    lemma_peel(s, i, part, rest);
    assert forall|k: int| i <= k < i + part.len() implies #[trigger] s[k] != '"' by {
        assert(part.contains(part[k - i]));
    }
}

/// Where a single character that is peeled off stands.
proof fn lemma_peel_char(s: Seq<char>, i: int, part: Seq<char>, c: char, rest: Seq<char>)
    requires
        0 <= i <= s.len(),
        s.skip(i) == part + rest,
        part == seq![c],
    ensures
        i + 1 + rest.len() == s.len(),
        s[i] == c,
        s.skip(i + 1) == rest,
{
    lemma_peel(s, i, part, rest);
    assert(s[i] == part[0]);
}

/// What is read of a value that stands at `v`, and from where reading goes on.
proof fn lemma_walk_value(
    s: Seq<char>,
    i: int,
    a: int,
    b: int,
    c: int,
    v: int,
    f: Field,
    gap: Seq<char>,
    rest: Seq<char>,
)
    requires
        0 <= i <= a < b < c < v <= s.len(),
        no_quote(s, i, a),
        s[a] == '"',
        no_quote(s, a + 1, b),
        s[b] == '"',
        blank_between(s, b + 1, c),
        s[c] == ':',
        blank_between(s, c + 1, v),
        s.subrange(a + 1, b) == f.key,
        s.skip(v) == value_text(f) + (gap + rest),
        readable(f),
        all_blank(gap),
        rest.len() > 0,
        ends_value(rest[0]),
    ensures
        walked(s, i) == seq![(f.key, f.value)] + walked(s, s.len() - rest.len()),
{
    let end = v + value_text(f).len();
    lemma_peel(s, v, value_text(f), gap + rest);
    lemma_peel_blank(s, end, gap, rest);
    lemma_blank_has_no_quote(s, end, end + gap.len());
    lemma_walk_on(s, end, end + gap.len());
    if f.quoted {
        let q = "\""@;
        assert(q == seq!['"']) by {
            reveal_strlit("\"");
        }
        let e = v + 1 + f.value.len();
        assert(s.skip(v) == q + (f.value + (q + (gap + rest)))) by {
            concat_assoc(q + f.value, q, gap + rest);
            concat_assoc(q, f.value, q + (gap + rest));
        }
        lemma_peel_char(s, v, q, '"', f.value + (q + (gap + rest)));
        lemma_peel_text(s, v + 1, f.value, q + (gap + rest));
        lemma_peel_char(s, e, q, '"', gap + rest);
        lemma_walk_quoted(s, i, a, b, c, v, e);
    } else {
        assert(s[v] == f.value[0]);
        assert(s.subrange(v, end) == f.value);
        assert forall|k: int| v <= k < end implies !ends_value(#[trigger] s[k]) by {
            assert(!ends_value(f.value[k - v]));
        }
        assert(ends_value(s[end])) by {
            if gap.len() > 0 {
                assert(blank(s[end]));
            } else {
                assert(s[end] == s.skip(end)[0]);
            }
        }
        lemma_walk_bare(s, i, a, b, c, v, end);
    }
}

proof fn lemma_walk_field(
    s: Seq<char>,
    i: int,
    lead: Seq<char>,
    f: Field,
    g: Gaps,
    rest: Seq<char>,
)
    requires
        0 <= i <= s.len(),
        s.skip(i) == lead + spaced_field(f, g) + rest,
        !lead.contains('"'),
        readable(f),
        g.wf(),
        rest.len() > 0,
        ends_value(rest[0]),
    ensures
        walked(s, i) == seq![(f.key, f.value)] + walked(s, s.len() - rest.len()),
{
    let q = "\""@;
    let col = ":"@;
    assert(q == seq!['"']) by {
        reveal_strlit("\"");
    }
    assert(col == seq![':']) by {
        reveal_strlit(":");
    }
    lemma_field_parts(lead, f, g, rest);
    let r6 = value_text(f) + (g.value + rest);
    let r5 = g.colon + r6;
    let r4 = g.key + (col + r5);
    let r3 = f.key + (q + r4);
    let w = i + lead.len();
    let a = w + g.before.len();
    let b = a + 1 + f.key.len();
    let c = b + 1 + g.key.len();
    let v = c + 1 + g.colon.len();
    lemma_peel_text(s, i, lead, g.before + (q + r3));
    lemma_peel_blank(s, w, g.before, q + r3);
    lemma_blank_has_no_quote(s, w, a);
    lemma_peel_char(s, a, q, '"', r3);
    lemma_peel_text(s, a + 1, f.key, q + r4);
    lemma_peel_char(s, b, q, '"', r4);
    lemma_peel_blank(s, b + 1, g.key, col + r5);
    lemma_peel_char(s, c, col, ':', r5);
    lemma_peel_blank(s, c + 1, g.colon, r6);
    assert(no_quote(s, i, a));
    lemma_walk_value(s, i, a, b, c, v, f, g.value, rest);
}

proof fn lemma_walk_tail(
    s: Seq<char>,
    i: int,
    fs: Seq<Field>,
    gs: Seq<Gaps>,
    behind: Seq<char>,
)
    requires
        0 <= i <= s.len(),
        s.skip(i) == spaced_tail(fs, gs) + ("}"@ + behind),
        fs.len() == gs.len(),
        forall|k: int| 0 <= k < fs.len() ==> readable(#[trigger] fs[k]),
        forall|k: int| 0 <= k < gs.len() ==> (#[trigger] gs[k]).wf(),
        all_blank(behind),
    ensures
        walked(s, i) == field_pairs(fs),
    decreases fs.len(),
{
    reveal_strlit(",");
    reveal_strlit("}");
    if fs.len() == 0 {
        assert(s.skip(i) == "}"@ + behind);
        assert forall|k: int| i <= k < s.len() implies #[trigger] s[k] != '"' by {
            assert(s[k] == s.skip(i)[k - i]);
            if k > i {
                assert(blank(behind[k - i - 1]));
            }
        }
        lemma_find_is(s, i, '"', s.len() as int);
        assert(walked(s, i) == field_pairs(fs));
    } else {
        let rest = spaced_tail(fs.skip(1), gs.skip(1)) + ("}"@ + behind);
        assert(s.skip(i) == ","@ + spaced_field(fs[0], gs[0]) + rest);
        assert(rest[0] == ',' || rest[0] == '}');
        lemma_walk_field(s, i, ","@, fs[0], gs[0], rest);
        let j = s.len() - rest.len();
        assert(s.skip(j) == s.skip(i).skip(j - i));
        assert(s.skip(j) == rest);
        assert forall|k: int| 0 <= k < fs.skip(1).len() implies readable(#[trigger] fs.skip(1)[k]) by {
            assert(fs.skip(1)[k] == fs[k + 1]);
        }
        assert forall|k: int| 0 <= k < gs.skip(1).len() implies (#[trigger] gs.skip(1)[k]).wf() by {
            assert(gs.skip(1)[k] == gs[k + 1]);
        }
        lemma_walk_tail(s, j, fs.skip(1), gs.skip(1), behind);
        assert(field_pairs(fs) == seq![(fs[0].key, fs[0].value)] + field_pairs(fs.skip(1)));
    }
}

/// Reading an object gives its fields, wherever white space stands between its parts.
pub proof fn spaced_objects_are_read(
    fs: Seq<Field>,
    gs: Seq<Gaps>,
    before: Seq<char>,
    behind: Seq<char>,
)
    requires
        fs.len() == gs.len(),
        forall|k: int| 0 <= k < fs.len() ==> readable(#[trigger] fs[k]),
        forall|k: int| 0 <= k < gs.len() ==> (#[trigger] gs[k]).wf(),
        all_blank(before),
        all_blank(behind),
    ensures
        walked(spaced_object(fs, gs, before, behind), 0) == field_pairs(fs),
{
    reveal_strlit("{");
    reveal_strlit("}");
    reveal_strlit(",");
    let s = spaced_object(fs, gs, before, behind);
    let lead = before + "{"@;
    assert forall|k: int| 0 <= k < lead.len() implies #[trigger] lead[k] != '"' by {
        if k < before.len() {
            assert(blank(before[k]));
        }
    }
    if fs.len() == 0 {
        assert(s == lead + ("}"@ + behind));
        lemma_walk_on(s, 0, lead.len() as int);
        assert(s.skip(lead.len() as int) == spaced_tail(fs, gs) + ("}"@ + behind));
        lemma_walk_tail(s, lead.len() as int, fs, gs, behind);
    } else {
        let rest = spaced_tail(fs.skip(1), gs.skip(1)) + ("}"@ + behind);
        assert(s.skip(0) == lead + spaced_field(fs[0], gs[0]) + rest);
        assert(rest[0] == ',' || rest[0] == '}');
        lemma_walk_field(s, 0, lead, fs[0], gs[0], rest);
        let j = s.len() - rest.len();
        assert(s.skip(j) == rest);
        assert forall|k: int| 0 <= k < fs.skip(1).len() implies readable(#[trigger] fs.skip(1)[k]) by {
            assert(fs.skip(1)[k] == fs[k + 1]);
        }
        assert forall|k: int| 0 <= k < gs.skip(1).len() implies (#[trigger] gs.skip(1)[k]).wf() by {
            assert(gs.skip(1)[k] == gs[k + 1]);
        }
        lemma_walk_tail(s, j, fs.skip(1), gs.skip(1), behind);
        assert(field_pairs(fs) == seq![(fs[0].key, fs[0].value)] + field_pairs(fs.skip(1)));
    }
}

proof fn lemma_closed_up(f: Field)
    ensures
        spaced_field(f, Gaps::closed_up()) == field_text(f),
{
    reveal_strlit("\"");
    reveal_strlit(":");
    reveal_strlit("\":");
    reveal_strlit("\":\"");
    assert(spaced_field(f, Gaps::closed_up()) =~= field_text(f));
}

proof fn lemma_closed_up_tail(fs: Seq<Field>, gs: Seq<Gaps>)
    requires
        gs.len() == fs.len(),
        forall|k: int| 0 <= k < gs.len() ==> #[trigger] gs[k] == Gaps::closed_up(),
    ensures
        spaced_tail(fs, gs) == tail_text(fs),
    decreases fs.len(),
{
    if fs.len() > 0 {
        lemma_closed_up(fs[0]);
        assert forall|k: int| 0 <= k < gs.skip(1).len() implies #[trigger] gs.skip(1)[k]
            == Gaps::closed_up() by {
            assert(gs.skip(1)[k] == gs[k + 1]);
        }
        lemma_closed_up_tail(fs.skip(1), gs.skip(1));
    }
}

/// Reading an object gives back the fields that it was written with.
pub proof fn objects_are_read_back(fs: Seq<Field>)
    requires
        forall|k: int| 0 <= k < fs.len() ==> readable(#[trigger] fs[k]),
    ensures
        walked(object_text(fs), 0) == field_pairs(fs),
{
    let gs = Seq::new(fs.len(), |k: int| Gaps::closed_up());
    let none = Seq::<char>::empty();
    assert(object_text(fs) == spaced_object(fs, gs, none, none)) by {
        if fs.len() > 0 {
            lemma_closed_up(fs[0]);
            lemma_closed_up_tail(fs.skip(1), gs.skip(1));
        }
        assert(object_text(fs) =~= spaced_object(fs, gs, none, none));
    }
    spaced_objects_are_read(fs, gs, none, none);
}

} // verus!
