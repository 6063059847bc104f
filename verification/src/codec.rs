//! The persistence codec: the collection as a single JSON array of
//! objects, one per record, in collection order.
//!
//! The writer emits one canonical text per collection, defined by
//! `records_json`, with the JSON escapes for quote, backslash and the
//! control characters. The reader accepts that array shape up to
//! insignificant whitespace between tokens and understands the full set
//! of JSON string escapes, surrogate pairs included, in the id and task
//! strings; the status member must be one of the three plain labels. The
//! reader is proved to be the writer's inverse: parsing a serialized
//! collection gives the collection back, element for element and in
//! order.

use vstd::prelude::*;

use crate::store::views_of;
use crate::todo::{Todo, TodoStatus, TodoView};

verus! {

/// The backing text exists but is not a JSON array of records of the
/// expected shape.
#[derive(Debug, Clone, PartialEq, Eq, Structural)]
pub struct DeserializationError;

// ---------------------------------------------------------------------
// The canonical serialized form.
// ---------------------------------------------------------------------
/// The hexadecimal digit for a value below sixteen, in lower case.
pub open spec fn hex_digit(v: int) -> char {
    if v == 0 {
        '0'
    } else if v == 1 {
        '1'
    } else if v == 2 {
        '2'
    } else if v == 3 {
        '3'
    } else if v == 4 {
        '4'
    } else if v == 5 {
        '5'
    } else if v == 6 {
        '6'
    } else if v == 7 {
        '7'
    } else if v == 8 {
        '8'
    } else if v == 9 {
        '9'
    } else if v == 10 {
        'a'
    } else if v == 11 {
        'b'
    } else if v == 12 {
        'c'
    } else if v == 13 {
        'd'
    } else if v == 14 {
        'e'
    } else {
        'f'
    }
}

/// How one character appears inside a JSON string: quote and backslash
/// get a backslash in front, the named control characters take their
/// short escapes, the remaining control characters a `\u00XX` escape,
/// and everything else stands as itself.
pub open spec fn escape_char(c: char) -> Seq<char> {
    if c == '"' || c == '\\' {
        seq!['\\', c]
    } else if c as u32 == 8 {
        seq!['\\', 'b']
    } else if c as u32 == 9 {
        seq!['\\', 't']
    } else if c as u32 == 10 {
        seq!['\\', 'n']
    } else if c as u32 == 12 {
        seq!['\\', 'f']
    } else if c as u32 == 13 {
        seq!['\\', 'r']
    } else if (c as u32) < 32 {
        seq!['\\', 'u', '0', '0', hex_digit(c as u32 as int / 16), hex_digit(c as u32 as int % 16)]
    } else {
        seq![c]
    }
}

/// A whole string escaped, character by character.
pub open spec fn escape_string(s: Seq<char>) -> Seq<char>
    decreases s.len(),
{
    if s.len() == 0 {
        Seq::empty()
    } else {
        escape_char(s[0]) + escape_string(s.skip(1))
    }
}

/// The status member's value, quotes included.
pub open spec fn status_lit(s: TodoStatus) -> Seq<char> {
    match s {
        TodoStatus::Completed => "\"Completed\""@,
        TodoStatus::Pending => "\"Pending\""@,
        TodoStatus::InProgress => "\"InProgress\""@,
    }
}

/// One record as a JSON object.
pub open spec fn record_json(t: TodoView) -> Seq<char> {
    seq!['{'] + "\"id\""@ + seq![':'] + seq!['"'] + escape_string(t.id) + seq!['"'] + seq![',']
        + "\"task\""@ + seq![':'] + seq!['"'] + escape_string(t.task) + seq!['"'] + seq![',']
        + "\"status\""@ + seq![':'] + status_lit(t.status) + seq!['}']
}

/// The records joined with commas.
pub open spec fn records_json_items(s: Seq<TodoView>) -> Seq<char>
    decreases s.len(),
{
    if s.len() == 0 {
        Seq::empty()
    } else if s.len() == 1 {
        record_json(s[0])
    } else {
        record_json(s[0]) + seq![','] + records_json_items(s.skip(1))
    }
}

/// The whole collection as a JSON array.
pub open spec fn records_json(s: Seq<TodoView>) -> Seq<char> {
    seq!['['] + records_json_items(s) + seq![']']
}

// ---------------------------------------------------------------------
// The writer.
// ---------------------------------------------------------------------
/// Relies on String::push: appends exactly the one character.
#[verifier::external_body]
fn push_char(s: &mut String, c: char)
    ensures
        final(s)@ == old(s)@.push(c),
{
    s.push(c);
}

/// The hexadecimal digit character for a value below sixteen.
fn hex_digit_char(v: u32) -> (c: char)
    requires
        v < 16,
    ensures
        c == hex_digit(v as int),
{
    if v == 0 {
        '0'
    } else if v == 1 {
        '1'
    } else if v == 2 {
        '2'
    } else if v == 3 {
        '3'
    } else if v == 4 {
        '4'
    } else if v == 5 {
        '5'
    } else if v == 6 {
        '6'
    } else if v == 7 {
        '7'
    } else if v == 8 {
        '8'
    } else if v == 9 {
        '9'
    } else if v == 10 {
        'a'
    } else if v == 11 {
        'b'
    } else if v == 12 {
        'c'
    } else if v == 13 {
        'd'
    } else if v == 14 {
        'e'
    } else {
        'f'
    }
}

/// Escaping a string extended by one character appends that
/// character's escape.
proof fn lemma_escape_snoc(s: Seq<char>, c: char)
    ensures
        escape_string(s.push(c)) == escape_string(s) + escape_char(c),
    decreases s.len(),
{
    if s.len() == 0 {
        assert(s.push(c) =~= seq![c]);
        assert(s.push(c).skip(1) =~= Seq::<char>::empty());
        assert(escape_string(Seq::<char>::empty()) == Seq::<char>::empty());
        assert(escape_string(s.push(c)) =~= escape_string(s) + escape_char(c));
    } else {
        assert(s.push(c).skip(1) =~= s.skip(1).push(c));
        lemma_escape_snoc(s.skip(1), c);
        assert(escape_string(s.push(c)) == escape_char(s[0]) + escape_string(s.skip(1).push(c)));
        assert(escape_string(s.push(c)) =~= escape_string(s) + escape_char(c));
    }
}

/// Serializing a collection extended by one record appends that
/// record, behind a comma unless it is the first.
proof fn lemma_items_snoc(s: Seq<TodoView>, t: TodoView)
    ensures
        s.len() == 0 ==> records_json_items(s.push(t)) == record_json(t),
        s.len() > 0 ==> records_json_items(s.push(t)) == records_json_items(s) + seq![',']
            + record_json(t),
    decreases s.len(),
{
    if s.len() == 0 {
        assert(s.push(t).len() == 1);
        assert(s.push(t)[0] == t);
    } else if s.len() == 1 {
        assert(s.push(t).skip(1) =~= s.skip(1).push(t));
        assert(s.skip(1).len() == 0);
        lemma_items_snoc(s.skip(1), t);
        assert(s.push(t)[0] == s[0]);
        assert(records_json_items(s.push(t)) =~= records_json_items(s) + seq![','] + record_json(
            t,
        ));
    } else {
        assert(s.push(t).skip(1) =~= s.skip(1).push(t));
        lemma_items_snoc(s.skip(1), t);
        assert(s.push(t)[0] == s[0]);
        assert(records_json_items(s.push(t)) == record_json(s[0]) + seq![','] + records_json_items(
            s.skip(1).push(t),
        ));
        assert(records_json_items(s.push(t)) =~= records_json_items(s) + seq![','] + record_json(
            t,
        ));
    }
}

/// Appends the escaped form of `s` to `out`.
fn append_escaped(out: &mut String, s: &str)
    ensures
        final(out)@ == old(out)@ + escape_string(s@),
{
    let n = s.unicode_len();
    let mut i: usize = 0;
    while i < n
        invariant
            0 <= i <= n == s@.len(),
            out@ == old(out)@ + escape_string(s@.take(i as int)),
        decreases n - i,
    {
        let c = s.get_char(i);
        proof {
            assert(s@.take(i + 1) =~= s@.take(i as int).push(s@[i as int]));
            lemma_escape_snoc(s@.take(i as int), s@[i as int]);
        }
        let u = c as u32;
        if c == '"' || c == '\\' {
            push_char(out, '\\');
            push_char(out, c);
        } else if u == 8 {
            push_char(out, '\\');
            push_char(out, 'b');
        } else if u == 9 {
            push_char(out, '\\');
            push_char(out, 't');
        } else if u == 10 {
            push_char(out, '\\');
            push_char(out, 'n');
        } else if u == 12 {
            push_char(out, '\\');
            push_char(out, 'f');
        } else if u == 13 {
            push_char(out, '\\');
            push_char(out, 'r');
        } else if u < 32 {
            push_char(out, '\\');
            push_char(out, 'u');
            push_char(out, '0');
            push_char(out, '0');
            push_char(out, hex_digit_char(u / 16));
            push_char(out, hex_digit_char(u % 16));
        } else {
            push_char(out, c);
        }
        proof {
            assert(out@ =~= old(out)@ + escape_string(s@.take(i + 1)));
        }
        i += 1;
    }
    proof {
        assert(s@.take(n as int) =~= s@);
    }
}

/// Appends one record's JSON object to `out`.
fn append_record(out: &mut String, t: &Todo)
    ensures
        final(out)@ == old(out)@ + record_json(t@),
{
    push_char(out, '{');
    out.append("\"id\"");
    push_char(out, ':');
    push_char(out, '"');
    append_escaped(out, t.id.as_str());
    push_char(out, '"');
    push_char(out, ',');
    out.append("\"task\"");
    push_char(out, ':');
    push_char(out, '"');
    append_escaped(out, t.task.as_str());
    push_char(out, '"');
    push_char(out, ',');
    out.append("\"status\"");
    push_char(out, ':');
    match t.status {
        TodoStatus::Completed => out.append("\"Completed\""),
        TodoStatus::Pending => out.append("\"Pending\""),
        TodoStatus::InProgress => out.append("\"InProgress\""),
    }
    push_char(out, '}');
    proof {
        assert(out@ =~= old(out)@ + record_json(t@));
    }
}

/// Serializes the whole collection to its canonical JSON array.
pub fn serialize_todos(todos: &Vec<Todo>) -> (r: String)
    ensures
        r@ == records_json(views_of(todos@)),
{
    let mut out = String::new();
    push_char(&mut out, '[');
    let n = todos.len();
    let mut i: usize = 0;
    while i < n
        invariant
            0 <= i <= n == todos@.len(),
            out@ == seq!['['] + records_json_items(views_of(todos@).take(i as int)),
        decreases n - i,
    {
        if i > 0 {
            push_char(&mut out, ',');
        }
        append_record(&mut out, &todos[i]);
        proof {
            assert(views_of(todos@).take(i + 1) =~= views_of(todos@).take(i as int).push(
                views_of(todos@)[i as int],
            ));
            lemma_items_snoc(views_of(todos@).take(i as int), views_of(todos@)[i as int]);
            assert(out@ =~= seq!['['] + records_json_items(views_of(todos@).take(i + 1)));
        }
        i += 1;
    }
    push_char(&mut out, ']');
    proof {
        assert(views_of(todos@).take(n as int) =~= views_of(todos@));
        assert(out@ =~= records_json(views_of(todos@)));
    }
    out
}

// ---------------------------------------------------------------------
// The reader's meaning: a total parse function over the input text.
// The executable reader returns exactly what these functions say.
// ---------------------------------------------------------------------
/// JSON insignificant whitespace.
pub open spec fn is_ws(c: char) -> bool {
    c == ' ' || c == '\t' || c == '\n' || c == '\r'
}

/// The first position at or after `i` that does not hold whitespace.
pub open spec fn skip_ws(s: Seq<char>, i: int) -> int
    decreases s.len() - i,
{
    if 0 <= i < s.len() && is_ws(s[i]) {
        skip_ws(s, i + 1)
    } else {
        i
    }
}

/// The text at position `i` begins with `p`.
pub open spec fn starts_with(s: Seq<char>, i: int, p: Seq<char>) -> bool {
    0 <= i && i + p.len() <= s.len() && s.subrange(i, i + p.len()) == p
}

/// The value of a hexadecimal digit character, or a negative number.
pub open spec fn hex_val(c: char) -> int {
    let u = c as u32;
    if 0x30 <= u <= 0x39 {
        u - 0x30
    } else if 0x61 <= u <= 0x66 {
        u - 0x61 + 10
    } else if 0x41 <= u <= 0x46 {
        u - 0x41 + 10
    } else {
        -1
    }
}

/// Four hexadecimal digits stand at `i`.
pub open spec fn hex4_ok(s: Seq<char>, i: int) -> bool {
    hex_val(s[i]) >= 0 && hex_val(s[i + 1]) >= 0 && hex_val(s[i + 2]) >= 0 && hex_val(s[i + 3])
        >= 0
}

/// The value of the four hexadecimal digits at `i`.
pub open spec fn hex4_val(s: Seq<char>, i: int) -> int {
    hex_val(s[i]) * 4096 + hex_val(s[i + 1]) * 256 + hex_val(s[i + 2]) * 16 + hex_val(s[i + 3])
}

/// The control character named by a short escape letter.
pub open spec fn ctrl_of(d: char) -> char {
    if d == 'b' {
        '\u{0008}'
    } else if d == 'f' {
        '\u{000C}'
    } else if d == 'n' {
        '\n'
    } else if d == 'r' {
        '\r'
    } else {
        '\t'
    }
}

/// Reads a string body from just after its opening quote up to and over
/// its closing quote. It understands the JSON escapes: the three
/// punctuation escapes, the five short control escapes, and `\uXXXX`
/// with a surrogate pair for characters beyond the basic plane. Yields
/// the decoded body and the position after the closing quote.
pub open spec fn parse_string_spec(s: Seq<char>, i: int) -> Option<(Seq<char>, int)>
    decreases s.len() - i,
{
    if i < 0 || i >= s.len() {
        None
    } else if s[i] == '"' {
        Some((Seq::empty(), i + 1))
    } else if s[i] == '\\' {
        if i + 2 > s.len() {
            None
        } else {
            let d = s[i + 1];
            if d == '"' || d == '\\' || d == '/' {
                match parse_string_spec(s, i + 2) {
                    Some((b, j)) => Some((seq![d] + b, j)),
                    None => None,
                }
            } else if d == 'b' || d == 'f' || d == 'n' || d == 'r' || d == 't' {
                match parse_string_spec(s, i + 2) {
                    Some((b, j)) => Some((seq![ctrl_of(d)] + b, j)),
                    None => None,
                }
            } else if d == 'u' {
                if i + 6 <= s.len() && hex4_ok(s, i + 2) {
                    let v = hex4_val(s, i + 2);
                    if 0xD800 <= v < 0xDC00 {
                        if i + 12 <= s.len() && s[i + 6] == '\\' && s[i + 7] == 'u' && hex4_ok(
                            s,
                            i + 8,
                        ) {
                            let w = hex4_val(s, i + 8);
                            if 0xDC00 <= w < 0xE000 {
                                let cp = 0x10000 + (v - 0xD800) * 1024 + (w - 0xDC00);
                                match parse_string_spec(s, i + 12) {
                                    Some((b, j)) => Some((seq![(cp as u32) as char] + b, j)),
                                    None => None,
                                }
                            } else {
                                None
                            }
                        } else {
                            None
                        }
                    } else if 0xDC00 <= v < 0xE000 {
                        None
                    } else {
                        match parse_string_spec(s, i + 6) {
                            Some((b, j)) => Some((seq![(v as u32) as char] + b, j)),
                            None => None,
                        }
                    }
                } else {
                    None
                }
            } else {
                None
            }
        }
    } else {
        match parse_string_spec(s, i + 1) {
            Some((b, j)) => Some((seq![s[i]] + b, j)),
            None => None,
        }
    }
}

/// Reads one record object starting at its opening brace, whitespace
/// allowed between tokens. Yields the record and the position after its
/// closing brace.
pub open spec fn parse_record_spec(s: Seq<char>, i: int) -> Option<(TodoView, int)> {
    if !(0 <= i < s.len() && s[i] == '{') {
        None
    } else {
        let i1 = skip_ws(s, i + 1);
        if !starts_with(s, i1, "\"id\""@) {
            None
        } else {
            let i2 = skip_ws(s, i1 + "\"id\""@.len());
            if !(i2 < s.len() && s[i2] == ':') {
                None
            } else {
                let i3 = skip_ws(s, i2 + 1);
                if !(i3 < s.len() && s[i3] == '"') {
                    None
                } else {
                    match parse_string_spec(s, i3 + 1) {
                        None => None,
                        Some((idv, i4)) => {
                            let i5 = skip_ws(s, i4);
                            if !(i5 < s.len() && s[i5] == ',') {
                                None
                            } else {
                                let i6 = skip_ws(s, i5 + 1);
                                if !starts_with(s, i6, "\"task\""@) {
                                    None
                                } else {
                                    let i7 = skip_ws(s, i6 + "\"task\""@.len());
                                    if !(i7 < s.len() && s[i7] == ':') {
                                        None
                                    } else {
                                        let i8 = skip_ws(s, i7 + 1);
                                        if !(i8 < s.len() && s[i8] == '"') {
                                            None
                                        } else {
                                            match parse_string_spec(s, i8 + 1) {
                                                None => None,
                                                Some((taskv, i9)) => parse_record_tail_spec(
                                                    s,
                                                    i9,
                                                    idv,
                                                    taskv,
                                                ),
                                            }
                                        }
                                    }
                                }
                            }
                        },
                    }
                }
            }
        }
    }
}

/// Reads a record's status member and closing brace, after the task
/// string.
pub open spec fn parse_record_tail_spec(s: Seq<char>, i9: int, idv: Seq<char>, taskv: Seq<char>) -> Option<
    (TodoView, int),
> {
    let i10 = skip_ws(s, i9);
    if !(i10 < s.len() && s[i10] == ',') {
        None
    } else {
        let i11 = skip_ws(s, i10 + 1);
        if !starts_with(s, i11, "\"status\""@) {
            None
        } else {
            let i12 = skip_ws(s, i11 + "\"status\""@.len());
            if !(i12 < s.len() && s[i12] == ':') {
                None
            } else {
                let i13 = skip_ws(s, i12 + 1);
                let st: Option<(TodoStatus, int)> = if starts_with(s, i13, "\"Completed\""@) {
                    Some((TodoStatus::Completed, i13 + "\"Completed\""@.len()))
                } else if starts_with(s, i13, "\"Pending\""@) {
                    Some((TodoStatus::Pending, i13 + "\"Pending\""@.len()))
                } else if starts_with(s, i13, "\"InProgress\""@) {
                    Some((TodoStatus::InProgress, i13 + "\"InProgress\""@.len()))
                } else {
                    None
                };
                match st {
                    None => None,
                    Some((status, i14)) => {
                        let i15 = skip_ws(s, i14);
                        if i15 < s.len() && s[i15] == '}' {
                            Some((TodoView { id: idv, task: taskv, status }, i15 + 1))
                        } else {
                            None
                        }
                    },
                }
            }
        }
    }
}

/// Reads a non-empty comma-separated run of records and the closing
/// bracket of the array, whitespace allowed between tokens. Yields the
/// records and the position after the bracket. `fuel` only bounds the
/// recursion; any value at least the number of records suffices.
pub open spec fn parse_items_spec(s: Seq<char>, i: int, fuel: nat) -> Option<(Seq<TodoView>, int)>
    decreases fuel,
{
    match parse_record_spec(s, i) {
        None => None,
        Some((t, j)) => {
            let j1 = skip_ws(s, j);
            if 0 <= j1 < s.len() && s[j1] == ',' {
                if fuel == 0 {
                    None
                } else {
                    match parse_items_spec(s, skip_ws(s, j1 + 1), (fuel - 1) as nat) {
                        Some((ts, k)) => Some((seq![t] + ts, k)),
                        None => None,
                    }
                }
            } else if 0 <= j1 < s.len() && s[j1] == ']' {
                Some((seq![t], j1 + 1))
            } else {
                None
            }
        },
    }
}

/// What a whole backing text means: the collection whose JSON array it
/// is, up to insignificant whitespace, or nothing. The text must be
/// consumed in full.
pub open spec fn parse_json_spec(s: Seq<char>) -> Option<Seq<TodoView>> {
    let i0 = skip_ws(s, 0);
    if !(0 <= i0 < s.len() && s[i0] == '[') {
        None
    } else {
        let i1 = skip_ws(s, i0 + 1);
        if 0 <= i1 < s.len() && s[i1] == ']' {
            if skip_ws(s, i1 + 1) == s.len() {
                Some(Seq::empty())
            } else {
                None
            }
        } else {
            match parse_items_spec(s, i1, s.len() as nat) {
                Some((ts, j)) => if skip_ws(s, j) == s.len() {
                    Some(ts)
                } else {
                    None
                },
                None => None,
            }
        }
    }
}

// ---------------------------------------------------------------------
// The reader is the writer's inverse.
// ---------------------------------------------------------------------
/// A text that continues with `p` at position `i` starts with `p` there,
/// and continues with the remainder after it.
proof fn lemma_skip_concat(s: Seq<char>, i: int, p: Seq<char>, rest: Seq<char>)
    requires
        0 <= i <= s.len(),
        s.skip(i) == p + rest,
    ensures
        starts_with(s, i, p),
        i + p.len() <= s.len(),
        s.skip(i + p.len()) == rest,
        p.len() > 0 ==> i < s.len() && s[i] == p[0],
{
    broadcast use vstd::seq_lib::lemma_seq_skip_of_skip;
    broadcast use vstd::seq_lib::lemma_seq_append_take_skip;
    broadcast use vstd::seq_lib::lemma_seq_skip_index;

    assert(s.skip(i).len() == s.len() - i);
    assert((p + rest).take(p.len() as int) =~= p);
    assert((p + rest).skip(p.len() as int) =~= rest);
    assert(s.skip(i).take(p.len() as int) =~= s.subrange(i, i + p.len()));
    assert(s.skip(i).skip(p.len() as int) =~= s.skip(i + p.len()));
    if p.len() > 0 {
        assert(s[i] == s.skip(i)[0]);
    }
}

/// Skipping whitespace at the end of the text, or at a character that is
/// not whitespace, stays in place.
proof fn lemma_ws_stop(s: Seq<char>, i: int)
    requires
        0 <= i <= s.len(),
        i == s.len() || !is_ws(s[i]),
    ensures
        skip_ws(s, i) == i,
{
}

/// A hexadecimal digit character reads back as its value.
proof fn lemma_hex_round(d: int)
    requires
        0 <= d < 16,
    ensures
        hex_val(hex_digit(d)) == d,
{
}

/// Reading an escaped string body followed by its closing quote yields
/// exactly that body, ending just after the quote.
proof fn lemma_parse_string_canonical(s: Seq<char>, i: int, b: Seq<char>, rest: Seq<char>)
    requires
        0 <= i <= s.len(),
        s.skip(i) == escape_string(b) + seq!['"'] + rest,
    ensures
        parse_string_spec(s, i) == Some((b, i + escape_string(b).len() + 1)),
    decreases b.len(),
{
    broadcast use vstd::seq_lib::lemma_seq_skip_of_skip;
    broadcast use vstd::seq_lib::lemma_seq_append_take_skip;
    broadcast use vstd::seq_lib::lemma_seq_skip_index;

    let e = escape_string(b);
    assert(s.skip(i).len() == s.len() - i);
    assert(forall|m: int| 0 <= m < s.skip(i).len() ==> #[trigger] s.skip(i)[m] == s[i + m]);
    if b.len() == 0 {
        assert(e =~= Seq::<char>::empty());
        assert(s.skip(i) =~= seq!['"'] + rest);
        assert(s[i] == s.skip(i)[0]);
        assert(s[i] == '"');
    } else {
        let c = b[0];
        let b1 = b.skip(1);
        let e1 = escape_string(b1);
        let ec = escape_char(c);
        assert(e == ec + e1);
        let step = ec.len();
        assert(s.skip(i) =~= ec + (e1 + seq!['"'] + rest));
        assert((ec + (e1 + seq!['"'] + rest)).skip(step as int) =~= e1 + seq!['"'] + rest);
        assert(s.skip(i).skip(step as int) =~= s.skip(i + step));
        assert(s.skip(i + step) == e1 + seq!['"'] + rest);
        assert(i + step <= s.len());
        if c == '"' || c == '\\' {
            assert(ec =~= seq!['\\', c]);
            assert(s[i] == s.skip(i)[0] && s.skip(i)[0] == '\\');
            assert(s[i + 1] == s.skip(i)[1] && s.skip(i)[1] == c);
            lemma_parse_string_canonical(s, i + 2, b1, rest);
            assert(seq![s[i + 1]] + b1 =~= b);
        } else if c as u32 == 8 || c as u32 == 9 || c as u32 == 10 || c as u32 == 12 || c as u32
            == 13 {
            let d = ec[1];
            assert(s[i] == s.skip(i)[0] && s.skip(i)[0] == '\\');
            assert(s[i + 1] == s.skip(i)[1] && s.skip(i)[1] == d);
            if c as u32 == 8 {
                vstd::utf8::char_u32_cast(c, 8);
                vstd::utf8::char_u32_cast('\u{0008}', 8);
                assert(ctrl_of(d) == c);
            } else if c as u32 == 9 {
                vstd::utf8::char_u32_cast(c, 9);
                vstd::utf8::char_u32_cast('\t', 9);
                assert(ctrl_of(d) == c);
            } else if c as u32 == 10 {
                vstd::utf8::char_u32_cast(c, 10);
                vstd::utf8::char_u32_cast('\n', 10);
                assert(ctrl_of(d) == c);
            } else if c as u32 == 12 {
                vstd::utf8::char_u32_cast(c, 12);
                vstd::utf8::char_u32_cast('\u{000C}', 12);
                assert(ctrl_of(d) == c);
            } else {
                vstd::utf8::char_u32_cast(c, 13);
                vstd::utf8::char_u32_cast('\r', 13);
                assert(ctrl_of(d) == c);
            }
            lemma_parse_string_canonical(s, i + 2, b1, rest);
            assert(seq![ctrl_of(d)] + b1 =~= b);
        } else if (c as u32) < 32 {
            let hi = c as u32 as int / 16;
            let lo = c as u32 as int % 16;
            assert(ec =~= seq!['\\', 'u', '0', '0', hex_digit(hi), hex_digit(lo)]);
            assert(s[i] == s.skip(i)[0] && s.skip(i)[0] == '\\');
            assert(s[i + 1] == s.skip(i)[1] && s.skip(i)[1] == 'u');
            assert(s[i + 2] == s.skip(i)[2] && s.skip(i)[2] == '0');
            assert(s[i + 3] == s.skip(i)[3] && s.skip(i)[3] == '0');
            assert(s[i + 4] == s.skip(i)[4] && s.skip(i)[4] == hex_digit(hi));
            assert(s[i + 5] == s.skip(i)[5] && s.skip(i)[5] == hex_digit(lo));
            lemma_hex_round(0);
            lemma_hex_round(hi);
            lemma_hex_round(lo);
            assert(hex_val('0') == 0);
            assert(hex4_ok(s, i + 2));
            assert(hex4_val(s, i + 2) == hi * 16 + lo);
            assert(hi * 16 + lo == c as u32) by {
                assert(c as u32 as int == (c as u32 as int / 16) * 16 + (c as u32 as int % 16));
            }
            let v = hex4_val(s, i + 2);
            assert(v < 0xD800);
            vstd::utf8::char_u32_cast(c, v as u32);
            assert((v as u32) as char == c);
            lemma_parse_string_canonical(s, i + 6, b1, rest);
            assert(seq![(v as u32) as char] + b1 =~= b);
        } else {
            assert(ec =~= seq![c]);
            assert(s[i] == s.skip(i)[0] && s.skip(i)[0] == c);
            lemma_parse_string_canonical(s, i + 1, b1, rest);
            assert(seq![s[i]] + b1 =~= b);
        }
    }
}

/// Reading a canonically serialized record yields exactly that record,
/// ending just after its closing brace.
#[verifier::rlimit(100)]
proof fn lemma_parse_record_canonical(s: Seq<char>, i: int, t: TodoView, rest: Seq<char>)
    requires
        0 <= i <= s.len(),
        s.skip(i) == record_json(t) + rest,
    ensures
        parse_record_spec(s, i) == Some((t, i + record_json(t).len())),
{
    broadcast use vstd::seq_lib::lemma_seq_skip_index;

    reveal_strlit("\"id\"");
    reveal_strlit("\"task\"");
    reveal_strlit("\"status\"");
    reveal_strlit("\"Completed\"");
    reveal_strlit("\"Pending\"");
    reveal_strlit("\"InProgress\"");
    let e_id = escape_string(t.id);
    let e_task = escape_string(t.task);
    let sl = status_lit(t.status);
    let r1 = "\"id\""@ + (seq![':'] + (seq!['"'] + (e_id + seq!['"'] + (seq![','] + ("\"task\""@
        + (seq![':'] + (seq!['"'] + (e_task + seq!['"'] + (seq![','] + ("\"status\""@ + (seq![':']
        + (sl + (seq!['}'] + rest)))))))))))));
    assert(s.skip(i) =~= seq!['{'] + r1);
    lemma_skip_concat(s, i, seq!['{'], r1);
    let i1 = i + 1;
    lemma_skip_concat(
        s,
        i1,
        "\"id\""@,
        seq![':'] + (seq!['"'] + (e_id + seq!['"'] + (seq![','] + ("\"task\""@ + (seq![':'] + (
        seq!['"'] + (e_task + seq!['"'] + (seq![','] + ("\"status\""@ + (seq![':'] + (sl + (
        seq!['}'] + rest)))))))))))),
    );
    lemma_ws_stop(s, i1);
    let i2 = i1 + 4;
    lemma_skip_concat(
        s,
        i2,
        seq![':'],
        seq!['"'] + (e_id + seq!['"'] + (seq![','] + ("\"task\""@ + (seq![':'] + (seq!['"'] + (
        e_task + seq!['"'] + (seq![','] + ("\"status\""@ + (seq![':'] + (sl + (seq!['}']
            + rest))))))))))),
    );
    lemma_ws_stop(s, i2);
    let i3 = i2 + 1;
    lemma_skip_concat(
        s,
        i3,
        seq!['"'],
        e_id + seq!['"'] + (seq![','] + ("\"task\""@ + (seq![':'] + (seq!['"'] + (e_task
            + seq!['"'] + (seq![','] + ("\"status\""@ + (seq![':'] + (sl + (seq!['}']
            + rest)))))))))),
    );
    lemma_ws_stop(s, i3);
    lemma_parse_string_canonical(
        s,
        i3 + 1,
        t.id,
        seq![','] + ("\"task\""@ + (seq![':'] + (seq!['"'] + (e_task + seq!['"'] + (seq![','] + (
        "\"status\""@ + (seq![':'] + (sl + (seq!['}'] + rest))))))))),
    );
    assert(s.skip(i3 + 1) =~= (e_id + seq!['"']) + (seq![','] + ("\"task\""@ + (seq![':'] + (
    seq!['"'] + (e_task + seq!['"'] + (seq![','] + ("\"status\""@ + (seq![':'] + (sl + (seq!['}']
        + rest)))))))))));
    lemma_skip_concat(
        s,
        i3 + 1,
        e_id + seq!['"'],
        seq![','] + ("\"task\""@ + (seq![':'] + (seq!['"'] + (e_task + seq!['"'] + (seq![','] + (
        "\"status\""@ + (seq![':'] + (sl + (seq!['}'] + rest))))))))),
    );
    let i4 = i3 + 1 + e_id.len() + 1;
    lemma_skip_concat(
        s,
        i4,
        seq![','],
        "\"task\""@ + (seq![':'] + (seq!['"'] + (e_task + seq!['"'] + (seq![','] + ("\"status\""@
            + (seq![':'] + (sl + (seq!['}'] + rest)))))))),
    );
    lemma_ws_stop(s, i4);
    let i5 = i4 + 1;
    lemma_skip_concat(
        s,
        i5,
        "\"task\""@,
        seq![':'] + (seq!['"'] + (e_task + seq!['"'] + (seq![','] + ("\"status\""@ + (seq![':'] + (
        sl + (seq!['}'] + rest))))))),
    );
    lemma_ws_stop(s, i5);
    let i6 = i5 + 6;
    lemma_skip_concat(
        s,
        i6,
        seq![':'],
        seq!['"'] + (e_task + seq!['"'] + (seq![','] + ("\"status\""@ + (seq![':'] + (sl + (
        seq!['}'] + rest)))))),
    );
    lemma_ws_stop(s, i6);
    let i7 = i6 + 1;
    lemma_skip_concat(
        s,
        i7,
        seq!['"'],
        e_task + seq!['"'] + (seq![','] + ("\"status\""@ + (seq![':'] + (sl + (seq!['}']
            + rest))))),
    );
    lemma_ws_stop(s, i7);
    lemma_parse_string_canonical(
        s,
        i7 + 1,
        t.task,
        seq![','] + ("\"status\""@ + (seq![':'] + (sl + (seq!['}'] + rest)))),
    );
    assert(s.skip(i7 + 1) =~= (e_task + seq!['"']) + (seq![','] + ("\"status\""@ + (seq![':'] + (sl
        + (seq!['}'] + rest))))));
    lemma_skip_concat(
        s,
        i7 + 1,
        e_task + seq!['"'],
        seq![','] + ("\"status\""@ + (seq![':'] + (sl + (seq!['}'] + rest)))),
    );
    let i8 = i7 + 1 + e_task.len() + 1;
    lemma_skip_concat(s, i8, seq![','], "\"status\""@ + (seq![':'] + (sl + (seq!['}'] + rest))));
    lemma_ws_stop(s, i8);
    let i9 = i8 + 1;
    lemma_skip_concat(s, i9, "\"status\""@, seq![':'] + (sl + (seq!['}'] + rest)));
    lemma_ws_stop(s, i9);
    let i10 = i9 + 8;
    lemma_skip_concat(s, i10, seq![':'], sl + (seq!['}'] + rest));
    lemma_ws_stop(s, i10);
    let i11 = i10 + 1;
    lemma_skip_concat(s, i11, sl, seq!['}'] + rest);
    lemma_ws_stop(s, i11);
    assert(s.skip(i11)[1] == s[i11 + 1]);
    assert(s.skip(i11)[1] == (sl + (seq!['}'] + rest))[1]);
    assert((sl + (seq!['}'] + rest))[1] == sl[1]);
    match t.status {
        TodoStatus::Completed => {
            assert(starts_with(s, i11, "\"Completed\""@));
        },
        TodoStatus::Pending => {
            assert(s[i11 + 1] == 'P');
            assert(!starts_with(s, i11, "\"Completed\""@)) by {
                if starts_with(s, i11, "\"Completed\""@) {
                    assert(s.subrange(i11, i11 + "\"Completed\""@.len())[1] == s[i11 + 1]);
                    assert(s.subrange(i11, i11 + "\"Completed\""@.len())[1] == 'C');
                }
            }
            assert(starts_with(s, i11, "\"Pending\""@));
        },
        TodoStatus::InProgress => {
            assert(s[i11 + 1] == 'I');
            assert(!starts_with(s, i11, "\"Completed\""@)) by {
                if starts_with(s, i11, "\"Completed\""@) {
                    assert(s.subrange(i11, i11 + "\"Completed\""@.len())[1] == s[i11 + 1]);
                    assert(s.subrange(i11, i11 + "\"Completed\""@.len())[1] == 'C');
                }
            }
            assert(!starts_with(s, i11, "\"Pending\""@)) by {
                if starts_with(s, i11, "\"Pending\""@) {
                    assert(s.subrange(i11, i11 + "\"Pending\""@.len())[1] == s[i11 + 1]);
                    assert(s.subrange(i11, i11 + "\"Pending\""@.len())[1] == 'P');
                }
            }
            assert(starts_with(s, i11, "\"InProgress\""@));
        },
    }
    let i12 = i11 + sl.len();
    lemma_skip_concat(s, i12, seq!['}'], rest);
    lemma_ws_stop(s, i12);
    assert(record_json(t).len() == 1 + 4 + 1 + 1 + e_id.len() + 1 + 1 + 6 + 1 + 1 + e_task.len()
        + 1 + 1 + 8 + 1 + sl.len() + 1);
    assert(parse_record_spec(s, i) == Some(
        (TodoView { id: t.id, task: t.task, status: t.status }, i + record_json(t).len()),
    ));
    assert(TodoView { id: t.id, task: t.task, status: t.status } == t);
}

/// A serialized collection is at least as long as the collection.
proof fn lemma_items_len(ts: Seq<TodoView>)
    requires
        ts.len() >= 1,
    ensures
        records_json_items(ts).len() >= ts.len(),
    decreases ts.len(),
{
    assert(record_json(ts[0]).len() >= 1);
    if ts.len() > 1 {
        lemma_items_len(ts.skip(1));
    }
}

/// Reading a canonically serialized run of records followed by the
/// closing bracket yields exactly those records, ending after the
/// bracket.
proof fn lemma_parse_items_canonical(
    s: Seq<char>,
    i: int,
    ts: Seq<TodoView>,
    rest: Seq<char>,
    fuel: nat,
)
    requires
        ts.len() >= 1,
        0 <= i <= s.len(),
        s.skip(i) == records_json_items(ts) + seq![']'] + rest,
        fuel >= ts.len(),
    ensures
        parse_items_spec(s, i, fuel) == Some((ts, i + records_json_items(ts).len() + 1)),
    decreases ts.len(),
{
    if ts.len() == 1 {
        assert(records_json_items(ts) == record_json(ts[0]));
        assert(s.skip(i) =~= record_json(ts[0]) + (seq![']'] + rest));
        lemma_parse_record_canonical(s, i, ts[0], seq![']'] + rest);
        lemma_skip_concat(s, i, record_json(ts[0]), seq![']'] + rest);
        let j = i + record_json(ts[0]).len();
        lemma_skip_concat(s, j, seq![']'], rest);
        assert(s[j] == ']');
        lemma_ws_stop(s, j);
        assert(seq![ts[0]] =~= ts);
    } else {
        let items1 = records_json_items(ts.skip(1));
        assert(records_json_items(ts) == record_json(ts[0]) + seq![','] + items1);
        assert(s.skip(i) =~= record_json(ts[0]) + (seq![','] + (items1 + seq![']'] + rest)));
        lemma_parse_record_canonical(s, i, ts[0], seq![','] + (items1 + seq![']'] + rest));
        lemma_skip_concat(s, i, record_json(ts[0]), seq![','] + (items1 + seq![']'] + rest));
        let j = i + record_json(ts[0]).len();
        lemma_skip_concat(s, j, seq![','], items1 + seq![']'] + rest);
        assert(s[j] == ',');
        lemma_ws_stop(s, j);
        assert(s.skip(j + 1) =~= items1 + (seq![']'] + rest));
        lemma_skip_concat(s, j + 1, items1, seq![']'] + rest);
        lemma_items_len(ts.skip(1));
        assert(items1[0] == record_json(ts.skip(1)[0])[0]);
        assert(record_json(ts.skip(1)[0])[0] == '{');
        assert(s[j + 1] == items1[0]);
        lemma_ws_stop(s, j + 1);
        lemma_parse_items_canonical(s, j + 1, ts.skip(1), rest, (fuel - 1) as nat);
        assert(seq![ts[0]] + ts.skip(1) =~= ts);
        assert(records_json_items(ts).len() == record_json(ts[0]).len() + 1 + items1.len());
    }
}

/// Law: the reader inverts the writer. Parsing the canonical
/// serialization of any collection gives that collection back, element
/// for element and in order.
#[verifier::rlimit(50)]
pub proof fn lemma_round_trip(v: Seq<TodoView>)
    ensures
        parse_json_spec(records_json(v)) == Some(v),
{
    let s = records_json(v);
    let items = records_json_items(v);
    assert(s.len() == items.len() + 2);
    assert(s.skip(0) =~= seq!['['] + (items + seq![']']));
    lemma_skip_concat(s, 0, seq!['['], items + seq![']']);
    assert(s[0] == '[');
    lemma_ws_stop(s, 0);
    if v.len() == 0 {
        assert(items =~= Seq::<char>::empty());
        assert(s.len() == 2);
        assert(s.skip(1) =~= seq![']']);
        assert(s[1] == ']');
        lemma_ws_stop(s, 1);
        lemma_ws_stop(s, 2);
        assert(v =~= Seq::<TodoView>::empty());
    } else {
        lemma_items_len(v);
        assert(items[0] == record_json(v[0])[0]);
        assert(record_json(v[0])[0] == '{');
        assert(s[1] == items[0]) by {
            lemma_skip_concat(s, 1, items, seq![']']);
        }
        assert(s[1] != ']');
        lemma_ws_stop(s, 1);
        assert(s.skip(1) =~= items + seq![']'] + Seq::<char>::empty());
        lemma_parse_items_canonical(s, 1, v, Seq::<char>::empty(), s.len() as nat);
        assert(1 + items.len() + 1 == s.len());
        lemma_ws_stop(s, s.len() as int);
    }
}

// ---------------------------------------------------------------------
// The reader.
// ---------------------------------------------------------------------
/// Whether `c` is JSON insignificant whitespace.
fn is_ws_char(c: char) -> (b: bool)
    ensures
        b == is_ws(c),
{
    c == ' ' || c == '\t' || c == '\n' || c == '\r'
}

/// The first position at or after `i` that does not hold whitespace.
fn skip_ws_at(chars: &Vec<char>, i: usize) -> (r: usize)
    requires
        i <= chars@.len(),
    ensures
        r == skip_ws(chars@, i as int),
        i <= r <= chars@.len(),
{
    let mut pos = i;
    loop
        invariant
            i <= pos <= chars@.len(),
            skip_ws(chars@, i as int) == skip_ws(chars@, pos as int),
        decreases chars@.len() - pos,
    {
        if pos >= chars.len() {
            return pos;
        }
        if !is_ws_char(chars[pos]) {
            return pos;
        }
        pos += 1;
    }
}

/// The value of a hexadecimal digit character, if it is one.
fn hex_digit_val(c: char) -> (r: Option<u32>)
    ensures
        (match r {
            Some(x) => hex_val(c) == x as int && x < 16,
            None => hex_val(c) < 0,
        }),
{
    let u = c as u32;
    if 0x30 <= u && u <= 0x39 {
        Some(u - 0x30)
    } else if 0x61 <= u && u <= 0x66 {
        Some(u - 0x61 + 10)
    } else if 0x41 <= u && u <= 0x46 {
        Some(u - 0x41 + 10)
    } else {
        None
    }
}

/// The value of the four hexadecimal digits at `i`, if they are ones.
fn read_hex4(chars: &Vec<char>, i: usize) -> (r: Option<u32>)
    requires
        i + 4 <= chars@.len(),
    ensures
        (match r {
            Some(v) => hex4_ok(chars@, i as int) && v as int == hex4_val(chars@, i as int) && v
                <= 0xFFFF,
            None => !hex4_ok(chars@, i as int),
        }),
{
    let n = chars.len();
    proof {
        assert(i + 4 <= n);
    }
    let h0 = match hex_digit_val(chars[i]) {
        Some(x) => x,
        None => {
            return None;
        },
    };
    let h1 = match hex_digit_val(chars[i + 1]) {
        Some(x) => x,
        None => {
            return None;
        },
    };
    let h2 = match hex_digit_val(chars[i + 2]) {
        Some(x) => x,
        None => {
            return None;
        },
    };
    let h3 = match hex_digit_val(chars[i + 3]) {
        Some(x) => x,
        None => {
            return None;
        },
    };
    Some(h0 * 4096 + h1 * 256 + h2 * 16 + h3)
}

/// Relies on char::from_u32: a code point in range that is not a
/// surrogate is a Unicode scalar value, so the conversion succeeds and
/// yields the character with exactly that code.
#[verifier::external_body]
fn char_of_code(v: u32) -> (c: char)
    requires
        v < 0xD800 || (0xE000 <= v && v <= 0x10FFFF),
    ensures
        c == (v as char),
{
    char::from_u32(v).unwrap_or(' ')
}

/// The characters of `s`, as a vector.
fn str_to_chars(s: &str) -> (r: Vec<char>)
    ensures
        r@ == s@,
{
    let n = s.unicode_len();
    let mut v: Vec<char> = Vec::new();
    let mut i: usize = 0;
    while i < n
        invariant
            0 <= i <= n == s@.len(),
            v@ == s@.take(i as int),
        decreases n - i,
    {
        let c = s.get_char(i);
        v.push(c);
        proof {
            assert(s@.take(i + 1) =~= s@.take(i as int).push(s@[i as int]));
        }
        i += 1;
    }
    proof {
        assert(s@.take(n as int) =~= s@);
    }
    v
}

/// Whether the text at position `i` begins with `pat`; on a match, the
/// position just after it.
fn match_lit(chars: &Vec<char>, i: usize, pat: &str) -> (r: Option<usize>)
    ensures
        r matches Some(j) ==> starts_with(chars@, i as int, pat@) && j == i + pat@.len(),
        r is None ==> !starts_with(chars@, i as int, pat@),
{
    let plen = pat.unicode_len();
    if i > chars.len() || plen > chars.len() - i {
        return None;
    }
    let mut k: usize = 0;
    while k < plen
        invariant
            0 <= k <= plen == pat@.len(),
            i + plen <= chars@.len(),
            chars@.len() <= usize::MAX,
            forall|m: int| 0 <= m < k ==> chars@[i + m] == pat@[m],
        decreases plen - k,
    {
        if chars[i + k] != pat.get_char(k) {
            proof {
                assert(chars@[i + k] != pat@[k as int]);
                if starts_with(chars@, i as int, pat@) {
                    assert(chars@.subrange(i as int, i + pat@.len())[k as int] == pat@[k as int]);
                }
            }
            return None;
        }
        k += 1;
    }
    proof {
        assert(chars@.subrange(i as int, i + pat@.len()) =~= pat@);
    }
    Some(i + plen)
}

/// Reads a string body from just after its opening quote; returns
/// exactly what `parse_string_spec` says.
fn parse_string_at(chars: &Vec<char>, start: usize) -> (r: Option<(String, usize)>)
    ensures
        r matches Some(p) ==> parse_string_spec(chars@, start as int) == Some((p.0@, p.1 as int)),
        r is None ==> parse_string_spec(chars@, start as int) is None,
{
    if start > chars.len() {
        return None;
    }
    let mut pos = start;
    let mut acc = String::new();
    proof {
        match parse_string_spec(chars@, start as int) {
            Some((b, j)) => {
                assert(acc@ + b =~= b);
            },
            None => {},
        }
    }
    loop
        invariant
            start <= pos <= chars@.len(),
            (match parse_string_spec(chars@, pos as int) {
                Some((b, j)) => parse_string_spec(chars@, start as int) == Some((acc@ + b, j)),
                None => parse_string_spec(chars@, start as int) is None,
            }),
        decreases chars@.len() - pos,
    {
        if pos >= chars.len() {
            return None;
        }
        let c = chars[pos];
        if c == '"' {
            proof {
                assert(acc@ + Seq::<char>::empty() =~= acc@);
            }
            return Some((acc, pos + 1));
        } else if c == '\\' {
            if chars.len() - pos < 2 {
                return None;
            }
            let d = chars[pos + 1];
            if d == '"' || d == '\\' || d == '/' {
                proof {
                    match parse_string_spec(chars@, pos + 2) {
                        Some((b, j)) => {
                            assert((acc@.push(d)) + b =~= acc@ + (seq![d] + b));
                        },
                        None => {},
                    }
                }
                push_char(&mut acc, d);
                pos = pos + 2;
            } else if d == 'b' || d == 'f' || d == 'n' || d == 'r' || d == 't' {
                let e = if d == 'b' {
                    '\u{0008}'
                } else if d == 'f' {
                    '\u{000C}'
                } else if d == 'n' {
                    '\n'
                } else if d == 'r' {
                    '\r'
                } else {
                    '\t'
                };
                proof {
                    assert(e == ctrl_of(d));
                    match parse_string_spec(chars@, pos + 2) {
                        Some((b, j)) => {
                            assert((acc@.push(e)) + b =~= acc@ + (seq![e] + b));
                        },
                        None => {},
                    }
                }
                push_char(&mut acc, e);
                pos = pos + 2;
            } else if d == 'u' {
                if chars.len() - pos < 6 {
                    return None;
                }
                let v = match read_hex4(chars, pos + 2) {
                    Some(v) => v,
                    None => {
                        return None;
                    },
                };
                if 0xD800 <= v && v < 0xDC00 {
                    if chars.len() - pos < 12 {
                        return None;
                    }
                    if !(chars[pos + 6] == '\\' && chars[pos + 7] == 'u') {
                        return None;
                    }
                    let w = match read_hex4(chars, pos + 8) {
                        Some(w) => w,
                        None => {
                            return None;
                        },
                    };
                    if !(0xDC00 <= w && w < 0xE000) {
                        return None;
                    }
                    let cp = 0x10000 + (v - 0xD800) * 1024 + (w - 0xDC00);
                    let e = char_of_code(cp);
                    proof {
                        match parse_string_spec(chars@, pos + 12) {
                            Some((b, j)) => {
                                assert((acc@.push(e)) + b =~= acc@ + (seq![e] + b));
                            },
                            None => {},
                        }
                    }
                    push_char(&mut acc, e);
                    pos = pos + 12;
                } else if 0xDC00 <= v && v < 0xE000 {
                    return None;
                } else {
                    let e = char_of_code(v);
                    proof {
                        match parse_string_spec(chars@, pos + 6) {
                            Some((b, j)) => {
                                assert((acc@.push(e)) + b =~= acc@ + (seq![e] + b));
                            },
                            None => {},
                        }
                    }
                    push_char(&mut acc, e);
                    pos = pos + 6;
                }
            } else {
                return None;
            }
        } else {
            proof {
                match parse_string_spec(chars@, pos + 1) {
                    Some((b, j)) => {
                        assert((acc@.push(c)) + b =~= acc@ + (seq![c] + b));
                    },
                    None => {},
                }
            }
            push_char(&mut acc, c);
            pos = pos + 1;
        }
    }
}

/// Reads one record object; returns exactly what `parse_record_spec`
/// says.
fn parse_record_at(chars: &Vec<char>, start: usize) -> (r: Option<(Todo, usize)>)
    ensures
        r matches Some(p) ==> parse_record_spec(chars@, start as int) == Some((p.0@, p.1 as int))
            && p.1 <= chars@.len(),
        r is None ==> parse_record_spec(chars@, start as int) is None,
{
    if !(start < chars.len() && chars[start] == '{') {
        return None;
    }
    let i1 = skip_ws_at(chars, start + 1);
    let k1 = match match_lit(chars, i1, "\"id\"") {
        Some(j) => j,
        None => {
            return None;
        },
    };
    let i2 = skip_ws_at(chars, k1);
    if !(i2 < chars.len() && chars[i2] == ':') {
        return None;
    }
    let i3 = skip_ws_at(chars, i2 + 1);
    if !(i3 < chars.len() && chars[i3] == '"') {
        return None;
    }
    let (id, i4) = match parse_string_at(chars, i3 + 1) {
        Some(p) => p,
        None => {
            return None;
        },
    };
    if i4 > chars.len() {
        return None;
    }
    let i5 = skip_ws_at(chars, i4);
    if !(i5 < chars.len() && chars[i5] == ',') {
        return None;
    }
    let i6 = skip_ws_at(chars, i5 + 1);
    let k2 = match match_lit(chars, i6, "\"task\"") {
        Some(j) => j,
        None => {
            return None;
        },
    };
    let i7 = skip_ws_at(chars, k2);
    if !(i7 < chars.len() && chars[i7] == ':') {
        return None;
    }
    let i8 = skip_ws_at(chars, i7 + 1);
    if !(i8 < chars.len() && chars[i8] == '"') {
        return None;
    }
    let (task, i9) = match parse_string_at(chars, i8 + 1) {
        Some(p) => p,
        None => {
            return None;
        },
    };
    if i9 > chars.len() {
        return None;
    }
    let i10 = skip_ws_at(chars, i9);
    if !(i10 < chars.len() && chars[i10] == ',') {
        return None;
    }
    let i11 = skip_ws_at(chars, i10 + 1);
    let k3 = match match_lit(chars, i11, "\"status\"") {
        Some(j) => j,
        None => {
            return None;
        },
    };
    let i12 = skip_ws_at(chars, k3);
    if !(i12 < chars.len() && chars[i12] == ':') {
        return None;
    }
    let i13 = skip_ws_at(chars, i12 + 1);
    let (status, i14) = if let Some(j) = match_lit(chars, i13, "\"Completed\"") {
        (TodoStatus::Completed, j)
    } else if let Some(j) = match_lit(chars, i13, "\"Pending\"") {
        (TodoStatus::Pending, j)
    } else if let Some(j) = match_lit(chars, i13, "\"InProgress\"") {
        (TodoStatus::InProgress, j)
    } else {
        return None;
    };
    let i15 = skip_ws_at(chars, i14);
    if !(i15 < chars.len() && chars[i15] == '}') {
        return None;
    }
    Some((Todo { id, task, status }, i15 + 1))
}

/// Reads a non-empty run of records up to and over the array's closing
/// bracket; returns exactly what `parse_items_spec` says.
fn parse_items_at(chars: &Vec<char>, start: usize, fuel: usize) -> (r: Option<(Vec<Todo>, usize)>)
    ensures
        r matches Some(p) ==> parse_items_spec(chars@, start as int, fuel as nat) == Some(
            (views_of(p.0@), p.1 as int),
        ) && p.1 <= chars@.len(),
        r is None ==> parse_items_spec(chars@, start as int, fuel as nat) is None,
    decreases fuel,
{
    let (t, j) = match parse_record_at(chars, start) {
        Some(p) => p,
        None => {
            return None;
        },
    };
    let j1 = skip_ws_at(chars, j);
    if j1 < chars.len() && chars[j1] == ',' {
        if fuel == 0 {
            return None;
        }
        let next = skip_ws_at(chars, j1 + 1);
        match parse_items_at(chars, next, fuel - 1) {
            Some((mut v, k)) => {
                let ghost tail = v@;
                v.insert(0, t);
                proof {
                    assert(views_of(v@) =~= seq![t@] + views_of(tail));
                }
                Some((v, k))
            },
            None => None,
        }
    } else if j1 < chars.len() && chars[j1] == ']' {
        let mut v: Vec<Todo> = Vec::new();
        v.push(t);
        proof {
            assert(views_of(v@) =~= seq![t@]);
        }
        Some((v, j1 + 1))
    } else {
        None
    }
}

/// Parses a whole backing text; succeeds exactly when `parse_json_spec`
/// accepts it, and then returns the collection it denotes.
pub fn parse_todos(s: &str) -> (r: Result<Vec<Todo>, DeserializationError>)
    ensures
        r matches Ok(v) ==> parse_json_spec(s@) == Some(views_of(v@)),
        r is Err ==> parse_json_spec(s@) is None,
{
    let chars = str_to_chars(s);
    let i0 = skip_ws_at(&chars, 0);
    if !(i0 < chars.len() && chars[i0] == '[') {
        return Err(DeserializationError);
    }
    let i1 = skip_ws_at(&chars, i0 + 1);
    if i1 < chars.len() && chars[i1] == ']' {
        if skip_ws_at(&chars, i1 + 1) == chars.len() {
            let v: Vec<Todo> = Vec::new();
            proof {
                assert(views_of(v@) =~= Seq::<TodoView>::empty());
            }
            return Ok(v);
        } else {
            return Err(DeserializationError);
        }
    }
    match parse_items_at(&chars, i1, chars.len()) {
        Some((v, j)) => {
            if skip_ws_at(&chars, j) == chars.len() {
                Ok(v)
            } else {
                Err(DeserializationError)
            }
        },
        None => Err(DeserializationError),
    }
}

/// What a load means once the backing file's content is in hand: an
/// absent file is an empty collection, a present one must parse.
pub fn load_from_content(content: Option<&str>) -> (r: Result<Vec<Todo>, DeserializationError>)
    ensures
        content is None ==> (r matches Ok(v) && views_of(v@) == Seq::<TodoView>::empty()),
        content matches Some(s) ==> ((r matches Ok(v) ==> parse_json_spec(s@) == Some(
            views_of(v@),
        )) && (r is Err ==> parse_json_spec(s@) is None)),
{
    match content {
        None => {
            let v: Vec<Todo> = Vec::new();
            proof {
                assert(views_of(v@) =~= Seq::<TodoView>::empty());
            }
            Ok(v)
        },
        Some(s) => parse_todos(s),
    }
}

} // verus!
