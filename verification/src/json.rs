//! The line grammar of agent logs: one flat JSON object of string fields per
//! line, as in `{"type": "assistant", "content": "hi"}`.
//!
//! The grammar is given by total spec functions over `Seq<char>`; the
//! executable parser is verified to return exactly what they define. Values
//! and keys are strings with the escapes `\"`, `\\`, `\/`, `\n`, `\t`, `\r`;
//! any other input is rejected, and the caller skips the line.

use vstd::prelude::*;

verus! {

use crate::text::is_space;
use crate::store::find_by;

/// One parsed `"key": "value"` field.
pub struct JsonField {
    pub key: String,
    pub value: String,
}

impl View for JsonField {
    type V = (Seq<char>, Seq<char>);

    open spec fn view(&self) -> (Seq<char>, Seq<char>) {
        (self.key@, self.value@)
    }
}

/// The first position at or after `i` holding a non-whitespace character (or
/// the end of the string).
pub open spec fn ws_end(s: Seq<char>, i: int) -> int
    decreases s.len() - i,
{
    if 0 <= i < s.len() && is_space(s[i]) {
        ws_end(s, i + 1)
    } else {
        i
    }
}

/// `ws_end` stays within bounds and moves only forward.
pub proof fn lemma_ws_end_bounds(s: Seq<char>, i: int)
    requires
        0 <= i <= s.len(),
    ensures
        i <= ws_end(s, i) <= s.len(),
    decreases s.len() - i,
{
    if i < s.len() && is_space(s[i]) {
        lemma_ws_end_bounds(s, i + 1);
    }
}

/// What a backslash escape denotes, if it is a recognized one.
pub open spec fn spec_unescape(c: char) -> Option<char> {
    if c == '"' {
        Option::Some('"')
    } else if c == '\\' {
        Option::Some('\\')
    } else if c == '/' {
        Option::Some('/')
    } else if c == 'n' {
        Option::Some('\n')
    } else if c == 't' {
        Option::Some('\t')
    } else if c == 'r' {
        Option::Some('\r')
    } else {
        Option::None
    }
}

/// The characters of a string literal's body starting at `i` (just after the
/// opening quote), and the position just after the closing quote.
pub open spec fn parse_string_body(s: Seq<char>, i: int) -> Option<(Seq<char>, int)>
    decreases s.len() - i,
{
    if !(0 <= i < s.len()) {
        Option::None
    } else if s[i] == '"' {
        Option::Some((Seq::empty(), i + 1))
    } else if s[i] == '\\' {
        if i + 1 < s.len() {
            match spec_unescape(s[i + 1]) {
                Option::Some(c) => match parse_string_body(s, i + 2) {
                    Option::Some((t, j)) => Option::Some((seq![c] + t, j)),
                    Option::None => Option::None,
                },
                Option::None => Option::None,
            }
        } else {
            Option::None
        }
    } else {
        match parse_string_body(s, i + 1) {
            Option::Some((t, j)) => Option::Some((seq![s[i]] + t, j)),
            Option::None => Option::None,
        }
    }
}

/// A successful string-body parse ends strictly past where it began and
/// within the input.
pub proof fn lemma_parse_string_body_bounds(s: Seq<char>, i: int)
    requires
        parse_string_body(s, i) is Some,
    ensures
        i < parse_string_body(s, i)->Some_0.1 <= s.len(),
    decreases s.len() - i,
{
    if 0 <= i < s.len() && s[i] != '"' {
        if s[i] == '\\' {
            lemma_parse_string_body_bounds(s, i + 2);
        } else {
            lemma_parse_string_body_bounds(s, i + 1);
        }
    }
}

/// A string literal beginning with a quote at `i`: its characters and the
/// position just after the closing quote.
pub open spec fn parse_string(s: Seq<char>, i: int) -> Option<(Seq<char>, int)> {
    if 0 <= i < s.len() && s[i] == '"' {
        parse_string_body(s, i + 1)
    } else {
        Option::None
    }
}

/// A successful string parse ends strictly past where it began and within
/// the input.
pub proof fn lemma_parse_string_bounds(s: Seq<char>, i: int)
    requires
        parse_string(s, i) is Some,
    ensures
        i < parse_string(s, i)->Some_0.1 <= s.len(),
{
    lemma_parse_string_body_bounds(s, i + 1);
}

/// One `"key" : "value"` pair starting at `i`: the pair and the position
/// just after the value's closing quote.
pub open spec fn parse_pair(s: Seq<char>, i: int) -> Option<((Seq<char>, Seq<char>), int)> {
    match parse_string(s, i) {
        Option::Some((k, j)) => {
            let j2 = ws_end(s, j);
            if 0 <= j2 < s.len() && s[j2] == ':' {
                let j3 = ws_end(s, j2 + 1);
                match parse_string(s, j3) {
                    Option::Some((v, j4)) => Option::Some(((k, v), j4)),
                    Option::None => Option::None,
                }
            } else {
                Option::None
            }
        },
        Option::None => Option::None,
    }
}

/// A comma-separated run of pairs starting at `i`. `fuel` bounds the
/// recursion; the caller passes the input length, which no run of pairs can
/// exceed. Returns the pairs and the position of the first character after
/// them (whitespace skipped).
pub open spec fn parse_members(s: Seq<char>, i: int, fuel: nat) -> Option<
    (Seq<(Seq<char>, Seq<char>)>, int),
>
    decreases fuel,
{
    if fuel == 0 {
        Option::None
    } else {
        match parse_pair(s, i) {
            Option::Some((kv, j)) => {
                let j2 = ws_end(s, j);
                if 0 <= j2 < s.len() && s[j2] == ',' {
                    match parse_members(s, ws_end(s, j2 + 1), (fuel - 1) as nat) {
                        Option::Some((rest, j3)) => Option::Some((seq![kv] + rest, j3)),
                        Option::None => Option::None,
                    }
                } else {
                    Option::Some((seq![kv], j2))
                }
            },
            Option::None => Option::None,
        }
    }
}

/// The whole line as one flat JSON object of string fields, or nothing if
/// the line is not in the grammar.
pub open spec fn parse_json_object(s: Seq<char>) -> Option<Seq<(Seq<char>, Seq<char>)>> {
    let i = ws_end(s, 0);
    if 0 <= i < s.len() && s[i] == '{' {
        let j = ws_end(s, i + 1);
        if 0 <= j < s.len() && s[j] == '}' {
            if ws_end(s, j + 1) == s.len() {
                Option::Some(Seq::empty())
            } else {
                Option::None
            }
        } else {
            match parse_members(s, j, s.len() as nat) {
                Option::Some((kvs, k)) => {
                    if 0 <= k < s.len() && s[k] == '}' && ws_end(s, k + 1) == s.len() {
                        Option::Some(kvs)
                    } else {
                        Option::None
                    }
                },
                Option::None => Option::None,
            }
        }
    } else {
        Option::None
    }
}

/// The value of the first field named `k`, if any.
pub open spec fn spec_lookup(kvs: Seq<(Seq<char>, Seq<char>)>, k: Seq<char>) -> Option<Seq<char>> {
    match find_by(kvs, |kv: (Seq<char>, Seq<char>)| kv.0 == k) {
        Option::Some(kv) => Option::Some(kv.1),
        Option::None => Option::None,
    }
}

/// Skip whitespace from `i`.
fn skip_ws(s: &str, i: usize) -> (r: usize)
    requires
        i <= s@.len(),
    ensures
        r == ws_end(s@, i as int),
        i <= r <= s@.len(),
{
    let n: usize = s.unicode_len();
    let mut j: usize = i;
    while j < n && crate::text::space_char(s.get_char(j))
        invariant
            n == s@.len(),
            i <= j <= n,
            ws_end(s@, i as int) == ws_end(s@, j as int),
        decreases n - j,
    {
        j = j + 1;
    }
    j
}

/// The single-character string an escape denotes.
fn unescape_char(c: char) -> (r: Option<&'static str>)
    ensures
        match r {
            Option::Some(t) => spec_unescape(c) is Some && t@ == seq![spec_unescape(c)->Some_0],
            Option::None => spec_unescape(c) is None,
        },
{
    proof {
        reveal_strlit("\"");
        reveal_strlit("\\");
        reveal_strlit("/");
        reveal_strlit("\n");
        reveal_strlit("\t");
        reveal_strlit("\r");
    }
    if c == '"' {
        Option::Some("\"")
    } else if c == '\\' {
        Option::Some("\\")
    } else if c == '/' {
        Option::Some("/")
    } else if c == 'n' {
        Option::Some("\n")
    } else if c == 't' {
        Option::Some("\t")
    } else if c == 'r' {
        Option::Some("\r")
    } else {
        Option::None
    }
}

/// Parse a string body beginning just after an opening quote.
fn scan_string_body(s: &str, i: usize) -> (r: Option<(String, usize)>)
    requires
        i <= s@.len(),
    ensures
        match r {
            Option::Some((v, j)) => parse_string_body(s@, i as int) == Option::Some((v@, j as int))
                && j <= s@.len(),
            Option::None => parse_string_body(s@, i as int) is None,
        },
    decreases s@.len() - i,
{
    let n: usize = s.unicode_len();
    if i >= n {
        return Option::None;
    }
    let c = s.get_char(i);
    if c == '"' {
        Option::Some((String::new(), i + 1))
    } else if c == '\\' {
        if i + 1 < n {
            match unescape_char(s.get_char(i + 1)) {
                Option::Some(piece) => match scan_string_body(s, i + 2) {
                    Option::Some((t, j)) => {
                        let out = String::from_str(piece).concat(t.as_str());
                        proof {
                            assert(out@ =~= seq![spec_unescape(s@[i + 1])->Some_0] + t@);
                        }
                        Option::Some((out, j))
                    },
                    Option::None => Option::None,
                },
                Option::None => Option::None,
            }
        } else {
            Option::None
        }
    } else {
        match scan_string_body(s, i + 1) {
            Option::Some((t, j)) => {
                let piece = s.substring_char(i, i + 1);
                let out = String::from_str(piece).concat(t.as_str());
                proof {
                    assert(piece@ =~= seq![s@[i as int]]);
                    assert(out@ =~= seq![s@[i as int]] + t@);
                }
                Option::Some((out, j))
            },
            Option::None => Option::None,
        }
    }
}

/// Parse a quoted string literal at `i`.
fn scan_string(s: &str, i: usize) -> (r: Option<(String, usize)>)
    requires
        i <= s@.len(),
    ensures
        match r {
            Option::Some((v, j)) => parse_string(s@, i as int) == Option::Some((v@, j as int)) && i
                < j <= s@.len(),
            Option::None => parse_string(s@, i as int) is None,
        },
{
    let n: usize = s.unicode_len();
    if i < n && s.get_char(i) == '"' {
        let r = scan_string_body(s, i + 1);
        proof {
            if parse_string_body(s@, i + 1) is Some {
                lemma_parse_string_body_bounds(s@, i + 1);
            }
        }
        r
    } else {
        Option::None
    }
}

/// Parse one `"key" : "value"` pair at `i`.
fn scan_pair(s: &str, i: usize) -> (r: Option<(JsonField, usize)>)
    requires
        i <= s@.len(),
    ensures
        match r {
            Option::Some((f, j)) => parse_pair(s@, i as int) == Option::Some((f@, j as int)) && i
                < j <= s@.len(),
            Option::None => parse_pair(s@, i as int) is None,
        },
{
    match scan_string(s, i) {
        Option::Some((k, j)) => {
            let j2 = skip_ws(s, j);
            let n: usize = s.unicode_len();
            if j2 < n && s.get_char(j2) == ':' {
                let j3 = skip_ws(s, j2 + 1);
                match scan_string(s, j3) {
                    Option::Some((v, j4)) => Option::Some((JsonField { key: k, value: v }, j4)),
                    Option::None => Option::None,
                }
            } else {
                Option::None
            }
        },
        Option::None => Option::None,
    }
}

/// Parse a comma-separated run of pairs at `i`.
fn scan_members(s: &str, i: usize, fuel: usize) -> (r: Option<(Vec<JsonField>, usize)>)
    requires
        i <= s@.len(),
    ensures
        match r {
            Option::Some((fs, j)) => parse_members(s@, i as int, fuel as nat) == Option::Some(
                (fs@.map_values(|f: JsonField| f@), j as int),
            ) && j <= s@.len(),
            Option::None => parse_members(s@, i as int, fuel as nat) is None,
        },
    decreases fuel,
{
    if fuel == 0 {
        return Option::None;
    }
    match scan_pair(s, i) {
        Option::Some((kv, j)) => {
            let j2 = skip_ws(s, j);
            let n: usize = s.unicode_len();
            if j2 < n && s.get_char(j2) == ',' {
                let j3 = skip_ws(s, j2 + 1);
                match scan_members(s, j3, fuel - 1) {
                    Option::Some((rest, j4)) => {
                        let mut out: Vec<JsonField> = Vec::new();
                        out.push(kv);
                        let mut rest = rest;
                        out.append(&mut rest);
                        proof {
                            assert(out@.map_values(|f: JsonField| f@) =~= seq![
                                parse_pair(s@, i as int)->Some_0.0,
                            ] + parse_members(
                                s@,
                                j3 as int,
                                (fuel - 1) as nat,
                            )->Some_0.0);
                        }
                        Option::Some((out, j4))
                    },
                    Option::None => Option::None,
                }
            } else {
                let mut out: Vec<JsonField> = Vec::new();
                out.push(kv);
                proof {
                    assert(out@.map_values(|f: JsonField| f@) =~= seq![
                        parse_pair(s@, i as int)->Some_0.0,
                    ]);
                }
                Option::Some((out, j2))
            }
        },
        Option::None => Option::None,
    }
}

/// Parse a whole line as a flat JSON object of string fields.
pub fn scan_json_object(s: &str) -> (r: Option<Vec<JsonField>>)
    ensures
        match r {
            Option::Some(fs) => parse_json_object(s@) == Option::Some(
                fs@.map_values(|f: JsonField| f@),
            ),
            Option::None => parse_json_object(s@) is None,
        },
{
    let n: usize = s.unicode_len();
    let i = skip_ws(s, 0);
    if i < n && s.get_char(i) == '{' {
        let j = skip_ws(s, i + 1);
        if j < n && s.get_char(j) == '}' {
            if skip_ws(s, j + 1) == n {
                let out: Vec<JsonField> = Vec::new();
                proof {
                    assert(out@.map_values(|f: JsonField| f@) =~= Seq::<
                        (Seq<char>, Seq<char>),
                    >::empty());
                }
                Option::Some(out)
            } else {
                Option::None
            }
        } else {
            match scan_members(s, j, n) {
                Option::Some((fs, k)) => {
                    if k < n && s.get_char(k) == '}' {
                        if skip_ws(s, k + 1) == n {
                            Option::Some(fs)
                        } else {
                            Option::None
                        }
                    } else {
                        Option::None
                    }
                },
                Option::None => Option::None,
            }
        }
    } else {
        Option::None
    }
}

/// Look up the first field named `k`.
pub fn lookup_field<'a>(fields: &'a Vec<JsonField>, k: &str) -> (r: Option<&'a String>)
    ensures
        match r {
            Option::Some(v) => spec_lookup(fields@.map_values(|f: JsonField| f@), k@)
                == Option::Some(v@),
            Option::None => spec_lookup(fields@.map_values(|f: JsonField| f@), k@) is None,
        },
{
    let ghost kvs = fields@.map_values(|f: JsonField| f@);
    let n: usize = fields.len();
    let mut i: usize = 0;
    while i < n
        invariant
            n == fields.len(),
            kvs == fields@.map_values(|f: JsonField| f@),
            0 <= i <= n,
            forall|j: int| 0 <= j < i ==> kvs[j].0 != k@,
        decreases n - i,
    {
        if crate::text::str_eq(fields[i].key.as_str(), k) {
            proof {
                crate::store::lemma_find_at(
                    kvs,
                    |kv: (Seq<char>, Seq<char>)| kv.0 == k@,
                    i as int,
                );
            }
            return Option::Some(&fields[i].value);
        }
        i = i + 1;
    }
    proof {
        crate::store::lemma_find_none(kvs, |kv: (Seq<char>, Seq<char>)| kv.0 == k@);
    }
    Option::None
}

} // verus!
