//! The structured payload language of the wire protocol: JSON documents,
//! their serialization, and a validating parser.
//!
//! Documents are handled as raw UTF-8 bytes. A string value holds its decoded
//! content; a number holds its lexeme. The serializer writes the compact form
//! (no insignificant whitespace); the parser also accepts whitespace between
//! tokens, the short escapes, and `\u` escapes for ASCII code points.
use vstd::prelude::*;

verus! {

broadcast use vstd::seq::axiom_seq_index_decreases, vstd::seq::axiom_seq_subrange_decreases;

pub const QUOTE: u8 = 0x22;
pub const BSLASH: u8 = 0x5C;
pub const SLASH: u8 = 0x2F;
pub const COMMA: u8 = 0x2C;
pub const COLON: u8 = 0x3A;
pub const MINUS: u8 = 0x2D;
pub const PLUS: u8 = 0x2B;
pub const DOT: u8 = 0x2E;
pub const LBRACK: u8 = 0x5B;
pub const RBRACK: u8 = 0x5D;
pub const LBRACE: u8 = 0x7B;
pub const RBRACE: u8 = 0x7D;

/// A JSON document. Strings and object keys hold raw UTF-8 bytes with all
/// escapes decoded; numbers hold their unparsed lexeme.
#[derive(Debug, PartialEq, Eq)]
pub enum Json {
    Null,
    Bool(bool),
    Num(Vec<u8>),
    Str(Vec<u8>),
    Arr(Vec<Json>),
    Obj(Vec<(Vec<u8>, Json)>),
}

/// The mathematical model of a `Json` document.
pub enum Jv {
    Null,
    Bool(bool),
    Num(Seq<u8>),
    Str(Seq<u8>),
    Arr(Seq<Jv>),
    Obj(Seq<(Seq<u8>, Jv)>),
}

impl Json {
    /// The model of this document: the same tree over `Seq` instead of `Vec`.
    pub open spec fn jv(self) -> Jv
        decreases self,
    {
        match self {
            Json::Null => Jv::Null,
            Json::Bool(b) => Jv::Bool(b),
            Json::Num(n) => Jv::Num(n@),
            Json::Str(s) => Jv::Str(s@),
            Json::Arr(elems) => Jv::Arr(Json::jv_seq(elems@)),
            Json::Obj(pairs) => Jv::Obj(Json::jv_pairs(pairs@)),
        }
    }

    /// The models of a sequence of documents, elementwise.
    pub open spec fn jv_seq(elems: Seq<Json>) -> Seq<Jv>
        decreases elems,
    {
        if elems.len() == 0 {
            Seq::empty()
        } else {
            seq![elems[0].jv()] + Json::jv_seq(elems.subrange(1, elems.len() as int))
        }
    }

    /// The models of a sequence of key/document pairs, elementwise.
    pub open spec fn jv_pairs(pairs: Seq<(Vec<u8>, Json)>) -> Seq<(Seq<u8>, Jv)>
        decreases pairs,
    {
        if pairs.len() == 0 {
            Seq::empty()
        } else {
            seq![(pairs[0].0@, pairs[0].1.jv())] + Json::jv_pairs(
                pairs.subrange(1, pairs.len() as int),
            )
        }
    }
}

/// `jv_seq` maps a sequence of documents to their models, elementwise.
pub proof fn lemma_jv_seq(elems: Seq<Json>)
    ensures
        Json::jv_seq(elems).len() == elems.len(),
        forall|i: int| 0 <= i < elems.len() ==> Json::jv_seq(elems)[i] == elems[i].jv(),
    decreases elems.len(),
{
    if elems.len() > 0 {
        lemma_jv_seq(elems.subrange(1, elems.len() as int));
    }
}

/// `jv_pairs` maps a sequence of key/document pairs to their models, elementwise.
pub proof fn lemma_jv_pairs(pairs: Seq<(Vec<u8>, Json)>)
    ensures
        Json::jv_pairs(pairs).len() == pairs.len(),
        forall|i: int|
            0 <= i < pairs.len() ==> Json::jv_pairs(pairs)[i] == (pairs[i].0@, pairs[i].1.jv()),
    decreases pairs.len(),
{
    if pairs.len() > 0 {
        lemma_jv_pairs(pairs.subrange(1, pairs.len() as int));
    }
}

// ------------------------------------------------------------------
// Character classes
// ------------------------------------------------------------------
pub open spec fn is_ws(c: u8) -> bool {
    c == 0x20 || c == 0x09 || c == 0x0A || c == 0x0D
}

pub open spec fn is_digit(c: u8) -> bool {
    0x30 <= c && c <= 0x39
}

pub open spec fn is_hex(c: u8) -> bool {
    is_digit(c) || (0x41 <= c && c <= 0x46) || (0x61 <= c && c <= 0x66)
}

/// The value of a hexadecimal digit.
pub open spec fn hex_val(c: u8) -> u8 {
    if is_digit(c) {
        (c - 0x30) as u8
    } else if 0x41 <= c && c <= 0x46 {
        (c - 0x41 + 10) as u8
    } else {
        (c - 0x61 + 10) as u8
    }
}

/// The lowercase hexadecimal digit of a value below 16.
pub open spec fn hex_digit(x: u8) -> u8 {
    if x < 10 {
        (0x30 + x) as u8
    } else {
        (0x61 + x - 10) as u8
    }
}

// ------------------------------------------------------------------
// Scanning helpers
// ------------------------------------------------------------------
/// The first index at or after `i` holding no whitespace (or the end).
pub open spec fn sp_ws(s: Seq<u8>, i: int) -> int
    decreases s.len() - i,
{
    if i < 0 || i >= s.len() {
        i
    } else if is_ws(s[i]) {
        sp_ws(s, i + 1)
    } else {
        i
    }
}

pub proof fn lemma_sp_ws_bounds(s: Seq<u8>, i: int)
    ensures
        sp_ws(s, i) >= i,
        i <= s.len() ==> sp_ws(s, i) <= s.len(),
    decreases s.len() - i,
{
    if 0 <= i && i < s.len() && is_ws(s[i]) {
        lemma_sp_ws_bounds(s, i + 1);
    }
}

/// The first index at or after `i` holding no decimal digit (or the end).
pub open spec fn sp_digits(s: Seq<u8>, i: int) -> int
    decreases s.len() - i,
{
    if i < 0 || i >= s.len() {
        i
    } else if is_digit(s[i]) {
        sp_digits(s, i + 1)
    } else {
        i
    }
}

pub proof fn lemma_sp_digits_bounds(s: Seq<u8>, i: int)
    ensures
        sp_digits(s, i) >= i,
        i <= s.len() ==> sp_digits(s, i) <= s.len(),
    decreases s.len() - i,
{
    if 0 <= i && i < s.len() && is_digit(s[i]) {
        lemma_sp_digits_bounds(s, i + 1);
    }
}

// ------------------------------------------------------------------
// Strings
// ------------------------------------------------------------------
/// What a short escape `\d` decodes to, if `d` is one.
pub open spec fn esc_char(d: u8) -> Option<u8> {
    if d == QUOTE {
        Some(QUOTE)
    } else if d == BSLASH {
        Some(BSLASH)
    } else if d == SLASH {
        Some(SLASH)
    } else if d == 0x62 {
        Some(0x08)
    } else if d == 0x66 {
        Some(0x0C)
    } else if d == 0x6E {
        Some(0x0A)
    } else if d == 0x72 {
        Some(0x0D)
    } else if d == 0x74 {
        Some(0x09)
    } else {
        None
    }
}

/// Parses a string body starting just after the opening quote; yields the
/// decoded content and the index just after the closing quote.
pub open spec fn sp_string(s: Seq<u8>, i: int) -> Option<(Seq<u8>, int)>
    decreases s.len() - i,
{
    if i < 0 || i >= s.len() {
        None
    } else {
        let c = s[i];
        if c == QUOTE {
            Some((Seq::empty(), i + 1))
        } else if c == BSLASH {
            if i + 2 > s.len() {
                None
            } else {
                let d = s[i + 1];
                if esc_char(d) is Some {
                    match sp_string(s, i + 2) {
                        Some((rest, e)) => Some((seq![esc_char(d)->Some_0] + rest, e)),
                        None => None,
                    }
                } else if d == 0x75 {
                    if i + 6 <= s.len() && s[i + 2] == 0x30 && s[i + 3] == 0x30 && is_hex(s[i + 4])
                        && hex_val(s[i + 4]) < 8 && is_hex(s[i + 5]) {
                        match sp_string(s, i + 6) {
                            Some((rest, e)) => Some(
                                ((seq![(hex_val(s[i + 4]) * 16 + hex_val(s[i + 5])) as u8] + rest), e),
                            ),
                            None => None,
                        }
                    } else {
                        None
                    }
                } else {
                    None
                }
            }
        } else if c < 0x20 {
            None
        } else {
            match sp_string(s, i + 1) {
                Some((rest, e)) => Some((seq![c] + rest, e)),
                None => None,
            }
        }
    }
}

/// The escape sequence the serializer writes for one content byte.
pub open spec fn esc_of(c: u8) -> Seq<u8> {
    if c == QUOTE {
        seq![BSLASH, QUOTE]
    } else if c == BSLASH {
        seq![BSLASH, BSLASH]
    } else if c < 0x20 {
        seq![BSLASH, 0x75, 0x30, 0x30, hex_digit(c / 16), hex_digit(c % 16)]
    } else {
        seq![c]
    }
}

/// The serialized body of a string (without the surrounding quotes).
pub open spec fn ser_str_body(content: Seq<u8>) -> Seq<u8>
    decreases content.len(),
{
    if content.len() == 0 {
        Seq::empty()
    } else {
        esc_of(content[0]) + ser_str_body(content.drop_first())
    }
}

// ------------------------------------------------------------------
// Numbers
// ------------------------------------------------------------------
/// Parses a number lexeme starting at `i`; yields the lexeme and its end.
pub open spec fn sp_number(s: Seq<u8>, i: int) -> Option<(Seq<u8>, int)> {
    if i < 0 || i >= s.len() {
        None
    } else {
        let i1 = if s[i] == MINUS {
            i + 1
        } else {
            i
        };
        if i1 >= s.len() || !is_digit(s[i1]) {
            None
        } else {
            let e_int = if s[i1] == 0x30 {
                i1 + 1
            } else {
                sp_digits(s, i1)
            };
            let e_frac = if e_int < s.len() && s[e_int] == DOT {
                if sp_digits(s, e_int + 1) > e_int + 1 {
                    sp_digits(s, e_int + 1)
                } else {
                    -1
                }
            } else {
                e_int
            };
            if e_frac < 0 {
                None
            } else {
                let i_exp = if e_frac < s.len() && (s[e_frac] == 0x65 || s[e_frac] == 0x45) {
                    if e_frac + 1 < s.len() && (s[e_frac + 1] == PLUS || s[e_frac + 1] == MINUS) {
                        e_frac + 2
                    } else {
                        e_frac + 1
                    }
                } else {
                    -1
                };
                let e_all = if i_exp < 0 {
                    e_frac
                } else if sp_digits(s, i_exp) > i_exp {
                    sp_digits(s, i_exp)
                } else {
                    -1
                };
                if e_all < 0 {
                    None
                } else {
                    Some((s.subrange(i, e_all), e_all))
                }
            }
        }
    }
}

/// Whether `n` is exactly a number lexeme.
pub open spec fn num_ok(n: Seq<u8>) -> bool {
    n.len() > 0 && sp_number(n, 0) == Some((n, n.len() as int))
}

// ------------------------------------------------------------------
// Values
// ------------------------------------------------------------------
/// Guards an end index so that a parse step always advances; on every parse
/// that actually succeeds the guard is the identity.
pub open spec fn past(i: int, e: int) -> int {
    if e <= i {
        i + 1
    } else {
        e
    }
}

/// Parses one value starting exactly at `i` (no leading whitespace).
pub open spec fn sp_value(s: Seq<u8>, i: int) -> Option<(Jv, int)>
    decreases s.len() - i, 1int,
{
    if i < 0 || i >= s.len() {
        None
    } else {
        let c = s[i];
        if c == 0x6E {
            if i + 4 <= s.len() && s[i + 1] == 0x75 && s[i + 2] == 0x6C && s[i + 3] == 0x6C {
                Some((Jv::Null, i + 4))
            } else {
                None
            }
        } else if c == 0x74 {
            if i + 4 <= s.len() && s[i + 1] == 0x72 && s[i + 2] == 0x75 && s[i + 3] == 0x65 {
                Some((Jv::Bool(true), i + 4))
            } else {
                None
            }
        } else if c == 0x66 {
            if i + 5 <= s.len() && s[i + 1] == 0x61 && s[i + 2] == 0x6C && s[i + 3] == 0x73 && s[i
                + 4] == 0x65 {
                Some((Jv::Bool(false), i + 5))
            } else {
                None
            }
        } else if c == QUOTE {
            match sp_string(s, i + 1) {
                Some((content, e)) => Some((Jv::Str(content), e)),
                None => None,
            }
        } else if c == MINUS || is_digit(c) {
            match sp_number(s, i) {
                Some((lex, e)) => Some((Jv::Num(lex), e)),
                None => None,
            }
        } else if c == LBRACK {
            let j = sp_ws(s, i + 1);
            proof {
                lemma_sp_ws_bounds(s, i + 1);
            }
            if j < s.len() && s[j] == RBRACK {
                Some((Jv::Arr(Seq::empty()), j + 1))
            } else {
                match sp_elems(s, j) {
                    Some((elems, e)) => Some((Jv::Arr(elems), e)),
                    None => None,
                }
            }
        } else if c == LBRACE {
            let j = sp_ws(s, i + 1);
            proof {
                lemma_sp_ws_bounds(s, i + 1);
            }
            if j < s.len() && s[j] == RBRACE {
                Some((Jv::Obj(Seq::empty()), j + 1))
            } else {
                match sp_members(s, j) {
                    Some((pairs, e)) => Some((Jv::Obj(pairs), e)),
                    None => None,
                }
            }
        } else {
            None
        }
    }
}

/// Parses `value (',' value)* ']'` starting at a value start.
pub open spec fn sp_elems(s: Seq<u8>, i: int) -> Option<(Seq<Jv>, int)>
    decreases s.len() - i, 2int,
{
    if i < 0 || i >= s.len() {
        None
    } else {
        match sp_value(s, i) {
            Some((v, e0)) => {
                let e = past(i, e0);
                let k = sp_ws(s, e);
                proof {
                    lemma_sp_ws_bounds(s, e);
                    lemma_sp_ws_bounds(s, k + 1);
                }
                if k < s.len() && s[k] == COMMA {
                    match sp_elems(s, sp_ws(s, k + 1)) {
                        Some((rest, e2)) => Some((seq![v] + rest, e2)),
                        None => None,
                    }
                } else if k < s.len() && s[k] == RBRACK {
                    Some((seq![v], k + 1))
                } else {
                    None
                }
            },
            None => None,
        }
    }
}

/// Parses `pair (',' pair)* '}'` starting at a key start.
pub open spec fn sp_members(s: Seq<u8>, i: int) -> Option<(Seq<(Seq<u8>, Jv)>, int)>
    decreases s.len() - i, 2int,
{
    if i < 0 || i >= s.len() || s[i] != QUOTE {
        None
    } else {
        match sp_string(s, i + 1) {
            Some((key, ek0)) => {
                let ek = past(i, ek0);
                let k1 = sp_ws(s, ek);
                proof {
                    lemma_sp_ws_bounds(s, ek);
                    lemma_sp_ws_bounds(s, k1 + 1);
                }
                if k1 < s.len() && s[k1] == COLON {
                    let j = sp_ws(s, k1 + 1);
                    match sp_value(s, j) {
                        Some((v, e0)) => {
                            let e = past(j, e0);
                            let k = sp_ws(s, e);
                            proof {
                                lemma_sp_ws_bounds(s, e);
                                lemma_sp_ws_bounds(s, k + 1);
                            }
                            if k < s.len() && s[k] == COMMA {
                                match sp_members(s, sp_ws(s, k + 1)) {
                                    Some((rest, e2)) => Some((seq![(key, v)] + rest, e2)),
                                    None => None,
                                }
                            } else if k < s.len() && s[k] == RBRACE {
                                Some((seq![(key, v)], k + 1))
                            } else {
                                None
                            }
                        },
                        None => None,
                    }
                } else {
                    None
                }
            },
            None => None,
        }
    }
}

/// Parses a whole document: one value, possibly surrounded by whitespace.
pub open spec fn sp_json(s: Seq<u8>) -> Option<Jv> {
    match sp_value(s, sp_ws(s, 0)) {
        Some((v, e)) => {
            if sp_ws(s, e) == s.len() {
                Some(v)
            } else {
                None
            }
        },
        None => None,
    }
}

// ------------------------------------------------------------------
// Serialization
// ------------------------------------------------------------------
/// Whether every number lexeme in the document is exactly a number lexeme.
pub open spec fn wf(v: Jv) -> bool
    decreases v, 0int,
{
    match v {
        Jv::Null => true,
        Jv::Bool(_) => true,
        Jv::Num(n) => num_ok(n),
        Jv::Str(_) => true,
        Jv::Arr(elems) => wf_seq(elems),
        Jv::Obj(pairs) => wf_pairs(pairs),
    }
}

pub open spec fn wf_seq(elems: Seq<Jv>) -> bool
    decreases elems, 1int,
{
    forall|i: int| 0 <= i < elems.len() ==> wf(#[trigger] elems[i])
}

pub open spec fn wf_pairs(pairs: Seq<(Seq<u8>, Jv)>) -> bool
    decreases pairs, 1int,
{
    forall|i: int| 0 <= i < pairs.len() ==> wf(#[trigger] pairs[i].1)
}

/// The compact serialization of a document.
pub open spec fn ser(v: Jv) -> Seq<u8>
    decreases v, 0int,
{
    match v {
        Jv::Null => seq![0x6Eu8, 0x75u8, 0x6Cu8, 0x6Cu8],
        Jv::Bool(b) => if b {
            seq![0x74u8, 0x72u8, 0x75u8, 0x65u8]
        } else {
            seq![0x66u8, 0x61u8, 0x6Cu8, 0x73u8, 0x65u8]
        },
        Jv::Num(n) => n,
        Jv::Str(content) => seq![QUOTE] + ser_str_body(content) + seq![QUOTE],
        Jv::Arr(elems) => seq![LBRACK] + ser_items(elems) + seq![RBRACK],
        Jv::Obj(pairs) => seq![LBRACE] + ser_entries(pairs) + seq![RBRACE],
    }
}

/// The serialized elements of an array, separated by commas.
pub open spec fn ser_items(elems: Seq<Jv>) -> Seq<u8>
    decreases elems, 1int,
{
    if elems.len() == 0 {
        Seq::empty()
    } else if elems.len() == 1 {
        ser(elems[0])
    } else {
        ser(elems[0]) + seq![COMMA] + ser_items(elems.drop_first())
    }
}

/// The serialized entries of an object, separated by commas.
pub open spec fn ser_entries(pairs: Seq<(Seq<u8>, Jv)>) -> Seq<u8>
    decreases pairs, 1int,
{
    if pairs.len() == 0 {
        Seq::empty()
    } else {
        let head = seq![QUOTE] + ser_str_body(pairs[0].0) + seq![QUOTE, COLON] + ser(pairs[0].1);
        if pairs.len() == 1 {
            head
        } else {
            head + seq![COMMA] + ser_entries(pairs.drop_first())
        }
    }
}


// ------------------------------------------------------------------
// Round trip: parsing a serialized document yields it back
// ------------------------------------------------------------------
/// Characters that may follow a serialized value inside a document.
pub open spec fn is_sep(c: u8) -> bool {
    c == COMMA || c == RBRACK || c == RBRACE
}

/// Characters that cannot extend a number lexeme.
pub open spec fn is_num_stop(c: u8) -> bool {
    !is_digit(c) && c != DOT && c != 0x65 && c != 0x45 && c != PLUS && c != MINUS
}

/// Characters that can open a serialized value.
pub open spec fn is_value_start(c: u8) -> bool {
    c == 0x6E || c == 0x74 || c == 0x66 || c == QUOTE || c == MINUS || is_digit(c) || c == LBRACK
        || c == LBRACE
}

/// Every byte of the window `w` at offset `i` in `s` can be read off `s`.
pub proof fn lemma_window(s: Seq<u8>, i: int, w: Seq<u8>)
    requires
        0 <= i,
        i + w.len() <= s.len(),
        s.subrange(i, i + w.len()) == w,
    ensures
        forall|k: int| 0 <= k < w.len() ==> s[i + k] == #[trigger] w[k],
{
    assert forall|k: int| 0 <= k < w.len() implies s[i + k] == #[trigger] w[k] by {
        assert(s.subrange(i, i + w.len())[k] == s[i + k]);
    }
}

/// A window cut out of a window is a window again.
pub proof fn lemma_subwindow(s: Seq<u8>, i: int, w: Seq<u8>, a: int, b: int)
    requires
        0 <= i,
        i + w.len() <= s.len(),
        s.subrange(i, i + w.len()) == w,
        0 <= a <= b <= w.len(),
    ensures
        s.subrange(i + a, i + b) == w.subrange(a, b),
{
    lemma_window(s, i, w);
    assert(s.subrange(i + a, i + b) =~= w.subrange(a, b)) by {
        assert forall|m: int| 0 <= m < b - a implies s.subrange(i + a, i + b)[m] == w.subrange(
            a,
            b,
        )[m] by {
            assert(s[i + (a + m)] == w[a + m]);
        }
    }
}

/// Everything before the end of a digit run is a digit, and the run stops
/// at the end of the buffer or at a non-digit.
pub proof fn lemma_sp_digits_run(s: Seq<u8>, i: int)
    requires
        0 <= i <= s.len(),
    ensures
        forall|k: int| i <= k < sp_digits(s, i) ==> is_digit(#[trigger] s[k]),
        sp_digits(s, i) == s.len() || (sp_digits(s, i) < s.len() && !is_digit(s[sp_digits(s, i)])),
    decreases s.len() - i,
{
    lemma_sp_digits_bounds(s, i);
    if i < s.len() && is_digit(s[i]) {
        lemma_sp_digits_run(s, i + 1);
    }
}

/// A maximal digit run determines where `sp_digits` stops.
pub proof fn lemma_sp_digits_stop(s: Seq<u8>, i: int, e: int)
    requires
        0 <= i <= e <= s.len(),
        forall|k: int| i <= k < e ==> is_digit(#[trigger] s[k]),
        e == s.len() || !is_digit(s[e]),
    ensures
        sp_digits(s, i) == e,
    decreases e - i,
{
    if i < e {
        assert(is_digit(s[i]));
        lemma_sp_digits_stop(s, i + 1, e);
    }
}

/// `hex_val` inverts `hex_digit` on digit values.
pub proof fn lemma_hex_round(x: u8)
    requires
        x < 16,
    ensures
        is_hex(hex_digit(x)),
        hex_val(hex_digit(x)) == x,
{
}

/// Parsing a serialized string body out of any surrounding buffer yields the
/// original content and stops just past the closing quote.
pub proof fn lemma_parse_ser_str(s: Seq<u8>, i: int, content: Seq<u8>)
    requires
        0 <= i,
        i + ser_str_body(content).len() + 1 <= s.len(),
        s.subrange(i, i + ser_str_body(content).len()) == ser_str_body(content),
        s[i + ser_str_body(content).len()] == QUOTE,
    ensures
        sp_string(s, i) == Some((content, i + ser_str_body(content).len() + 1)),
    decreases content.len(),
{
    let body = ser_str_body(content);
    lemma_window(s, i, body);
    if content.len() == 0 {
        assert(s[i] == QUOTE);
    } else {
        let c = content[0];
        let e0 = esc_of(c);
        let rest = content.drop_first();
        let brest = ser_str_body(rest);
        assert(body == e0 + brest);
        assert forall|m: int| 0 <= m < e0.len() implies s[i + m] == e0[m] by {
            assert(body[m] == (e0 + brest)[m]);
        }
        assert(s.subrange(i + e0.len(), i + e0.len() + brest.len()) =~= brest) by {
            assert forall|m: int| 0 <= m < brest.len() implies s.subrange(
                i + e0.len(),
                i + e0.len() + brest.len(),
            )[m] == brest[m] by {
                assert(s[i + (e0.len() + m)] == body[e0.len() + m]);
                assert(body[e0.len() + m] == brest[m]);
            }
        }
        lemma_parse_ser_str(s, i + e0.len(), rest);
        assert(seq![c] + rest =~= content);
        if c == QUOTE {
            assert(s[i] == BSLASH && s[i + 1] == QUOTE);
            assert(sp_string(s, i) == Some((content, i + body.len() + 1)));
        } else if c == BSLASH {
            assert(s[i] == BSLASH && s[i + 1] == BSLASH);
            assert(sp_string(s, i) == Some((content, i + body.len() + 1)));
        } else if c < 0x20 {
            assert(c / 16 < 2 && c % 16 < 16 && (c / 16) * 16 + (c % 16) == c)
                by (nonlinear_arith)
                requires
                    c < 0x20,
            ;
            lemma_hex_round(c / 16);
            lemma_hex_round(c % 16);
            assert(s[i] == BSLASH && s[i + 1] == 0x75 && s[i + 2] == 0x30 && s[i + 3] == 0x30);
            assert(s[i + 4] == hex_digit(c / 16) && s[i + 5] == hex_digit(c % 16));
            assert(esc_char(0x75) is None);
            assert((hex_val(s[i + 4]) * 16 + hex_val(s[i + 5])) as u8 == c);
            assert(sp_string(s, i) == Some((content, i + body.len() + 1)));
        } else {
            assert(s[i] == c);
            assert(sp_string(s, i) == Some((content, i + body.len() + 1)));
        }
    }
}

/// Parsing a serialized number lexeme out of any surrounding buffer yields
/// the lexeme, provided the next byte cannot extend a number.
#[verifier::rlimit(100)]
pub proof fn lemma_sp_number_window(s: Seq<u8>, i: int, n: Seq<u8>)
    requires
        num_ok(n),
        0 <= i,
        i + n.len() <= s.len(),
        s.subrange(i, i + n.len()) == n,
        i + n.len() == s.len() || is_num_stop(s[i + n.len()]),
    ensures
        sp_number(s, i) == Some((n, i + n.len())),
{
    lemma_window(s, i, n);
    let len = n.len() as int;
    let n1 = if n[0] == MINUS {
        1int
    } else {
        0int
    };
    assert(n1 < len && is_digit(n[n1]));
    let e_int = if n[n1] == 0x30 {
        n1 + 1
    } else {
        sp_digits(n, n1)
    };
    lemma_sp_digits_run(n, n1);
    lemma_sp_digits_bounds(n, n1);
    assert(n1 < e_int <= len);
    // the integer-part digit run carries over to `s`
    if n[n1] != 0x30 {
        assert forall|k: int| i + n1 <= k < i + e_int implies is_digit(#[trigger] s[k]) by {
            assert(s[i + (k - i)] == n[k - i]);
        }
        if e_int < len {
            assert(s[i + e_int] == n[e_int]);
            lemma_sp_digits_stop(s, i + n1, i + e_int);
        } else {
            lemma_sp_digits_stop(s, i + n1, i + e_int);
        }
    }
    assert(s[i + n1] == n[n1]);
    let dotn = e_int < len && n[e_int] == DOT;
    let e_frac = if dotn {
        sp_digits(n, e_int + 1)
    } else {
        e_int
    };
    if dotn {
        assert(sp_digits(n, e_int + 1) > e_int + 1);
        lemma_sp_digits_run(n, e_int + 1);
        lemma_sp_digits_bounds(n, e_int + 1);
        assert forall|k: int| i + e_int + 1 <= k < i + e_frac implies is_digit(
            #[trigger] s[k],
        ) by {
            assert(s[i + (k - i)] == n[k - i]);
        }
        if e_frac < len {
            assert(s[i + e_frac] == n[e_frac]);
        }
        lemma_sp_digits_stop(s, i + e_int + 1, i + e_frac);
    }
    assert(e_frac <= len);
    let expn = e_frac < len && (n[e_frac] == 0x65 || n[e_frac] == 0x45);
    if expn {
        let i_exp = if e_frac + 1 < len && (n[e_frac + 1] == PLUS || n[e_frac + 1] == MINUS) {
            e_frac + 2
        } else {
            e_frac + 1
        };
        assert(sp_digits(n, i_exp) == len && len > i_exp);
        lemma_sp_digits_run(n, i_exp);
        assert forall|k: int| i + i_exp <= k < i + len implies is_digit(#[trigger] s[k]) by {
            assert(s[i + (k - i)] == n[k - i]);
        }
        lemma_sp_digits_stop(s, i + i_exp, i + len);
        assert(s[i + e_frac] == n[e_frac]);
        if e_frac + 1 < len {
            assert(s[i + e_frac + 1] == n[e_frac + 1]);
        }
        assert(s.subrange(i, i + len) == n);
        assert(sp_number(s, i) == Some((n, i + len)));
    } else {
        assert(e_frac == len);
        assert(s.subrange(i, i + len) == n);
        assert(sp_number(s, i) == Some((n, i + len)));
    }
}

/// A well-formed document serializes to at least one byte, opening with a
/// value-start character.
pub proof fn lemma_ser_head(v: Jv)
    requires
        wf(v),
    ensures
        ser(v).len() >= 1,
        is_value_start(ser(v)[0]),
{
    match v {
        Jv::Num(n) => {
            assert(sp_number(n, 0) is Some);
            if n[0] != MINUS {
                assert(is_digit(n[0]));
            }
        },
        _ => {},
    }
}

/// Parsing the serialization of a well-formed document out of any surrounding
/// buffer yields exactly that document, provided a separator (or the end)
/// follows it.
pub proof fn lemma_parse_ser(s: Seq<u8>, i: int, v: Jv)
    requires
        wf(v),
        0 <= i,
        i + ser(v).len() <= s.len(),
        s.subrange(i, i + ser(v).len()) == ser(v),
        i + ser(v).len() == s.len() || is_sep(s[i + ser(v).len()]),
    ensures
        sp_value(s, i) == Some((v, i + ser(v).len())),
    decreases v, 0int,
{
    let w = ser(v);
    lemma_window(s, i, w);
    match v {
        Jv::Null => {
            assert(sp_value(s, i) == Some((v, i + 4)));
        },
        Jv::Bool(b) => {
            if b {
                assert(sp_value(s, i) == Some((v, i + 4)));
            } else {
                assert(sp_value(s, i) == Some((v, i + 5)));
            }
        },
        Jv::Num(n) => {
            lemma_sp_number_window(s, i, n);
            assert(n[0] == MINUS || is_digit(n[0]));
            assert(sp_value(s, i) == Some((v, i + w.len())));
        },
        Jv::Str(content) => {
            let body = ser_str_body(content);
            assert(w[0] == QUOTE) by {
                assert(w == seq![QUOTE] + body + seq![QUOTE]);
                assert((seq![QUOTE] + body)[0] == QUOTE);
            }
            assert(s[i + 0] == w[0]);
            assert(s[i] == QUOTE);
            assert(s[i + 1 + body.len() as int] == w[1 + body.len() as int]);
            lemma_subwindow(s, i, w, 1, 1 + body.len() as int);
            assert(w.subrange(1, 1 + body.len() as int) =~= body);
            lemma_parse_ser_str(s, i + 1, content);
            assert(sp_value(s, i) == Some((v, i + w.len())));
        },
        Jv::Arr(elems) => {
            let items = ser_items(elems);
            assert(w[0] == LBRACK) by {
                assert(w == seq![LBRACK] + items + seq![RBRACK]);
                assert((seq![LBRACK] + items)[0] == LBRACK);
            }
            assert(s[i + 0] == w[0]);
            assert(s[i] == LBRACK);
            assert(s[i + 1 + items.len() as int] == w[1 + items.len() as int]);
            assert(s[i + 1 + items.len() as int] == RBRACK);
            if elems.len() == 0 {
                assert(s[i + 1] == RBRACK);
                assert(sp_ws(s, i + 1) == i + 1);
                assert(elems =~= Seq::<Jv>::empty());
                assert(sp_value(s, i) == Some((v, i + 2)));
            } else {
                lemma_subwindow(s, i, w, 1, 1 + items.len() as int);
                assert(w.subrange(1, 1 + items.len() as int) =~= items);
                assert(wf(elems[0]));
                lemma_ser_head(elems[0]);
                assert(items[0] == ser(elems[0])[0]);
                assert(s[i + 1] == items[0]);
                assert(sp_ws(s, i + 1) == i + 1);
                lemma_parse_ser_items(s, i + 1, elems);
                assert(sp_value(s, i) == Some((v, i + w.len())));
            }
        },
        Jv::Obj(pairs) => {
            let entries = ser_entries(pairs);
            assert(w[0] == LBRACE) by {
                assert(w == seq![LBRACE] + entries + seq![RBRACE]);
                assert((seq![LBRACE] + entries)[0] == LBRACE);
            }
            assert(s[i + 0] == w[0]);
            assert(s[i] == LBRACE);
            assert(s[i + 1 + entries.len() as int] == w[1 + entries.len() as int]);
            assert(s[i + 1 + entries.len() as int] == RBRACE);
            if pairs.len() == 0 {
                assert(s[i + 1] == RBRACE);
                assert(sp_ws(s, i + 1) == i + 1);
                assert(pairs =~= Seq::<(Seq<u8>, Jv)>::empty());
                assert(sp_value(s, i) == Some((v, i + 2)));
            } else {
                lemma_subwindow(s, i, w, 1, 1 + entries.len() as int);
                assert(w.subrange(1, 1 + entries.len() as int) =~= entries);
                assert(entries[0] == QUOTE);
                assert(s[i + 1] == QUOTE);
                assert(sp_ws(s, i + 1) == i + 1);
                lemma_parse_ser_entries(s, i + 1, pairs);
                assert(sp_value(s, i) == Some((v, i + w.len())));
            }
        },
    }
}

/// Parsing serialized array elements followed by `]` yields the elements.
pub proof fn lemma_parse_ser_items(s: Seq<u8>, i: int, elems: Seq<Jv>)
    requires
        elems.len() >= 1,
        wf_seq(elems),
        0 <= i,
        i + ser_items(elems).len() + 1 <= s.len(),
        s.subrange(i, i + ser_items(elems).len()) == ser_items(elems),
        s[i + ser_items(elems).len()] == RBRACK,
    ensures
        sp_elems(s, i) == Some((elems, i + ser_items(elems).len() + 1)),
    decreases elems, 1int,
{
    let items = ser_items(elems);
    let ln = items.len() as int;
    lemma_window(s, i, items);
    let v0 = elems[0];
    assert(wf(v0));
    let l0 = ser(v0).len() as int;
    lemma_ser_head(v0);
    if elems.len() == 1 {
        assert(items == ser(v0));
        lemma_parse_ser(s, i, v0);
        assert(sp_value(s, i) == Some((v0, i + l0)));
        assert(past(i, i + l0) == i + l0);
        assert(s[i + l0] == RBRACK);
        assert(sp_ws(s, i + l0) == i + l0);
        assert(seq![v0] =~= elems);
        assert(sp_elems(s, i) == Some((elems, i + ln + 1)));
    } else {
        let rest = elems.drop_first();
        let ritems = ser_items(rest);
        assert(items == ser(v0) + seq![COMMA] + ritems);
        assert forall|m: int| 0 <= m < ln implies s[i + m] == items[m] by {}
        assert(s[i + l0] == items[l0]);
        assert(items[l0] == COMMA);
        lemma_subwindow(s, i, items, 0, l0);
        assert(items.subrange(0, l0) =~= ser(v0));
        lemma_parse_ser(s, i, v0);
        assert(sp_value(s, i) == Some((v0, i + l0)));
        assert(past(i, i + l0) == i + l0);
        assert(sp_ws(s, i + l0) == i + l0);
        // the tail window
        lemma_subwindow(s, i, items, l0 + 1, ln);
        assert(items.subrange(l0 + 1, ln) =~= ritems);
        assert(wf_seq(rest)) by {
            assert(forall|k: int|
                0 <= k < rest.len() ==> #[trigger] rest[k] == elems[k + 1] && wf(elems[k + 1]));
        }
        assert(rest[0] == elems[1]);
        lemma_ser_head(rest[0]);
        assert(ritems[0] == ser(rest[0])[0]);
        assert(s[i + l0 + 1] == items[l0 + 1]);
        assert(items[l0 + 1] == ritems[0]);
        assert(sp_ws(s, i + l0 + 1) == i + l0 + 1);
        assert(s[i + ln] == RBRACK);
        lemma_parse_ser_items(s, i + l0 + 1, rest);
        assert(sp_elems(s, i + l0 + 1) == Some((rest, i + ln + 1)));
        assert(seq![v0] + rest =~= elems);
        assert(sp_elems(s, i) == Some((elems, i + ln + 1)));
    }
}

/// Parsing serialized object entries followed by `}` yields the entries.
#[verifier::rlimit(100)]
pub proof fn lemma_parse_ser_entries(s: Seq<u8>, i: int, pairs: Seq<(Seq<u8>, Jv)>)
    requires
        pairs.len() >= 1,
        wf_pairs(pairs),
        0 <= i,
        i + ser_entries(pairs).len() + 1 <= s.len(),
        s.subrange(i, i + ser_entries(pairs).len()) == ser_entries(pairs),
        s[i + ser_entries(pairs).len()] == RBRACE,
    ensures
        sp_members(s, i) == Some((pairs, i + ser_entries(pairs).len() + 1)),
    decreases pairs, 1int,
{
    let entries = ser_entries(pairs);
    let ln = entries.len() as int;
    lemma_window(s, i, entries);
    let key = pairs[0].0;
    let v0 = pairs[0].1;
    assert(wf(v0));
    let kb = ser_str_body(key);
    let lk = kb.len() as int;
    let l0 = ser(v0).len() as int;
    let q1 = seq![QUOTE] + kb;
    let q2 = q1 + seq![QUOTE, COLON];
    let head = seq![QUOTE] + kb + seq![QUOTE, COLON] + ser(v0);
    let lh = head.len() as int;
    assert(head == q2 + ser(v0));
    assert(lh == 3 + lk + l0);
    lemma_ser_head(v0);
    // where each piece of the head sits
    assert(head[0] == QUOTE) by {
        assert(head[0] == q2[0]);
        assert(q2[0] == q1[0]);
        assert(q1[0] == seq![QUOTE][0]);
    }
    assert forall|m: int| 0 <= m < lk implies head[1 + m] == kb[m] by {
        assert(head[1 + m] == q2[1 + m]);
        assert(q2[1 + m] == q1[1 + m]);
    }
    assert(head[1 + lk] == QUOTE) by {
        assert(head[1 + lk] == q2[1 + lk]);
        assert(q2[1 + lk] == seq![QUOTE, COLON][0]);
    }
    assert(head[2 + lk] == COLON) by {
        assert(head[2 + lk] == q2[2 + lk]);
        assert(q2[2 + lk] == seq![QUOTE, COLON][1]);
    }
    assert forall|m: int| 0 <= m < l0 implies head[3 + lk + m] == ser(v0)[m] by {
        assert(head[3 + lk + m] == (q2 + ser(v0))[3 + lk + m]);
    }
    // the head is a prefix of the entries
    if pairs.len() >= 2 {
        assert(entries == head + seq![COMMA] + ser_entries(pairs.drop_first()));
    }
    assert(entries.subrange(0, lh) =~= head) by {
        assert forall|m: int| 0 <= m < lh implies entries.subrange(0, lh)[m] == head[m] by {
            if pairs.len() >= 2 {
                assert(entries[m] == (head + seq![COMMA] + ser_entries(pairs.drop_first()))[m]);
            }
        }
    }
    assert forall|m: int| 0 <= m < lh implies s[i + m] == head[m] by {
        assert(s[i + m] == entries[m]);
        assert(entries[m] == entries.subrange(0, lh)[m]);
    }
    assert(s[i] == QUOTE);
    // the key string
    lemma_subwindow(s, i, entries, 1, 1 + lk);
    assert(entries.subrange(1, 1 + lk) =~= kb) by {
        assert forall|m: int| 0 <= m < lk implies entries.subrange(1, 1 + lk)[m] == kb[m] by {
            assert(entries.subrange(1, 1 + lk)[m] == entries[1 + m]);
            assert(entries[1 + m] == entries.subrange(0, lh)[1 + m]);
            assert(head[1 + m] == kb[m]);
        }
    }
    assert(s[i + 1 + lk] == QUOTE);
    lemma_parse_ser_str(s, i + 1, key);
    assert(sp_string(s, i + 1) == Some((key, i + 2 + lk)));
    assert(past(i, i + 2 + lk) == i + 2 + lk);
    assert(s[i + 2 + lk] == COLON);
    assert(sp_ws(s, i + 2 + lk) == i + 2 + lk);
    // the value
    assert(s[i + 3 + lk] == ser(v0)[0]);
    assert(sp_ws(s, i + 3 + lk) == i + 3 + lk);
    lemma_subwindow(s, i, entries, 3 + lk, lh);
    assert(entries.subrange(3 + lk, lh) =~= ser(v0)) by {
        assert forall|m: int| 0 <= m < l0 implies entries.subrange(3 + lk, lh)[m] == ser(v0)[m] by {
            assert(entries.subrange(3 + lk, lh)[m] == entries[3 + lk + m]);
            assert(entries[3 + lk + m] == entries.subrange(0, lh)[3 + lk + m]);
            assert(head[3 + lk + m] == ser(v0)[m]);
        }
    }
    if pairs.len() == 1 {
        assert(entries == head);
        assert(s[i + lh] == RBRACE);
        lemma_parse_ser(s, i + 3 + lk, v0);
        assert(sp_value(s, i + 3 + lk) == Some((v0, i + lh)));
        assert(past(i + 3 + lk, i + lh) == i + lh);
        assert(sp_ws(s, i + lh) == i + lh);
        assert(seq![(key, v0)] =~= pairs);
        assert(sp_members(s, i) == Some((pairs, i + ln + 1)));
    } else {
        let rest = pairs.drop_first();
        let rentries = ser_entries(rest);
        assert(s[i + lh] == entries[lh]);
        assert(entries[lh] == COMMA) by {
            assert(entries[lh] == (head + seq![COMMA] + rentries)[lh]);
            assert((head + seq![COMMA])[lh] == seq![COMMA][0]);
        }
        lemma_parse_ser(s, i + 3 + lk, v0);
        assert(sp_value(s, i + 3 + lk) == Some((v0, i + lh)));
        assert(past(i + 3 + lk, i + lh) == i + lh);
        assert(sp_ws(s, i + lh) == i + lh);
        lemma_subwindow(s, i, entries, lh + 1, ln);
        assert(entries.subrange(lh + 1, ln) =~= rentries) by {
            assert forall|m: int| 0 <= m < rentries.len() implies entries.subrange(lh + 1, ln)[m]
                == rentries[m] by {
                assert(entries.subrange(lh + 1, ln)[m] == entries[lh + 1 + m]);
                assert(entries[lh + 1 + m] == (head + seq![COMMA] + rentries)[lh + 1 + m]);
            }
        }
        assert(wf_pairs(rest)) by {
            assert(forall|k: int|
                0 <= k < rest.len() ==> #[trigger] rest[k] == pairs[k + 1] && wf(pairs[k + 1].1));
        }
        assert(rentries[0] == QUOTE) by {
            let rkb = ser_str_body(rest[0].0);
            let rq1 = seq![QUOTE] + rkb;
            let rq2 = rq1 + seq![QUOTE, COLON];
            let rhead = seq![QUOTE] + rkb + seq![QUOTE, COLON] + ser(rest[0].1);
            assert(rhead == rq2 + ser(rest[0].1));
            assert(rhead[0] == QUOTE) by {
                assert(rhead[0] == rq2[0]);
                assert(rq2[0] == rq1[0]);
                assert(rq1[0] == seq![QUOTE][0]);
            }
            if rest.len() >= 2 {
                assert(rentries == rhead + seq![COMMA] + ser_entries(rest.drop_first()));
                assert(rentries[0] == rhead[0]);
            }
        }
        assert(s[i + lh + 1] == entries[lh + 1]);
        assert(entries[lh + 1] == rentries[0]) by {
            assert(entries[lh + 1] == (head + seq![COMMA] + rentries)[lh + 1]);
        }
        assert(sp_ws(s, i + lh + 1) == i + lh + 1);
        assert(s[i + ln] == RBRACE);
        lemma_parse_ser_entries(s, i + lh + 1, rest);
        assert(seq![(key, v0)] + rest =~= pairs);
        assert(sp_members(s, i) == Some((pairs, i + ln + 1)));
    }
}

/// Round trip: parsing the serialization of any well-formed document yields
/// exactly that document.
pub proof fn lemma_json_round_trip(v: Jv)
    requires
        wf(v),
    ensures
        sp_json(ser(v)) == Some(v),
{
    let s = ser(v);
    lemma_ser_head(v);
    assert(s.subrange(0, s.len() as int) =~= s);
    lemma_parse_ser(s, 0, v);
    assert(sp_ws(s, 0) == 0);
    assert(sp_ws(s, s.len() as int) == s.len());
}


// ------------------------------------------------------------------
// Executable serializer
// ------------------------------------------------------------------
/// The serialized elements of an array from position `k` on.
pub open spec fn ser_items_from(elems: Seq<Jv>, k: int) -> Seq<u8>
    decreases elems.len() - k,
{
    if k < 0 || k >= elems.len() {
        Seq::empty()
    } else if k + 1 < elems.len() {
        ser(elems[k]) + seq![COMMA] + ser_items_from(elems, k + 1)
    } else {
        ser(elems[k])
    }
}

/// The serialized entries of an object from position `k` on.
pub open spec fn ser_entries_from(pairs: Seq<(Seq<u8>, Jv)>, k: int) -> Seq<u8>
    decreases pairs.len() - k,
{
    if k < 0 || k >= pairs.len() {
        Seq::empty()
    } else {
        let head = seq![QUOTE] + ser_str_body(pairs[k].0) + seq![QUOTE, COLON] + ser(pairs[k].1);
        if k + 1 < pairs.len() {
            head + seq![COMMA] + ser_entries_from(pairs, k + 1)
        } else {
            head
        }
    }
}

pub proof fn lemma_ser_items_from(elems: Seq<Jv>, k: int)
    requires
        0 <= k <= elems.len(),
    ensures
        ser_items_from(elems, k) == ser_items(elems.subrange(k, elems.len() as int)),
    decreases elems.len() - k,
{
    let sub = elems.subrange(k, elems.len() as int);
    if k < elems.len() {
        lemma_ser_items_from(elems, k + 1);
        assert(sub[0] == elems[k]);
        assert(sub.drop_first() =~= elems.subrange(k + 1, elems.len() as int));
        if k + 1 < elems.len() {
            assert(ser_items(sub) == ser(sub[0]) + seq![COMMA] + ser_items(sub.drop_first()));
        }
    }
}

pub proof fn lemma_ser_entries_from(pairs: Seq<(Seq<u8>, Jv)>, k: int)
    requires
        0 <= k <= pairs.len(),
    ensures
        ser_entries_from(pairs, k) == ser_entries(pairs.subrange(k, pairs.len() as int)),
    decreases pairs.len() - k,
{
    let sub = pairs.subrange(k, pairs.len() as int);
    if k < pairs.len() {
        lemma_ser_entries_from(pairs, k + 1);
        assert(sub[0] == pairs[k]);
        assert(sub.drop_first() =~= pairs.subrange(k + 1, pairs.len() as int));
    }
}

/// Appending one byte appends its escape to a serialized string body.
pub proof fn lemma_body_snoc(content: Seq<u8>, c: u8)
    ensures
        ser_str_body(content.push(c)) == ser_str_body(content) + esc_of(c),
    decreases content.len(),
{
    if content.len() == 0 {
        let p = content.push(c);
        assert(p.len() == 1);
        assert(p[0] == c);
        assert(p.drop_first() =~= Seq::<u8>::empty());
        assert(ser_str_body(p.drop_first()) == Seq::<u8>::empty());
        assert(ser_str_body(p) == esc_of(c) + ser_str_body(p.drop_first()));
        assert(esc_of(c) + Seq::<u8>::empty() =~= esc_of(c));
        assert(ser_str_body(content) == Seq::<u8>::empty());
        assert(ser_str_body(content) + esc_of(c) =~= esc_of(c));
    } else {
        lemma_body_snoc(content.drop_first(), c);
        assert(content.push(c)[0] == content[0]);
        assert(content.push(c).drop_first() =~= content.drop_first().push(c));
        assert(esc_of(content[0]) + (ser_str_body(content.drop_first()) + esc_of(c)) =~= (esc_of(
            content[0],
        ) + ser_str_body(content.drop_first())) + esc_of(c));
    }
}

/// The hexadecimal digit of a value below 16.
fn hex_digit_of(x: u8) -> (r: u8)
    requires
        x < 16,
    ensures
        r == hex_digit(x),
{
    if x < 10 {
        0x30 + x
    } else {
        0x61 + x - 10
    }
}

/// Writes a quoted, escaped string to `out`.
fn write_string(content: &Vec<u8>, out: &mut Vec<u8>)
    ensures
        final(out)@ == old(out)@ + seq![QUOTE] + ser_str_body(content@) + seq![QUOTE],
{
    let base = Ghost(out@);
    out.push(QUOTE);
    let n = content.len();
    let mut i: usize = 0;
    while i < n
        invariant
            n == content@.len(),
            i <= n,
            out@ == base@ + seq![QUOTE] + ser_str_body(content@.subrange(0, i as int)),
        decreases n - i,
    {
        let prev = Ghost(content@.subrange(0, i as int));
        let c = content[i];
        if c == QUOTE {
            out.push(BSLASH);
            out.push(QUOTE);
        } else if c == BSLASH {
            out.push(BSLASH);
            out.push(BSLASH);
        } else if c < 0x20 {
            out.push(BSLASH);
            out.push(0x75);
            out.push(0x30);
            out.push(0x30);
            out.push(hex_digit_of(c / 16));
            out.push(hex_digit_of(c % 16));
        } else {
            out.push(c);
        }
        proof {
            lemma_body_snoc(prev@, c);
            assert(prev@.push(c) =~= content@.subrange(0, i + 1));
            assert(base@ + seq![QUOTE] + (ser_str_body(prev@) + esc_of(c)) =~= (base@ + seq![QUOTE]
                + ser_str_body(prev@)) + esc_of(c));
        }
        i = i + 1;
    }
    out.push(QUOTE);
    proof {
        assert(content@.subrange(0, n as int) =~= content@);
        assert(base@ + seq![QUOTE] + ser_str_body(content@) + seq![QUOTE] =~= (base@ + seq![QUOTE]
            + ser_str_body(content@)) + seq![QUOTE]);
    }
}

/// Writes the compact serialization of `v` to `out`.
#[verifier::loop_isolation(false)]
#[verifier::rlimit(100)]
pub fn write_json(v: &Json, out: &mut Vec<u8>)
    ensures
        final(out)@ == old(out)@ + ser(v.jv()),
    decreases v,
{
    let base = Ghost(out@);
    match v {
        Json::Null => {
            out.push(0x6E);
            out.push(0x75);
            out.push(0x6C);
            out.push(0x6C);
            proof {
                assert(out@ =~= base@ + ser(v.jv()));
            }
        },
        Json::Bool(b) => {
            if *b {
                out.push(0x74);
                out.push(0x72);
                out.push(0x75);
                out.push(0x65);
            } else {
                out.push(0x66);
                out.push(0x61);
                out.push(0x6C);
                out.push(0x73);
                out.push(0x65);
            }
            proof {
                assert(out@ =~= base@ + ser(v.jv()));
            }
        },
        Json::Num(n) => {
            let ln = n.len();
            let mut i: usize = 0;
            while i < ln
                invariant
                    ln == n@.len(),
                    i <= ln,
                    out@ == base@ + n@.subrange(0, i as int),
                decreases ln - i,
            {
                out.push(n[i]);
                proof {
                    assert(n@.subrange(0, i + 1) =~= n@.subrange(0, i as int).push(n@[i as int]));
                    assert(out@ =~= base@ + n@.subrange(0, i + 1));
                }
                i = i + 1;
            }
            proof {
                assert(n@.subrange(0, ln as int) =~= n@);
            }
        },
        Json::Str(content) => {
            write_string(content, out);
            proof {
                assert(base@ + seq![QUOTE] + ser_str_body(content@) + seq![QUOTE] =~= base@ + ser(
                    v.jv(),
                ));
            }
        },
        Json::Arr(elems) => {
            out.push(LBRACK);
            let ghost jvs = Json::jv_seq(elems@);
            proof {
                lemma_jv_seq(elems@);
            }
            let n = elems.len();
            let mut i: usize = 0;
            while i < n
                invariant
                    n == elems@.len(),
                    i <= n,
                    jvs == Json::jv_seq(elems@),
                    jvs.len() == n,
                    forall|k: int| 0 <= k < n ==> jvs[k] == elems@[k].jv(),
                    i == 0 ==> out@ == base@ + seq![LBRACK],
                    0 < i < n ==> out@ + seq![COMMA] + ser_items_from(jvs, i as int) == base@
                        + seq![LBRACK] + ser_items_from(jvs, 0),
                    i == n && n > 0 ==> out@ == base@ + seq![LBRACK] + ser_items_from(jvs, 0),
                decreases n - i,
            {
                let pre = Ghost(out@);
                if i > 0 {
                    out.push(COMMA);
                }
                proof {
                    assert(decreases_to!(*v => v->Arr_0));
                    assert(v->Arr_0 == *elems);
                    assert(decreases_to!(*elems => elems@));
                    assert(decreases_to!(elems@ => elems@[i as int]));
                    assert(decreases_to!(*v => elems@[i as int]));
                }
                write_json(&elems[i], out);
                proof {
                    let tail = ser_items_from(jvs, i as int);
                    assert(tail == if i + 1 < n {
                        ser(jvs[i as int]) + seq![COMMA] + ser_items_from(jvs, i + 1)
                    } else {
                        ser(jvs[i as int])
                    });
                    if i == 0 {
                        assert(out@ =~= pre@ + ser(jvs[0]));
                        if n > 1 {
                            assert(out@ + seq![COMMA] + ser_items_from(jvs, 1) =~= base@
                                + seq![LBRACK] + ser_items_from(jvs, 0));
                        } else {
                            assert(out@ =~= base@ + seq![LBRACK] + ser_items_from(jvs, 0));
                        }
                    } else {
                        assert(out@ =~= pre@ + seq![COMMA] + ser(jvs[i as int]));
                        if i + 1 < n {
                            assert(out@ + seq![COMMA] + ser_items_from(jvs, i + 1) =~= pre@
                                + seq![COMMA] + ser_items_from(jvs, i as int));
                        } else {
                            assert(out@ =~= pre@ + seq![COMMA] + ser_items_from(jvs, i as int));
                        }
                    }
                }
                i = i + 1;
            }
            out.push(RBRACK);
            proof {
                if n == 0 {
                    assert(ser_items(jvs) =~= Seq::<u8>::empty());
                    assert(out@ =~= base@ + ser(v.jv()));
                } else {
                    lemma_ser_items_from(jvs, 0);
                    assert(jvs.subrange(0, n as int) =~= jvs);
                    assert(out@ =~= base@ + ser(v.jv()));
                }
            }
        },
        Json::Obj(pairs) => {
            out.push(LBRACE);
            let ghost jps = Json::jv_pairs(pairs@);
            proof {
                lemma_jv_pairs(pairs@);
            }
            let n = pairs.len();
            let mut i: usize = 0;
            while i < n
                invariant
                    n == pairs@.len(),
                    i <= n,
                    jps == Json::jv_pairs(pairs@),
                    jps.len() == n,
                    forall|k: int|
                        0 <= k < n ==> jps[k] == (pairs@[k].0@, pairs@[k].1.jv()),
                    i == 0 ==> out@ == base@ + seq![LBRACE],
                    0 < i < n ==> out@ + seq![COMMA] + ser_entries_from(jps, i as int) == base@
                        + seq![LBRACE] + ser_entries_from(jps, 0),
                    i == n && n > 0 ==> out@ == base@ + seq![LBRACE] + ser_entries_from(jps, 0),
                decreases n - i,
            {
                let pre = Ghost(out@);
                if i > 0 {
                    out.push(COMMA);
                }
                write_string(&pairs[i].0, out);
                out.push(COLON);
                proof {
                    assert(decreases_to!(*v => v->Obj_0));
                    assert(v->Obj_0 == *pairs);
                    assert(decreases_to!(*pairs => pairs@));
                    assert(decreases_to!(pairs@ => pairs@[i as int]));
                    assert(decreases_to!(pairs@[i as int] => pairs@[i as int].1));
                    assert(decreases_to!(*v => pairs@[i as int].1));
                }
                write_json(&pairs[i].1, out);
                proof {
                    let head = seq![QUOTE] + ser_str_body(jps[i as int].0) + seq![QUOTE, COLON]
                        + ser(jps[i as int].1);
                    let comma: Seq<u8> = if i > 0 {
                        seq![COMMA]
                    } else {
                        Seq::empty()
                    };
                    assert(out@ =~= pre@ + comma + head);
                    let tail = ser_entries_from(jps, i as int);
                    assert(tail == if i + 1 < n {
                        head + seq![COMMA] + ser_entries_from(jps, i + 1)
                    } else {
                        head
                    });
                    if i == 0 {
                        if n > 1 {
                            assert(out@ + seq![COMMA] + ser_entries_from(jps, 1) =~= base@
                                + seq![LBRACE] + ser_entries_from(jps, 0));
                        } else {
                            assert(out@ =~= base@ + seq![LBRACE] + ser_entries_from(jps, 0));
                        }
                    } else {
                        if i + 1 < n {
                            assert(out@ + seq![COMMA] + ser_entries_from(jps, i + 1) =~= pre@
                                + seq![COMMA] + ser_entries_from(jps, i as int));
                        } else {
                            assert(out@ =~= pre@ + seq![COMMA] + ser_entries_from(jps, i as int));
                        }
                    }
                }
                i = i + 1;
            }
            out.push(RBRACE);
            proof {
                if n == 0 {
                    assert(ser_entries(jps) =~= Seq::<u8>::empty());
                    assert(out@ =~= base@ + ser(v.jv()));
                } else {
                    lemma_ser_entries_from(jps, 0);
                    assert(jps.subrange(0, n as int) =~= jps);
                    assert(out@ =~= base@ + ser(v.jv()));
                }
            }
        },
    }
}

/// The compact serialization of a document.
pub fn json_to_bytes(v: &Json) -> (r: Vec<u8>)
    ensures
        r@ == ser(v.jv()),
{
    let mut out: Vec<u8> = Vec::new();
    write_json(v, &mut out);
    proof {
        assert(Seq::<u8>::empty() + ser(v.jv()) =~= ser(v.jv()));
    }
    out
}


// ------------------------------------------------------------------
// Executable parser
// ------------------------------------------------------------------
pub open spec fn str_compose(acc: Seq<u8>, r: Option<(Seq<u8>, int)>) -> Option<(Seq<u8>, int)> {
    match r {
        Some((rest, e)) => Some((acc + rest, e)),
        None => None,
    }
}

pub open spec fn elems_compose(acc: Seq<Jv>, r: Option<(Seq<Jv>, int)>) -> Option<
    (Seq<Jv>, int),
> {
    match r {
        Some((rest, e)) => Some((acc + rest, e)),
        None => None,
    }
}

pub open spec fn pairs_compose(acc: Seq<(Seq<u8>, Jv)>, r: Option<(Seq<(Seq<u8>, Jv)>, int)>)
    -> Option<(Seq<(Seq<u8>, Jv)>, int)> {
    match r {
        Some((rest, e)) => Some((acc + rest, e)),
        None => None,
    }
}

fn is_ws_of(c: u8) -> (r: bool)
    ensures
        r == is_ws(c),
{
    c == 0x20 || c == 0x09 || c == 0x0A || c == 0x0D
}

fn is_digit_of(c: u8) -> (r: bool)
    ensures
        r == is_digit(c),
{
    0x30 <= c && c <= 0x39
}

fn is_hex_of(c: u8) -> (r: bool)
    ensures
        r == is_hex(c),
{
    (0x30 <= c && c <= 0x39) || (0x41 <= c && c <= 0x46) || (0x61 <= c && c <= 0x66)
}

fn hex_val_of(c: u8) -> (r: u8)
    requires
        is_hex(c),
    ensures
        r == hex_val(c),
{
    if 0x30 <= c && c <= 0x39 {
        c - 0x30
    } else if 0x41 <= c && c <= 0x46 {
        c - 0x41 + 10
    } else {
        c - 0x61 + 10
    }
}

fn esc_char_of(d: u8) -> (r: Option<u8>)
    ensures
        r == esc_char(d),
{
    if d == QUOTE {
        Some(QUOTE)
    } else if d == BSLASH {
        Some(BSLASH)
    } else if d == SLASH {
        Some(SLASH)
    } else if d == 0x62 {
        Some(0x08)
    } else if d == 0x66 {
        Some(0x0C)
    } else if d == 0x6E {
        Some(0x0A)
    } else if d == 0x72 {
        Some(0x0D)
    } else if d == 0x74 {
        Some(0x09)
    } else {
        None
    }
}

/// Skips whitespace.
#[verifier::loop_isolation(false)]
fn p_ws(s: &[u8], i: usize) -> (r: usize)
    requires
        i <= s@.len(),
    ensures
        r == sp_ws(s@, i as int),
        i <= r <= s@.len(),
{
    let mut cur = i;
    while cur < s.len() && is_ws_of(s[cur])
        invariant
            i <= cur <= s@.len(),
            sp_ws(s@, i as int) == sp_ws(s@, cur as int),
        decreases s@.len() - cur,
    {
        cur = cur + 1;
    }
    cur
}

/// Skips decimal digits.
#[verifier::loop_isolation(false)]
fn p_digits(s: &[u8], i: usize) -> (r: usize)
    requires
        i <= s@.len(),
    ensures
        r == sp_digits(s@, i as int),
        i <= r <= s@.len(),
{
    let mut cur = i;
    while cur < s.len() && is_digit_of(s[cur])
        invariant
            i <= cur <= s@.len(),
            sp_digits(s@, i as int) == sp_digits(s@, cur as int),
        decreases s@.len() - cur,
    {
        cur = cur + 1;
    }
    cur
}

/// Copies `s[a..b]` out.
#[verifier::loop_isolation(false)]
pub fn copy_range(s: &[u8], a: usize, b: usize) -> (r: Vec<u8>)
    requires
        a <= b <= s@.len(),
    ensures
        r@ == s@.subrange(a as int, b as int),
{
    let mut out: Vec<u8> = Vec::new();
    let mut cur = a;
    while cur < b
        invariant
            a <= cur <= b,
            out@ == s@.subrange(a as int, cur as int),
        decreases b - cur,
    {
        out.push(s[cur]);
        proof {
            assert(s@.subrange(a as int, cur + 1) =~= s@.subrange(a as int, cur as int).push(
                s@[cur as int],
            ));
        }
        cur = cur + 1;
    }
    out
}

/// Copies a byte string.
pub fn copy_bytes(v: &Vec<u8>) -> (r: Vec<u8>)
    ensures
        r@ == v@,
{
    let r = copy_range(v.as_slice(), 0, v.len());
    proof {
        assert(v@.subrange(0, v@.len() as int) =~= v@);
    }
    r
}

/// Parses a string body after the opening quote.
#[verifier::loop_isolation(false)]
#[verifier::rlimit(100)]
fn p_string(s: &[u8], i: usize) -> (r: Option<(Vec<u8>, usize)>)
    requires
        i <= s@.len(),
    ensures
        match r {
            Some((content, e)) => sp_string(s@, i as int) == Some((content@, e as int)) && i < e
                <= s@.len(),
            None => sp_string(s@, i as int) is None,
        },
{
    let mut acc: Vec<u8> = Vec::new();
    let mut cur = i;
    loop
        invariant
            i <= cur <= s@.len(),
            sp_string(s@, i as int) == str_compose(acc@, sp_string(s@, cur as int)),
        decreases s@.len() - cur,
    {
        if cur >= s.len() {
            return None;
        }
        let c = s[cur];
        if c == QUOTE {
            proof {
                assert(acc@ + Seq::<u8>::empty() =~= acc@);
            }
            return Some((acc, cur + 1));
        } else if c == BSLASH {
            if s.len() - cur < 2 {
                return None;
            }
            let d = s[cur + 1];
            match esc_char_of(d) {
                Some(u) => {
                    let prev = Ghost(acc@);
                    acc.push(u);
                    proof {
                        assert forall|rr: Option<(Seq<u8>, int)>|
                            str_compose(prev@, str_compose(seq![u], rr)) == str_compose(
                                acc@,
                                rr,
                            ) by {
                            match rr {
                                Some((rest, e)) => {
                                    assert(prev@ + (seq![u] + rest) =~= (prev@ + seq![u]) + rest);
                                    assert(prev@ + seq![u] =~= acc@);
                                },
                                None => {},
                            }
                        }
                    }
                    cur = cur + 2;
                },
                None => {
                    if d == 0x75 {
                        if s.len() - cur < 6 {
                            return None;
                        }
                        if !(s[cur + 2] == 0x30 && s[cur + 3] == 0x30) {
                            return None;
                        }
                        let h1 = s[cur + 4];
                        let h2 = s[cur + 5];
                        if !(is_hex_of(h1) && is_hex_of(h2)) {
                            return None;
                        }
                        let v1 = hex_val_of(h1);
                        if v1 >= 8 {
                            return None;
                        }
                        let u = v1 * 16 + hex_val_of(h2);
                        let prev = Ghost(acc@);
                        acc.push(u);
                        proof {
                            assert(u == (hex_val(s@[cur + 4]) * 16 + hex_val(s@[cur + 5])) as u8);
                            assert forall|rr: Option<(Seq<u8>, int)>|
                                str_compose(prev@, str_compose(seq![u], rr)) == str_compose(
                                    acc@,
                                    rr,
                                ) by {
                                match rr {
                                    Some((rest, e)) => {
                                        assert(prev@ + (seq![u] + rest) =~= (prev@ + seq![u])
                                            + rest);
                                        assert(prev@ + seq![u] =~= acc@);
                                    },
                                    None => {},
                                }
                            }
                        }
                        cur = cur + 6;
                    } else {
                        return None;
                    }
                },
            }
        } else if c < 0x20 {
            return None;
        } else {
            let prev = Ghost(acc@);
            acc.push(c);
            proof {
                assert forall|rr: Option<(Seq<u8>, int)>|
                    str_compose(prev@, str_compose(seq![c], rr)) == str_compose(acc@, rr) by {
                    match rr {
                        Some((rest, e)) => {
                            assert(prev@ + (seq![c] + rest) =~= (prev@ + seq![c]) + rest);
                            assert(prev@ + seq![c] =~= acc@);
                        },
                        None => {},
                    }
                }
            }
            cur = cur + 1;
        }
    }
}

/// Parses a number lexeme.
#[verifier::loop_isolation(false)]
#[verifier::rlimit(100)]
fn p_number(s: &[u8], i: usize) -> (r: Option<(Vec<u8>, usize)>)
    requires
        i <= s@.len(),
    ensures
        match r {
            Some((lex, e)) => sp_number(s@, i as int) == Some((lex@, e as int)) && i < e
                <= s@.len(),
            None => sp_number(s@, i as int) is None,
        },
{
    if i >= s.len() {
        return None;
    }
    let i1 = if s[i] == MINUS {
        i + 1
    } else {
        i
    };
    if i1 >= s.len() {
        return None;
    }
    if !is_digit_of(s[i1]) {
        return None;
    }
    let e_int = if s[i1] == 0x30 {
        i1 + 1
    } else {
        p_digits(s, i1)
    };
    proof {
        lemma_sp_digits_bounds(s@, i1 as int);
        lemma_sp_digits_bounds(s@, i1 + 1);
        assert(sp_digits(s@, i1 as int) == sp_digits(s@, i1 + 1));
        assert(e_int > i1);
    }
    let e_frac = if e_int < s.len() && s[e_int] == DOT {
        let d = p_digits(s, e_int + 1);
        if d > e_int + 1 {
            d
        } else {
            return None;
        }
    } else {
        e_int
    };
    let e_all = if e_frac < s.len() && (s[e_frac] == 0x65 || s[e_frac] == 0x45) {
        let i_exp = if e_frac + 1 < s.len() && (s[e_frac + 1] == PLUS || s[e_frac + 1] == MINUS) {
            e_frac + 2
        } else {
            e_frac + 1
        };
        let d = p_digits(s, i_exp);
        if d > i_exp {
            d
        } else {
            return None;
        }
    } else {
        e_frac
    };
    let lex = copy_range(s, i, e_all);
    Some((lex, e_all))
}

/// Pushing a document onto a sequence extends the models by its model.
pub proof fn lemma_jv_seq_push(elems: Seq<Json>, v: Json)
    ensures
        Json::jv_seq(elems.push(v)) == Json::jv_seq(elems).push(v.jv()),
{
    lemma_jv_seq(elems.push(v));
    lemma_jv_seq(elems);
    assert(Json::jv_seq(elems.push(v)) =~= Json::jv_seq(elems).push(v.jv()));
}

/// Pushing a pair onto a sequence extends the models by its model.
pub proof fn lemma_jv_pairs_push(pairs: Seq<(Vec<u8>, Json)>, key: Vec<u8>, v: Json)
    ensures
        Json::jv_pairs(pairs.push((key, v))) == Json::jv_pairs(pairs).push((key@, v.jv())),
{
    lemma_jv_pairs(pairs.push((key, v)));
    lemma_jv_pairs(pairs);
    assert(Json::jv_pairs(pairs.push((key, v))) =~= Json::jv_pairs(pairs).push((key@, v.jv())));
}

/// Parses one value starting exactly at `i`.
#[verifier::loop_isolation(false)]
#[verifier::rlimit(100)]
fn p_value(s: &[u8], i: usize) -> (r: Option<(Json, usize)>)
    requires
        i <= s@.len(),
    ensures
        match r {
            Some((v, e)) => sp_value(s@, i as int) == Some((v.jv(), e as int)) && i < e
                <= s@.len(),
            None => sp_value(s@, i as int) is None,
        },
    decreases s@.len() - i,
{
    if i >= s.len() {
        return None;
    }
    let c = s[i];
    if c == 0x6E {
        if s.len() - i >= 4 && s[i + 1] == 0x75 && s[i + 2] == 0x6C && s[i + 3] == 0x6C {
            Some((Json::Null, i + 4))
        } else {
            None
        }
    } else if c == 0x74 {
        if s.len() - i >= 4 && s[i + 1] == 0x72 && s[i + 2] == 0x75 && s[i + 3] == 0x65 {
            Some((Json::Bool(true), i + 4))
        } else {
            None
        }
    } else if c == 0x66 {
        if s.len() - i >= 5 && s[i + 1] == 0x61 && s[i + 2] == 0x6C && s[i + 3] == 0x73 && s[i + 4]
            == 0x65 {
            Some((Json::Bool(false), i + 5))
        } else {
            None
        }
    } else if c == QUOTE {
        match p_string(s, i + 1) {
            Some((content, e)) => Some((Json::Str(content), e)),
            None => None,
        }
    } else if c == MINUS || is_digit_of(c) {
        match p_number(s, i) {
            Some((lex, e)) => Some((Json::Num(lex), e)),
            None => None,
        }
    } else if c == LBRACK {
        let j0 = p_ws(s, i + 1);
        if j0 < s.len() && s[j0] == RBRACK {
            let elems: Vec<Json> = Vec::new();
            proof {
                assert(elems@ =~= Seq::<Json>::empty());
                assert(Json::jv_seq(elems@) =~= Seq::<Jv>::empty());
            }
            return Some((Json::Arr(elems), j0 + 1));
        }
        let mut acc: Vec<Json> = Vec::new();
        let mut cur = j0;
        loop
            invariant
                i < cur <= s@.len(),
                sp_elems(s@, j0 as int) == elems_compose(
                    Json::jv_seq(acc@),
                    sp_elems(s@, cur as int),
                ),
            decreases s@.len() - cur,
        {
            match p_value(s, cur) {
                None => {
                    return None;
                },
                Some((v, e)) => {
                    proof {
                        assert(past(cur as int, e as int) == e as int);
                    }
                    let k = p_ws(s, e);
                    if k < s.len() && s[k] == COMMA {
                        let j2 = p_ws(s, k + 1);
                        let prev = Ghost(acc@);
                        acc.push(v);
                        proof {
                            lemma_jv_seq_push(prev@, v);
                            let pr = sp_elems(s@, j2 as int);
                            if pr is Some {
                                let rest = pr->Some_0.0;
                                assert(Json::jv_seq(prev@) + (seq![v.jv()] + rest) =~= (
                                Json::jv_seq(prev@) + seq![v.jv()]) + rest);
                                assert(Json::jv_seq(prev@) + seq![v.jv()] =~= Json::jv_seq(acc@));
                            }
                        }
                        cur = j2;
                    } else if k < s.len() && s[k] == RBRACK {
                        let prev = Ghost(acc@);
                        acc.push(v);
                        proof {
                            lemma_jv_seq_push(prev@, v);
                            assert(sp_elems(s@, cur as int) == Some((seq![v.jv()], k + 1)));
                            assert(Json::jv_seq(prev@) + seq![v.jv()] =~= Json::jv_seq(acc@));
                        }
                        return Some((Json::Arr(acc), k + 1));
                    } else {
                        return None;
                    }
                },
            }
        }
    } else if c == LBRACE {
        let j0 = p_ws(s, i + 1);
        if j0 < s.len() && s[j0] == RBRACE {
            let pairs: Vec<(Vec<u8>, Json)> = Vec::new();
            proof {
                assert(pairs@ =~= Seq::<(Vec<u8>, Json)>::empty());
                assert(Json::jv_pairs(pairs@) =~= Seq::<(Seq<u8>, Jv)>::empty());
            }
            return Some((Json::Obj(pairs), j0 + 1));
        }
        let mut acc: Vec<(Vec<u8>, Json)> = Vec::new();
        let mut cur = j0;
        loop
            invariant
                i < cur <= s@.len(),
                sp_members(s@, j0 as int) == pairs_compose(
                    Json::jv_pairs(acc@),
                    sp_members(s@, cur as int),
                ),
            decreases s@.len() - cur,
        {
            if !(cur < s.len() && s[cur] == QUOTE) {
                return None;
            }
            match p_string(s, cur + 1) {
                None => {
                    return None;
                },
                Some((key, ek)) => {
                    proof {
                        assert(past(cur as int, ek as int) == ek as int);
                    }
                    let k1 = p_ws(s, ek);
                    if !(k1 < s.len() && s[k1] == COLON) {
                        return None;
                    }
                    let j = p_ws(s, k1 + 1);
                    match p_value(s, j) {
                        None => {
                            return None;
                        },
                        Some((v, e)) => {
                            proof {
                                assert(past(j as int, e as int) == e as int);
                            }
                            let k = p_ws(s, e);
                            if k < s.len() && s[k] == COMMA {
                                let j3 = p_ws(s, k + 1);
                                let prev = Ghost(acc@);
                                let gkey = Ghost(key@);
                                let gv = Ghost(v.jv());
                                acc.push((key, v));
                                proof {
                                    lemma_jv_pairs_push(prev@, acc@[acc@.len() - 1].0, acc@[
                                        acc@.len() - 1].1);
                                    let pr = sp_members(s@, j3 as int);
                                    if pr is Some {
                                        let rest = pr->Some_0.0;
                                        assert(Json::jv_pairs(prev@) + (seq![(gkey@, gv@)] + rest)
                                            =~= (Json::jv_pairs(prev@) + seq![(gkey@, gv@)])
                                            + rest);
                                        assert(Json::jv_pairs(prev@) + seq![(gkey@, gv@)]
                                            =~= Json::jv_pairs(acc@));
                                    }
                                }
                                cur = j3;
                            } else if k < s.len() && s[k] == RBRACE {
                                let prev = Ghost(acc@);
                                let gkey = Ghost(key@);
                                let gv = Ghost(v.jv());
                                acc.push((key, v));
                                proof {
                                    lemma_jv_pairs_push(prev@, acc@[acc@.len() - 1].0, acc@[
                                        acc@.len() - 1].1);
                                    assert(sp_members(s@, cur as int) == Some(
                                        (seq![(gkey@, gv@)], k + 1),
                                    ));
                                    assert(Json::jv_pairs(prev@) + seq![(gkey@, gv@)]
                                        =~= Json::jv_pairs(acc@));
                                }
                                return Some((Json::Obj(acc), k + 1));
                            } else {
                                return None;
                            }
                        },
                    }
                },
            }
        }
    } else {
        None
    }
}

/// Parses a whole document: one value, possibly surrounded by whitespace.
/// What it returns is always well-formed, so it serializes back to a
/// parseable document.
pub fn parse_json(s: &[u8]) -> (r: Option<Json>)
    ensures
        match r {
            Some(v) => sp_json(s@) == Some(v.jv()) && wf(v.jv()),
            None => sp_json(s@) is None,
        },
{
    let j = p_ws(s, 0);
    match p_value(s, j) {
        Some((v, e)) => {
            let k = p_ws(s, e);
            if k == s.len() {
                proof {
                    lemma_sp_json_wf(s@);
                }
                Some(v)
            } else {
                None
            }
        },
        None => None,
    }
}


// ------------------------------------------------------------------
// Every parsed document is well-formed
// ------------------------------------------------------------------
/// A parsed number lexeme is itself exactly a number lexeme.
#[verifier::rlimit(100)]
pub proof fn lemma_sp_number_self(s: Seq<u8>, i: int, lex: Seq<u8>, e: int)
    requires
        sp_number(s, i) == Some((lex, e)),
    ensures
        num_ok(lex),
{
    let len = e - i;
    // the structure of the parse on `s`
    assert(0 <= i && i < s.len());
    let i1 = if s[i] == MINUS {
        i + 1
    } else {
        i
    };
    assert(i1 < s.len() && is_digit(s[i1]));
    let e_int = if s[i1] == 0x30 {
        i1 + 1
    } else {
        sp_digits(s, i1)
    };
    lemma_sp_digits_run(s, i1);
    lemma_sp_digits_bounds(s, i1);
    let dotn = e_int < s.len() && s[e_int] == DOT;
    let e_frac = if dotn {
        sp_digits(s, e_int + 1)
    } else {
        e_int
    };
    if dotn {
        assert(sp_digits(s, e_int + 1) > e_int + 1);
        lemma_sp_digits_run(s, e_int + 1);
        lemma_sp_digits_bounds(s, e_int + 1);
    }
    let expn = e_frac < s.len() && (s[e_frac] == 0x65 || s[e_frac] == 0x45);
    let i_exp = if expn {
        if e_frac + 1 < s.len() && (s[e_frac + 1] == PLUS || s[e_frac + 1] == MINUS) {
            e_frac + 2
        } else {
            e_frac + 1
        }
    } else {
        e_frac
    };
    if expn {
        assert(sp_digits(s, i_exp) == e && e > i_exp);
        lemma_sp_digits_run(s, i_exp);
        lemma_sp_digits_bounds(s, i_exp);
    } else {
        assert(e == e_frac);
    }
    assert(lex == s.subrange(i, e));
    assert(lex.len() == len);
    assert(forall|m: int| 0 <= m < len ==> #[trigger] lex[m] == s[i + m]);
    // now run the parse on `lex` itself
    let l1 = if lex[0] == MINUS {
        1int
    } else {
        0int
    };
    assert(l1 == i1 - i);
    assert(is_digit(lex[l1]));
    assert(e_int <= e);
    let le_int = if lex[l1] == 0x30 {
        l1 + 1
    } else {
        sp_digits(lex, l1)
    };
    if lex[l1] != 0x30 {
        assert forall|k: int| l1 <= k < e_int - i implies is_digit(#[trigger] lex[k]) by {
            assert(lex[k] == s[i + k]);
        }
        if e_int - i < len {
            assert(lex[e_int - i] == s[e_int]);
            lemma_sp_digits_stop(lex, l1, e_int - i);
        } else {
            lemma_sp_digits_stop(lex, l1, e_int - i);
        }
    }
    assert(le_int == e_int - i);
    let ldot = le_int < len && lex[le_int] == DOT;
    assert(ldot == dotn);
    let le_frac = if ldot {
        sp_digits(lex, le_int + 1)
    } else {
        le_int
    };
    if ldot {
        assert forall|k: int| le_int + 1 <= k < e_frac - i implies is_digit(
            #[trigger] lex[k],
        ) by {
            assert(lex[k] == s[i + k]);
        }
        if e_frac - i < len {
            assert(lex[e_frac - i] == s[e_frac]);
        }
        lemma_sp_digits_stop(lex, le_int + 1, e_frac - i);
        assert(le_frac == e_frac - i);
        assert(le_frac > le_int + 1);
    }
    assert(le_frac == e_frac - i);
    let lexp = le_frac < len && (lex[le_frac] == 0x65 || lex[le_frac] == 0x45);
    assert(lexp == expn);
    if lexp {
        let li_exp = if le_frac + 1 < len && (lex[le_frac + 1] == PLUS || lex[le_frac + 1]
            == MINUS) {
            le_frac + 2
        } else {
            le_frac + 1
        };
        assert(e_frac + 1 < e);
        assert(lex[le_frac + 1] == s[e_frac + 1]);
        assert(li_exp == i_exp - i);
        assert forall|k: int| li_exp <= k < len implies is_digit(#[trigger] lex[k]) by {
            assert(lex[k] == s[i + k]);
        }
        lemma_sp_digits_stop(lex, li_exp, len);
        assert(lex.subrange(0, len) =~= lex);
        assert(sp_number(lex, 0) == Some((lex, len)));
    } else {
        assert(le_frac == len);
        assert(lex.subrange(0, len) =~= lex);
        assert(sp_number(lex, 0) == Some((lex, len)));
    }
}

/// A parsed value is well-formed.
pub proof fn lemma_sp_value_wf(s: Seq<u8>, i: int)
    requires
        sp_value(s, i) is Some,
    ensures
        wf(sp_value(s, i)->Some_0.0),
    decreases s.len() - i, 1int,
{
    let v = sp_value(s, i)->Some_0.0;
    let c = s[i];
    if c == QUOTE || c == 0x6E || c == 0x74 || c == 0x66 {
    } else if c == MINUS || is_digit(c) {
        let r = sp_number(s, i);
        lemma_sp_number_self(s, i, r->Some_0.0, r->Some_0.1);
    } else if c == LBRACK {
        let j = sp_ws(s, i + 1);
        lemma_sp_ws_bounds(s, i + 1);
        if j < s.len() && s[j] == RBRACK {
            assert(wf_seq(Seq::<Jv>::empty()));
        } else {
            lemma_sp_elems_wf(s, j);
        }
    } else if c == LBRACE {
        let j = sp_ws(s, i + 1);
        lemma_sp_ws_bounds(s, i + 1);
        if j < s.len() && s[j] == RBRACE {
            assert(wf_pairs(Seq::<(Seq<u8>, Jv)>::empty()));
        } else {
            lemma_sp_members_wf(s, j);
        }
    }
}

/// Parsed array elements are all well-formed.
pub proof fn lemma_sp_elems_wf(s: Seq<u8>, i: int)
    requires
        sp_elems(s, i) is Some,
    ensures
        wf_seq(sp_elems(s, i)->Some_0.0),
    decreases s.len() - i, 2int,
{
    let r0 = sp_value(s, i);
    lemma_sp_value_wf(s, i);
    let v = r0->Some_0.0;
    let e = past(i, r0->Some_0.1);
    let k = sp_ws(s, e);
    lemma_sp_ws_bounds(s, e);
    if k < s.len() && s[k] == COMMA {
        let j = sp_ws(s, k + 1);
        lemma_sp_ws_bounds(s, k + 1);
        lemma_sp_elems_wf(s, j);
        let rest = sp_elems(s, j)->Some_0.0;
        assert forall|m: int| 0 <= m < (seq![v] + rest).len() implies wf(
            #[trigger] (seq![v] + rest)[m],
        ) by {
            if m == 0 {
                assert((seq![v] + rest)[0] == v);
            } else {
                assert((seq![v] + rest)[m] == rest[m - 1]);
            }
        }
    } else {
        assert forall|m: int| 0 <= m < seq![v].len() implies wf(#[trigger] seq![v][m]) by {
            assert(seq![v][0] == v);
        }
    }
}

/// Parsed object entries hold well-formed values.
pub proof fn lemma_sp_members_wf(s: Seq<u8>, i: int)
    requires
        sp_members(s, i) is Some,
    ensures
        wf_pairs(sp_members(s, i)->Some_0.0),
    decreases s.len() - i, 2int,
{
    let rk = sp_string(s, i + 1);
    let key = rk->Some_0.0;
    let ek = past(i, rk->Some_0.1);
    let k1 = sp_ws(s, ek);
    lemma_sp_ws_bounds(s, ek);
    let j = sp_ws(s, k1 + 1);
    lemma_sp_ws_bounds(s, k1 + 1);
    let r0 = sp_value(s, j);
    lemma_sp_value_wf(s, j);
    let v = r0->Some_0.0;
    let e = past(j, r0->Some_0.1);
    let k = sp_ws(s, e);
    lemma_sp_ws_bounds(s, e);
    if k < s.len() && s[k] == COMMA {
        let j2 = sp_ws(s, k + 1);
        lemma_sp_ws_bounds(s, k + 1);
        lemma_sp_members_wf(s, j2);
        let rest = sp_members(s, j2)->Some_0.0;
        let whole = seq![(key, v)] + rest;
        assert forall|m: int| 0 <= m < whole.len() implies wf(#[trigger] whole[m].1) by {
            if m == 0 {
                assert(whole[0] == (key, v));
            } else {
                assert(whole[m] == rest[m - 1]);
            }
        }
    } else {
        let whole = seq![(key, v)];
        assert forall|m: int| 0 <= m < whole.len() implies wf(#[trigger] whole[m].1) by {
            assert(whole[0] == (key, v));
        }
    }
}

/// A whole parsed document is well-formed.
pub proof fn lemma_sp_json_wf(s: Seq<u8>)
    requires
        sp_json(s) is Some,
    ensures
        wf(sp_json(s)->Some_0),
{
    lemma_sp_value_wf(s, sp_ws(s, 0));
}

} // verus!
