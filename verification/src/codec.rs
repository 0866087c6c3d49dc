//! The JSON wire codec for peer summaries.
//!
//! A summary travels as one JSON object with the four fields
//! `remote_addr`, `listen_addr`, `node_id`, `uname`; an absent field is
//! encoded as an explicit `null`, and decoders also accept it being
//! omitted.  The encoder escapes `"`, `\`, every control character and
//! also `;`, so that an encoded summary never contains a semicolon or
//! a newline: PEERS frames join summaries with `;` and the transport
//! frames lines with `\n`.  The decoder accepts standard JSON string
//! escapes, surrounding whitespace, and the fields in any order.

use vstd::prelude::*;
use vstd::utf8::is_scalar;

use crate::strutil::{char_from_u32, chars_to_string, str_to_chars};
use crate::summary::{PeerSummary, SummaryView};

verus! {

// ---------------------------------------------------------------------------
// Encoding, as a mathematical function.
// ---------------------------------------------------------------------------
/// The lower-case hexadecimal digit of a value below 16.
pub open spec fn hex_digit_char(n: int) -> char {
    if n == 0 {
        '0'
    } else if n == 1 {
        '1'
    } else if n == 2 {
        '2'
    } else if n == 3 {
        '3'
    } else if n == 4 {
        '4'
    } else if n == 5 {
        '5'
    } else if n == 6 {
        '6'
    } else if n == 7 {
        '7'
    } else if n == 8 {
        '8'
    } else if n == 9 {
        '9'
    } else if n == 10 {
        'a'
    } else if n == 11 {
        'b'
    } else if n == 12 {
        'c'
    } else if n == 13 {
        'd'
    } else if n == 14 {
        'e'
    } else {
        'f'
    }
}

/// A character the encoder emits unescaped.
pub open spec fn is_direct_char(c: char) -> bool {
    c != '"' && c != '\\' && c != ';' && (c as u32) >= 0x20
}

/// The encoding of one character inside a JSON string.
pub open spec fn escaped_char(c: char) -> Seq<char> {
    if c == '"' {
        seq!['\\', '"']
    } else if c == '\\' {
        seq!['\\', '\\']
    } else if c == '\n' {
        seq!['\\', 'n']
    } else if c == '\r' {
        seq!['\\', 'r']
    } else if c == '\t' {
        seq!['\\', 't']
    } else if !is_direct_char(c) {
        seq![
            '\\',
            'u',
            '0',
            '0',
            hex_digit_char((c as u32) as int / 16),
            hex_digit_char((c as u32) as int % 16),
        ]
    } else {
        seq![c]
    }
}

/// The body of a JSON string: every character escaped as needed.
pub open spec fn escape_seq(s: Seq<char>) -> Seq<char>
    decreases s.len(),
{
    if s.len() == 0 {
        Seq::empty()
    } else {
        escaped_char(s[0]) + escape_seq(s.drop_first())
    }
}

/// The four characters of the JSON `null` literal.
pub open spec fn null_chars() -> Seq<char> {
    seq!['n', 'u', 'l', 'l']
}

/// The encoding of an optional string field value.
pub open spec fn enc_opt_str(v: Option<Seq<char>>) -> Seq<char> {
    match v {
        None => null_chars(),
        Some(s) => seq!['"'] + escape_seq(s) + seq!['"'],
    }
}

/// The field names, as character sequences.
pub open spec fn key_remote_addr() -> Seq<char> {
    seq!['r', 'e', 'm', 'o', 't', 'e', '_', 'a', 'd', 'd', 'r']
}

pub open spec fn key_listen_addr() -> Seq<char> {
    seq!['l', 'i', 's', 't', 'e', 'n', '_', 'a', 'd', 'd', 'r']
}

pub open spec fn key_node_id() -> Seq<char> {
    seq!['n', 'o', 'd', 'e', '_', 'i', 'd']
}

pub open spec fn key_uname() -> Seq<char> {
    seq!['u', 'n', 'a', 'm', 'e']
}

/// One `"key":value` member.
pub open spec fn enc_field(key: Seq<char>, v: Option<Seq<char>>) -> Seq<char> {
    seq!['"'] + key + seq!['"', ':'] + enc_opt_str(v)
}

/// The complete encoding of a summary: the four members in declaration
/// order, inside one object, with no added whitespace.
pub open spec fn enc_summary(s: SummaryView) -> Seq<char> {
    seq!['{'] + enc_field(key_remote_addr(), s.remote_addr) + seq![','] + enc_field(
        key_listen_addr(),
        s.listen_addr,
    ) + seq![','] + enc_field(key_node_id(), s.node_id) + seq![','] + enc_field(
        key_uname(),
        s.uname,
    ) + seq!['}']
}

// ---------------------------------------------------------------------------
// The executable encoder.
// ---------------------------------------------------------------------------
/// `escape_seq` distributes over concatenation.
proof fn lemma_escape_append(a: Seq<char>, b: Seq<char>)
    ensures
        escape_seq(a + b) == escape_seq(a) + escape_seq(b),
    decreases a.len(),
{
    if a.len() == 0 {
        assert(a + b =~= b);
        assert(escape_seq(a) + escape_seq(b) =~= escape_seq(b));
    } else {
        assert((a + b).drop_first() =~= a.drop_first() + b);
        lemma_escape_append(a.drop_first(), b);
        assert(escape_seq(a) + escape_seq(b) =~= escaped_char(a[0]) + (escape_seq(a.drop_first())
            + escape_seq(b)));
    }
}

/// The lower-case hexadecimal digit of `n`.
fn hex_digit(n: u32) -> (c: char)
    requires
        n < 16,
    ensures
        c == hex_digit_char(n as int),
{
    match n {
        0 => '0',
        1 => '1',
        2 => '2',
        3 => '3',
        4 => '4',
        5 => '5',
        6 => '6',
        7 => '7',
        8 => '8',
        9 => '9',
        10 => 'a',
        11 => 'b',
        12 => 'c',
        13 => 'd',
        14 => 'e',
        _ => 'f',
    }
}

/// Appends the escaped form of one character.
fn push_escaped(out: &mut Vec<char>, c: char)
    ensures
        final(out)@ == old(out)@ + escaped_char(c),
{
    if c == '"' {
        out.push('\\');
        out.push('"');
        proof {
            assert(final(out)@ =~= old(out)@ + escaped_char(c));
        }
    } else if c == '\\' {
        out.push('\\');
        out.push('\\');
        proof {
            assert(final(out)@ =~= old(out)@ + escaped_char(c));
        }
    } else if c == '\n' {
        out.push('\\');
        out.push('n');
        proof {
            assert(final(out)@ =~= old(out)@ + escaped_char(c));
        }
    } else if c == '\r' {
        out.push('\\');
        out.push('r');
        proof {
            assert(final(out)@ =~= old(out)@ + escaped_char(c));
        }
    } else if c == '\t' {
        out.push('\\');
        out.push('t');
        proof {
            assert(final(out)@ =~= old(out)@ + escaped_char(c));
        }
    } else if (c as u32) < 0x20 || c == ';' {
        let u = c as u32;
        out.push('\\');
        out.push('u');
        out.push('0');
        out.push('0');
        out.push(hex_digit(u / 16));
        out.push(hex_digit(u % 16));
        proof {
            assert(!is_direct_char(c));
            assert(final(out)@ =~= old(out)@ + escaped_char(c));
        }
    } else {
        out.push(c);
        proof {
            assert(is_direct_char(c));
            assert(final(out)@ =~= old(out)@ + escaped_char(c));
        }
    }
}

/// Appends the escaped body of `s`.
fn escape_into(out: &mut Vec<char>, s: &str)
    ensures
        final(out)@ == old(out)@ + escape_seq(s@),
{
    let n = s.unicode_len();
    let mut i: usize = 0;
    while i < n
        invariant
            n == s@.len(),
            i <= n,
            out@ == old(out)@ + escape_seq(s@.take(i as int)),
        decreases n - i,
    {
        let c = s.get_char(i);
        push_escaped(out, c);
        proof {
            assert(s@.take(i + 1 as int) =~= s@.take(i as int) + seq![s@[i as int]]);
            lemma_escape_append(s@.take(i as int), seq![s@[i as int]]);
            reveal_with_fuel(escape_seq, 2);
            assert(seq![s@[i as int]].drop_first() =~= Seq::<char>::empty());
            assert(escape_seq(seq![s@[i as int]]) =~= escaped_char(s@[i as int]));
            assert(out@ =~= old(out)@ + escape_seq(s@.take(i + 1 as int)));
        }
        i = i + 1;
    }
    proof {
        assert(s@.take(n as int) =~= s@);
    }
}

/// Appends the encoding of an optional string value.
fn encode_opt_into(out: &mut Vec<char>, v: &Option<String>)
    ensures
        final(out)@ == old(out)@ + enc_opt_str(v.deep_view()),
{
    match v {
        None => {
            out.push('n');
            out.push('u');
            out.push('l');
            out.push('l');
            proof {
                assert(final(out)@ =~= old(out)@ + null_chars());
            }
        },
        Some(s) => {
            out.push('"');
            escape_into(out, s.as_str());
            out.push('"');
            proof {
                assert(final(out)@ =~= old(out)@ + (seq!['"'] + escape_seq(s@) + seq!['"']));
            }
        },
    }
}

/// Appends one `"key":value` member, for a key of direct characters.
fn encode_field_into(out: &mut Vec<char>, key: &str, v: &Option<String>)
    ensures
        final(out)@ == old(out)@ + enc_field(key@, v.deep_view()),
{
    out.push('"');
    crate::strutil::append_chars(out, key);
    out.push('"');
    out.push(':');
    encode_opt_into(out, v);
    proof {
        assert(final(out)@ =~= old(out)@ + (seq!['"'] + key@ + seq!['"', ':'] + enc_opt_str(
            v.deep_view(),
        )));
    }
}

/// The JSON encoding of a summary, as specified by `enc_summary`.
pub fn encode_summary(p: &PeerSummary) -> (r: String)
    ensures
        r@ == enc_summary(p@),
{
    let out = encode_summary_chars(p);
    chars_to_string(&out)
}

/// The JSON encoding of a summary, as characters.
pub fn encode_summary_chars(p: &PeerSummary) -> (r: Vec<char>)
    ensures
        r@ == enc_summary(p@),
{
    let mut out: Vec<char> = Vec::new();
    out.push('{');
    encode_field_into(&mut out, "remote_addr", &p.remote_addr);
    out.push(',');
    encode_field_into(&mut out, "listen_addr", &p.listen_addr);
    out.push(',');
    encode_field_into(&mut out, "node_id", &p.node_id);
    out.push(',');
    encode_field_into(&mut out, "uname", &p.uname);
    out.push('}');
    proof {
        reveal_strlit("remote_addr");
        reveal_strlit("listen_addr");
        reveal_strlit("node_id");
        reveal_strlit("uname");
        assert("remote_addr"@ =~= key_remote_addr());
        assert("listen_addr"@ =~= key_listen_addr());
        assert("node_id"@ =~= key_node_id());
        assert("uname"@ =~= key_uname());
        assert(out@ =~= enc_summary(p@));
    }
    out
}

// ---------------------------------------------------------------------------
// Decoding, as a mathematical function: a recursive-descent parser
// over the remaining input, each step returning the value read and the
// suffix left.
// ---------------------------------------------------------------------------
/// JSON whitespace.
pub open spec fn is_ws(c: char) -> bool {
    c == ' ' || c == '\t' || c == '\n' || c == '\r'
}

/// The input with its leading whitespace removed.
pub open spec fn skip_ws(s: Seq<char>) -> Seq<char>
    decreases s.len(),
{
    if s.len() > 0 && is_ws(s[0]) {
        skip_ws(s.drop_first())
    } else {
        s
    }
}

/// The value of a hexadecimal digit character.
pub open spec fn hex_val(c: char) -> Option<u32> {
    if c == '0' {
        Some(0u32)
    } else if c == '1' {
        Some(1u32)
    } else if c == '2' {
        Some(2u32)
    } else if c == '3' {
        Some(3u32)
    } else if c == '4' {
        Some(4u32)
    } else if c == '5' {
        Some(5u32)
    } else if c == '6' {
        Some(6u32)
    } else if c == '7' {
        Some(7u32)
    } else if c == '8' {
        Some(8u32)
    } else if c == '9' {
        Some(9u32)
    } else if c == 'a' || c == 'A' {
        Some(10u32)
    } else if c == 'b' || c == 'B' {
        Some(11u32)
    } else if c == 'c' || c == 'C' {
        Some(12u32)
    } else if c == 'd' || c == 'D' {
        Some(13u32)
    } else if c == 'e' || c == 'E' {
        Some(14u32)
    } else if c == 'f' || c == 'F' {
        Some(15u32)
    } else {
        None
    }
}

/// The character named by a single-letter escape.
pub open spec fn unescape_char(e: char) -> Option<char> {
    if e == '"' {
        Some('"')
    } else if e == '\\' {
        Some('\\')
    } else if e == '/' {
        Some('/')
    } else if e == 'n' {
        Some('\n')
    } else if e == 'r' {
        Some('\r')
    } else if e == 't' {
        Some('\t')
    } else if e == 'b' {
        Some('\u{8}')
    } else if e == 'f' {
        Some('\u{c}')
    } else {
        None
    }
}

/// Parses the body of a JSON string, after its opening quote, up to
/// and including the closing quote.  Yields the decoded characters and
/// the suffix after the closing quote.
pub open spec fn parse_string(s: Seq<char>) -> Option<(Seq<char>, Seq<char>)>
    decreases s.len(),
{
    if s.len() == 0 {
        None
    } else if s[0] == '"' {
        Some((Seq::empty(), s.drop_first()))
    } else if s[0] == '\\' {
        if s.len() < 2 {
            None
        } else if s[1] == 'u' {
            if s.len() < 6 {
                None
            } else {
                match (hex_val(s[2]), hex_val(s[3]), hex_val(s[4]), hex_val(s[5])) {
                    (Some(a), Some(b), Some(c), Some(d)) => {
                        let code = ((a * 4096 + b * 256 + c * 16 + d) as int) as u32;
                        if is_scalar(code) {
                            match parse_string(s.skip(6)) {
                                Some((v, rest)) => Some((seq![code as char] + v, rest)),
                                None => None,
                            }
                        } else {
                            None
                        }
                    },
                    _ => None,
                }
            }
        } else {
            match unescape_char(s[1]) {
                Some(c) => match parse_string(s.skip(2)) {
                    Some((v, rest)) => Some((seq![c] + v, rest)),
                    None => None,
                },
                None => None,
            }
        }
    } else if (s[0] as u32) >= 0x20 {
        match parse_string(s.drop_first()) {
            Some((v, rest)) => Some((seq![s[0]] + v, rest)),
            None => None,
        }
    } else {
        None
    }
}

/// Parses one field value: a JSON string or `null`.
pub open spec fn parse_value(s: Seq<char>) -> Option<(Option<Seq<char>>, Seq<char>)> {
    let t = skip_ws(s);
    if t.len() > 0 && t[0] == '"' {
        match parse_string(t.drop_first()) {
            Some((v, rest)) => Some((Some(v), rest)),
            None => None,
        }
    } else if t.len() >= 4 && t.take(4) == null_chars() {
        Some((None, t.skip(4)))
    } else {
        None
    }
}

/// Fields gathered so far while parsing an object; the outer `Option`
/// distinguishes "not seen yet" from a field seen (possibly `null`).
pub ghost struct PartialSummary {
    pub remote_addr: Option<Option<Seq<char>>>,
    pub listen_addr: Option<Option<Seq<char>>>,
    pub node_id: Option<Option<Seq<char>>>,
    pub uname: Option<Option<Seq<char>>>,
}

/// No field seen yet.
pub open spec fn empty_partial() -> PartialSummary {
    PartialSummary { remote_addr: None, listen_addr: None, node_id: None, uname: None }
}

/// How many fields are still unseen.
pub open spec fn unset_count(p: PartialSummary) -> nat {
    (if p.remote_addr is None {
        1nat
    } else {
        0nat
    }) + (if p.listen_addr is None {
        1nat
    } else {
        0nat
    }) + (if p.node_id is None {
        1nat
    } else {
        0nat
    }) + (if p.uname is None {
        1nat
    } else {
        0nat
    })
}

/// Records one parsed member; rejects unknown and repeated keys.
pub open spec fn set_field(p: PartialSummary, key: Seq<char>, v: Option<Seq<char>>) -> Option<
    PartialSummary,
> {
    if key == key_remote_addr() {
        if p.remote_addr is None {
            Some(PartialSummary { remote_addr: Some(v), ..p })
        } else {
            None
        }
    } else if key == key_listen_addr() {
        if p.listen_addr is None {
            Some(PartialSummary { listen_addr: Some(v), ..p })
        } else {
            None
        }
    } else if key == key_node_id() {
        if p.node_id is None {
            Some(PartialSummary { node_id: Some(v), ..p })
        } else {
            None
        }
    } else if key == key_uname() {
        if p.uname is None {
            Some(PartialSummary { uname: Some(v), ..p })
        } else {
            None
        }
    } else {
        None
    }
}

/// An unseen field decodes as absent.
pub open spec fn from_partial(p: PartialSummary) -> SummaryView {
    SummaryView {
        remote_addr: match p.remote_addr {
            Some(v) => v,
            None => None,
        },
        listen_addr: match p.listen_addr {
            Some(v) => v,
            None => None,
        },
        node_id: match p.node_id {
            Some(v) => v,
            None => None,
        },
        uname: match p.uname {
            Some(v) => v,
            None => None,
        },
    }
}

/// Parses `"key":value`, then either `,` and further members or the
/// closing `}`.  Terminates because every accepted member fills a
/// field that was still unseen.
pub open spec fn parse_members(s: Seq<char>, acc: PartialSummary) -> Option<
    (PartialSummary, Seq<char>),
>
    decreases unset_count(acc),
{
    let t = skip_ws(s);
    if t.len() > 0 && t[0] == '"' {
        match parse_string(t.drop_first()) {
            Some((key, r1)) => {
                let r2 = skip_ws(r1);
                if r2.len() > 0 && r2[0] == ':' {
                    match parse_value(r2.drop_first()) {
                        Some((v, r3)) => match set_field(acc, key, v) {
                            Some(acc2) => {
                                let r4 = skip_ws(r3);
                                if r4.len() > 0 && r4[0] == ',' {
                                    parse_members(r4.drop_first(), acc2)
                                } else if r4.len() > 0 && r4[0] == '}' {
                                    Some((acc2, r4.drop_first()))
                                } else {
                                    None
                                }
                            },
                            None => None,
                        },
                        None => None,
                    }
                } else {
                    None
                }
            },
            None => None,
        }
    } else {
        None
    }
}

/// Parses one summary object and yields the suffix after it.
pub open spec fn parse_summary(s: Seq<char>) -> Option<(SummaryView, Seq<char>)> {
    let t = skip_ws(s);
    if t.len() > 0 && t[0] == '{' {
        let t2 = skip_ws(t.drop_first());
        if t2.len() > 0 && t2[0] == '}' {
            Some((from_partial(empty_partial()), t2.drop_first()))
        } else {
            match parse_members(t.drop_first(), empty_partial()) {
                Some((p, rest)) => Some((from_partial(p), rest)),
                None => None,
            }
        }
    } else {
        None
    }
}

/// The decoding of a whole input: one object and nothing but
/// whitespace after it.
pub open spec fn decode_summary_spec(s: Seq<char>) -> Option<SummaryView> {
    match parse_summary(s) {
        Some((v, rest)) => if skip_ws(rest).len() == 0 {
            Some(v)
        } else {
            None
        },
        None => None,
    }
}

// ---------------------------------------------------------------------------
// The executable decoder.  Each scanner works at an index into the
// character vector and matches the specification applied to the
// suffix starting there.
// ---------------------------------------------------------------------------
/// Whether the character is JSON whitespace.
pub(crate) fn ws_char(c: char) -> (r: bool)
    ensures
        r == is_ws(c),
{
    c == ' ' || c == '\t' || c == '\n' || c == '\r'
}

/// Advances past leading whitespace.
fn scan_ws(s: &Vec<char>, i: usize) -> (j: usize)
    requires
        i <= s@.len(),
    ensures
        i <= j <= s@.len(),
        s@.skip(j as int) == skip_ws(s@.skip(i as int)),
        j < s@.len() ==> !is_ws(s@[j as int]),
    decreases s@.len() - i,
{
    if i < s.len() && ws_char(s[i]) {
        proof {
            assert(s@.skip(i as int).drop_first() =~= s@.skip(i + 1));
        }
        scan_ws(s, i + 1)
    } else {
        proof {
            if i < s@.len() {
                assert(s@.skip(i as int)[0] == s@[i as int]);
            }
            assert(skip_ws(s@.skip(i as int)) == s@.skip(i as int));
        }
        i
    }
}

/// The value of a hexadecimal digit character, if it is one.
fn scan_hex(c: char) -> (r: Option<u32>)
    ensures
        r == hex_val(c),
        r is Some ==> r->0 < 16,
{
    match c {
        '0' => Some(0),
        '1' => Some(1),
        '2' => Some(2),
        '3' => Some(3),
        '4' => Some(4),
        '5' => Some(5),
        '6' => Some(6),
        '7' => Some(7),
        '8' => Some(8),
        '9' => Some(9),
        'a' | 'A' => Some(10),
        'b' | 'B' => Some(11),
        'c' | 'C' => Some(12),
        'd' | 'D' => Some(13),
        'e' | 'E' => Some(14),
        'f' | 'F' => Some(15),
        _ => None,
    }
}

/// The character named by a single-letter escape, if any.
fn scan_unescape(e: char) -> (r: Option<char>)
    ensures
        r == unescape_char(e),
{
    match e {
        '"' => Some('"'),
        '\\' => Some('\\'),
        '/' => Some('/'),
        'n' => Some('\n'),
        'r' => Some('\r'),
        't' => Some('\t'),
        'b' => Some('\u{8}'),
        'f' => Some('\u{c}'),
        _ => None,
    }
}

/// Scans a JSON string body, after the opening quote.
fn scan_string(s: &Vec<char>, i: usize) -> (r: Option<(Vec<char>, usize)>)
    requires
        i <= s@.len(),
    ensures
        match r {
            Some(p) => p.1 <= s@.len() && parse_string(s@.skip(i as int)) == Some(
                (p.0@, s@.skip(p.1 as int)),
            ),
            None => parse_string(s@.skip(i as int)) is None,
        },
    decreases s@.len() - i,
{
    let n = s.len();
    if i >= n {
        return None;
    }
    let ghost t = s@.skip(i as int);
    proof {
        assert(t[0] == s@[i as int]);
    }
    let c = s[i];
    if c == '"' {
        proof {
            assert(t.drop_first() =~= s@.skip(i + 1));
        }
        Some((Vec::new(), i + 1))
    } else if c == '\\' {
        if n - i < 2 {
            return None;
        }
        proof {
            assert(t.len() >= 2 && t[1] == s@[i + 1]);
        }
        let e = s[i + 1];
        if e == 'u' {
            if n - i < 6 {
                return None;
            }
            proof {
                assert(t.len() >= 6 && t[2] == s@[i + 2] && t[3] == s@[i + 3] && t[4] == s@[i + 4]
                    && t[5] == s@[i + 5]);
            }
            let (ha, hb, hc, hd) = (
                scan_hex(s[i + 2]),
                scan_hex(s[i + 3]),
                scan_hex(s[i + 4]),
                scan_hex(s[i + 5]),
            );
            match (ha, hb, hc, hd) {
                (Some(a), Some(b), Some(cc), Some(d)) => {
                    let code: u32 = a * 4096 + b * 256 + cc * 16 + d;
                    match char_from_u32(code) {
                        Some(ch) => {
                            proof {
                                assert(t.skip(6) =~= s@.skip(i + 6));
                            }
                            match scan_string(s, i + 6) {
                                Some((mut v, j)) => {
                                    let ghost tail = v@;
                                    v.insert(0, ch);
                                    proof {
                                        assert(v@ =~= seq![ch] + tail);
                                    }
                                    Some((v, j))
                                },
                                None => None,
                            }
                        },
                        None => None,
                    }
                },
                _ => None,
            }
        } else {
            match scan_unescape(e) {
                Some(c2) => {
                    proof {
                        assert(t.skip(2) =~= s@.skip(i + 2));
                    }
                    match scan_string(s, i + 2) {
                        Some((mut v, j)) => {
                            let ghost tail = v@;
                            v.insert(0, c2);
                            proof {
                                assert(v@ =~= seq![c2] + tail);
                            }
                            Some((v, j))
                        },
                        None => None,
                    }
                },
                None => None,
            }
        }
    } else if (c as u32) >= 0x20 {
        proof {
            assert(t.drop_first() =~= s@.skip(i + 1));
        }
        match scan_string(s, i + 1) {
            Some((mut v, j)) => {
                let ghost tail = v@;
                v.insert(0, c);
                proof {
                    assert(v@ =~= seq![c] + tail);
                }
                Some((v, j))
            },
            None => None,
        }
    } else {
        None
    }
}

/// Scans one field value: a string or `null`.
fn scan_value(s: &Vec<char>, i: usize) -> (r: Option<(Option<Vec<char>>, usize)>)
    requires
        i <= s@.len(),
    ensures
        match r {
            Some(p) => p.1 <= s@.len() && parse_value(s@.skip(i as int)) == Some(
                (p.0.deep_view(), s@.skip(p.1 as int)),
            ),
            None => parse_value(s@.skip(i as int)) is None,
        },
{
    let j = scan_ws(s, i);
    let ghost t = skip_ws(s@.skip(i as int));
    proof {
        assert(t == s@.skip(j as int));
        assert(t.len() == s@.len() - j);
        if j < s@.len() {
            assert(t[0] == s@[j as int]);
        }
    }
    if j < s.len() && s[j] == '"' {
        proof {
            assert(t.drop_first() =~= s@.skip(j + 1));
        }
        match scan_string(s, j + 1) {
            Some((v, k)) => Some((Some(v), k)),
            None => None,
        }
    } else if s.len() - j >= 4 && s[j] == 'n' && s[j + 1] == 'u' && s[j + 2] == 'l' && s[j + 3]
        == 'l' {
        proof {
            assert(t.take(4) =~= null_chars());
            assert(t.skip(4) =~= s@.skip(j + 4));
        }
        Some((None, j + 4))
    } else {
        proof {
            if t.len() >= 4 && t.take(4) == null_chars() {
                assert(t[0] == 'n' && t[1] == 'u' && t[2] == 'l' && t[3] == 'l');
                assert(s@[j as int] == t[0] && s@[j + 1] == t[1] && s@[j + 2] == t[2] && s@[j + 3]
                    == t[3]);
                assert(false);
            }
        }
        None
    }
}

/// Fields gathered so far by the object scanner.
struct PartialFields {
    remote_addr: Option<Option<String>>,
    listen_addr: Option<Option<String>>,
    node_id: Option<Option<String>>,
    uname: Option<Option<String>>,
}

impl PartialFields {
    spec fn view(self) -> PartialSummary {
        PartialSummary {
            remote_addr: self.remote_addr.deep_view(),
            listen_addr: self.listen_addr.deep_view(),
            node_id: self.node_id.deep_view(),
            uname: self.uname.deep_view(),
        }
    }
}

/// Records one parsed member; rejects unknown and repeated keys.
fn store_field(acc: PartialFields, key: &Vec<char>, v: Option<String>) -> (r: Option<
    PartialFields,
>)
    ensures
        match r {
            Some(a2) => set_field(acc.view(), key@, v.deep_view()) == Some(a2.view()),
            None => set_field(acc.view(), key@, v.deep_view()) is None,
        },
{
    let kr = str_to_chars("remote_addr");
    let kl = str_to_chars("listen_addr");
    let kn = str_to_chars("node_id");
    let ku = str_to_chars("uname");
    proof {
        reveal_strlit("remote_addr");
        reveal_strlit("listen_addr");
        reveal_strlit("node_id");
        reveal_strlit("uname");
        assert(kr@ =~= key_remote_addr());
        assert(kl@ =~= key_listen_addr());
        assert(kn@ =~= key_node_id());
        assert(ku@ =~= key_uname());
    }
    if crate::strutil::chars_eq(key, &kr) {
        if acc.remote_addr.is_none() {
            Some(PartialFields { remote_addr: Some(v), ..acc })
        } else {
            None
        }
    } else if crate::strutil::chars_eq(key, &kl) {
        if acc.listen_addr.is_none() {
            Some(PartialFields { listen_addr: Some(v), ..acc })
        } else {
            None
        }
    } else if crate::strutil::chars_eq(key, &kn) {
        if acc.node_id.is_none() {
            Some(PartialFields { node_id: Some(v), ..acc })
        } else {
            None
        }
    } else if crate::strutil::chars_eq(key, &ku) {
        if acc.uname.is_none() {
            Some(PartialFields { uname: Some(v), ..acc })
        } else {
            None
        }
    } else {
        None
    }
}

/// Scans members until the closing brace.
fn scan_members(s: &Vec<char>, i: usize, acc: PartialFields) -> (r: Option<(PartialFields, usize)>)
    requires
        i <= s@.len(),
    ensures
        match r {
            Some(p) => p.1 <= s@.len() && parse_members(s@.skip(i as int), acc.view()) == Some(
                (p.0.view(), s@.skip(p.1 as int)),
            ),
            None => parse_members(s@.skip(i as int), acc.view()) is None,
        },
    decreases unset_count(acc.view()),
{
    let j = scan_ws(s, i);
    let ghost t = skip_ws(s@.skip(i as int));
    proof {
        assert(t == s@.skip(j as int));
        assert(t.len() == s@.len() - j);
        if j < s@.len() {
            assert(t[0] == s@[j as int]);
        }
    }
    if j < s.len() && s[j] == '"' {
        proof {
            assert(t.drop_first() =~= s@.skip(j + 1));
        }
        match scan_string(s, j + 1) {
            Some((key, k1)) => {
                let k2 = scan_ws(s, k1);
                let ghost r2 = skip_ws(s@.skip(k1 as int));
                proof {
                    assert(r2 == s@.skip(k2 as int));
                    assert(r2.len() == s@.len() - k2);
                    if k2 < s@.len() {
                        assert(r2[0] == s@[k2 as int]);
                    }
                }
                if k2 < s.len() && s[k2] == ':' {
                    proof {
                        assert(r2.drop_first() =~= s@.skip(k2 + 1));
                    }
                    match scan_value(s, k2 + 1) {
                        Some((v, k3)) => {
                            let vs: Option<String> = match v {
                                Some(cs) => Some(chars_to_string(&cs)),
                                None => None,
                            };
                            proof {
                                assert(vs.deep_view() == v.deep_view());
                            }
                            match store_field(acc, &key, vs) {
                                Some(acc2) => {
                                    let k4 = scan_ws(s, k3);
                                    let ghost r4 = skip_ws(s@.skip(k3 as int));
                                    proof {
                                        assert(r4 == s@.skip(k4 as int));
                                        assert(r4.len() == s@.len() - k4);
                                        if k4 < s@.len() {
                                            assert(r4[0] == s@[k4 as int]);
                                        }
                                    }
                                    if k4 < s.len() && s[k4] == ',' {
                                        proof {
                                            assert(r4.drop_first() =~= s@.skip(k4 + 1));
                                        }
                                        scan_members(s, k4 + 1, acc2)
                                    } else if k4 < s.len() && s[k4] == '}' {
                                        proof {
                                            assert(r4.drop_first() =~= s@.skip(k4 + 1));
                                        }
                                        Some((acc2, k4 + 1))
                                    } else {
                                        None
                                    }
                                },
                                None => None,
                            }
                        },
                        None => None,
                    }
                } else {
                    None
                }
            },
            None => None,
        }
    } else {
        None
    }
}

/// Builds the summary out of the gathered fields.
fn finish_partial(p: PartialFields) -> (r: PeerSummary)
    ensures
        r@ == from_partial(p.view()),
{
    PeerSummary {
        remote_addr: match p.remote_addr {
            Some(v) => v,
            None => None,
        },
        listen_addr: match p.listen_addr {
            Some(v) => v,
            None => None,
        },
        node_id: match p.node_id {
            Some(v) => v,
            None => None,
        },
        uname: match p.uname {
            Some(v) => v,
            None => None,
        },
    }
}

/// Scans one summary object and returns the index after it.
fn scan_summary(s: &Vec<char>, i: usize) -> (r: Option<(PeerSummary, usize)>)
    requires
        i <= s@.len(),
    ensures
        match r {
            Some(p) => p.1 <= s@.len() && parse_summary(s@.skip(i as int)) == Some(
                (p.0@, s@.skip(p.1 as int)),
            ),
            None => parse_summary(s@.skip(i as int)) is None,
        },
{
    let j = scan_ws(s, i);
    let ghost t = skip_ws(s@.skip(i as int));
    proof {
        assert(t == s@.skip(j as int));
        assert(t.len() == s@.len() - j);
        if j < s@.len() {
            assert(t[0] == s@[j as int]);
        }
    }
    if j < s.len() && s[j] == '{' {
        proof {
            assert(t.drop_first() =~= s@.skip(j + 1));
        }
        let j2 = scan_ws(s, j + 1);
        let ghost t2 = skip_ws(s@.skip(j + 1));
        proof {
            assert(t2 == s@.skip(j2 as int));
            assert(t2.len() == s@.len() - j2);
            if j2 < s@.len() {
                assert(t2[0] == s@[j2 as int]);
            }
        }
        if j2 < s.len() && s[j2] == '}' {
            proof {
                assert(t2.drop_first() =~= s@.skip(j2 + 1));
            }
            let empty = PartialFields {
                remote_addr: None,
                listen_addr: None,
                node_id: None,
                uname: None,
            };
            proof {
                assert(empty.view() == empty_partial());
            }
            Some((finish_partial(empty), j2 + 1))
        } else {
            let empty = PartialFields {
                remote_addr: None,
                listen_addr: None,
                node_id: None,
                uname: None,
            };
            proof {
                assert(empty.view() == empty_partial());
            }
            match scan_members(s, j + 1, empty) {
                Some((p, k)) => Some((finish_partial(p), k)),
                None => None,
            }
        }
    } else {
        None
    }
}

/// The JSON decoding of a summary, as specified by
/// `decode_summary_spec`.
pub fn decode_summary(text: &str) -> (r: Option<PeerSummary>)
    ensures
        match r {
            Some(p) => decode_summary_spec(text@) == Some(p@),
            None => decode_summary_spec(text@) is None,
        },
{
    let chars = str_to_chars(text);
    decode_summary_chars(&chars)
}

/// The JSON decoding of a summary given as characters.
pub fn decode_summary_chars(chars: &Vec<char>) -> (r: Option<PeerSummary>)
    ensures
        match r {
            Some(p) => decode_summary_spec(chars@) == Some(p@),
            None => decode_summary_spec(chars@) is None,
        },
{
    proof {
        assert(chars@.skip(0) =~= chars@);
    }
    match scan_summary(&chars, 0) {
        Some((p, k)) => {
            let k2 = scan_ws(&chars, k);
            if k2 == chars.len() {
                proof {
                    assert(skip_ws(chars@.skip(k as int)).len() == 0);
                }
                Some(p)
            } else {
                proof {
                    assert(skip_ws(chars@.skip(k as int)).len() > 0);
                }
                None
            }
        },
        None => None,
    }
}

// ---------------------------------------------------------------------------
// The round trip: decoding an encoded summary gives the summary back.
// ---------------------------------------------------------------------------
/// The value of a lower-case hexadecimal digit comes back unchanged.
proof fn lemma_hex_val_digit(n: int)
    requires
        0 <= n < 16,
    ensures
        hex_val(hex_digit_char(n)) == Some(n as u32),
{
}

/// A string body built by the escaper parses back to the original
/// characters, consuming exactly up to the closing quote.
proof fn lemma_parse_string_escape(v: Seq<char>, rest: Seq<char>)
    ensures
        parse_string(escape_seq(v) + seq!['"'] + rest) == Some((v, rest)),
    decreases v.len(),
{
    let s = escape_seq(v) + seq!['"'] + rest;
    if v.len() == 0 {
        assert(escape_seq(v) =~= Seq::<char>::empty());
        assert(s =~= seq!['"'] + rest);
        assert(s[0] == '"');
        assert(s.drop_first() =~= rest);
        assert(Seq::<char>::empty() =~= v);
    } else {
        let c = v[0];
        let v2 = v.drop_first();
        let tail = escape_seq(v2) + seq!['"'] + rest;
        lemma_parse_string_escape(v2, rest);
        assert(escape_seq(v) == escaped_char(c) + escape_seq(v2));
        assert(s =~= escaped_char(c) + tail);
        assert(seq![c] + v2 =~= v);
        if c == '"' {
            assert(s[0] == '\\' && s[1] == '"');
            assert(s.skip(2) =~= tail);
        } else if c == '\\' {
            assert(s[0] == '\\' && s[1] == '\\');
            assert(s.skip(2) =~= tail);
        } else if c == '\n' {
            assert(s[0] == '\\' && s[1] == 'n');
            assert(s.skip(2) =~= tail);
        } else if c == '\r' {
            assert(s[0] == '\\' && s[1] == 'r');
            assert(s.skip(2) =~= tail);
        } else if c == '\t' {
            assert(s[0] == '\\' && s[1] == 't');
            assert(s.skip(2) =~= tail);
        } else if !is_direct_char(c) {
            let u = (c as u32) as int;
            assert((c as u32) < 0x20 || c == ';');
            assert(0 <= u < 0x3C);
            assert(s[0] == '\\' && s[1] == 'u' && s[2] == '0' && s[3] == '0' && s[4]
                == hex_digit_char(u / 16) && s[5] == hex_digit_char(u % 16));
            assert(s.skip(6) =~= tail);
            lemma_hex_val_digit(u / 16);
            lemma_hex_val_digit(u % 16);
            assert(hex_val(s[2]) == Some(0u32) && hex_val(s[3]) == Some(0u32));
            vstd::arithmetic::div_mod::lemma_fundamental_div_mod(u, 16);
            assert(0 * 4096 + 0 * 256 + (u / 16) * 16 + u % 16 == u);
            let code = ((0 * 4096 + 0 * 256 + ((u / 16) as u32) * 16 + ((u % 16) as u32)) as int)
                as u32;
            assert(code == c as u32);
            vstd::utf8::char_is_scalar(c);
            vstd::utf8::char_u32_cast(c, code);
            assert(code as char == c);
        } else {
            assert(escaped_char(c) =~= seq![c]);
            assert(s[0] == c);
            assert(c != '"' && c != '\\' && (c as u32) >= 0x20);
            assert(s.drop_first() =~= tail);
        }
    }
}

/// A sequence has no semicolon.
pub open spec fn no_semi(s: Seq<char>) -> bool {
    forall|i: int| 0 <= i < s.len() ==> s[i] != ';'
}

/// The escaper never emits a semicolon: a direct character is not one,
/// and every escape consists of backslashes, letters and digits.
proof fn lemma_escape_no_semi(s: Seq<char>)
    ensures
        no_semi(escape_seq(s)),
    decreases s.len(),
{
    if s.len() > 0 {
        lemma_escape_no_semi(s.drop_first());
        assert(no_semi(escaped_char(s[0]))) by {
            let c = s[0];
            if c == '"' || c == '\\' || c == '\n' || c == '\r' || c == '\t' {
            } else if !is_direct_char(c) {
                let u = (c as u32) as int;
                assert(hex_digit_char(u / 16) != ';');
                assert(hex_digit_char(u % 16) != ';');
            }
        }
        assert(forall|i: int|
            0 <= i < escape_seq(s).len() ==> #[trigger] escape_seq(s)[i] != ';') by {
            assert(escape_seq(s) == escaped_char(s[0]) + escape_seq(s.drop_first()));
        }
    }
}

/// Escaping a sequence of direct characters changes nothing.
proof fn lemma_escape_direct_noop(s: Seq<char>)
    requires
        forall|i: int| 0 <= i < s.len() ==> is_direct_char(#[trigger] s[i]),
    ensures
        escape_seq(s) == s,
    decreases s.len(),
{
    if s.len() == 0 {
        assert(escape_seq(s) =~= s);
    } else {
        let c = s[0];
        assert(is_direct_char(c));
        assert(c != '\n' && c != '\r' && c != '\t') by {
            assert((c as u32) >= 0x20);
        }
        assert(escaped_char(c) =~= seq![c]);
        lemma_escape_direct_noop(s.drop_first());
        assert(escape_seq(s) =~= s);
    }
}

/// The four keys consist of direct characters only.
proof fn lemma_keys_direct()
    ensures
        forall|i: int|
            0 <= i < key_remote_addr().len() ==> is_direct_char(#[trigger] key_remote_addr()[i]),
        forall|i: int|
            0 <= i < key_listen_addr().len() ==> is_direct_char(#[trigger] key_listen_addr()[i]),
        forall|i: int| 0 <= i < key_node_id().len() ==> is_direct_char(#[trigger] key_node_id()[i]),
        forall|i: int| 0 <= i < key_uname().len() ==> is_direct_char(#[trigger] key_uname()[i]),
{
    assert forall|i: int| 0 <= i < key_remote_addr().len() implies is_direct_char(
        #[trigger] key_remote_addr()[i],
    ) by {
        if i == 0 || i == 1 || i == 2 || i == 3 || i == 4 || i == 5 || i == 6 || i == 7 || i == 8
            || i == 9 || i == 10 {
        }
    }
    assert forall|i: int| 0 <= i < key_listen_addr().len() implies is_direct_char(
        #[trigger] key_listen_addr()[i],
    ) by {
        if i == 0 || i == 1 || i == 2 || i == 3 || i == 4 || i == 5 || i == 6 || i == 7 || i == 8
            || i == 9 || i == 10 {
        }
    }
    assert forall|i: int| 0 <= i < key_node_id().len() implies is_direct_char(
        #[trigger] key_node_id()[i],
    ) by {
        if i == 0 || i == 1 || i == 2 || i == 3 || i == 4 || i == 5 || i == 6 {
        }
    }
    assert forall|i: int| 0 <= i < key_uname().len() implies is_direct_char(
        #[trigger] key_uname()[i],
    ) by {
        if i == 0 || i == 1 || i == 2 || i == 3 || i == 4 {
        }
    }
}

/// An encoded field value parses back to the value, consuming exactly
/// the encoding.
proof fn lemma_parse_value_enc(v: Option<Seq<char>>, rest: Seq<char>)
    ensures
        parse_value(enc_opt_str(v) + rest) == Some((v, rest)),
{
    let s = enc_opt_str(v) + rest;
    match v {
        None => {
            assert(s =~= null_chars() + rest);
            assert(s[0] == 'n');
            assert(!is_ws(s[0]));
            assert(skip_ws(s) == s);
            assert(s.len() >= 4);
            assert(s.take(4) =~= null_chars());
            assert(s[0] != '"');
            assert(s.skip(4) =~= rest);
        },
        Some(v0) => {
            assert(s =~= seq!['"'] + (escape_seq(v0) + seq!['"'] + rest));
            assert(s[0] == '"');
            assert(!is_ws(s[0]));
            assert(skip_ws(s) == s);
            assert(s.drop_first() =~= escape_seq(v0) + seq!['"'] + rest);
            lemma_parse_string_escape(v0, rest);
        },
    }
}

/// One encoded member followed by a separator advances the member
/// parser exactly as the object grammar says.
proof fn lemma_parse_members_step(
    key: Seq<char>,
    v: Option<Seq<char>>,
    acc: PartialSummary,
    tail: Seq<char>,
)
    requires
        escape_seq(key) == key,
        set_field(acc, key, v) is Some,
        tail.len() > 0,
        !is_ws(tail[0]),
    ensures
        parse_members(enc_field(key, v) + tail, acc) == {
            let acc2 = set_field(acc, key, v)->0;
            if tail[0] == ',' {
                parse_members(tail.drop_first(), acc2)
            } else if tail[0] == '}' {
                Some((acc2, tail.drop_first()))
            } else {
                None
            }
        },
{
    let s = enc_field(key, v) + tail;
    let x = seq![':'] + enc_opt_str(v) + tail;
    assert(s =~= seq!['"'] + (key + seq!['"'] + x));
    assert(s[0] == '"');
    assert(!is_ws(s[0]));
    assert(skip_ws(s) == s);
    assert(s.drop_first() =~= key + seq!['"'] + x);
    assert(escape_seq(key) + seq!['"'] + x =~= key + seq!['"'] + x);
    lemma_parse_string_escape(key, x);
    assert(parse_string(s.drop_first()) == Some((key, x)));
    assert(x[0] == ':');
    assert(!is_ws(x[0]));
    assert(skip_ws(x) == x);
    assert(x.drop_first() =~= enc_opt_str(v) + tail);
    lemma_parse_value_enc(v, tail);
    assert(parse_value(x.drop_first()) == Some((v, tail)));
    assert(skip_ws(tail) == tail);
}

/// Law: decoding the encoding of any summary yields that summary —
/// JSON-encode then JSON-decode of a peer summary is the identity.
#[verifier::rlimit(100)]
#[verifier::spinoff_prover]
pub proof fn lemma_summary_round_trip(sv: SummaryView)
    ensures
        decode_summary_spec(enc_summary(sv)) == Some(sv),
{
    lemma_keys_direct();
    lemma_escape_direct_noop(key_remote_addr());
    lemma_escape_direct_noop(key_listen_addr());
    lemma_escape_direct_noop(key_node_id());
    lemma_escape_direct_noop(key_uname());
    let f1 = enc_field(key_remote_addr(), sv.remote_addr);
    let f2 = enc_field(key_listen_addr(), sv.listen_addr);
    let f3 = enc_field(key_node_id(), sv.node_id);
    let f4 = enc_field(key_uname(), sv.uname);
    let e = enc_summary(sv);
    let t1 = seq![','] + f2 + seq![','] + f3 + seq![','] + f4 + seq!['}'];
    let t2 = seq![','] + f3 + seq![','] + f4 + seq!['}'];
    let t3 = seq![','] + f4 + seq!['}'];
    let t4 = seq!['}'];
    assert(e =~= seq!['{'] + (f1 + t1));
    assert(e[0] == '{');
    assert(!is_ws(e[0]));
    assert(skip_ws(e) == e);
    assert(e.drop_first() =~= f1 + t1);
    assert((f1 + t1)[0] == '"');
    assert(!is_ws((f1 + t1)[0]));
    assert(skip_ws(f1 + t1) == f1 + t1);
    assert((f1 + t1)[0] != '}');
    let a0 = empty_partial();
    assert(set_field(a0, key_remote_addr(), sv.remote_addr) is Some);
    let a1 = set_field(a0, key_remote_addr(), sv.remote_addr)->0;
    assert(t1[0] == ',');
    lemma_parse_members_step(key_remote_addr(), sv.remote_addr, a0, t1);
    assert(t1.drop_first() =~= f2 + t2);
    assert(key_listen_addr() != key_remote_addr()) by {
        assert(key_listen_addr()[0] == 'l' && key_remote_addr()[0] == 'r');
    }
    assert(set_field(a1, key_listen_addr(), sv.listen_addr) is Some);
    let a2 = set_field(a1, key_listen_addr(), sv.listen_addr)->0;
    assert(t2[0] == ',');
    lemma_parse_members_step(key_listen_addr(), sv.listen_addr, a1, t2);
    assert(t2.drop_first() =~= f3 + t3);
    assert(key_node_id() != key_remote_addr() && key_node_id() != key_listen_addr()) by {
        assert(key_node_id().len() == 7 && key_remote_addr().len() == 11 && key_listen_addr().len()
            == 11);
    }
    assert(set_field(a2, key_node_id(), sv.node_id) is Some);
    let a3 = set_field(a2, key_node_id(), sv.node_id)->0;
    assert(t3[0] == ',');
    lemma_parse_members_step(key_node_id(), sv.node_id, a2, t3);
    assert(t3.drop_first() =~= f4 + t4);
    assert(key_uname() != key_remote_addr() && key_uname() != key_listen_addr() && key_uname()
        != key_node_id()) by {
        assert(key_uname().len() == 5 && key_remote_addr().len() == 11 && key_listen_addr().len()
            == 11 && key_node_id().len() == 7);
    }
    assert(set_field(a3, key_uname(), sv.uname) is Some);
    let a4 = set_field(a3, key_uname(), sv.uname)->0;
    assert(t4[0] == '}');
    lemma_parse_members_step(key_uname(), sv.uname, a3, t4);
    assert(t4.drop_first() =~= Seq::<char>::empty());
    assert(parse_members(f1 + t1, a0) == Some((a4, Seq::<char>::empty())));
    assert(from_partial(a4) == sv);
    assert(parse_summary(e) == Some((sv, Seq::<char>::empty())));
    assert(skip_ws(Seq::<char>::empty()).len() == 0);
}

/// An encoded summary holds no semicolon, starts with `{` and ends
/// with `}`: PEERS frames can join encodings with `;` safely.
pub proof fn lemma_enc_summary_shape(sv: SummaryView)
    ensures
        no_semi(enc_summary(sv)),
        enc_summary(sv).len() >= 2,
        enc_summary(sv)[0] == '{',
        enc_summary(sv)[enc_summary(sv).len() - 1] == '}',
{
    lemma_keys_direct();
    let e = enc_summary(sv);
    assert(e[0] == '{');
    assert(e[e.len() - 1] == '}');
    assert forall|i: int| 0 <= i < e.len() implies e[i] != ';' by {
        lemma_no_semi_field(key_remote_addr(), sv.remote_addr);
        lemma_no_semi_field(key_listen_addr(), sv.listen_addr);
        lemma_no_semi_field(key_node_id(), sv.node_id);
        lemma_no_semi_field(key_uname(), sv.uname);
    }
}

/// A member built from a semicolon-free key holds no semicolon.
proof fn lemma_no_semi_field(key: Seq<char>, v: Option<Seq<char>>)
    requires
        forall|i: int| 0 <= i < key.len() ==> is_direct_char(#[trigger] key[i]),
    ensures
        no_semi(enc_field(key, v)),
{
    assert forall|i: int| 0 <= i < enc_field(key, v).len() implies enc_field(key, v)[i] != ';' by {
        match v {
            None => {},
            Some(v0) => {
                lemma_escape_no_semi(v0);
            },
        }
    }
}

} // verus!
